//! What holds of every model, stated over the notions that the contracts
//! of the resolver use.
use vstd::prelude::*;
use crate::contents::{
    child_name, content_upto, contents_of, contents_resolved, entry_ok, has_duplicate_name,
    lemma_content_depth, lemma_content_prefix,
};
use crate::dtmi::DtmiView;
use crate::entity::{
    distinct_ids, entity_ids, has_entity, is_child_field, position_of, ContentRef, Entity,
};
use crate::error::ParseError;
use crate::extension::{acyclic_extension, extends_edge, is_cycle, ordered};
use crate::links::{
    ancestor, entity_linked, is_duplicate, lemma_ancestor_in_range, lemma_duplicate_fault,
    link_fault, linked, parent_resolves, partition_resolves, reference_resolves,
};
use crate::resolve::{resolution_fault, resolved_model};
use crate::text::lemma_find_first;

verus! {

/// Where identifiers are distinct, the entity with a given identifier
/// stands at the position where that identifier is found.
pub proof fn lemma_position_of(all: Seq<Entity>, i: int)
    requires
        distinct_ids(all),
        0 <= i < all.len(),
    ensures
        position_of(all, all[i].id@) == i,
{
    let ids = entity_ids(all);
    assert(ids[i] == all[i].id@);
    assert forall|j: int| 0 <= j < i implies ids[j] != all[i].id@ by {
        assert(ids[j] == all[j].id@);
    }
    lemma_find_first(ids, all[i].id@, i);
}

/// A batch in which two entities share an identifier has no resolved
/// model, and every fault that resolution reports of it is a duplicate
/// identifier that two entities of the batch do share.
pub proof fn law_duplicate_is_reported(
    all: Seq<Entity>,
    id: DtmiView,
    table: Seq<Vec<ContentRef>>,
    e: ParseError,
)
    requires
        is_duplicate(all, id),
    ensures
        !resolved_model(all, table),
        resolution_fault(all, e) ==> (e matches ParseError::DuplicateIdentifier { id: named }
            && is_duplicate(all, named@)),
{
    let (i, j) = choose|i: int, j: int|
        0 <= i < j < all.len() && (#[trigger] all[i]).id@ == id && (#[trigger] all[j]).id@ == id;
    assert(all[i].id@ == all[j].id@);
    if resolution_fault(all, e) {
        match e {
            ParseError::DuplicateIdentifier { id: named } => {
                lemma_duplicate_fault(all, named@);
            },
            _ => {},
        }
    }
}

/// Whether an identifier is used twice does not depend on the order of the
/// documents: two batches put together one way share an identifier exactly
/// if they do put together the other way.
pub proof fn law_duplicate_any_order(first: Seq<Entity>, second: Seq<Entity>, id: DtmiView)
    ensures
        is_duplicate(first + second, id) <==> is_duplicate(second + first, id),
{
    lemma_duplicate_swapped(first, second, id);
    lemma_duplicate_swapped(second, first, id);
}

/// One direction of `law_duplicate_any_order`.
proof fn lemma_duplicate_swapped(first: Seq<Entity>, second: Seq<Entity>, id: DtmiView)
    ensures
        is_duplicate(first + second, id) ==> is_duplicate(second + first, id),
{
    let a = first + second;
    let b = second + first;
    if is_duplicate(a, id) {
        let (i, j) = choose|i: int, j: int|
            0 <= i < j < a.len() && (#[trigger] a[i]).id@ == id && (#[trigger] a[j]).id@ == id;
        let i2 = if i < first.len() {
            i + second.len()
        } else {
            i - first.len()
        };
        let j2 = if j < first.len() {
            j + second.len()
        } else {
            j - first.len()
        };
        assert(b[i2] == a[i]);
        assert(b[j2] == a[j]);
        if i2 < j2 {
            assert(0 <= i2 < j2 < b.len() && b[i2].id@ == id && b[j2].id@ == id);
        } else {
            assert(0 <= j2 < i2 < b.len() && b[j2].id@ == id && b[i2].id@ == id);
        }
    }
}

/// A batch in which a reference names an identifier that no entity has has
/// no resolved model, and every fault that resolution reports of it, where
/// identifiers are distinct, is a reference that does not resolve.
pub proof fn law_dangling_reference(
    all: Seq<Entity>,
    i: int,
    k: int,
    table: Seq<Vec<ContentRef>>,
    e: ParseError,
)
    requires
        0 <= i < all.len(),
        0 <= k < all[i].references@.len(),
        !has_entity(all, all[i].references@[k].target@),
    ensures
        !resolved_model(all, table),
        distinct_ids(all) && resolution_fault(all, e) ==> link_fault(all, e@),
{
    if linked(all) {
        assert(entity_linked(all, i));
        assert(reference_resolves(all, i, k));
    }
}

/// In a resolved model, the content set of an interface holds every
/// element of the content set of each interface it extends, under its name
/// and its own identifier.
pub proof fn law_extension_inherits(all: Seq<Entity>, table: Seq<Vec<ContentRef>>, i: int, k: int)
    requires
        resolved_model(all, table),
        0 <= i < all.len(),
        0 <= k < all[i].references@.len(),
        all[i].references@[k].field is Extends,
    ensures
        forall|j: int|
            0 <= j < contents_of(all, position_of(all, all[i].references@[k].target@) as int).len()
                ==> contents_of(all, i).contains(
                #[trigger] contents_of(
                    all,
                    position_of(all, all[i].references@[k].target@) as int,
                )[j],
            ),
{
    let (order, rank) = choose|order: Seq<usize>, rank: Seq<usize>| ordered(all, order, rank);
    let n = all.len();
    let at = position_of(all, all[i].references@[k].target@) as int;
    assert(entity_linked(all, i));
    assert(reference_resolves(all, i, k));
    assert(rank[at] < rank[i]);
    let total = all[i].references@.len();
    let before = content_upto(all, i, n, k as nat);
    let step = content_upto(all, i, n, (k + 1) as nat);
    let base = contents_of(all, at);
    lemma_content_depth(all, order, rank, at, n, (n - 1) as nat, all[at].references@.len());
    assert(step == before + base);
    lemma_content_prefix(all, i, n, (k + 1) as nat, total);
    assert forall|j: int| 0 <= j < base.len() implies contents_of(all, i).contains(
        #[trigger] base[j],
    ) by {
        assert(step[before.len() + j] == base[j]);
        assert(contents_of(all, i)[before.len() + j] == base[j]);
    }
}

/// A model in which an interface declares an element under a name that an
/// interface it extends already has is not resolved.
pub proof fn law_collision_on_merge(
    all: Seq<Entity>,
    table: Seq<Vec<ContentRef>>,
    i: int,
    k: int,
    own: int,
    j: int,
)
    requires
        linked(all),
        acyclic_extension(all),
        0 <= i < all.len(),
        0 <= k < all[i].references@.len(),
        0 <= own < all[i].references@.len(),
        all[i].references@[k].field is Extends,
        is_child_field(all[i].references@[own].field),
        0 <= j < contents_of(all, position_of(all, all[i].references@[k].target@) as int).len(),
        contents_of(all, position_of(all, all[i].references@[k].target@) as int)[j].0 == child_name(
            all,
            position_of(all, all[i].references@[own].target@) as int,
        ),
    ensures
        has_duplicate_name(
            contents_of(all, i),
            child_name(all, position_of(all, all[i].references@[own].target@) as int),
        ),
        !resolved_model(all, table),
{
    let (order, rank) = choose|order: Seq<usize>, rank: Seq<usize>| ordered(all, order, rank);
    let n = all.len();
    let at = position_of(all, all[i].references@[k].target@) as int;
    let child = position_of(all, all[i].references@[own].target@) as int;
    let name = child_name(all, child);
    assert(entity_linked(all, i));
    assert(reference_resolves(all, i, k));
    let total = all[i].references@.len();
    let full = contents_of(all, i);
    // the inherited entry
    let before_k = content_upto(all, i, n, k as nat);
    let step_k = content_upto(all, i, n, (k + 1) as nat);
    let base = contents_of(all, at);
    lemma_content_depth(all, order, rank, at, n, (n - 1) as nat, all[at].references@.len());
    assert(step_k == before_k + base);
    lemma_content_prefix(all, i, n, (k + 1) as nat, total);
    let a = before_k.len() + j;
    assert(step_k[a] == base[j]);
    assert(full[a].0 == name);
    // the own entry
    let before_o = content_upto(all, i, n, own as nat);
    let step_o = content_upto(all, i, n, (own + 1) as nat);
    assert(step_o == before_o + seq![(name, all[i].references@[own].target@)]);
    lemma_content_prefix(all, i, n, (own + 1) as nat, total);
    let b = before_o.len() as int;
    assert(step_o[b].0 == name);
    assert(full[b].0 == name);
    // the two entries stand at different places
    if own < k {
        lemma_content_prefix(all, i, n, (own + 1) as nat, k as nat);
        assert(b < a);
    } else {
        lemma_content_prefix(all, i, n, (k + 1) as nat, own as nat);
        assert(a < b);
    }
    if contents_resolved(all, table) {
        assert(entry_ok(all, table, i));
    }
}

/// Around a circle of extensions the rank would fall with every step.
proof fn lemma_cycle_descends(
    all: Seq<Entity>,
    order: Seq<usize>,
    rank: Seq<usize>,
    cycle: Seq<DtmiView>,
    p: int,
)
    requires
        distinct_ids(all),
        ordered(all, order, rank),
        is_cycle(all, cycle),
        0 <= p < cycle.len(),
    ensures
        rank[position_of(all, cycle[p]) as int] + p <= rank[position_of(all, cycle[0]) as int],
    decreases p,
{
    if p > 0 {
        lemma_cycle_descends(all, order, rank, cycle, p - 1);
        lemma_edge_descends(all, order, rank, cycle[p - 1], cycle[p]);
    }
}

/// Along an extension the rank falls.
proof fn lemma_edge_descends(
    all: Seq<Entity>,
    order: Seq<usize>,
    rank: Seq<usize>,
    a: DtmiView,
    b: DtmiView,
)
    requires
        distinct_ids(all),
        ordered(all, order, rank),
        extends_edge(all, a, b),
    ensures
        rank[position_of(all, b) as int] < rank[position_of(all, a) as int],
{
    let (i, k) = choose|i: int, k: int|
        0 <= i < all.len() && 0 <= k < all[i].references@.len() && all[i].id@ == a && (
        #[trigger] all[i].references@[k]).field is Extends && all[i].references@[k].target@ == b;
    lemma_position_of(all, i);
}

/// A batch in which interfaces extend one another in a circle has no
/// resolved model.
pub proof fn law_cycle_is_rejected(
    all: Seq<Entity>,
    cycle: Seq<DtmiView>,
    table: Seq<Vec<ContentRef>>,
)
    requires
        is_cycle(all, cycle),
    ensures
        !resolved_model(all, table),
{
    if distinct_ids(all) && acyclic_extension(all) {
        let (order, rank) = choose|order: Seq<usize>, rank: Seq<usize>| ordered(all, order, rank);
        let last = cycle.len() - 1;
        lemma_cycle_descends(all, order, rank, cycle, last);
        assert(extends_edge(
            all,
            cycle[last],
            if last + 1 < cycle.len() {
                cycle[last + 1]
            } else {
                cycle[0]
            },
        ));
        lemma_edge_descends(all, order, rank, cycle[last], cycle[0]);
    }
}

/// A command needs neither request nor response: without any reference it
/// is linked as soon as its parent and its partition resolve.
pub proof fn law_payloads_are_optional(all: Seq<Entity>, i: int)
    requires
        0 <= i < all.len(),
        all[i].kind is Command,
        all[i].references@.len() == 0,
        parent_resolves(all, i),
        partition_resolves(all, i),
    ensures
        entity_linked(all, i),
{
}

/// A batch of which resolution can report a fault has no resolved model:
/// a batch either resolves or has a fault, never both.
pub proof fn law_fault_excludes_model(all: Seq<Entity>, table: Seq<Vec<ContentRef>>, e: ParseError)
    requires
        resolution_fault(all, e),
    ensures
        !resolved_model(all, table),
{
    match e {
        ParseError::DuplicateIdentifier { id } => {
            lemma_duplicate_fault(all, id@);
            law_duplicate_is_reported(all, id@, table, e);
        },
        ParseError::CyclicExtension { cycle } => {
            law_cycle_is_rejected(all, crate::extension::dtmi_views(cycle@), table);
        },
        ParseError::DuplicateContentName { interface, name } => {
            let i = choose|i: int|
                0 <= i < all.len() && (#[trigger] all[i]).id@ == interface@ && has_duplicate_name(
                    contents_of(all, i),
                    name@,
                );
            if contents_resolved(all, table) {
                assert(entry_ok(all, table, i));
            }
        },
        _ => {
            crate::links::lemma_link_fault(all, e@);
        },
    }
}

/// Among linked entities, going from an entity to its parent again and
/// again reaches, in no more steps than there are entities, an entity
/// without a parent, the root of a partition.
pub proof fn law_parent_chain_ends(all: Seq<Entity>, i: int)
    requires
        linked(all),
        0 <= i < all.len(),
    ensures
        exists|steps: nat|
            steps <= all.len() && 0 <= #[trigger] ancestor(all, i, steps) < all.len() && all[ancestor(
                all,
                i,
                steps,
            )].child_of is None,
{
    assert(entity_linked(all, i));
    if all[i].child_of is None {
        assert(ancestor(all, i, 0) == i);
    } else {
        let steps = choose|steps: nat|
            steps <= all.len() && all[#[trigger] ancestor(all, i, steps)].child_of is None;
        lemma_ancestor_in_range(all, i, steps);
    }
}

} // verus!

//! The first two steps of resolution: no identifier may be used twice, and
//! every reference must lead to an entity of the kind that its field
//! expects.
use vstd::prelude::*;
use crate::dtmi::DtmiView;
use crate::entity::{
    distinct_ids, entity_ids, expected_kind, find_entity, has_entity, is_child_field,
    position_of, Entity, EntityField, Reference,
};
use crate::rules::requires_schema;
use crate::entity_kind::satisfies;
use crate::error::{ErrorView, ParseError};
use crate::text::lemma_find_bounds;

verus! {

/// Whether two of the entities have the identifier `id`.
pub open spec fn is_duplicate(all: Seq<Entity>, id: DtmiView) -> bool {
    exists|i: int, j: int|
        0 <= i < j < all.len() && (#[trigger] all[i]).id@ == id && (#[trigger] all[j]).id@ == id
}

/// The entity reached from entity `i` by going to the parent `steps`
/// times, or as often as there is a parent among the entities.
pub open spec fn ancestor(all: Seq<Entity>, i: int, steps: nat) -> int
    decreases steps,
{
    if steps == 0 {
        i
    } else {
        match all[i].child_of {
            Some(p) => if has_entity(all, p@) {
                ancestor(all, position_of(all, p@) as int, (steps - 1) as nat)
            } else {
                i
            },
            None => i,
        }
    }
}

/// Whether going from entity `i` to the parent again and again ends at an
/// entity without a parent, the root of a partition. No chain that ends
/// takes more steps than there are entities.
pub open spec fn chain_ends(all: Seq<Entity>, i: int) -> bool {
    exists|steps: nat| steps <= all.len() && all[#[trigger] ancestor(all, i, steps)].child_of is None
}

/// Whether the entity that lexically contains entity `i`, if it has one,
/// is among the entities, wherever it stands, and the chain of parents
/// ends.
pub open spec fn parent_resolves(all: Seq<Entity>, i: int) -> bool {
    all[i].child_of matches Some(p) ==> has_entity(all, p@) && chain_ends(all, i)
}

/// Whether the root of the document of entity `i`, if it names one, is
/// among the entities.
pub open spec fn partition_resolves(all: Seq<Entity>, i: int) -> bool {
    all[i].defined_in matches Some(p) ==> has_entity(all, p@)
}

/// Going up any number of steps stays among the entities.
pub proof fn lemma_ancestor_in_range(all: Seq<Entity>, i: int, steps: nat)
    requires
        0 <= i < all.len(),
    ensures
        0 <= ancestor(all, i, steps) < all.len(),
    decreases steps,
{
    if steps > 0 {
        match all[i].child_of {
            Some(p) => {
                if has_entity(all, p@) {
                    lemma_ancestor_in_range(all, position_of(all, p@) as int, (steps - 1) as nat);
                }
            },
            None => {},
        }
    }
}

/// Going up `s` steps and then `t` more is going up `s + t` steps.
pub proof fn lemma_ancestor_steps(all: Seq<Entity>, i: int, s: nat, t: nat)
    ensures
        ancestor(all, i, s + t) == ancestor(all, ancestor(all, i, s), t),
    decreases s,
{
    if s > 0 {
        match all[i].child_of {
            Some(p) => {
                if has_entity(all, p@) {
                    lemma_ancestor_steps(all, position_of(all, p@) as int, (s - 1) as nat, t);
                    assert(ancestor(all, i, s + t) == ancestor(
                        all,
                        position_of(all, p@) as int,
                        (s + t - 1) as nat,
                    ));
                } else {
                    lemma_ancestor_stays(all, i, t);
                }
            },
            None => {
                lemma_ancestor_stays(all, i, t);
            },
        }
    }
}

/// From an entity without a parent among the entities, going up leads
/// nowhere else.
pub proof fn lemma_ancestor_stays(all: Seq<Entity>, i: int, t: nat)
    requires
        all[i].child_of matches Some(p) ==> !has_entity(all, p@),
    ensures
        ancestor(all, i, t) == i,
{
}

/// Whether reference `k` of entity `i` leads to an entity, to one of the
/// kind that the field expects, and, where the field holds named children,
/// to one that has a name.
pub open spec fn reference_resolves(all: Seq<Entity>, i: int, k: int) -> bool {
    let r = all[i].references@[k];
    &&& has_entity(all, r.target@)
    &&& match expected_kind(all[i].kind, r.field) {
        Some(x) => satisfies(x, all[position_of(all, r.target@) as int].kind),
        None => true,
    }
    &&& (is_child_field(r.field) ==> all[position_of(all, r.target@) as int].name is Some)
}

/// Whether one of the references goes through `field`.
pub open spec fn has_reference(references: Seq<Reference>, field: EntityField) -> bool {
    exists|k: int| 0 <= k < references.len() && (#[trigger] references[k]).field == field
}

/// Whether entity `i` has a schema, if its kind requires one.
pub open spec fn schema_present(all: Seq<Entity>, i: int) -> bool {
    requires_schema(all[i].kind) ==> has_reference(all[i].references@, EntityField::Schema)
}

/// Whether entity `i` is linked: its parent and its partition are among
/// the entities and its chain of parents ends, it has a schema if its kind
/// requires one, and all its references resolve.
pub open spec fn entity_linked(all: Seq<Entity>, i: int) -> bool {
    &&& parent_resolves(all, i)
    &&& partition_resolves(all, i)
    &&& schema_present(all, i)
    &&& forall|k: int| 0 <= k < all[i].references@.len() ==> #[trigger] reference_resolves(all, i, k)
}

/// Whether every entity is linked.
pub open spec fn linked(all: Seq<Entity>) -> bool {
    forall|i: int| 0 <= i < all.len() ==> #[trigger] entity_linked(all, i)
}

/// Whether `j` is the first position whose identifier was used before.
pub open spec fn first_duplicate(all: Seq<Entity>, j: int) -> bool {
    &&& 0 <= j < all.len()
    &&& distinct_ids(all.take(j))
    &&& exists|i: int| 0 <= i < j && (#[trigger] all[i]).id@ == all[j].id@
}

/// Whether `id` is the identifier at the first position whose identifier
/// was used before.
pub open spec fn duplicate_fault(all: Seq<Entity>, id: DtmiView) -> bool {
    exists|j: int| #[trigger] first_duplicate(all, j) && all[j].id@ == id
}

/// What is wrong with reference `k` of entity `i`, which does not resolve:
/// no entity has the identifier; or the entity is of a kind that the field
/// does not accept; or it is a child without a name.
pub open spec fn reference_fault(all: Seq<Entity>, i: int, k: int) -> ErrorView {
    let r = all[i].references@[k];
    if !has_entity(all, r.target@) {
        ErrorView::UnresolvedReference { from: all[i].id@, field: r.field, target: r.target@ }
    } else {
        let actual = all[position_of(all, r.target@) as int].kind;
        match expected_kind(all[i].kind, r.field) {
            Some(x) => if !satisfies(x, actual) {
                ErrorView::ReferenceKindMismatch {
                    from: all[i].id@,
                    field: r.field,
                    expected_kind: x,
                    actual_kind: actual,
                }
            } else {
                ErrorView::MissingRequiredField { id: r.target@, field: EntityField::Name }
            },
            None => ErrorView::MissingRequiredField { id: r.target@, field: EntityField::Name },
        }
    }
}

/// Whether `e` is the first fault of entity `i`: its parent, else its
/// partition, else the schema it lacks, else the first of its references
/// that does not resolve.
pub open spec fn link_fault_at(all: Seq<Entity>, i: int, e: ErrorView) -> bool {
    if !parent_resolves(all, i) {
        e == (ErrorView::UnresolvedReference {
            from: all[i].id@,
            field: EntityField::Parent,
            target: all[i].child_of.unwrap()@,
        })
    } else if !partition_resolves(all, i) {
        e == (ErrorView::UnresolvedReference {
            from: all[i].id@,
            field: EntityField::Partition,
            target: all[i].defined_in.unwrap()@,
        })
    } else if !schema_present(all, i) {
        e == (ErrorView::MissingRequiredField { id: all[i].id@, field: EntityField::Schema })
    } else {
        exists|k: int|
            0 <= k < all[i].references@.len() && !(#[trigger] reference_resolves(all, i, k))
                && references_resolve_before(all, i, k) && e == reference_fault(all, i, k)
    }
}

/// Whether the references of entity `i` before the `k`-th resolve.
pub open spec fn references_resolve_before(all: Seq<Entity>, i: int, k: int) -> bool {
    forall|j: int| 0 <= j < k ==> #[trigger] reference_resolves(all, i, j)
}

/// Whether the entities before the `i`-th are linked.
pub open spec fn linked_before(all: Seq<Entity>, i: int) -> bool {
    forall|j: int| 0 <= j < i ==> #[trigger] entity_linked(all, j)
}

/// Whether `e` is the first fault of the first entity that is not linked.
pub open spec fn link_fault(all: Seq<Entity>, e: ErrorView) -> bool {
    exists|i: int| 0 <= i < all.len() && linked_before(all, i) && #[trigger] link_fault_at(all, i, e)
}

/// An identifier that is reported as used twice is shared by two entities.
pub proof fn lemma_duplicate_fault(all: Seq<Entity>, id: DtmiView)
    requires
        duplicate_fault(all, id),
    ensures
        is_duplicate(all, id),
{
    let j = choose|j: int| #[trigger] first_duplicate(all, j) && all[j].id@ == id;
    let i = choose|i: int| 0 <= i < j && (#[trigger] all[i]).id@ == all[j].id@;
    assert(all[i].id@ == id && all[j].id@ == id);
}

/// Entities with a fault in their references are not all linked.
pub proof fn lemma_link_fault(all: Seq<Entity>, e: ErrorView)
    requires
        link_fault(all, e),
    ensures
        !linked(all),
{
    let i = choose|i: int| 0 <= i < all.len() && linked_before(all, i) && #[trigger] link_fault_at(all, i, e);
    if entity_linked(all, i) {
        assert(schema_present(all, i));
        let k = choose|k: int|
            0 <= k < all[i].references@.len() && !(#[trigger] reference_resolves(all, i, k))
                && references_resolve_before(all, i, k) && e == reference_fault(all, i, k);
        assert(reference_resolves(all, i, k));
    }
}

/// Checks that no identifier is used twice. The error names the identifier
/// at the first position whose identifier was used before.
pub fn check_distinct(all: &Vec<Entity>) -> (r: Result<(), ParseError>)
    ensures
        match r {
            Ok(_) => distinct_ids(all@),
            Err(e) => e matches ParseError::DuplicateIdentifier { id } && duplicate_fault(all@, id@),
        },
{
    let mut j: usize = 0;
    while j < all.len()
        invariant
            j <= all@.len(),
            forall|a: int, b: int|
                0 <= a < b < j ==> (#[trigger] all@[a]).id@ != (#[trigger] all@[b]).id@,
        decreases all@.len() - j,
    {
        proof {
            lemma_find_bounds(entity_ids(all@), all@[j as int].id@);
        }
        match find_entity(all, &all[j].id) {
            Some(first) => {
                if first < j {
                    let id = all[j].id.clone();
                    proof {
                        let front = all@.take(j as int);
                        assert forall|a: int, b: int| 0 <= a < b < front.len() implies (
                        #[trigger] front[a]).id@ != (#[trigger] front[b]).id@ by {
                            assert(front[a] == all@[a] && front[b] == all@[b]);
                        }
                        assert(all@[first as int].id@ == all@[j as int].id@);
                        assert(first_duplicate(all@, j as int));
                    }
                    return Err(ParseError::DuplicateIdentifier { id });
                }
            },
            None => {},
        }
        assert forall|a: int| 0 <= a < j implies (#[trigger] all@[a]).id@ != all@[j as int].id@ by {
            assert(entity_ids(all@)[a] == all@[a].id@);
        }
        j += 1;
    }
    Ok(())
}

/// Whether one of the references goes through `field`.
pub fn refers_through(references: &Vec<Reference>, field: EntityField) -> (r: bool)
    ensures
        r == has_reference(references@, field),
{
    let mut k: usize = 0;
    while k < references.len()
        invariant
            k <= references@.len(),
            forall|j: int| 0 <= j < k ==> (#[trigger] references@[j]).field != field,
        decreases references@.len() - k,
    {
        if references[k].field == field {
            return true;
        }
        k += 1;
    }
    false
}

/// Whether the chain of parents of entity `i` ends at a root.
pub(crate) fn parent_chain_ends(all: &Vec<Entity>, i: usize) -> (r: bool)
    requires
        i < all@.len(),
    ensures
        r == chain_ends(all@, i as int),
{
    let n: usize = all.len();
    let mut cur: usize = i;
    let mut s: usize = 0;
    loop
        invariant
            n == all@.len(),
            i < n,
            cur < n,
            s <= n,
            cur == ancestor(all@, i as int, s as nat),
            forall|t: nat| t < s ==> all@[#[trigger] ancestor(all@, i as int, t)].child_of is Some,
        decreases n - s,
    {
        match &all[cur].child_of {
            None => {
                return true;
            },
            Some(p) => {
                match find_entity(all, p) {
                    None => {
                        proof {
                            assert forall|t: nat| t <= n implies all@[#[trigger] ancestor(
                                all@,
                                i as int,
                                t,
                            )].child_of is Some by {
                                if t >= s {
                                    lemma_ancestor_steps(all@, i as int, s as nat, (t - s) as nat);
                                    lemma_ancestor_stays(all@, cur as int, (t - s) as nat);
                                }
                            }
                        }
                        return false;
                    },
                    Some(at) => {
                        if s == n {
                            return false;
                        }
                        proof {
                            lemma_ancestor_steps(all@, i as int, s as nat, 1);
                            assert(ancestor(all@, cur as int, 1) == ancestor(all@, at as int, 0));
                        }
                        cur = at;
                        s += 1;
                    },
                }
            },
        }
    }
}

/// Checks the references of entity `i`.
fn check_entity_links(all: &Vec<Entity>, i: usize) -> (r: Result<(), ParseError>)
    requires
        i < all@.len(),
    ensures
        match r {
            Ok(_) => entity_linked(all@, i as int),
            Err(e) => link_fault_at(all@, i as int, e@),
        },
{
    let entity = &all[i];
    match &entity.child_of {
        Some(p) => {
            if find_entity(all, p).is_none() || !parent_chain_ends(all, i) {
                return Err(
                    ParseError::UnresolvedReference {
                        from: entity.id.clone(),
                        field: EntityField::Parent,
                        target: p.clone(),
                    },
                );
            }
        },
        None => {},
    }
    match &entity.defined_in {
        Some(p) => {
            if find_entity(all, p).is_none() {
                return Err(
                    ParseError::UnresolvedReference {
                        from: entity.id.clone(),
                        field: EntityField::Partition,
                        target: p.clone(),
                    },
                );
            }
        },
        None => {},
    }
    if entity.kind.requires_schema() && !refers_through(&entity.references, EntityField::Schema) {
        return Err(
            ParseError::MissingRequiredField { id: entity.id.clone(), field: EntityField::Schema },
        );
    }
    let mut k: usize = 0;
    while k < entity.references.len()
        invariant
            i < all@.len(),
            entity == all@[i as int],
            k <= entity.references@.len(),
            parent_resolves(all@, i as int),
            partition_resolves(all@, i as int),
            schema_present(all@, i as int),
            references_resolve_before(all@, i as int, k as int),
        decreases entity.references@.len() - k,
    {
        let reference = &entity.references[k];
        match find_entity(all, &reference.target) {
            None => {
                assert(!reference_resolves(all@, i as int, k as int));
                return Err(
                    ParseError::UnresolvedReference {
                        from: entity.id.clone(),
                        field: reference.field,
                        target: reference.target.clone(),
                    },
                );
            },
            Some(at) => {
                match reference.field.expected_kind(entity.kind) {
                    Some(expected) => {
                        let actual = all[at].kind;
                        if !actual.satisfies(expected) {
                            assert(!reference_resolves(all@, i as int, k as int));
                            return Err(
                                ParseError::ReferenceKindMismatch {
                                    from: entity.id.clone(),
                                    field: reference.field,
                                    expected_kind: expected,
                                    actual_kind: actual,
                                },
                            );
                        }
                    },
                    None => {},
                }
                if reference.field.is_child_field() && all[at].name.is_none() {
                    assert(!reference_resolves(all@, i as int, k as int));
                    return Err(
                        ParseError::MissingRequiredField {
                            id: reference.target.clone(),
                            field: EntityField::Name,
                        },
                    );
                }
            },
        }
        assert(reference_resolves(all@, i as int, k as int));
        k += 1;
    }
    Ok(())
}

/// Checks that every reference leads to an entity of the expected kind.
/// The error is the first fault of the first entity that has one.
pub fn check_links(all: &Vec<Entity>) -> (r: Result<(), ParseError>)
    ensures
        match r {
            Ok(_) => linked(all@),
            Err(e) => link_fault(all@, e@),
        },
{
    let mut i: usize = 0;
    while i < all.len()
        invariant
            i <= all@.len(),
            forall|j: int| 0 <= j < i ==> #[trigger] entity_linked(all@, j),
        decreases all@.len() - i,
    {
        match check_entity_links(all, i) {
            Ok(_) => {},
            Err(e) => {
                assert(linked_before(all@, i as int));
                assert(link_fault_at(all@, i as int, e@));
                return Err(e);
            },
        }
        i += 1;
    }
    Ok(())
}

} // verus!

//! The content set of every entity: its own named elements and, for an
//! interface, those of the interfaces it extends, however far up.
use vstd::prelude::*;
use crate::dtmi::{Dtmi, DtmiView};
use crate::entity::{
    content_views, find_entity, is_child_field, position_of, ContentRef, Entity, EntityField,
};
use crate::error::ParseError;
use crate::extension::{ordered, ExtensionOrder};
use crate::links::{entity_linked, linked, reference_resolves};

verus! {

/// A content set as names and identifiers.
pub type Contents = Seq<(Seq<char>, DtmiView)>;

/// The name of the entity at position `at`; empty where it has none.
pub open spec fn child_name(all: Seq<Entity>, at: int) -> Seq<char> {
    match all[at].name {
        Some(s) => s@,
        None => Seq::empty(),
    }
}

/// What the first `k` references of entity `i` bring into its content set,
/// following extensions `depth` levels up: a named child brings itself, an
/// extended interface brings its whole content set.
pub open spec fn content_upto(all: Seq<Entity>, i: int, depth: nat, k: nat) -> Contents
    decreases depth, k,
{
    if k == 0 {
        Seq::empty()
    } else {
        let r = all[i].references@[k - 1];
        let at = position_of(all, r.target@) as int;
        content_upto(all, i, depth, (k - 1) as nat) + (if is_child_field(r.field) {
            seq![(child_name(all, at), r.target@)]
        } else if r.field is Extends && depth > 0 {
            content_upto(all, at, (depth - 1) as nat, all[at].references@.len())
        } else {
            Seq::empty()
        })
    }
}

/// The content set of entity `i`, following extensions `depth` levels up.
pub open spec fn content_set(all: Seq<Entity>, i: int, depth: nat) -> Contents {
    content_upto(all, i, depth, all[i].references@.len())
}

/// The content set of entity `i`: extensions are followed as many levels
/// up as there are entities, which is as far as any chain without a circle
/// can reach.
pub open spec fn contents_of(all: Seq<Entity>, i: int) -> Contents {
    content_set(all, i, all.len())
}

/// Whether no two entries share a name.
pub open spec fn distinct_names(c: Contents) -> bool {
    forall|a: int, b: int| 0 <= a < b < c.len() ==> (#[trigger] c[a]).0 != (#[trigger] c[b]).0
}

/// Whether two entries are called `name`.
pub open spec fn has_duplicate_name(c: Contents, name: Seq<char>) -> bool {
    exists|a: int, b: int|
        0 <= a < b < c.len() && (#[trigger] c[a]).0 == name && (#[trigger] c[b]).0 == name
}

/// Whether `e` reports a name that occurs twice in the content set of the
/// entity it names.
pub open spec fn name_fault(all: Seq<Entity>, e: ParseError) -> bool {
    e matches ParseError::DuplicateContentName { interface, name } && exists|i: int|
        0 <= i < all.len() && (#[trigger] all[i]).id@ == interface@ && has_duplicate_name(
            contents_of(all, i),
            name@,
        )
}

/// Whether the table holds the content set of entity `i`, and no name
/// occurs twice in it.
pub open spec fn entry_ok(all: Seq<Entity>, table: Seq<Vec<ContentRef>>, i: int) -> bool {
    &&& content_views(table[i]@) == contents_of(all, i)
    &&& distinct_names(contents_of(all, i))
}

/// Whether the table holds the content set of every entity.
pub open spec fn contents_resolved(all: Seq<Entity>, table: Seq<Vec<ContentRef>>) -> bool {
    &&& table.len() == all.len()
    &&& forall|i: int| 0 <= i < all.len() ==> #[trigger] entry_ok(all, table, i)
}

/// Once the depth exceeds the rank of an entity, following extensions
/// deeper brings nothing new.
pub proof fn lemma_content_depth(
    all: Seq<Entity>,
    order: Seq<usize>,
    rank: Seq<usize>,
    i: int,
    d1: nat,
    d2: nat,
    k: nat,
)
    requires
        linked(all),
        ordered(all, order, rank),
        0 <= i < all.len(),
        rank[i] < d1,
        rank[i] < d2,
        k <= all[i].references@.len(),
    ensures
        content_upto(all, i, d1, k) == content_upto(all, i, d2, k),
    decreases rank[i], k,
{
    if k > 0 {
        lemma_content_depth(all, order, rank, i, d1, d2, (k - 1) as nat);
        let r = all[i].references@[k - 1];
        let at = position_of(all, r.target@) as int;
        if r.field is Extends {
            assert(entity_linked(all, i));
            assert(reference_resolves(all, i, k - 1));
            assert(rank[at] < rank[i]);
            lemma_content_depth(
                all,
                order,
                rank,
                at,
                (d1 - 1) as nat,
                (d2 - 1) as nat,
                all[at].references@.len(),
            );
        }
    }
}

/// What the first references bring in stays in front when more references
/// are taken into account.
pub proof fn lemma_content_prefix(all: Seq<Entity>, i: int, depth: nat, k1: nat, k2: nat)
    requires
        k1 <= k2,
    ensures
        content_upto(all, i, depth, k1).len() <= content_upto(all, i, depth, k2).len(),
        forall|a: int|
            0 <= a < content_upto(all, i, depth, k1).len() ==> content_upto(all, i, depth, k2)[a]
                == content_upto(all, i, depth, k1)[a],
    decreases k2,
{
    if k1 < k2 {
        lemma_content_prefix(all, i, depth, k1, (k2 - 1) as nat);
    }
}

/// Position of an entry called `name`, if there is one.
fn find_name(acc: &Vec<ContentRef>, name: &String) -> (r: Option<usize>)
    ensures
        match r {
            Some(a) => a < acc@.len() && acc@[a as int].name@ == name@,
            None => forall|a: int| 0 <= a < acc@.len() ==> (#[trigger] acc@[a]).name@ != name@,
        },
{
    let mut a: usize = 0;
    while a < acc.len()
        invariant
            a <= acc@.len(),
            forall|j: int| 0 <= j < a ==> (#[trigger] acc@[j]).name@ != name@,
        decreases acc@.len() - a,
    {
        if acc[a].name == *name {
            return Some(a);
        }
        a += 1;
    }
    None
}

/// Adds an entry to a content set, unless its name is taken.
fn push_entry(acc: &mut Vec<ContentRef>, name: String, id: Dtmi) -> (r: Option<usize>)
    requires
        distinct_names(content_views(old(acc)@)),
    ensures
        match r {
            None => content_views(final(acc)@) == content_views(old(acc)@).push((name@, id@))
                && distinct_names(content_views(final(acc)@)),
            Some(a) => final(acc)@ == old(acc)@ && a < old(acc)@.len() && content_views(
                old(acc)@,
            )[a as int].0 == name@,
        },
{
    match find_name(acc, &name) {
        Some(a) => Some(a),
        None => {
            let ghost before = acc@;
            let ghost added = (name@, id@);
            acc.push(ContentRef { name, id });
            proof {
                let now = content_views(acc@);
                assert(now =~= content_views(before).push(added));
                assert forall|a: int, b: int| 0 <= a < b < now.len() implies (#[trigger] now[a]).0 != (
                #[trigger] now[b]).0 by {
                    if b < before.len() {
                        assert(now[a] == content_views(before)[a]);
                        assert(now[b] == content_views(before)[b]);
                    } else {
                        assert(now[a] == before[a]@);
                    }
                }
            }
            None
        },
    }
}

/// Adds all entries of `base` to a content set, up to the first whose name
/// is taken.
fn push_all(acc: &mut Vec<ContentRef>, base: &Vec<ContentRef>) -> (r: Option<(usize, usize)>)
    requires
        distinct_names(content_views(old(acc)@)),
    ensures
        match r {
            None => content_views(final(acc)@) == content_views(old(acc)@) + content_views(base@)
                && distinct_names(content_views(final(acc)@)),
            Some((a, m)) => m < base@.len() && a < old(acc)@.len() + m && (content_views(old(acc)@)
                + content_views(base@))[a as int].0 == base@[m as int].name@,
        },
{
    let mut m: usize = 0;
    while m < base.len()
        invariant
            m <= base@.len(),
            content_views(acc@) == content_views(old(acc)@) + content_views(base@).take(m as int),
            distinct_names(content_views(acc@)),
        decreases base@.len() - m,
    {
        let ghost before = content_views(acc@);
        let name = base[m].name.clone();
        let id = base[m].id.clone();
        match push_entry(acc, name, id) {
            Some(a) => {
                proof {
                    let front = content_views(old(acc)@);
                    let whole = front + content_views(base@);
                    assert(content_views(base@).len() == base@.len());
                    assert(content_views(base@).take(m as int).len() == m);
                    assert(before.len() == front.len() + m);
                    assert(a < before.len());
                    if a < front.len() {
                        assert(whole[a as int] == front[a as int]);
                        assert(before[a as int] == front[a as int]);
                    } else {
                        assert(whole[a as int] == content_views(base@)[a - front.len()]);
                        assert(before[a as int] == content_views(base@).take(m as int)[a
                            - front.len()]);
                    }
                }
                return Some((a, m));
            },
            None => {
                assert(content_views(base@).take(m + 1) =~= content_views(base@).take(m as int).push(
                    base@[m as int]@,
                ));
                assert(content_views(acc@) =~= content_views(old(acc)@) + content_views(base@).take(
                    m + 1,
                ));
            },
        }
        m += 1;
    }
    assert(content_views(base@).take(m as int) =~= content_views(base@));
    None
}

/// The content set of entity `i`, from the content sets of the entities it
/// extends.
fn merge_entity(
    all: &Vec<Entity>,
    table: &Vec<Vec<ContentRef>>,
    i: usize,
    Ghost(order): Ghost<Seq<usize>>,
    Ghost(rank): Ghost<Seq<usize>>,
) -> (r: Result<Vec<ContentRef>, ParseError>)
    requires
        linked(all@),
        ordered(all@, order, rank),
        table@.len() == all@.len(),
        i < all@.len(),
        forall|j: int| 0 <= j < all@.len() && rank[j] < rank[i as int] ==> #[trigger] entry_ok(all@, table@, j),
    ensures
        match r {
            Ok(acc) => content_views(acc@) == contents_of(all@, i as int) && distinct_names(
                contents_of(all@, i as int),
            ),
            Err(e) => name_fault(all@, e),
        },
{
    let entity = &all[i];
    let ghost n = all@.len();
    let ghost total = entity.references@.len();
    let mut acc: Vec<ContentRef> = Vec::new();
    let mut k: usize = 0;
    assert(content_views(acc@) =~= content_upto(all@, i as int, n, 0));
    while k < entity.references.len()
        invariant
            linked(all@),
            ordered(all@, order, rank),
            table@.len() == all@.len(),
            n == all@.len(),
            i < all@.len(),
            entity == all@[i as int],
            total == entity.references@.len(),
            k <= total,
            forall|j: int|
                0 <= j < all@.len() && rank[j] < rank[i as int] ==> #[trigger] entry_ok(all@, table@, j),
            content_views(acc@) == content_upto(all@, i as int, n, k as nat),
            distinct_names(content_views(acc@)),
        decreases total - k,
    {
        let reference = &entity.references[k];
        let ghost before = content_views(acc@);
        proof {
            assert(entity_linked(all@, i as int));
            assert(reference_resolves(all@, i as int, k as int));
            lemma_content_prefix(all@, i as int, n, (k + 1) as nat, total);
        }
        let found = find_entity(all, &reference.target);
        let at: usize = match found {
            Some(at) => at,
            None => vstd::pervasive::unreached(),
        };
        if reference.field.is_child_field() {
            let name: String = match &all[at].name {
                Some(s) => s.clone(),
                None => vstd::pervasive::unreached(),
            };
            let id = reference.target.clone();
            match push_entry(&mut acc, name, id) {
                Some(a) => {
                    let name: String = match &all[at].name {
                        Some(s) => s.clone(),
                        None => vstd::pervasive::unreached(),
                    };
                    proof {
                        let next = content_upto(all@, i as int, n, (k + 1) as nat);
                        let full = contents_of(all@, i as int);
                        assert(next == before + seq![(child_name(all@, at as int), reference.target@)]);
                        assert(next[a as int] == before[a as int]);
                        assert(next[before.len() as int].0 == name@);
                        assert(full[a as int].0 == name@ && full[before.len() as int].0 == name@);
                    }
                    return Err(
                        ParseError::DuplicateContentName { interface: entity.id.clone(), name },
                    );
                },
                None => {},
            }
        } else if matches!(reference.field, EntityField::Extends) {
            proof {
                assert(rank[at as int] < rank[i as int]);
                assert(entry_ok(all@, table@, at as int));
                lemma_content_depth(
                    all@,
                    order,
                    rank,
                    at as int,
                    n,
                    (n - 1) as nat,
                    all@[at as int].references@.len(),
                );
            }
            match push_all(&mut acc, &table[at]) {
                Some((a, m)) => {
                    let name = table[at][m].name.clone();
                    proof {
                        let next = content_upto(all@, i as int, n, (k + 1) as nat);
                        let full = contents_of(all@, i as int);
                        assert(next == before + content_views(table@[at as int]@));
                        assert(next[before.len() + m].0 == name@);
                        assert(full[a as int].0 == name@ && full[before.len() + m].0 == name@);
                    }
                    return Err(
                        ParseError::DuplicateContentName { interface: entity.id.clone(), name },
                    );
                },
                None => {},
            }
        } else {
            assert(content_upto(all@, i as int, n, (k + 1) as nat) =~= before);
        }
        k += 1;
    }
    Ok(acc)
}

/// The content set of every entity. The error names an entity and a name
/// that occurs twice in its content set.
pub(crate) fn compute_contents(all: &Vec<Entity>, order: &ExtensionOrder) -> (r: Result<
    Vec<Vec<ContentRef>>,
    ParseError,
>)
    requires
        linked(all@),
        ordered(all@, order.order@, order.rank@),
    ensures
        match r {
            Ok(table) => contents_resolved(all@, table@),
            Err(e) => name_fault(all@, e),
        },
{
    let n: usize = all.len();
    let mut table: Vec<Vec<ContentRef>> = Vec::new();
    let mut z: usize = 0;
    while z < n
        invariant
            z <= n,
            table@.len() == z,
        decreases n - z,
    {
        table.push(Vec::new());
        z += 1;
    }
    let mut p: usize = 0;
    while p < n
        invariant
            linked(all@),
            ordered(all@, order.order@, order.rank@),
            n == all@.len(),
            table@.len() == n,
            p <= n,
            forall|q: int| 0 <= q < p ==> entry_ok(all@, table@, (#[trigger] order.order@[q]) as int),
        decreases n - p,
    {
        let i: usize = order.order[p];
        proof {
            assert forall|j: int| 0 <= j < all@.len() && order.rank@[j] < order.rank@[i as int] implies #[trigger] entry_ok(
                all@,
                table@,
                j,
            ) by {
                let q = order.rank@[j] as int;
                assert(order.order@[q] == j);
            }
        }
        match merge_entity(all, &table, i, Ghost(order.order@), Ghost(order.rank@)) {
            Err(e) => {
                return Err(e);
            },
            Ok(acc) => {
                let ghost before = table@;
                table.set(i, acc);
                proof {
                    assert forall|q: int| 0 <= q < p + 1 implies entry_ok(
                        all@,
                        table@,
                        (#[trigger] order.order@[q]) as int,
                    ) by {
                        if q < p {
                            assert(order.rank@[order.order@[q] as int] == q);
                            assert(order.order@[q] != i);
                            assert(table@[order.order@[q] as int] == before[order.order@[q] as int]);
                            assert(entry_ok(all@, before, order.order@[q] as int));
                        }
                    }
                }
            },
        }
        p += 1;
    }
    proof {
        assert forall|i: int| 0 <= i < all@.len() implies #[trigger] entry_ok(all@, table@, i) by {
            let q = order.rank@[i] as int;
            assert(order.order@[q] == i);
        }
    }
    Ok(table)
}

} // verus!

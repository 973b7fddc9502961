//! Ordering the entities so that every interface comes after the
//! interfaces it extends, or naming a circle of extensions where no such
//! order exists.
use vstd::prelude::*;
use vstd::pervasive::unreached;
use crate::dtmi::{Dtmi, DtmiView};
use crate::entity::{entity_ids, find_entity, position_of, Entity, EntityField};
use crate::error::ParseError;
use crate::flags::{count_false, lemma_count_set, lemma_count_zero, unset_flags};
use crate::links::{entity_linked, linked, reference_resolves};
use crate::text::lemma_find_bounds;

verus! {

/// Whether the entity at position `i` extends the entity at position `j`.
pub open spec fn extends_at(all: Seq<Entity>, i: int, j: int) -> bool {
    exists|k: int|
        0 <= k < all[i].references@.len() && (#[trigger] all[i].references@[k]).field is Extends
            && position_of(all, all[i].references@[k].target@) == j
}

/// Whether an entity with identifier `a` extends the identifier `b`.
pub open spec fn extends_edge(all: Seq<Entity>, a: DtmiView, b: DtmiView) -> bool {
    exists|i: int, k: int|
        0 <= i < all.len() && 0 <= k < all[i].references@.len() && all[i].id@ == a && (
        #[trigger] all[i].references@[k]).field is Extends && all[i].references@[k].target@ == b
}

/// Whether the identifiers form a circle of extensions: each extends the
/// next, and the last extends the first.
pub open spec fn is_cycle(all: Seq<Entity>, cycle: Seq<DtmiView>) -> bool {
    &&& cycle.len() >= 1
    &&& forall|p: int|
        0 <= p < cycle.len() ==> extends_edge(
            all,
            #[trigger] cycle[p],
            if p + 1 < cycle.len() {
                cycle[p + 1]
            } else {
                cycle[0]
            },
        )
}

/// The identifiers as they are, in order.
pub open spec fn dtmi_views(ids: Seq<Dtmi>) -> Seq<DtmiView> {
    ids.map_values(|d: Dtmi| d@)
}

/// Whether `order` lists every position once, `rank` gives for each
/// position its place in `order`, and every entity stands after all that it
/// extends.
pub open spec fn ordered(all: Seq<Entity>, order: Seq<usize>, rank: Seq<usize>) -> bool {
    &&& order.len() == all.len()
    &&& rank.len() == all.len()
    &&& forall|i: int|
        0 <= i < all.len() ==> (#[trigger] rank[i]) < all.len() && order[rank[i] as int] == i
    &&& forall|p: int|
        0 <= p < all.len() ==> (#[trigger] order[p]) < all.len() && rank[order[p] as int] == p
    &&& forall|i: int, k: int|
        0 <= i < all.len() && 0 <= k < all[i].references@.len() && (
        #[trigger] all[i].references@[k]).field is Extends ==> rank[position_of(
            all,
            all[i].references@[k].target@,
        ) as int] < rank[i]
}

/// Whether the extensions admit no circle: the entities can be ranked so
/// that every entity ranks above all that it extends.
pub open spec fn acyclic_extension(all: Seq<Entity>) -> bool {
    exists|order: Seq<usize>, rank: Seq<usize>| ordered(all, order, rank)
}

/// Whether every entity that is not done extends one that is not done.
pub open spec fn stuck(all: Seq<Entity>, done: Seq<bool>) -> bool {
    forall|j: int|
        0 <= j < all.len() && !(#[trigger] done[j]) ==> exists|b: int|
            0 <= b < all.len() && !done[b] && #[trigger] extends_at(all, j, b)
}

/// An order of the entities in which each stands after all it extends.
pub struct ExtensionOrder {
    /// The positions of the entities, in that order.
    pub order: Vec<usize>,
    /// For each position, its place in `order`.
    pub rank: Vec<usize>,
}

/// An extension between positions is an extension between identifiers.
pub proof fn lemma_extends_edge(all: Seq<Entity>, i: int, j: int)
    requires
        0 <= i < all.len(),
        0 <= j < all.len(),
        extends_at(all, i, j),
    ensures
        extends_edge(all, all[i].id@, all[j].id@),
{
    let k = choose|k: int|
        0 <= k < all[i].references@.len() && (#[trigger] all[i].references@[k]).field is Extends
            && position_of(all, all[i].references@[k].target@) == j;
    lemma_find_bounds(entity_ids(all), all[i].references@[k].target@);
    assert(entity_ids(all)[j] == all[j].id@);
    assert(all[i].references@[k].target@ == all[j].id@);
}

/// The first entity that entity `i` extends and that is not done, if there
/// is one.
fn pending_base(all: &Vec<Entity>, done: &Vec<bool>, i: usize) -> (r: Option<usize>)
    requires
        linked(all@),
        done@.len() == all@.len(),
        i < all@.len(),
    ensures
        match r {
            Some(b) => b < all@.len() && !done@[b as int] && extends_at(all@, i as int, b as int),
            None => forall|k: int|
                0 <= k < all@[i as int].references@.len() && (
                #[trigger] all@[i as int].references@[k]).field is Extends ==> done@[position_of(
                    all@,
                    all@[i as int].references@[k].target@,
                ) as int],
        },
{
    let entity = &all[i];
    let mut k: usize = 0;
    while k < entity.references.len()
        invariant
            linked(all@),
            done@.len() == all@.len(),
            i < all@.len(),
            entity == all@[i as int],
            k <= entity.references@.len(),
            forall|j: int|
                0 <= j < k && (#[trigger] entity.references@[j]).field is Extends
                    ==> done@[position_of(all@, entity.references@[j].target@) as int],
        decreases entity.references@.len() - k,
    {
        let reference = &entity.references[k];
        if matches!(reference.field, EntityField::Extends) {
            assert(entity_linked(all@, i as int));
            assert(reference_resolves(all@, i as int, k as int));
            match find_entity(all, &reference.target) {
                Some(b) => {
                    if !done[b] {
                        return Some(b);
                    }
                },
                None => {},
            }
        }
        k += 1;
    }
    None
}

/// The state of a walk along extensions among the entities that are not
/// done: the walk has gone through `path` and stands at `cur`.
pub open spec fn walking(
    all: Seq<Entity>,
    done: Seq<bool>,
    mark: Seq<bool>,
    path: Seq<usize>,
    cur: usize,
) -> bool {
    &&& done.len() == all.len()
    &&& mark.len() == all.len()
    &&& cur < all.len()
    &&& !done[cur as int]
    &&& forall|p: int|
        0 <= p < path.len() ==> (#[trigger] path[p]) < all.len() && mark[path[p] as int]
    &&& forall|j: int|
        0 <= j < all.len() && #[trigger] mark[j] ==> exists|p: int|
            0 <= p < path.len() && #[trigger] path[p] == j
    &&& forall|p: int|
        0 <= p && p + 1 < path.len() ==> extends_at(all, (#[trigger] path[p]) as int, path[p + 1] as int)
    &&& path.len() > 0 ==> extends_at(all, path[path.len() - 1] as int, cur as int)
}

/// The circle that a walk has closed: the walk stands at an entity that it
/// has gone through before.
fn close_cycle(all: &Vec<Entity>, path: &Vec<usize>, cur: usize, Ghost(done): Ghost<Seq<bool>>, Ghost(
    mark,
): Ghost<Seq<bool>>) -> (r: ParseError)
    requires
        walking(all@, done, mark, path@, cur),
        mark[cur as int],
    ensures
        r matches ParseError::CyclicExtension { cycle } && is_cycle(all@, dtmi_views(cycle@)),
{
    let n: usize = all.len();
    let mut q: usize = 0;
    while q < path.len() && path[q] != cur
        invariant
            q <= path@.len(),
            forall|p: int| 0 <= p < q ==> path@[p] != cur,
        decreases path@.len() - q,
    {
        q += 1;
    }
    assert(q < path@.len());
    let mut cycle: Vec<Dtmi> = Vec::new();
    let mut p: usize = q;
    while p < path.len()
        invariant
            q <= p <= path@.len(),
            n == all@.len(),
            cycle@.len() == p - q,
            forall|t: int| 0 <= t < path@.len() ==> (#[trigger] path@[t]) < n,
            forall|t: int|
                0 <= t < cycle@.len() ==> (#[trigger] cycle@[t])@ == all@[path@[q + t] as int].id@,
        decreases path@.len() - p,
    {
        cycle.push(all[path[p]].id.clone());
        p += 1;
    }
    proof {
        let ids = dtmi_views(cycle@);
        let len = ids.len() as int;
        assert forall|t: int| 0 <= t < len implies extends_edge(
            all@,
            #[trigger] ids[t],
            if t + 1 < len {
                ids[t + 1]
            } else {
                ids[0]
            },
        ) by {
            assert(ids[t] == cycle@[t]@);
            assert(path@[q + t] < n);
            if t + 1 < len {
                assert(ids[t + 1] == cycle@[t + 1]@);
                assert(path@[q + t + 1] < n);
                assert(extends_at(all@, path@[q + t] as int, path@[q + t + 1] as int));
                lemma_extends_edge(all@, path@[q + t] as int, path@[q + t + 1] as int);
            } else {
                assert(ids[0] == cycle@[0]@);
                assert(path@[q as int] == cur);
                lemma_extends_edge(all@, path@[q + t] as int, cur as int);
            }
        }
    }
    ParseError::CyclicExtension { cycle }
}

/// One step of the walk: marks the entity the walk stands at and moves on
/// to an entity that it extends and that is not done.
fn walk_step(
    all: &Vec<Entity>,
    done: &Vec<bool>,
    mark: &mut Vec<bool>,
    path: &mut Vec<usize>,
    cur: usize,
) -> (next: usize)
    requires
        linked(all@),
        stuck(all@, done@),
        walking(all@, done@, old(mark)@, old(path)@, cur),
        !old(mark)@[cur as int],
    ensures
        walking(all@, done@, final(mark)@, final(path)@, next),
        count_false(final(mark)@) < count_false(old(mark)@),
{
    proof {
        lemma_count_set(mark@, cur as int);
    }
    let ghost before = path@;
    let ghost marked = mark@;
    mark.set(cur, true);
    path.push(cur);
    let found = pending_base(all, done, cur);
    match found {
        Some(b) => {
            proof {
                assert forall|p: int| 0 <= p < path@.len() implies (#[trigger] path@[p]) < all@.len()
                    && mark@[path@[p] as int] by {
                    if p < before.len() {
                        assert(path@[p] == before[p]);
                        assert(marked[before[p] as int]);
                    }
                }
                assert forall|j: int| 0 <= j < all@.len() && #[trigger] mark@[j] implies exists|
                    p: int,
                |
                    0 <= p < path@.len() && #[trigger] path@[p] == j by {
                    if j == cur {
                        assert(path@[before.len() as int] == cur);
                    } else {
                        assert(marked[j]);
                        let p0 = choose|p: int| 0 <= p < before.len() && #[trigger] before[p] == j;
                        assert(path@[p0] == j);
                    }
                }
                assert forall|p: int| 0 <= p && p + 1 < path@.len() implies extends_at(
                    all@,
                    (#[trigger] path@[p]) as int,
                    path@[p + 1] as int,
                ) by {
                    if p + 1 < before.len() {
                        assert(path@[p] == before[p]);
                        assert(path@[p + 1] == before[p + 1]);
                    } else {
                        assert(path@[p] == before[before.len() - 1]);
                        assert(path@[p + 1] == cur);
                    }
                }
            }
            b
        },
        None => {
            proof {
                assert(!done@[cur as int]);
                let b = choose|b: int|
                    0 <= b < all@.len() && !done@[b] && #[trigger] extends_at(all@, cur as int, b);
                let k = choose|k: int|
                    0 <= k < all@[cur as int].references@.len() && (
                    #[trigger] all@[cur as int].references@[k]).field is Extends && position_of(
                        all@,
                        all@[cur as int].references@[k].target@,
                    ) == b;
                assert(done@[b]);
            }
            unreached()
        },
    }
}

/// Names a circle of extensions, starting the search at an entity that is
/// not done, when every such entity extends another one.
fn find_cycle(all: &Vec<Entity>, done: &Vec<bool>, start: usize) -> (r: ParseError)
    requires
        linked(all@),
        done@.len() == all@.len(),
        start < all@.len(),
        !done@[start as int],
        stuck(all@, done@),
    ensures
        r matches ParseError::CyclicExtension { cycle } && is_cycle(all@, dtmi_views(cycle@)),
{
    let mut mark: Vec<bool> = unset_flags(all.len());
    let mut path: Vec<usize> = Vec::new();
    let mut cur: usize = start;
    loop
        invariant
            linked(all@),
            stuck(all@, done@),
            walking(all@, done@, mark@, path@, cur),
        decreases count_false(mark@),
    {
        if mark[cur] {
            return close_cycle(all, &path, cur, Ghost(done@), Ghost(mark@));
        }
        cur = walk_step(all, done, &mut mark, &mut path, cur);
    }
}

/// The state of the ordering: the entities that are done are listed in
/// `order`, each after all it extends.
pub open spec fn peeled(all: Seq<Entity>, done: Seq<bool>, rank: Seq<usize>, order: Seq<usize>) -> bool {
    &&& done.len() == all.len()
    &&& rank.len() == all.len()
    &&& order.len() + count_false(done) == all.len()
    &&& forall|i: int|
        0 <= i < all.len() && #[trigger] done[i] ==> rank[i] < order.len() && order[rank[i] as int]
            == i
    &&& forall|p: int|
        0 <= p < order.len() ==> (#[trigger] order[p]) < all.len() && done[order[p] as int]
            && rank[order[p] as int] == p
    &&& forall|i: int, k: int|
        0 <= i < all.len() && done[i] && 0 <= k < all[i].references@.len() && (
        #[trigger] all[i].references@[k]).field is Extends ==> done[position_of(
            all,
            all[i].references@[k].target@,
        ) as int] && rank[position_of(all, all[i].references@[k].target@) as int] < rank[i]
}

/// Puts entity `i`, all of whose extended entities are done, next in the
/// order.
fn mark_done(
    all: &Vec<Entity>,
    done: &mut Vec<bool>,
    rank: &mut Vec<usize>,
    order: &mut Vec<usize>,
    i: usize,
)
    requires
        linked(all@),
        peeled(all@, old(done)@, old(rank)@, old(order)@),
        i < all@.len(),
        !old(done)@[i as int],
        forall|k: int|
            0 <= k < all@[i as int].references@.len() && (
            #[trigger] all@[i as int].references@[k]).field is Extends ==> old(done)@[position_of(
                all@,
                all@[i as int].references@[k].target@,
            ) as int],
    ensures
        peeled(all@, final(done)@, final(rank)@, final(order)@),
        count_false(final(done)@) < count_false(old(done)@),
{
    proof {
        lemma_count_set(done@, i as int);
    }
    let ghost old_order = order@;
    let ghost old_rank = rank@;
    let ghost old_done = done@;
    let n: usize = all.len();
    let at: usize = order.len();
    done.set(i, true);
    rank.set(i, at);
    order.push(i);
    proof {
        assert forall|p: int| 0 <= p < order@.len() implies (#[trigger] order@[p]) < n
            && done@[order@[p] as int] && rank@[order@[p] as int] == p by {
            if p < old_order.len() {
                assert(order@[p] == old_order[p]);
                assert(old_done[old_order[p] as int]);
            }
        }
        assert forall|j: int| 0 <= j < n && #[trigger] done@[j] implies rank@[j] < order@.len()
            && order@[rank@[j] as int] == j by {
            if j != i {
                assert(old_done[j]);
                assert(order@[old_rank[j] as int] == old_order[old_rank[j] as int]);
            }
        }
        assert forall|j: int, k: int|
            0 <= j < n && done@[j] && 0 <= k < all@[j].references@.len() && (
            #[trigger] all@[j].references@[k]).field is Extends implies done@[position_of(
            all@,
            all@[j].references@[k].target@,
        ) as int] && rank@[position_of(all@, all@[j].references@[k].target@) as int] < rank@[j] by {
            let b = position_of(all@, all@[j].references@[k].target@) as int;
            assert(entity_linked(all@, j));
            assert(reference_resolves(all@, j, k));
            if j == i {
                assert(old_done[b]);
            } else {
                assert(old_done[j]);
                assert(old_done[b]);
            }
        }
    }
}

/// One round over the entities: every entity that is not done and extends
/// only entities that are done is put next in the order. Tells whether any
/// was.
fn peel_round(
    all: &Vec<Entity>,
    done: &mut Vec<bool>,
    rank: &mut Vec<usize>,
    order: &mut Vec<usize>,
) -> (progress: bool)
    requires
        linked(all@),
        peeled(all@, old(done)@, old(rank)@, old(order)@),
    ensures
        peeled(all@, final(done)@, final(rank)@, final(order)@),
        progress ==> count_false(final(done)@) < count_false(old(done)@),
        !progress ==> stuck(all@, final(done)@),
{
    let n: usize = all.len();
    let mut progress: bool = false;
    let mut i: usize = 0;
    while i < n
        invariant
            linked(all@),
            n == all@.len(),
            i <= n,
            peeled(all@, done@, rank@, order@),
            progress ==> count_false(done@) < count_false(old(done)@),
            !progress ==> done@ == old(done)@,
            !progress ==> forall|j: int|
                0 <= j < i && !(#[trigger] done@[j]) ==> exists|b: int|
                    0 <= b < all@.len() && !done@[b] && #[trigger] extends_at(all@, j, b),
        decreases n - i,
    {
        if !done[i] {
            match pending_base(all, done, i) {
                None => {
                    mark_done(all, done, rank, order, i);
                    progress = true;
                },
                Some(b) => {},
            }
        }
        i += 1;
    }
    progress
}

/// Orders the entities so that each stands after all it extends. Where the
/// extensions run in a circle there is no such order, and the error names
/// the identifiers of one circle.
pub(crate) fn extension_order(all: &Vec<Entity>) -> (r: Result<ExtensionOrder, ParseError>)
    requires
        linked(all@),
    ensures
        match r {
            Ok(o) => ordered(all@, o.order@, o.rank@),
            Err(e) => e matches ParseError::CyclicExtension { cycle } && is_cycle(
                all@,
                dtmi_views(cycle@),
            ),
        },
{
    let n: usize = all.len();
    let mut done: Vec<bool> = unset_flags(n);
    let mut rank: Vec<usize> = Vec::new();
    let mut z: usize = 0;
    while z < n
        invariant
            z <= n,
            rank@.len() == z,
        decreases n - z,
    {
        rank.push(0);
        z += 1;
    }
    let mut order: Vec<usize> = Vec::new();
    loop
        invariant
            linked(all@),
            n == all@.len(),
            peeled(all@, done@, rank@, order@),
        ensures
            peeled(all@, done@, rank@, order@),
            stuck(all@, done@),
        decreases count_false(done@),
    {
        let progress = peel_round(all, &mut done, &mut rank, &mut order);
        if !progress {
            break;
        }
    }
    if order.len() == n {
        proof {
            lemma_count_zero(done@);
            assert forall|i: int| 0 <= i < n implies (#[trigger] rank@[i]) < n && order@[rank@[i] as int]
                == i by {
                assert(done@[i]);
            }
            assert forall|i: int, k: int|
                0 <= i < n && 0 <= k < all@[i].references@.len() && (
                #[trigger] all@[i].references@[k]).field is Extends implies rank@[position_of(
                all@,
                all@[i].references@[k].target@,
            ) as int] < rank@[i] by {
                assert(done@[i]);
            }
        }
        return Ok(ExtensionOrder { order, rank });
    }
    let mut s: usize = 0;
    while s < n && done[s]
        invariant
            s <= n,
            done@.len() == n,
            forall|j: int| 0 <= j < s ==> done@[j],
        decreases n - s,
    {
        s += 1;
    }
    if s >= n {
        proof {
            crate::flags::lemma_count_all_set(done@);
        }
        return unreached();
    }
    Err(find_cycle(all, &done, s))
}

} // verus!

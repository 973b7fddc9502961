//! Walking a document: an object and every entity written in place inside
//! it, each classified in the scope that its owner gives it. The entities
//! come out owner first, then what is written inside it, in the order of the
//! references.
use vstd::prelude::*;
use crate::classify::{classified, classify_object, ClassifiedView, Scope, ScopeView};
use crate::entity::{entity_views, Entity, EntityView};
use crate::error::{ErrorView, ParseError};
use crate::json_value::{lemma_object_view, member_views, JsonValue, Member};
use crate::members::{lemma_array_view, Members};
use crate::references::{link_views, LinkView, Place};

verus! {

/// Whether an object stands at `place` among the members.
pub open spec fn place_ok(m: Members, place: Place) -> bool {
    &&& place.0 < m.len()
    &&& match place.1 {
        None => m[place.0 as int].1 is Object,
        Some(i) => m[place.0 as int].1 is Array && i < m[place.0 as int].1->Array_0.len()
            && m[place.0 as int].1->Array_0[i as int] is Object,
    }
}

/// The members of the object that stands at `place`.
pub open spec fn place_members(m: Members, place: Place) -> Members {
    match place.1 {
        None => m[place.0 as int].1->Object_0,
        Some(i) => m[place.0 as int].1->Array_0[i as int]->Object_0,
    }
}

/// The scope of an entity written in place: the dialect of its owner, the
/// identifier that the reference gives it, its owner as parent, and the
/// root of the owner's document (the owner itself, where it is the root).
pub open spec fn child_scope(scope: ScopeView, link: LinkView) -> ScopeView {
    ScopeView {
        dtdl_version: scope.dtdl_version,
        id: link.target,
        child_of: Some(scope.id),
        defined_in: Some(
            match scope.defined_in {
                Some(root) => root,
                None => scope.id,
            },
        ),
        default_kind: link.default_kind,
        context: false,
    }
}

/// The entities that an object with members `m` describes in scope
/// `scope`: its own, then those written in place inside it.
pub open spec fn tree_entities(m: Members, scope: ScopeView) -> Result<Seq<EntityView>, ErrorView>
    decreases m, 1nat, 0nat,
{
    match classified(m, scope) {
        Err(e) => Err(e),
        Ok(c) => match children_entities(m, scope, c.links, c.links.len()) {
            Err(e) => Err(e),
            Ok(rest) => Ok(seq![c.entity] + rest),
        },
    }
}

/// The entities written in place under the first `k` references of an
/// object.
pub open spec fn children_entities(
    m: Members,
    scope: ScopeView,
    links: Seq<LinkView>,
    k: nat,
) -> Result<Seq<EntityView>, ErrorView>
    decreases m, 0nat, k,
{
    if k == 0 {
        Ok(Seq::empty())
    } else {
        match children_entities(m, scope, links, (k - 1) as nat) {
            Err(e) => Err(e),
            Ok(done) => match links[k - 1].place {
                Some(place) => if place_ok(m, place) {
                    match tree_entities(place_members(m, place), child_scope(scope, links[k - 1])) {
                        Err(e) => Err(e),
                        Ok(more) => Ok(done + more),
                    }
                } else {
                    Ok(done)
                },
                None => Ok(done),
            },
        }
    }
}

/// Once an entity written in place cannot be classified, taking more
/// references into account changes nothing.
pub proof fn lemma_children_error(
    m: Members,
    scope: ScopeView,
    links: Seq<LinkView>,
    k1: nat,
    k2: nat,
)
    requires
        k1 <= k2,
        children_entities(m, scope, links, k1) is Err,
    ensures
        children_entities(m, scope, links, k2) == children_entities(m, scope, links, k1),
    decreases k2,
{
    if k1 < k2 {
        lemma_children_error(m, scope, links, k1, (k2 - 1) as nat);
    }
}

/// Arrays of values that are held in memory are not longer than memory.
pub proof fn lemma_member_arrays(members: Seq<Member>)
    ensures
        forall|i: int|
            0 <= i < members.len() && (#[trigger] member_views(members)[i]).1 is Array
                ==> member_views(members)[i].1->Array_0.len() <= usize::MAX,
{
    assert forall|i: int|
        0 <= i < members.len() && (#[trigger] member_views(members)[i]).1 is Array implies member_views(
        members,
    )[i].1->Array_0.len() <= usize::MAX by {
        assert(member_views(members)[i].1 == members[i].value@);
        match members[i].value {
            JsonValue::Array(items) => {
                lemma_array_view(items);
                assert(items@.len() == items.len());
            },
            _ => {},
        }
    }
}

/// The members of the object that stands at `place`.
pub(crate) fn members_at<'a>(members: &'a Vec<Member>, place: Place) -> (r: &'a Vec<Member>)
    requires
        place_ok(member_views(members@), place),
    ensures
        member_views(r@) == place_members(member_views(members@), place),
        decreases_to!(members => r),
{
    let member = &members[place.0];
    assert(member_views(members@)[place.0 as int].1 == member.value@);
    proof {
        assert(decreases_to!(members => members@));
        assert(decreases_to!(members@ => members@[place.0 as int]));
        assert(decreases_to!(members@[place.0 as int] => members@[place.0 as int].value));
    }
    match place.1 {
        None => match &member.value {
            JsonValue::Object(child) => {
                proof {
                    lemma_object_view(*child);
                    assert(decreases_to!(member.value => member.value->Object_0));
                }
                child
            },
            _ => vstd::pervasive::unreached(),
        },
        Some(i) => match &member.value {
            JsonValue::Array(items) => {
                proof {
                    lemma_array_view(*items);
                    assert(decreases_to!(member.value => member.value->Array_0));
                    assert(decreases_to!(items => items@));
                    assert(decreases_to!(items@ => items@[i as int]));
                }
                match &items[i] {
                    JsonValue::Object(child) => {
                        proof {
                            lemma_object_view(*child);
                            assert(decreases_to!(items@[i as int] => items@[i as int]->Object_0));
                        }
                        child
                    },
                    _ => vstd::pervasive::unreached(),
                }
            },
            _ => vstd::pervasive::unreached(),
        },
    }
}

/// Classifies an object and every entity written in place inside it, and
/// adds the entities to `out`: the object's own first. The error is that of
/// the first object that cannot be classified.
pub fn classify_tree(members: &Vec<Member>, scope: Scope, out: &mut Vec<Entity>) -> (r: Result<
    (),
    ParseError,
>)
    ensures
        match r {
            Ok(_) => tree_entities(member_views(members@), scope@) is Ok && entity_views(
                final(out)@,
            ) == entity_views(old(out)@) + tree_entities(member_views(members@), scope@)->Ok_0,
            Err(e) => tree_entities(member_views(members@), scope@) == Err::<
                Seq<EntityView>,
                ErrorView,
            >(e@),
        },
    decreases members,
{
    let ghost m = member_views(members@);
    let ghost sv = scope@;
    let ghost before = entity_views(out@);
    let version = scope.dtdl_version;
    let owner = scope.id.clone();
    let root = match &scope.defined_in {
        Some(root) => root.clone(),
        None => scope.id.clone(),
    };
    let c = match classify_object(members, scope) {
        Err(e) => {
            return Err(e);
        },
        Ok(c) => c,
    };
    let ghost said = classified(m, sv)->Ok_0;
    let ghost old_out = out@;
    let links = c.links;
    out.push(c.entity);
    proof {
        assert(entity_views(out@) =~= before + seq![said.entity]);
        assert(members@.len() == members.len());
        lemma_member_arrays(members@);
        crate::references::lemma_links_places(m, sv.id, said.entity.kind, sv.dtdl_version, m.len());
    }
    let mut k: usize = 0;
    while k < links.len()
        invariant
            k <= links@.len(),
            m == member_views(members@),
            sv == scope@,
            before == entity_views(old(out)@),
            classified(m, sv) == Ok::<ClassifiedView, ErrorView>(said),
            said.links == link_views(links@),
            forall|j: int|
                0 <= j < said.links.len() ==> crate::references::link_place_ok(
                    #[trigger] said.links[j],
                    m,
                    m.len(),
                ),
            owner@ == sv.id,
            version == sv.dtdl_version,
            root@ == match sv.defined_in {
                Some(above) => above,
                None => sv.id,
            },
            children_entities(m, sv, said.links, k as nat) is Ok,
            entity_views(out@) == before + seq![said.entity] + children_entities(
                m,
                sv,
                said.links,
                k as nat,
            )->Ok_0,
        decreases links@.len() - k,
    {
        let link = &links[k];
        assert(said.links[k as int] == link@);
        assert(crate::references::link_place_ok(said.links[k as int], m, m.len()));
        match link.place {
            None => {},
            Some(place) => {
                assert(place_ok(m, place));
                let child = members_at(members, place);
                let inner = Scope {
                    dtdl_version: version,
                    id: link.target.clone(),
                    child_of: Some(owner.clone()),
                    defined_in: Some(root.clone()),
                    default_kind: link.default_kind,
                    context: false,
                };
                assert(inner@ == child_scope(sv, link@));
                let ghost done = children_entities(m, sv, said.links, k as nat)->Ok_0;
                match classify_tree(child, inner, out) {
                    Err(e) => {
                        proof {
                            assert(children_entities(m, sv, said.links, (k + 1) as nat) == Err::<
                                Seq<EntityView>,
                                ErrorView,
                            >(e@));
                            lemma_children_error(m, sv, said.links, (k + 1) as nat, said.links.len());
                        }
                        return Err(e);
                    },
                    Ok(_) => {
                        proof {
                            let more = tree_entities(place_members(m, place), child_scope(sv, link@))->Ok_0;
                            assert(entity_views(out@) =~= before + seq![said.entity] + (done + more));
                        }
                    },
                }
            },
        }
        k += 1;
    }
    Ok(())
}

} // verus!

//! Looking members of an object up by name, and reading its type tags.
//! Where a member name occurs more than once, the first occurrence counts.
use vstd::prelude::*;
use crate::entity_kind::{kind_of_tag, EntityKind};
use crate::json_value::{
    get_member, has_member, member_names, member_position, member_views, JsonModel, JsonValue,
    Member,
};
use crate::text::{find, views};

verus! {

/// The members of an object as names and values.
pub type Members = Seq<(Seq<char>, JsonModel)>;

/// The names of the members, in order.
pub open spec fn names_of(m: Members) -> Seq<Seq<char>> {
    m.map_values(|p: (Seq<char>, JsonModel)| p.0)
}

/// The value of the first member called `name`, if there is one.
pub open spec fn lookup(m: Members, name: Seq<char>) -> Option<JsonModel> {
    let i = find(names_of(m), name);
    if i < m.len() {
        Some(m[i as int].1)
    } else {
        None
    }
}

/// Whether no two members have the same name, as in a map from names to
/// values.
pub open spec fn distinct_member_names(m: Members) -> bool {
    forall|a: int, b: int| 0 <= a < b < m.len() ==> (#[trigger] m[a]).0 != (#[trigger] m[b]).0
}

/// Looking a name up among members is looking it up among their views.
pub proof fn lemma_lookup(members: Seq<Member>, name: Seq<char>)
    ensures
        names_of(member_views(members)) == member_names(members),
        has_member(members, name) <==> lookup(member_views(members), name) is Some,
        has_member(members, name) ==> lookup(member_views(members), name) == Some(
            members[member_position(members, name) as int].value@,
        ),
{
    assert(names_of(member_views(members)) =~= member_names(members));
}

/// The value of the first member called `name`, if there is one.
pub fn lookup_member<'a>(members: &'a Vec<Member>, name: &str) -> (r: Option<&'a JsonValue>)
    ensures
        match r {
            Some(v) => lookup(member_views(members@), name@) == Some(v@),
            None => lookup(member_views(members@), name@) is None,
        },
{
    proof {
        lemma_lookup(members@, name@);
    }
    get_member(members, name)
}

/// Whether every tag is a text that names `kind`.
pub open spec fn same_kind(tags: Seq<JsonModel>, kind: EntityKind) -> bool {
    forall|i: int|
        0 <= i < tags.len() ==> (#[trigger] tags[i]) is String && kind_of_tag(tags[i]->String_0)
            == Some(kind)
}

/// The kind that the type tags of an object declare: the one kind that
/// every tag names. Without tags it is the kind that the place of the object
/// implies, if it implies one.
pub open spec fn declared_kind(m: Members, default_kind: Option<EntityKind>) -> Option<EntityKind> {
    match lookup(m, "@type"@) {
        None => default_kind,
        Some(JsonModel::String(t)) => kind_of_tag(t),
        Some(JsonModel::Array(tags)) => if tags.len() > 0 && tags[0] is String && kind_of_tag(
            tags[0]->String_0,
        ) is Some && same_kind(tags, kind_of_tag(tags[0]->String_0).unwrap()) {
            kind_of_tag(tags[0]->String_0)
        } else {
            None
        },
        Some(_) => None,
    }
}

/// The texts among the first `k` items, in order.
pub open spec fn texts_upto(items: Seq<JsonModel>, k: nat) -> Seq<Seq<char>>
    decreases k,
{
    if k == 0 {
        Seq::empty()
    } else {
        let rest = texts_upto(items, (k - 1) as nat);
        match items[k - 1] {
            JsonModel::String(t) => rest.push(t),
            _ => rest,
        }
    }
}

/// The type tags of an object as written: the texts of its `@type` member.
pub open spec fn raw_types(m: Members) -> Seq<Seq<char>> {
    match lookup(m, "@type"@) {
        Some(JsonModel::String(t)) => seq![t],
        Some(JsonModel::Array(tags)) => texts_upto(tags, tags.len()),
        _ => Seq::empty(),
    }
}

/// The views of the items of an array are the items of its view.
pub proof fn lemma_array_view(items: Vec<JsonValue>)
    ensures
        JsonValue::Array(items)@ is Array,
        JsonValue::Array(items)@->Array_0.len() == items@.len(),
        forall|i: int|
            0 <= i < items@.len() ==> (#[trigger] JsonValue::Array(items)@->Array_0[i]) == items@[i]@,
{
    let value = JsonValue::Array(items);
    let seen = value@->Array_0;
    assert(seen.len() == items@.len());
}

/// The kind that a text value names, if it is a text and names one.
fn tag_kind(value: &JsonValue) -> (r: Option<EntityKind>)
    ensures
        r is Some <==> value@ is String && kind_of_tag(value@->String_0) is Some,
        r is Some ==> r == kind_of_tag(value@->String_0),
{
    match value {
        JsonValue::String(t) => EntityKind::from_tag(t),
        _ => None,
    }
}

/// The kind that the type tags of an object declare.
pub fn declared_kind_of(members: &Vec<Member>, default_kind: Option<EntityKind>) -> (r: Option<
    EntityKind,
>)
    ensures
        r == declared_kind(member_views(members@), default_kind),
{
    match lookup_member(members, "@type") {
        None => default_kind,
        Some(value) => {
            match value {
                JsonValue::String(t) => EntityKind::from_tag(t),
                JsonValue::Array(items) => {
                    proof {
                        lemma_array_view(*items);
                    }
                    let ghost tags = value@->Array_0;
                    if items.len() == 0 {
                        return None;
                    }
                    let kind = match tag_kind(&items[0]) {
                        None => {
                            return None;
                        },
                        Some(kind) => kind,
                    };
                    let mut i: usize = 0;
                    while i < items.len()
                        invariant
                            i <= items@.len(),
                            tags.len() == items@.len(),
                            tags.len() > 0,
                            lookup(member_views(members@), "@type"@) == Some(JsonModel::Array(tags)),
                            tags[0] is String && kind_of_tag(tags[0]->String_0) == Some(kind),
                            forall|j: int| 0 <= j < items@.len() ==> (#[trigger] tags[j]) == items@[j]@,
                            forall|j: int|
                                0 <= j < i ==> (#[trigger] tags[j]) is String && kind_of_tag(
                                    tags[j]->String_0,
                                ) == Some(kind),
                        decreases items@.len() - i,
                    {
                        match tag_kind(&items[i]) {
                            Some(other) => {
                                if other != kind {
                                    assert(!(tags[i as int] is String && kind_of_tag(
                                        tags[i as int]->String_0,
                                    ) == Some(kind)));
                                    return None;
                                }
                            },
                            None => {
                                assert(!(tags[i as int] is String && kind_of_tag(
                                    tags[i as int]->String_0,
                                ) == Some(kind)));
                                return None;
                            },
                        }
                        i += 1;
                    }
                    Some(kind)
                },
                _ => None,
            }
        },
    }
}

/// The type tags of an object as written.
pub fn raw_types_of(members: &Vec<Member>) -> (r: Vec<String>)
    ensures
        views(r@) == raw_types(member_views(members@)),
{
    let mut r: Vec<String> = Vec::new();
    match lookup_member(members, "@type") {
        Some(value) => {
            match value {
                JsonValue::String(t) => {
                    r.push(t.clone());
                    assert(views(r@) =~= seq![t@]);
                },
                JsonValue::Array(items) => {
                    proof {
                        lemma_array_view(*items);
                    }
                    let ghost tags = value@->Array_0;
                    let mut i: usize = 0;
                    assert(views(r@) =~= texts_upto(tags, 0));
                    while i < items.len()
                        invariant
                            i <= items@.len(),
                            tags.len() == items@.len(),
                            forall|j: int| 0 <= j < items@.len() ==> (#[trigger] tags[j]) == items@[j]@,
                            views(r@) == texts_upto(tags, i as nat),
                        decreases items@.len() - i,
                    {
                        match &items[i] {
                            JsonValue::String(t) => {
                                let ghost before = r@;
                                r.push(t.clone());
                                assert(views(r@) =~= views(before).push(t@));
                            },
                            _ => {},
                        }
                        i += 1;
                    }
                },
                _ => {
                    assert(views(r@) =~= Seq::<Seq<char>>::empty());
                },
            }
        },
        None => {
            assert(views(r@) =~= Seq::<Seq<char>>::empty());
        },
    }
    r
}

} // verus!

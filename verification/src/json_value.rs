//! Semi-structured values as they come out of a JSON reader: the raw input
//! of the parser, and what an entity keeps of the members it does not
//! interpret.
use vstd::prelude::*;
use crate::text::{find, lemma_find_first};

verus! {

/// A JSON value. A number is held as the text it was written with.
#[derive(Debug, PartialEq, Eq)]
pub enum JsonValue {
    Null,
    Bool(bool),
    Number(String),
    String(String),
    Array(Vec<JsonValue>),
    Object(Vec<Member>),
}

/// One member of a JSON object.
#[derive(Debug, PartialEq, Eq)]
pub struct Member {
    pub name: String,
    pub value: JsonValue,
}

/// What a JSON value is, apart from how it is stored.
pub enum JsonModel {
    Null,
    Bool(bool),
    Number(Seq<char>),
    String(Seq<char>),
    Array(Seq<JsonModel>),
    Object(Seq<(Seq<char>, JsonModel)>),
}

impl JsonValue {
    /// What the value is: its shape and contents.
    pub open spec fn model(&self) -> JsonModel
        decreases self,
    {
        match self {
            JsonValue::Null => JsonModel::Null,
            JsonValue::Bool(b) => JsonModel::Bool(*b),
            JsonValue::Number(t) => JsonModel::Number(t@),
            JsonValue::String(t) => JsonModel::String(t@),
            JsonValue::Array(items) => JsonModel::Array(
                Seq::new(
                    items@.len(),
                    |i: int|
                        if 0 <= i < items@.len() {
                            items@[i].model()
                        } else {
                            JsonModel::Null
                        },
                ),
            ),
            JsonValue::Object(members) => JsonModel::Object(
                Seq::new(
                    members@.len(),
                    |i: int|
                        if 0 <= i < members@.len() {
                            (members@[i].name@, members@[i].value.model())
                        } else {
                            (Seq::empty(), JsonModel::Null)
                        },
                ),
            ),
        }
    }
}

impl View for JsonValue {
    type V = JsonModel;

    open spec fn view(&self) -> JsonModel {
        self.model()
    }
}

impl View for Member {
    type V = (Seq<char>, JsonModel);

    open spec fn view(&self) -> (Seq<char>, JsonModel) {
        (self.name@, self.value@)
    }
}

/// The members as name and value, in order.
pub open spec fn member_views(members: Seq<Member>) -> Seq<(Seq<char>, JsonModel)> {
    members.map_values(|m: Member| m@)
}

/// The names of the members, in order.
pub open spec fn member_names(members: Seq<Member>) -> Seq<Seq<char>> {
    members.map_values(|m: Member| m.name@)
}

/// Position of the first member called `name`, or the number of members if
/// there is none.
pub open spec fn member_position(members: Seq<Member>, name: Seq<char>) -> nat {
    find(member_names(members), name)
}

/// Whether a member called `name` is there.
pub open spec fn has_member(members: Seq<Member>, name: Seq<char>) -> bool {
    member_position(members, name) < members.len()
}

/// The view of an object is the views of its members.
pub proof fn lemma_object_view(members: Vec<Member>)
    ensures
        JsonValue::Object(members)@ == JsonModel::Object(member_views(members@)),
{
    let value = JsonValue::Object(members);
    let seen = value@->Object_0;
    assert(seen.len() == members@.len());
    assert forall|i: int| 0 <= i < seen.len() implies seen[i] == member_views(members@)[i] by {
        assert(seen[i] == (members@[i].name@, members@[i].value@));
    }
    assert(seen =~= member_views(members@));
}

impl JsonValue {
    /// A copy of the value.
    pub fn deep_clone(&self) -> (r: JsonValue)
        ensures
            r@ == self@,
        decreases self,
    {
        match self {
            JsonValue::Null => JsonValue::Null,
            JsonValue::Bool(b) => JsonValue::Bool(*b),
            JsonValue::Number(t) => JsonValue::Number(t.clone()),
            JsonValue::String(t) => JsonValue::String(t.clone()),
            JsonValue::Array(items) => {
                let mut out: Vec<JsonValue> = Vec::new();
                let mut i: usize = 0;
                while i < items.len()
                    invariant
                        i <= items@.len(),
                        out@.len() == i,
                        forall|j: int| 0 <= j < i ==> out@[j]@ == items@[j]@,
                        self == JsonValue::Array(*items),
                    decreases items@.len() - i,
                {
                    proof {
                        assert(decreases_to!(*self => (*self)->Array_0));
                        assert(decreases_to!(items => items@));
                        assert(decreases_to!(items@ => items@[i as int]));
                    }
                    out.push(items[i].deep_clone());
                    i += 1;
                }
                let r = JsonValue::Array(out);
                assert(r@->Array_0 =~= self@->Array_0);
                r
            },
            JsonValue::Object(members) => {
                let mut out: Vec<Member> = Vec::new();
                let mut i: usize = 0;
                while i < members.len()
                    invariant
                        i <= members@.len(),
                        out@.len() == i,
                        forall|j: int| 0 <= j < i ==> out@[j]@ == members@[j]@,
                        self == JsonValue::Object(*members),
                    decreases members@.len() - i,
                {
                    proof {
                        assert(decreases_to!(*self => (*self)->Object_0));
                        assert(decreases_to!(members => members@));
                        assert(decreases_to!(members@ => members@[i as int]));
                        assert(decreases_to!(members@[i as int] => members@[i as int].value));
                    }
                    let value = members[i].value.deep_clone();
                    out.push(Member { name: members[i].name.clone(), value });
                    i += 1;
                }
                let r = JsonValue::Object(out);
                assert(r@->Object_0 =~= self@->Object_0);
                r
            },
        }
    }

    /// The text of a string value.
    pub fn as_text(&self) -> (r: Option<&String>)
        ensures
            match r {
                Some(t) => *self == JsonValue::String(*t),
                None => !(self is String),
            },
    {
        match self {
            JsonValue::String(t) => Some(t),
            _ => None,
        }
    }

    /// The members of an object value.
    pub fn as_members(&self) -> (r: Option<&Vec<Member>>)
        ensures
            match r {
                Some(m) => *self == JsonValue::Object(*m),
                None => !(self is Object),
            },
    {
        match self {
            JsonValue::Object(m) => Some(m),
            _ => None,
        }
    }

    /// The items of an array value.
    pub fn as_items(&self) -> (r: Option<&Vec<JsonValue>>)
        ensures
            match r {
                Some(v) => *self == JsonValue::Array(*v),
                None => !(self is Array),
            },
    {
        match self {
            JsonValue::Array(v) => Some(v),
            _ => None,
        }
    }
}

impl Clone for JsonValue {
    fn clone(&self) -> (r: Self)
        ensures
            r@ == self@,
    {
        self.deep_clone()
    }
}

impl Clone for Member {
    fn clone(&self) -> (r: Self)
        ensures
            r@ == self@,
    {
        Member { name: self.name.clone(), value: self.value.deep_clone() }
    }
}

/// Position of the first member called `name`, if there is one.
pub fn find_member(members: &Vec<Member>, name: &str) -> (r: Option<usize>)
    ensures
        match r {
            Some(i) => i == member_position(members@, name@) && i < members@.len(),
            None => !has_member(members@, name@),
        },
{
    let key: String = name.to_owned();
    let mut i: usize = 0;
    while i < members.len()
        invariant
            i <= members@.len(),
            key@ == name@,
            forall|j: int| 0 <= j < i ==> member_names(members@)[j] != name@,
        decreases members@.len() - i,
    {
        if members[i].name == key {
            proof {
                lemma_find_first(member_names(members@), name@, i as int);
            }
            return Some(i);
        }
        i += 1;
    }
    proof {
        lemma_find_first(member_names(members@), name@, i as int);
    }
    None
}

/// The value of the first member called `name`, if there is one.
pub fn get_member<'a>(members: &'a Vec<Member>, name: &str) -> (r: Option<&'a JsonValue>)
    ensures
        match r {
            Some(v) => has_member(members@, name@) && *v == members@[member_position(
                members@,
                name@,
            ) as int].value,
            None => !has_member(members@, name@),
        },
{
    match find_member(members, name) {
        Some(i) => Some(&members[i].value),
        None => None,
    }
}

} // verus!

//! Reading the members of an object that refer to other entities. A
//! reference is written as the identifier of the other entity, as the name
//! of a primitive schema, or as the other entity itself, in place. An entity
//! written in place is named by its own `@id` or, without one, by the
//! identifier of its owner with one more label: its name where it is a
//! named child, the name of the member that holds it otherwise.
use vstd::prelude::*;
use crate::members::{lemma_array_view, lookup, lookup_member, Members};
use crate::dtmi::{dtmi_of_text, valid_label, Dtmi, DtmiView};
use crate::entity::{expected_kind, is_child_field, EntityField};
use crate::entity_kind::{primitive_of_name, EntityKind, ExpectedKind};
use crate::error::{ErrorView, ParseError};
use crate::json_value::{lemma_object_view, member_views, JsonModel, JsonValue, Member};
use crate::rules::{field_rule, Rule};
use crate::standard::{primitive_id, primitive_schema_id};

verus! {

/// Where an entity written in place stands among the members of its
/// owner: the position of the member and, inside a list, the position of
/// the item.
pub type Place = (usize, Option<usize>);

/// What a reference says: the field, the identifier referred to, and, where
/// the entity is written in place, where it stands and the kind it has if
/// it declares none.
pub struct LinkView {
    pub field: EntityField,
    pub target: DtmiView,
    pub place: Option<Place>,
    pub default_kind: Option<EntityKind>,
}

/// A reference as it was read.
#[derive(Debug)]
pub struct Link {
    pub field: EntityField,
    pub target: Dtmi,
    pub place: Option<Place>,
    pub default_kind: Option<EntityKind>,
}

impl View for Link {
    type V = LinkView;

    open spec fn view(&self) -> LinkView {
        LinkView {
            field: self.field,
            target: self.target@,
            place: self.place,
            default_kind: self.default_kind,
        }
    }
}

/// What the links say, in order.
pub open spec fn link_views(links: Seq<Link>) -> Seq<LinkView> {
    links.map_values(|l: Link| l@)
}

/// The identifier one label below `owner`.
pub open spec fn push_label(owner: DtmiView, label: Seq<char>) -> DtmiView {
    DtmiView { labels: owner.labels.push(label), version: owner.version }
}

/// The label that names an entity written in place under its owner.
pub open spec fn child_label(child: Members, member_name: Seq<char>, field: EntityField) -> Option<
    Seq<char>,
> {
    if is_child_field(field) {
        match lookup(child, "name"@) {
            Some(JsonModel::String(t)) => Some(t),
            _ => None,
        }
    } else {
        Some(member_name)
    }
}

/// The identifier of an entity written in place.
pub open spec fn child_id(
    child: Members,
    owner: DtmiView,
    member_name: Seq<char>,
    field: EntityField,
) -> Result<DtmiView, ErrorView> {
    match lookup(child, "@id"@) {
        Some(JsonModel::String(t)) => match dtmi_of_text(t) {
            Some(v) => Ok(v),
            None => Err(ErrorView::MalformedIdentifier { text: t }),
        },
        Some(_) => Err(ErrorView::MalformedIdentifier { text: Seq::empty() }),
        None => match child_label(child, member_name, field) {
            Some(label) => if valid_label(label) {
                Ok(push_label(owner, label))
            } else {
                Err(ErrorView::MissingRequiredField { id: owner, field })
            },
            None => Err(ErrorView::MissingRequiredField { id: owner, field }),
        },
    }
}

/// The identifier that a text refers to: a primitive schema by its name,
/// where the field expects a schema; otherwise the identifier written.
pub open spec fn text_target(t: Seq<char>, owner_kind: EntityKind, field: EntityField) -> Result<
    DtmiView,
    ErrorView,
> {
    if expected_kind(owner_kind, field) == Some(ExpectedKind::Schema) && primitive_of_name(t) is Some {
        Ok(primitive_id(primitive_of_name(t).unwrap()))
    } else {
        match dtmi_of_text(t) {
            Some(v) => Ok(v),
            None => Err(ErrorView::MalformedIdentifier { text: t }),
        }
    }
}

/// What one value in a reference member says.
pub open spec fn one_link(
    value: JsonModel,
    owner: DtmiView,
    owner_kind: EntityKind,
    member_name: Seq<char>,
    rule: Rule,
    place: Place,
) -> Result<LinkView, ErrorView> {
    match value {
        JsonModel::String(t) => match text_target(t, owner_kind, rule.field) {
            Ok(target) => Ok(
                LinkView { field: rule.field, target, place: None, default_kind: rule.default_kind },
            ),
            Err(e) => Err(e),
        },
        JsonModel::Object(child) => match child_id(child, owner, member_name, rule.field) {
            Ok(target) => Ok(
                LinkView {
                    field: rule.field,
                    target,
                    place: Some(place),
                    default_kind: rule.default_kind,
                },
            ),
            Err(e) => Err(e),
        },
        _ => Err(ErrorView::MissingRequiredField { id: owner, field: rule.field }),
    }
}

/// What the first `k` items of a list in a reference member say.
pub open spec fn item_links(
    items: Seq<JsonModel>,
    owner: DtmiView,
    owner_kind: EntityKind,
    member_name: Seq<char>,
    rule: Rule,
    at: usize,
    k: nat,
) -> Result<Seq<LinkView>, ErrorView>
    decreases k,
{
    if k == 0 {
        Ok(Seq::empty())
    } else {
        match item_links(items, owner, owner_kind, member_name, rule, at, (k - 1) as nat) {
            Err(e) => Err(e),
            Ok(links) => match one_link(
                items[k - 1],
                owner,
                owner_kind,
                member_name,
                rule,
                (at, Some((k - 1) as usize)),
            ) {
                Err(e) => Err(e),
                Ok(link) => Ok(links.push(link)),
            },
        }
    }
}

/// What a reference member says: a list, where the rule admits one, says
/// what its items say; any other value stands for one reference.
pub open spec fn member_links(
    value: JsonModel,
    owner: DtmiView,
    owner_kind: EntityKind,
    member_name: Seq<char>,
    rule: Rule,
    at: usize,
) -> Result<Seq<LinkView>, ErrorView> {
    if rule.many && value is Array {
        item_links(value->Array_0, owner, owner_kind, member_name, rule, at, value->Array_0.len())
    } else {
        match one_link(value, owner, owner_kind, member_name, rule, (at, None)) {
            Err(e) => Err(e),
            Ok(link) => Ok(seq![link]),
        }
    }
}

/// What the first `k` members say of references, for an entity of kind
/// `kind` under dialect `version`.
pub open spec fn links_upto(
    m: Members,
    owner: DtmiView,
    kind: EntityKind,
    version: i32,
    k: nat,
) -> Result<Seq<LinkView>, ErrorView>
    decreases k,
{
    if k == 0 {
        Ok(Seq::empty())
    } else {
        match links_upto(m, owner, kind, version, (k - 1) as nat) {
            Err(e) => Err(e),
            Ok(links) => match field_rule(kind, version, m[k - 1].0) {
                None => Ok(links),
                Some(rule) => match member_links(
                    m[k - 1].1,
                    owner,
                    kind,
                    m[k - 1].0,
                    rule,
                    (k - 1) as usize,
                ) {
                    Err(e) => Err(e),
                    Ok(more) => Ok(links + more),
                },
            },
        }
    }
}

/// The identifier of an entity written in place.
pub fn child_id_of(child: &Vec<Member>, owner: &Dtmi, member_name: &String, field: EntityField) -> (r:
    Result<Dtmi, ParseError>)
    ensures
        match r {
            Ok(id) => child_id(member_views(child@), owner@, member_name@, field) == Ok::<
                DtmiView,
                ErrorView,
            >(id@),
            Err(e) => child_id(member_views(child@), owner@, member_name@, field) == Err::<
                DtmiView,
                ErrorView,
            >(e@),
        },
{
    match lookup_member(child, "@id") {
        Some(value) => {
            match value {
                JsonValue::String(t) => match Dtmi::parse(t.as_str()) {
                    Ok(id) => Ok(id),
                    Err(e) => Err(ParseError::MalformedIdentifier { text: e.text }),
                },
                _ => Err(ParseError::MalformedIdentifier { text: String::new() }),
            }
        },
        None => {
            if field.is_child_field() {
                match lookup_member(child, "name") {
                    Some(value) => {
                        match value {
                            JsonValue::String(t) => match owner.child(t.as_str()) {
                                Some(id) => Ok(id),
                                None => Err(
                                    ParseError::MissingRequiredField { id: owner.clone(), field },
                                ),
                            },
                            _ => Err(ParseError::MissingRequiredField { id: owner.clone(), field }),
                        }
                    },
                    None => Err(ParseError::MissingRequiredField { id: owner.clone(), field }),
                }
            } else {
                match owner.child(member_name.as_str()) {
                    Some(id) => Ok(id),
                    None => Err(ParseError::MissingRequiredField { id: owner.clone(), field }),
                }
            }
        },
    }
}

/// The identifier that a text refers to.
pub fn text_target_of(t: &String, owner_kind: EntityKind, field: EntityField) -> (r: Result<
    Dtmi,
    ParseError,
>)
    ensures
        match r {
            Ok(id) => text_target(t@, owner_kind, field) == Ok::<DtmiView, ErrorView>(id@),
            Err(e) => text_target(t@, owner_kind, field) == Err::<DtmiView, ErrorView>(e@),
        },
{
    let expects_schema = match field.expected_kind(owner_kind) {
        Some(ExpectedKind::Schema) => true,
        _ => false,
    };
    if expects_schema {
        match EntityKind::primitive_from_name(t) {
            Some(kind) => {
                return Ok(primitive_schema_id(kind));
            },
            None => {},
        }
    }
    match Dtmi::parse(t.as_str()) {
        Ok(id) => Ok(id),
        Err(e) => Err(ParseError::MalformedIdentifier { text: e.text }),
    }
}

/// What one value in a reference member says. `place` is where the value
/// stands.
pub fn link_of(
    value: &JsonValue,
    owner: &Dtmi,
    owner_kind: EntityKind,
    member_name: &String,
    rule: Rule,
    place: (usize, Option<usize>),
) -> (r: Result<Link, ParseError>)
    ensures
        match r {
            Ok(l) => one_link(value@, owner@, owner_kind, member_name@, rule, place) == Ok::<
                LinkView,
                ErrorView,
            >(l@) && (l.place is Some <==> value@ is Object),
            Err(e) => one_link(value@, owner@, owner_kind, member_name@, rule, place) == Err::<
                LinkView,
                ErrorView,
            >(e@),
        },
{
    match value {
        JsonValue::String(t) => match text_target_of(t, owner_kind, rule.field) {
            Ok(target) => Ok(
                Link { field: rule.field, target, place: None, default_kind: rule.default_kind },
            ),
            Err(e) => Err(e),
        },
        JsonValue::Object(child) => {
            proof {
                lemma_object_view(*child);
            }
            match child_id_of(child, owner, member_name, rule.field) {
                Ok(target) => Ok(
                    Link {
                        field: rule.field,
                        target,
                        place: Some(place),
                        default_kind: rule.default_kind,
                    },
                ),
                Err(e) => Err(e),
            }
        },
        JsonValue::Array(items) => {
            proof {
                lemma_array_view(*items);
            }
            Err(ParseError::MissingRequiredField { id: owner.clone(), field: rule.field })
        },
        _ => Err(ParseError::MissingRequiredField { id: owner.clone(), field: rule.field }),
    }
}

/// Whether the link, if it stands for an entity written in place, stands
/// for an object among the first `k` items of member `at`.
pub open spec fn item_place_ok(link: LinkView, items: Seq<JsonModel>, at: usize, k: nat) -> bool {
    link.place matches Some(p) ==> p.0 == at && p.1 is Some && p.1.unwrap() < k
        && items[p.1.unwrap() as int] is Object
}

/// The places of the links read from a list are places of objects in the
/// list.
pub proof fn lemma_item_places(
    items: Seq<JsonModel>,
    owner: DtmiView,
    owner_kind: EntityKind,
    member_name: Seq<char>,
    rule: Rule,
    at: usize,
    k: nat,
)
    requires
        k <= items.len() <= usize::MAX,
        item_links(items, owner, owner_kind, member_name, rule, at, k) is Ok,
    ensures
        forall|j: int|
            0 <= j < item_links(items, owner, owner_kind, member_name, rule, at, k)->Ok_0.len()
                ==> item_place_ok(
                #[trigger] item_links(items, owner, owner_kind, member_name, rule, at, k)->Ok_0[j],
                items,
                at,
                k,
            ),
    decreases k,
{
    if k > 0 {
        lemma_item_places(items, owner, owner_kind, member_name, rule, at, (k - 1) as nat);
        let rest = item_links(items, owner, owner_kind, member_name, rule, at, (k - 1) as nat)->Ok_0;
        let now = item_links(items, owner, owner_kind, member_name, rule, at, k)->Ok_0;
        assert forall|j: int| 0 <= j < now.len() implies item_place_ok(
            #[trigger] now[j],
            items,
            at,
            k,
        ) by {
            if j < rest.len() {
                assert(now[j] == rest[j]);
                assert(item_place_ok(rest[j], items, at, (k - 1) as nat));
            }
        }
    }
}

/// Whether the link, if it stands for an entity written in place, stands
/// for an object at its place among the first `k` members.
pub open spec fn link_place_ok(link: LinkView, m: Members, k: nat) -> bool {
    link.place matches Some(p) ==> {
        &&& p.0 < k
        &&& p.0 < m.len()
        &&& match p.1 {
            None => m[p.0 as int].1 is Object,
            Some(i) => m[p.0 as int].1 is Array && i < m[p.0 as int].1->Array_0.len()
                && m[p.0 as int].1->Array_0[i as int] is Object,
        }
    }
}

/// The places of the links read from an object are places of objects among
/// its members.
pub proof fn lemma_links_places(
    m: Members,
    owner: DtmiView,
    kind: EntityKind,
    version: i32,
    k: nat,
)
    requires
        k <= m.len() <= usize::MAX,
        forall|i: int|
            0 <= i < m.len() && (#[trigger] m[i]).1 is Array ==> m[i].1->Array_0.len() <= usize::MAX,
        links_upto(m, owner, kind, version, k) is Ok,
    ensures
        forall|j: int|
            0 <= j < links_upto(m, owner, kind, version, k)->Ok_0.len() ==> link_place_ok(
                #[trigger] links_upto(m, owner, kind, version, k)->Ok_0[j],
                m,
                k,
            ),
    decreases k,
{
    if k > 0 {
        lemma_links_places(m, owner, kind, version, (k - 1) as nat);
        let rest = links_upto(m, owner, kind, version, (k - 1) as nat)->Ok_0;
        let now = links_upto(m, owner, kind, version, k)->Ok_0;
        let at = (k - 1) as usize;
        let value = m[k - 1].1;
        match field_rule(kind, version, m[k - 1].0) {
            None => {
                assert forall|j: int| 0 <= j < now.len() implies link_place_ok(#[trigger] now[j], m, k) by {
                    assert(link_place_ok(rest[j], m, (k - 1) as nat));
                }
            },
            Some(rule) => {
                let more = member_links(value, owner, kind, m[k - 1].0, rule, at)->Ok_0;
                if rule.many && value is Array {
                    lemma_item_places(
                        value->Array_0,
                        owner,
                        kind,
                        m[k - 1].0,
                        rule,
                        at,
                        value->Array_0.len(),
                    );
                }
                assert forall|j: int| 0 <= j < now.len() implies link_place_ok(#[trigger] now[j], m, k) by {
                    if j < rest.len() {
                        assert(now[j] == rest[j]);
                        assert(link_place_ok(rest[j], m, (k - 1) as nat));
                    } else {
                        assert(now[j] == more[j - rest.len()]);
                        if rule.many && value is Array {
                            assert(item_place_ok(
                                more[j - rest.len()],
                                value->Array_0,
                                at,
                                value->Array_0.len(),
                            ));
                        }
                    }
                }
            },
        }
    }
}

/// Once an item cannot be read, taking more items into account changes
/// nothing.
pub proof fn lemma_item_links_error(
    items: Seq<JsonModel>,
    owner: DtmiView,
    owner_kind: EntityKind,
    member_name: Seq<char>,
    rule: Rule,
    at: usize,
    k1: nat,
    k2: nat,
)
    requires
        k1 <= k2,
        item_links(items, owner, owner_kind, member_name, rule, at, k1) is Err,
    ensures
        item_links(items, owner, owner_kind, member_name, rule, at, k2) == item_links(
            items,
            owner,
            owner_kind,
            member_name,
            rule,
            at,
            k1,
        ),
    decreases k2,
{
    if k1 < k2 {
        lemma_item_links_error(items, owner, owner_kind, member_name, rule, at, k1, (k2 - 1) as nat);
    }
}

/// Once a member cannot be read, taking more members into account changes
/// nothing.
pub proof fn lemma_links_error(
    m: Members,
    owner: DtmiView,
    kind: EntityKind,
    version: i32,
    k1: nat,
    k2: nat,
)
    requires
        k1 <= k2,
        links_upto(m, owner, kind, version, k1) is Err,
    ensures
        links_upto(m, owner, kind, version, k2) == links_upto(m, owner, kind, version, k1),
    decreases k2,
{
    if k1 < k2 {
        lemma_links_error(m, owner, kind, version, k1, (k2 - 1) as nat);
    }
}

/// Reads the references that member `at` holds and adds them to `out`.
pub(crate) fn member_links_of(
    members: &Vec<Member>,
    at: usize,
    owner: &Dtmi,
    owner_kind: EntityKind,
    rule: Rule,
    out: &mut Vec<Link>,
) -> (r: Result<(), ParseError>)
    requires
        at < members@.len(),
    ensures
        match r {
            Ok(_) => {
                let said = member_links(
                    members@[at as int].value@,
                    owner@,
                    owner_kind,
                    members@[at as int].name@,
                    rule,
                    at,
                );
                said is Ok && link_views(final(out)@) == link_views(old(out)@) + said->Ok_0
            },
            Err(e) => member_links(
                members@[at as int].value@,
                owner@,
                owner_kind,
                members@[at as int].name@,
                rule,
                at,
            ) == Err::<Seq<LinkView>, ErrorView>(e@),
        },
{
    let member = &members[at];
    let ghost before = link_views(out@);
    match &member.value {
        JsonValue::Array(items) => {
            proof {
                lemma_array_view(*items);
            }
            if rule.many {
                let ghost tags = member.value@->Array_0;
                let mut i: usize = 0;
                assert(link_views(out@) =~= before + Seq::<LinkView>::empty());
                while i < items.len()
                    invariant
                        at < members@.len(),
                        member == members@[at as int],
                        member.value == JsonValue::Array(*items),
                        member.value@ is Array,
                        rule.many,
                        tags == member.value@->Array_0,
                        tags.len() == items@.len(),
                        forall|j: int| 0 <= j < items@.len() ==> (#[trigger] tags[j]) == items@[j]@,
                        i <= items@.len(),
                        item_links(tags, owner@, owner_kind, member.name@, rule, at, i as nat) is Ok,
                        link_views(out@) == before + item_links(
                            tags,
                            owner@,
                            owner_kind,
                            member.name@,
                            rule,
                            at,
                            i as nat,
                        )->Ok_0,
                    decreases items@.len() - i,
                {
                    let ghost done = item_links(
                        tags,
                        owner@,
                        owner_kind,
                        member.name@,
                        rule,
                        at,
                        i as nat,
                    )->Ok_0;
                    let ghost old_out = out@;
                    match link_of(&items[i], owner, owner_kind, &member.name, rule, (at, Some(i))) {
                        Err(e) => {
                            proof {
                                lemma_item_links_error(
                                    tags,
                                    owner@,
                                    owner_kind,
                                    member.name@,
                                    rule,
                                    at,
                                    (i + 1) as nat,
                                    tags.len(),
                                );
                            }
                            return Err(e);
                        },
                        Ok(link) => {
                            out.push(link);
                            proof {
                                assert(link_views(out@) =~= link_views(old_out).push(link@));
                                assert(link_views(out@) =~= before + done.push(link@));
                            }
                        },
                    }
                    i += 1;
                }
                return Ok(());
            }
        },
        _ => {},
    }
    let ghost old_out = out@;
    match link_of(&member.value, owner, owner_kind, &member.name, rule, (at, None)) {
        Err(e) => Err(e),
        Ok(link) => {
            out.push(link);
            proof {
                assert(link_views(out@) =~= link_views(old_out).push(link@));
                assert(link_views(out@) =~= before + seq![link@]);
            }
            Ok(())
        },
    }
}

/// Reads the references of an object, for an entity of kind `kind` with
/// identifier `owner` under dialect `version`. The error is that of the
/// first value that cannot be read.
pub fn links_of(members: &Vec<Member>, owner: &Dtmi, kind: EntityKind, version: i32) -> (r: Result<
    Vec<Link>,
    ParseError,
>)
    ensures
        match r {
            Ok(links) => links_upto(
                member_views(members@),
                owner@,
                kind,
                version,
                members@.len(),
            ) == Ok::<Seq<LinkView>, ErrorView>(link_views(links@)),
            Err(e) => links_upto(member_views(members@), owner@, kind, version, members@.len())
                == Err::<Seq<LinkView>, ErrorView>(e@),
        },
{
    let mut out: Vec<Link> = Vec::new();
    let ghost m = member_views(members@);
    let mut k: usize = 0;
    assert(link_views(out@) =~= Seq::<LinkView>::empty());
    while k < members.len()
        invariant
            k <= members@.len(),
            m == member_views(members@),
            links_upto(m, owner@, kind, version, k as nat) == Ok::<Seq<LinkView>, ErrorView>(
                link_views(out@),
            ),
        decreases members@.len() - k,
    {
        assert(m[k as int] == (members@[k as int].name@, members@[k as int].value@));
        match kind.field_rule(version, &members[k].name) {
            None => {},
            Some(rule) => {
                match member_links_of(members, k, owner, kind, rule, &mut out) {
                    Err(e) => {
                        proof {
                            lemma_links_error(m, owner@, kind, version, (k + 1) as nat, m.len());
                        }
                        return Err(e);
                    },
                    Ok(_) => {},
                }
            },
        }
        k += 1;
    }
    Ok(out)
}

} // verus!

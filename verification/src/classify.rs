//! Classification: what one object of a model document says. From the
//! members of the object and the scope it stands in come the kind of the
//! entity, its name, its references to other entities, and the members it
//! leaves uninterpreted, which the entity keeps as they are.
use vstd::prelude::*;
use crate::dtmi::{Dtmi, DtmiView};
use crate::entity::{
    optional_id, reference_views, Entity, EntityField, EntityView, Reference,
};
use crate::entity_kind::EntityKind;
use crate::error::{ErrorView, ParseError};
use crate::json_value::{member_views, JsonModel, JsonValue, Member};
use crate::members::{
    declared_kind, declared_kind_of, distinct_member_names, lookup, lookup_member, raw_types,
    raw_types_of, Members,
};
use crate::references::{link_views, links_of, links_upto, Link, LinkView};
use crate::rules::{name_rule, recognized, requires_schema, NameRule};

verus! {

/// Where an object stands: the dialect in force, the identifier it has, the
/// entity that contains it, the root of its document, the kind it has if it
/// declares none, and whether its `@context` member gives the dialect.
#[derive(Debug)]
pub struct Scope {
    pub dtdl_version: i32,
    pub id: Dtmi,
    pub child_of: Option<Dtmi>,
    pub defined_in: Option<Dtmi>,
    pub default_kind: Option<EntityKind>,
    pub context: bool,
}

/// What a scope says, apart from how it is stored.
pub struct ScopeView {
    pub dtdl_version: i32,
    pub id: DtmiView,
    pub child_of: Option<DtmiView>,
    pub defined_in: Option<DtmiView>,
    pub default_kind: Option<EntityKind>,
    pub context: bool,
}

impl View for Scope {
    type V = ScopeView;

    open spec fn view(&self) -> ScopeView {
        ScopeView {
            dtdl_version: self.dtdl_version,
            id: self.id@,
            child_of: optional_id(self.child_of),
            defined_in: optional_id(self.defined_in),
            default_kind: self.default_kind,
            context: self.context,
        }
    }
}

/// What an object says: the entity, and its references with what is
/// written in place.
pub struct ClassifiedView {
    pub entity: EntityView,
    pub links: Seq<LinkView>,
}

/// The outcome of classifying an object.
#[derive(Debug)]
pub struct Classified {
    pub entity: Entity,
    pub links: Vec<Link>,
}

/// Those of the first `k` members that an entity of kind `kind` does not
/// interpret, in order.
pub open spec fn extras_upto(
    m: Members,
    kind: EntityKind,
    version: i32,
    context: bool,
    k: nat,
) -> Members
    decreases k,
{
    if k == 0 {
        Seq::empty()
    } else {
        let rest = extras_upto(m, kind, version, context, (k - 1) as nat);
        if recognized(kind, version, context, m[k - 1].0) {
            rest
        } else {
            rest.push(m[k - 1])
        }
    }
}

/// The members that an entity of kind `kind` does not interpret, in order.
pub open spec fn extra_members(m: Members, kind: EntityKind, version: i32, context: bool) -> Members {
    extras_upto(m, kind, version, context, m.len())
}

/// The name that the members give an entity of kind `kind`: `None` where
/// the kind requires a name and there is none, or where the name is no
/// text.
pub open spec fn name_of(m: Members, kind: EntityKind) -> Option<Option<Seq<char>>> {
    match name_rule(kind) {
        NameRule::Unrecognized => Some(None),
        NameRule::Required => match lookup(m, "name"@) {
            Some(JsonModel::String(t)) => Some(Some(t)),
            _ => None,
        },
        NameRule::Optional => match lookup(m, "name"@) {
            None => Some(None),
            Some(JsonModel::String(t)) => Some(Some(t)),
            Some(_) => None,
        },
    }
}

/// The references that the links stand for.
pub open spec fn link_references(links: Seq<LinkView>) -> Seq<(EntityField, DtmiView)> {
    links.map_values(|l: LinkView| (l.field, l.target))
}

/// What an object with members `m` says in scope `scope`. The kind comes
/// first: without one, nothing else is read. Then the name, then the
/// schema where the kind requires one, then the references in the order of
/// the members.
pub open spec fn classified(m: Members, scope: ScopeView) -> Result<ClassifiedView, ErrorView> {
    match declared_kind(m, scope.default_kind) {
        None => Err(ErrorView::UnknownEntityKind { id: scope.id, types: raw_types(m) }),
        Some(kind) => match name_of(m, kind) {
            None => Err(ErrorView::MissingRequiredField { id: scope.id, field: EntityField::Name }),
            Some(name) => if requires_schema(kind) && lookup(m, "schema"@) is None {
                Err(ErrorView::MissingRequiredField { id: scope.id, field: EntityField::Schema })
            } else {
                match links_upto(m, scope.id, kind, scope.dtdl_version, m.len()) {
                    Err(e) => Err(e),
                    Ok(links) => Ok(
                        ClassifiedView {
                            entity: EntityView {
                                dtdl_version: scope.dtdl_version,
                                id: scope.id,
                                child_of: scope.child_of,
                                defined_in: scope.defined_in,
                                undefined_properties: extra_members(
                                    m,
                                    kind,
                                    scope.dtdl_version,
                                    scope.context,
                                ),
                                kind,
                                name,
                                references: link_references(links),
                            },
                            links,
                        },
                    ),
                }
            },
        },
    }
}

/// Every member that the kind does not interpret is among the extra
/// members, with its value.
pub proof fn lemma_extras_keep(
    m: Members,
    kind: EntityKind,
    version: i32,
    context: bool,
    k: nat,
    i: int,
)
    requires
        0 <= i < k <= m.len(),
        !recognized(kind, version, context, m[i].0),
    ensures
        extras_upto(m, kind, version, context, k).contains(m[i]),
    decreases k,
{
    let rest = extras_upto(m, kind, version, context, (k - 1) as nat);
    if i == k - 1 {
        assert(rest.push(m[i])[rest.len() as int] == m[i]);
    } else {
        lemma_extras_keep(m, kind, version, context, (k - 1) as nat, i);
        let w = choose|w: int| 0 <= w < rest.len() && rest[w] == m[i];
        if !recognized(kind, version, context, m[k - 1].0) {
            assert(rest.push(m[k - 1])[w] == m[i]);
        }
    }
}

/// Where the kind interprets none of the members, all of them are extra.
pub proof fn lemma_extras_all(m: Members, kind: EntityKind, version: i32, context: bool, k: nat)
    requires
        k <= m.len(),
        forall|i: int| 0 <= i < m.len() ==> !recognized(kind, version, context, (#[trigger] m[i]).0),
    ensures
        extras_upto(m, kind, version, context, k) == m.take(k as int),
    decreases k,
{
    if k > 0 {
        lemma_extras_all(m, kind, version, context, (k - 1) as nat);
        assert(m.take(k as int) =~= m.take(k - 1).push(m[k - 1]));
    } else {
        assert(m.take(0) =~= Seq::<(Seq<char>, JsonModel)>::empty());
    }
}

/// The kind interprets none of the extra members.
pub proof fn lemma_extras_unrecognized(
    m: Members,
    kind: EntityKind,
    version: i32,
    context: bool,
    k: nat,
)
    requires
        k <= m.len(),
    ensures
        forall|j: int|
            0 <= j < extras_upto(m, kind, version, context, k).len() ==> !recognized(
                kind,
                version,
                context,
                (#[trigger] extras_upto(m, kind, version, context, k)[j]).0,
            ),
    decreases k,
{
    if k > 0 {
        lemma_extras_unrecognized(m, kind, version, context, (k - 1) as nat);
        let rest = extras_upto(m, kind, version, context, (k - 1) as nat);
        let now = extras_upto(m, kind, version, context, k);
        assert forall|j: int| 0 <= j < now.len() implies !recognized(
            kind,
            version,
            context,
            (#[trigger] now[j]).0,
        ) by {
            if j < rest.len() {
                assert(now[j] == rest[j]);
            }
        }
    }
}

/// Whether `x` is one of the members from position `lo` up to `hi`.
pub open spec fn member_between(m: Members, x: (Seq<char>, JsonModel), lo: int, hi: int) -> bool {
    exists|j: int| lo <= j < hi && #[trigger] m[j] == x
}

/// Every extra member is one of the members, and they keep their order;
/// so where no two members share a name, no two extra members do.
pub proof fn lemma_extras_come_from(
    m: Members,
    kind: EntityKind,
    version: i32,
    context: bool,
    k: nat,
)
    requires
        k <= m.len(),
    ensures
        extras_upto(m, kind, version, context, k).len() <= k,
        forall|w: int|
            0 <= w < extras_upto(m, kind, version, context, k).len() ==> #[trigger] member_between(
                m,
                extras_upto(m, kind, version, context, k)[w],
                w,
                k as int,
            ),
        distinct_member_names(m) ==> distinct_member_names(
            extras_upto(m, kind, version, context, k),
        ),
    decreases k,
{
    if k > 0 {
        lemma_extras_come_from(m, kind, version, context, (k - 1) as nat);
        let rest = extras_upto(m, kind, version, context, (k - 1) as nat);
        let now = extras_upto(m, kind, version, context, k);
        assert forall|w: int| 0 <= w < now.len() implies #[trigger] member_between(
            m,
            now[w],
            w,
            k as int,
        ) by {
            if w < rest.len() {
                assert(member_between(m, rest[w], w, k - 1));
                let j = choose|j: int| w <= j < k - 1 && #[trigger] m[j] == rest[w];
                assert(m[j] == now[w]);
            } else {
                assert(m[k - 1] == now[w]);
            }
        }
        if distinct_member_names(m) {
            assert forall|a: int, b: int| 0 <= a < b < now.len() implies (#[trigger] now[a]).0 != (
            #[trigger] now[b]).0 by {
                assert(member_between(m, rest[a], a, k - 1));
                let ja = choose|j: int| a <= j < k - 1 && #[trigger] m[j] == rest[a];
                if b < rest.len() {
                    assert(now[a] == rest[a] && now[b] == rest[b]);
                } else {
                    assert(now[b] == m[k - 1]);
                    assert(now[a] == m[ja]);
                }
            }
        }
    }
}

/// Unknown members survive reading again: an entity keeps every member that
/// its kind does not interpret, unchanged; and an object made of the
/// members that an entity kept gives, read under the same kind and
/// dialect, exactly those members again.
pub proof fn law_extras_round_trip(m: Members, kind: EntityKind, version: i32, context: bool)
    ensures
        forall|i: int|
            0 <= i < m.len() && !recognized(kind, version, context, (#[trigger] m[i]).0)
                ==> extra_members(m, kind, version, context).contains(m[i]),
        extra_members(extra_members(m, kind, version, context), kind, version, context)
            == extra_members(m, kind, version, context),
{
    assert forall|i: int|
        0 <= i < m.len() && !recognized(kind, version, context, (#[trigger] m[i]).0) implies extra_members(
        m,
        kind,
        version,
        context,
    ).contains(m[i]) by {
        lemma_extras_keep(m, kind, version, context, m.len(), i);
    }
    let x = extra_members(m, kind, version, context);
    lemma_extras_unrecognized(m, kind, version, context, m.len());
    lemma_extras_all(x, kind, version, context, x.len());
    assert(x.take(x.len() as int) =~= x);
}

/// The members that an entity of kind `kind` does not interpret, copied.
pub fn extras_of(members: &Vec<Member>, kind: EntityKind, version: i32, context: bool) -> (r: Vec<
    Member,
>)
    ensures
        member_views(r@) == extra_members(member_views(members@), kind, version, context),
        distinct_member_names(member_views(members@)) ==> distinct_member_names(member_views(r@)),
{
    proof {
        lemma_extras_come_from(member_views(members@), kind, version, context, members@.len());
    }
    let mut r: Vec<Member> = Vec::new();
    let ghost m = member_views(members@);
    let mut k: usize = 0;
    assert(member_views(r@) =~= extras_upto(m, kind, version, context, 0));
    while k < members.len()
        invariant
            k <= members@.len(),
            m == member_views(members@),
            member_views(r@) == extras_upto(m, kind, version, context, k as nat),
        decreases members@.len() - k,
    {
        assert(m[k as int] == members@[k as int]@);
        if !kind.recognizes(version, context, &members[k].name) {
            let ghost before = r@;
            let copy = Member { name: members[k].name.clone(), value: members[k].value.deep_clone() };
            r.push(copy);
            assert(member_views(r@) =~= member_views(before).push(m[k as int]));
        }
        k += 1;
    }
    r
}

/// The name that the members give an entity of kind `kind`.
pub fn name_from(members: &Vec<Member>, kind: EntityKind) -> (r: Option<Option<String>>)
    ensures
        match r {
            None => name_of(member_views(members@), kind) is None,
            Some(None) => name_of(member_views(members@), kind) == Some(None::<Seq<char>>),
            Some(Some(t)) => name_of(member_views(members@), kind) == Some(Some(t@)),
        },
{
    match kind.name_rule() {
        NameRule::Unrecognized => Some(None),
        NameRule::Required => match lookup_member(members, "name") {
            Some(value) => match value {
                JsonValue::String(t) => Some(Some(t.clone())),
                _ => None,
            },
            None => None,
        },
        NameRule::Optional => match lookup_member(members, "name") {
            None => Some(None),
            Some(value) => match value {
                JsonValue::String(t) => Some(Some(t.clone())),
                _ => None,
            },
        },
    }
}

/// The references that the links stand for.
fn references_of(links: &Vec<Link>) -> (r: Vec<Reference>)
    ensures
        reference_views(r@) == link_references(link_views(links@)),
{
    let mut r: Vec<Reference> = Vec::new();
    let mut i: usize = 0;
    while i < links.len()
        invariant
            i <= links@.len(),
            r@.len() == i,
            forall|j: int| 0 <= j < i ==> (#[trigger] r@[j])@ == (links@[j].field, links@[j].target@),
        decreases links@.len() - i,
    {
        r.push(Reference { field: links[i].field, target: links[i].target.clone() });
        i += 1;
    }
    assert(reference_views(r@) =~= link_references(link_views(links@)));
    r
}

/// Classifies an object: says what entity its members describe in the
/// scope. Fails where the type tags name no kind or more than one, where a
/// required name or schema is missing, and where a reference cannot be
/// read; never because of a member that the kind does not interpret.
pub fn classify_object(members: &Vec<Member>, scope: Scope) -> (r: Result<Classified, ParseError>)
    ensures
        match r {
            Ok(c) => classified(member_views(members@), scope@) == Ok::<ClassifiedView, ErrorView>(
                ClassifiedView { entity: c.entity@, links: link_views(c.links@) },
            ),
            Err(e) => classified(member_views(members@), scope@) == Err::<
                ClassifiedView,
                ErrorView,
            >(e@),
        },
        r is Ok && distinct_member_names(member_views(members@)) ==> distinct_member_names(
            r->Ok_0.entity@.undefined_properties,
        ),
{
    let kind = match declared_kind_of(members, scope.default_kind) {
        None => {
            return Err(
                ParseError::UnknownEntityKind { id: scope.id, types: raw_types_of(members) },
            );
        },
        Some(kind) => kind,
    };
    let name = match name_from(members, kind) {
        None => {
            return Err(ParseError::MissingRequiredField { id: scope.id, field: EntityField::Name });
        },
        Some(name) => name,
    };
    if kind.requires_schema() && lookup_member(members, "schema").is_none() {
        return Err(ParseError::MissingRequiredField { id: scope.id, field: EntityField::Schema });
    }
    let links = match links_of(members, &scope.id, kind, scope.dtdl_version) {
        Err(e) => {
            return Err(e);
        },
        Ok(links) => links,
    };
    let references = references_of(&links);
    let undefined_properties = extras_of(members, kind, scope.dtdl_version, scope.context);
    let entity = Entity {
        dtdl_version: scope.dtdl_version,
        id: scope.id,
        child_of: scope.child_of,
        defined_in: scope.defined_in,
        undefined_properties,
        kind,
        name,
        references,
    };
    Ok(Classified { entity, links })
}

} // verus!

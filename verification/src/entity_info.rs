//! Entities built by hand, one type for each of the common kinds, and the
//! capabilities that some kinds of entity have. Each of the types holds the
//! universal record and hands it out for resolution.
use vstd::prelude::*;
use crate::dtmi::{valid_dtmi, Dtmi, DtmiView};
use crate::entity::{optional_text, reference_views, Entity, EntityField, Reference};
use crate::entity_kind::EntityKind;
use crate::json_value::{member_names, member_views, JsonValue, Member};
use crate::members::distinct_member_names;
use crate::text::{find, lemma_find_first};

verus! {

/// The target of the first reference through `field`, if there is one.
pub open spec fn first_target(references: Seq<Reference>, field: EntityField, k: nat) -> Option<
    DtmiView,
>
    decreases references.len() - k,
{
    if k >= references.len() {
        None
    } else if references[k as int].field == field {
        Some(references[k as int].target@)
    } else {
        first_target(references, field, k + 1)
    }
}

/// The fields of `a` and `b` other than the uninterpreted members are the
/// same.
pub open spec fn same_but_properties(a: Entity, b: Entity) -> bool {
    &&& a.dtdl_version == b.dtdl_version
    &&& a.id == b.id
    &&& a.child_of == b.child_of
    &&& a.defined_in == b.defined_in
    &&& a.kind == b.kind
    &&& a.name == b.name
    &&& a.references == b.references
}

/// The members after a member called `key` was set to a value with view
/// `value`: replaced where one of that name was there, added at the end
/// otherwise.
pub open spec fn with_member(
    members: Seq<(Seq<char>, crate::json_value::JsonModel)>,
    key: Seq<char>,
    value: crate::json_value::JsonModel,
) -> Seq<(Seq<char>, crate::json_value::JsonModel)> {
    let at = find(crate::members::names_of(members), key);
    if at < members.len() {
        members.update(at as int, (key, value))
    } else {
        members.push((key, value))
    }
}

/// Setting a member keeps the names of the members distinct.
pub proof fn lemma_with_member_distinct(
    members: Seq<(Seq<char>, crate::json_value::JsonModel)>,
    key: Seq<char>,
    value: crate::json_value::JsonModel,
)
    requires
        distinct_member_names(members),
    ensures
        distinct_member_names(with_member(members, key, value)),
{
    let names = crate::members::names_of(members);
    let at = find(names, key);
    crate::text::lemma_find_bounds(names, key);
    let now = with_member(members, key, value);
    assert forall|a: int, b: int| 0 <= a < b < now.len() implies (#[trigger] now[a]).0 != (
    #[trigger] now[b]).0 by {
        if at < members.len() {
            assert(names[at as int] == members[at as int].0);
            assert(now[a].0 == members[a].0);
            assert(now[b].0 == members[b].0);
        } else {
            if b < members.len() {
                assert(now[a] == members[a] && now[b] == members[b]);
            } else {
                assert(names[a] == members[a].0);
                assert(now[a] == members[a]);
            }
        }
    }
}

impl Entity {
    /// The dialect in force where the entity was defined.
    pub fn dtdl_version(&self) -> (r: i32)
        ensures
            r == self.dtdl_version,
    {
        self.dtdl_version
    }

    /// The identifier.
    pub fn id(&self) -> (r: &Dtmi)
        ensures
            *r == self.id,
            valid_dtmi(r@),
    {
        proof {
            use_type_invariant(&self.id);
        }
        &self.id
    }

    /// The kind of entity.
    pub fn entity_kind(&self) -> (r: EntityKind)
        ensures
            r == self.kind,
    {
        self.kind
    }

    /// The identifier of the entity that contains this one.
    pub fn child_of(&self) -> (r: &Option<Dtmi>)
        ensures
            *r == self.child_of,
    {
        &self.child_of
    }

    /// The identifier of the root of the document that defines this
    /// entity.
    pub fn defined_in(&self) -> (r: &Option<Dtmi>)
        ensures
            *r == self.defined_in,
    {
        &self.defined_in
    }

    /// The members that the entity's kind does not interpret.
    pub fn undefined_properties(&self) -> (r: &Vec<Member>)
        ensures
            *r == self.undefined_properties,
    {
        &self.undefined_properties
    }

    /// The name.
    pub fn name(&self) -> (r: &Option<String>)
        ensures
            *r == self.name,
    {
        &self.name
    }

    /// Sets the uninterpreted member called `key` to `value`: replaces the
    /// first of that name, or adds one at the end.
    pub fn add_undefined_property(&mut self, key: String, value: JsonValue)
        ensures
            same_but_properties(*final(self), *old(self)),
            member_views(final(self).undefined_properties@) == with_member(
                member_views(old(self).undefined_properties@),
                key@,
                value@,
            ),
            distinct_member_names(member_views(old(self).undefined_properties@))
                ==> distinct_member_names(member_views(final(self).undefined_properties@)),
    {
        proof {
            if distinct_member_names(member_views(self.undefined_properties@)) {
                lemma_with_member_distinct(member_views(self.undefined_properties@), key@, value@);
            }
        }
        let ghost before = self.undefined_properties@;
        let ghost names = member_names(before);
        proof {
            crate::members::lemma_lookup(before, key@);
        }
        let mut i: usize = 0;
        while i < self.undefined_properties.len()
            invariant
                i <= self.undefined_properties@.len(),
                self.undefined_properties@ == before,
                before == old(self).undefined_properties@,
                distinct_member_names(member_views(before)) ==> distinct_member_names(
                    with_member(member_views(before), key@, value@),
                ),
                same_but_properties(*self, *old(self)),
                names == member_names(before),
                names == crate::members::names_of(member_views(before)),
                forall|j: int| 0 <= j < i ==> names[j] != key@,
            decreases self.undefined_properties@.len() - i,
        {
            if self.undefined_properties[i].name == key {
                proof {
                    lemma_find_first(names, key@, i as int);
                }
                let ghost added = (key@, value@);
                self.undefined_properties.set(i, Member { name: key, value });
                assert(member_views(self.undefined_properties@) =~= member_views(before).update(
                    i as int,
                    added,
                ));
                return ;
            }
            i += 1;
        }
        proof {
            lemma_find_first(names, key@, i as int);
        }
        let ghost added = (key@, value@);
        self.undefined_properties.push(Member { name: key, value });
        assert(member_views(self.undefined_properties@) =~= member_views(before).push(added));
    }

    /// The target of the first reference through `field`, if there is one.
    pub fn reference(&self, field: EntityField) -> (r: Option<&Dtmi>)
        ensures
            match r {
                Some(d) => first_target(self.references@, field, 0) == Some(d@),
                None => first_target(self.references@, field, 0) is None,
            },
    {
        let mut k: usize = 0;
        while k < self.references.len()
            invariant
                k <= self.references@.len(),
                first_target(self.references@, field, 0) == first_target(
                    self.references@,
                    field,
                    k as nat,
                ),
            decreases self.references@.len() - k,
        {
            if self.references[k].field == field {
                return Some(&self.references[k].target);
            }
            k += 1;
        }
        None
    }

    /// The schema, or for a component the interface.
    pub fn schema(&self) -> (r: Option<&Dtmi>)
        ensures
            match r {
                Some(d) => first_target(self.references@, EntityField::Schema, 0) == Some(d@),
                None => first_target(self.references@, EntityField::Schema, 0) is None,
            },
    {
        self.reference(EntityField::Schema)
    }
}

/// A command: what is sent to it and what it answers, either of which may
/// be absent.
pub trait CommandInfo {
    /// The identifier of the request, if the command has one.
    spec fn request_id(&self) -> Option<DtmiView>;

    /// The identifier of the response, if the command has one.
    spec fn response_id(&self) -> Option<DtmiView>;

    /// The request.
    fn request(&self) -> (r: Option<&Dtmi>)
        ensures
            match r {
                Some(d) => self.request_id() == Some(d@),
                None => self.request_id() is None,
            },
    ;

    /// The response.
    fn response(&self) -> (r: Option<&Dtmi>)
        ensures
            match r {
                Some(d) => self.response_id() == Some(d@),
                None => self.response_id() is None,
            },
    ;
}

impl CommandInfo for Entity {
    open spec fn request_id(&self) -> Option<DtmiView> {
        first_target(self.references@, EntityField::Request, 0)
    }

    open spec fn response_id(&self) -> Option<DtmiView> {
        first_target(self.references@, EntityField::Response, 0)
    }

    fn request(&self) -> (r: Option<&Dtmi>) {
        self.reference(EntityField::Request)
    }

    fn response(&self) -> (r: Option<&Dtmi>) {
        self.reference(EntityField::Response)
    }
}

/// A schema without inner structure.
pub trait PrimitiveSchemaInfo {
    /// The entity behind the schema.
    spec fn entity(&self) -> Entity;

    /// The schema as an entity.
    fn as_entity_info(&self) -> (r: &Entity)
        ensures
            *r == self.entity(),
    ;
}

/// A primitive schema built by hand.
#[derive(Debug)]
pub struct PrimitiveSchemaInfoImpl {
    entity: Entity,
}

/// An entity with these base fields and nothing else.
fn base_entity(
    dtdl_version: i32,
    id: Dtmi,
    child_of: Option<Dtmi>,
    defined_in: Option<Dtmi>,
    kind: EntityKind,
    name: Option<String>,
    schema: Option<Dtmi>,
) -> (r: Entity)
    ensures
        r.dtdl_version == dtdl_version,
        r.id == id,
        r.child_of == child_of,
        r.defined_in == defined_in,
        r.undefined_properties@.len() == 0,
        r.kind == kind,
        r.name == name,
        reference_views(r.references@) == match schema {
            Some(s) => seq![(EntityField::Schema, s@)],
            None => Seq::empty(),
        },
{
    let mut references: Vec<Reference> = Vec::new();
    match schema {
        Some(target) => {
            references.push(Reference { field: EntityField::Schema, target });
        },
        None => {},
    }
    assert(reference_views(references@) =~= match schema {
        Some(s) => seq![(EntityField::Schema, s@)],
        None => Seq::empty(),
    });
    Entity {
        dtdl_version,
        id,
        child_of,
        defined_in,
        undefined_properties: Vec::new(),
        kind,
        name,
        references,
    }
}

/// Whether `e` is an entity built by hand from these values: no
/// uninterpreted members, and a reference to the schema where one is given.
pub open spec fn built_from(
    e: Entity,
    dtdl_version: i32,
    id: Dtmi,
    child_of: Option<Dtmi>,
    defined_in: Option<Dtmi>,
    kind: EntityKind,
    name: Option<String>,
    schema: Option<Dtmi>,
) -> bool {
    &&& e.dtdl_version == dtdl_version
    &&& e.id == id
    &&& e.child_of == child_of
    &&& e.defined_in == defined_in
    &&& e.undefined_properties@.len() == 0
    &&& e.kind == kind
    &&& e.name == name
    &&& reference_views(e.references@) == match schema {
        Some(s) => seq![(EntityField::Schema, s@)],
        None => Seq::empty(),
    }
}

impl PrimitiveSchemaInfoImpl {
    /// The entity behind the schema.
    pub closed spec fn record(&self) -> Entity {
        self.entity
    }

    /// A primitive schema of kind `entity_kind`.
    pub fn new(
        dtdl_version: i32,
        id: Dtmi,
        child_of: Option<Dtmi>,
        defined_in: Option<Dtmi>,
        entity_kind: EntityKind,
    ) -> (r: Self)
        ensures
            built_from(r.record(), dtdl_version, id, child_of, defined_in, entity_kind, None, None),
    {
        PrimitiveSchemaInfoImpl {
            entity: base_entity(dtdl_version, id, child_of, defined_in, entity_kind, None, None),
        }
    }

    /// The entity, for resolution.
    pub fn into_entity(self) -> (r: Entity)
        ensures
            r == self.record(),
    {
        self.entity
    }
}

impl PrimitiveSchemaInfo for PrimitiveSchemaInfoImpl {
    closed spec fn entity(&self) -> Entity {
        self.entity
    }

    fn as_entity_info(&self) -> (r: &Entity) {
        &self.entity
    }
}

/// An interface built by hand.
#[derive(Clone, Debug)]
pub struct InterfaceInfoImpl {
    entity: Entity,
}

impl InterfaceInfoImpl {
    /// The entity behind this value.
    pub closed spec fn record(&self) -> Entity {
        self.entity
    }

    /// An interface with these values and no uninterpreted members.
    pub fn new(
        dtdl_version: i32,
        id: Dtmi,
        child_of: Option<Dtmi>,
        defined_in: Option<Dtmi>,
    ) -> (r: Self)
        ensures
            built_from(
                r.record(),
                dtdl_version,
                id,
                child_of,
                defined_in,
                EntityKind::Interface,
                None,
                None,
            ),
    {
        InterfaceInfoImpl {
            
            entity: base_entity(
                dtdl_version,
                id,
                child_of,
                defined_in,
                EntityKind::Interface,
                None,
                None,
            ),
        }
    }

    /// The dialect in force where the entity was defined.
    pub fn dtdl_version(&self) -> (r: i32)
        ensures
            r == self.record().dtdl_version,
    {
        self.entity.dtdl_version
    }

    /// The identifier.
    pub fn id(&self) -> (r: &Dtmi)
        ensures
            *r == self.record().id,
            valid_dtmi(r@),
    {
        proof {
            use_type_invariant(&self.entity.id);
        }
        &self.entity.id
    }

    /// The kind of entity.
    pub fn entity_kind(&self) -> (r: EntityKind)
        ensures
            r == self.record().kind,
    {
        self.entity.kind
    }

    /// The identifier of the entity that contains this one.
    pub fn child_of(&self) -> (r: &Option<Dtmi>)
        ensures
            *r == self.record().child_of,
    {
        &self.entity.child_of
    }

    /// The identifier of the root of the document that defines this
    /// entity.
    pub fn defined_in(&self) -> (r: &Option<Dtmi>)
        ensures
            *r == self.record().defined_in,
    {
        &self.entity.defined_in
    }

    /// The members that the entity's kind does not interpret.
    pub fn undefined_properties(&self) -> (r: &Vec<Member>)
        ensures
            *r == self.record().undefined_properties,
    {
        &self.entity.undefined_properties
    }

    /// Sets the uninterpreted member called `key` to `value`: replaces the
    /// first of that name, or adds one at the end.
    pub fn add_undefined_property(&mut self, key: String, value: JsonValue)
        ensures
            same_but_properties(final(self).record(), old(self).record()),
            member_views(final(self).record().undefined_properties@) == with_member(
                member_views(old(self).record().undefined_properties@),
                key@,
                value@,
            ),
            distinct_member_names(member_views(old(self).record().undefined_properties@))
                ==> distinct_member_names(
                member_views(final(self).record().undefined_properties@),
            ),
    {
        self.entity.add_undefined_property(key, value);
    }

    /// The entity, for resolution.
    pub fn into_entity(self) -> (r: Entity)
        ensures
            r == self.record(),
    {
        self.entity
    }
}

/// A component built by hand.
#[derive(Debug)]
pub struct ComponentInfoImpl {
    name: String,
    entity: Entity,
}

impl ComponentInfoImpl {
    /// The entity behind this value.
    pub closed spec fn record(&self) -> Entity {
        Entity {
            dtdl_version: self.entity.dtdl_version,
            id: self.entity.id,
            child_of: self.entity.child_of,
            defined_in: self.entity.defined_in,
            undefined_properties: self.entity.undefined_properties,
            kind: self.entity.kind,
            name: Some(self.name),
            references: self.entity.references,
        }
    }

    /// A component with these values and no uninterpreted members.
    pub fn new(
        name: String,
        dtdl_version: i32,
        id: Dtmi,
        child_of: Option<Dtmi>,
        defined_in: Option<Dtmi>,
        schema: Option<Dtmi>,
    ) -> (r: Self)
        ensures
            built_from(
                r.record(),
                dtdl_version,
                id,
                child_of,
                defined_in,
                EntityKind::Component,
                Some(name),
                schema,
            ),
    {
        ComponentInfoImpl {
            name,
            entity: base_entity(
                dtdl_version,
                id,
                child_of,
                defined_in,
                EntityKind::Component,
                None,
                schema,
            ),
        }
    }

    /// The dialect in force where the entity was defined.
    pub fn dtdl_version(&self) -> (r: i32)
        ensures
            r == self.record().dtdl_version,
    {
        self.entity.dtdl_version
    }

    /// The identifier.
    pub fn id(&self) -> (r: &Dtmi)
        ensures
            *r == self.record().id,
            valid_dtmi(r@),
    {
        proof {
            use_type_invariant(&self.entity.id);
        }
        &self.entity.id
    }

    /// The kind of entity.
    pub fn entity_kind(&self) -> (r: EntityKind)
        ensures
            r == self.record().kind,
    {
        self.entity.kind
    }

    /// The identifier of the entity that contains this one.
    pub fn child_of(&self) -> (r: &Option<Dtmi>)
        ensures
            *r == self.record().child_of,
    {
        &self.entity.child_of
    }

    /// The identifier of the root of the document that defines this
    /// entity.
    pub fn defined_in(&self) -> (r: &Option<Dtmi>)
        ensures
            *r == self.record().defined_in,
    {
        &self.entity.defined_in
    }

    /// The members that the entity's kind does not interpret.
    pub fn undefined_properties(&self) -> (r: &Vec<Member>)
        ensures
            *r == self.record().undefined_properties,
    {
        &self.entity.undefined_properties
    }

    /// Sets the uninterpreted member called `key` to `value`: replaces the
    /// first of that name, or adds one at the end.
    pub fn add_undefined_property(&mut self, key: String, value: JsonValue)
        ensures
            same_but_properties(final(self).record(), old(self).record()),
            member_views(final(self).record().undefined_properties@) == with_member(
                member_views(old(self).record().undefined_properties@),
                key@,
                value@,
            ),
            distinct_member_names(member_views(old(self).record().undefined_properties@))
                ==> distinct_member_names(
                member_views(final(self).record().undefined_properties@),
            ),
    {
        self.entity.add_undefined_property(key, value);
    }

    /// The name.
    pub fn name(&self) -> (r: &str)
        ensures
            optional_text(self.record().name) == Some(r@),
    {
        self.name.as_str()
    }

    /// The schema.
    pub fn schema(&self) -> (r: Option<&Dtmi>)
        ensures
            match r {
                Some(d) => first_target(self.record().references@, EntityField::Schema, 0) == Some(
                    d@,
                ),
                None => first_target(self.record().references@, EntityField::Schema, 0) is None,
            },
    {
        self.entity.reference(EntityField::Schema)
    }

    /// The entity, for resolution.
    pub fn into_entity(self) -> (r: Entity)
        ensures
            r == self.record(),
    {
        let inner = self.entity;
        Entity {
            dtdl_version: inner.dtdl_version,
            id: inner.id,
            child_of: inner.child_of,
            defined_in: inner.defined_in,
            undefined_properties: inner.undefined_properties,
            kind: inner.kind,
            name: Some(self.name),
            references: inner.references,
        }
    }
}

/// A field of an object schema, built by hand.
#[derive(Debug)]
pub struct FieldInfoImpl {
    name: String,
    entity: Entity,
}

impl FieldInfoImpl {
    /// The entity behind this value.
    pub closed spec fn record(&self) -> Entity {
        Entity {
            dtdl_version: self.entity.dtdl_version,
            id: self.entity.id,
            child_of: self.entity.child_of,
            defined_in: self.entity.defined_in,
            undefined_properties: self.entity.undefined_properties,
            kind: self.entity.kind,
            name: Some(self.name),
            references: self.entity.references,
        }
    }

    /// A field with these values and no uninterpreted members.
    pub fn new(
        name: String,
        dtdl_version: i32,
        id: Dtmi,
        child_of: Option<Dtmi>,
        defined_in: Option<Dtmi>,
        schema: Option<Dtmi>,
    ) -> (r: Self)
        ensures
            built_from(
                r.record(),
                dtdl_version,
                id,
                child_of,
                defined_in,
                EntityKind::Field,
                Some(name),
                schema,
            ),
    {
        FieldInfoImpl {
            name,
            entity: base_entity(
                dtdl_version,
                id,
                child_of,
                defined_in,
                EntityKind::Field,
                None,
                schema,
            ),
        }
    }

    /// The dialect in force where the entity was defined.
    pub fn dtdl_version(&self) -> (r: i32)
        ensures
            r == self.record().dtdl_version,
    {
        self.entity.dtdl_version
    }

    /// The identifier.
    pub fn id(&self) -> (r: &Dtmi)
        ensures
            *r == self.record().id,
            valid_dtmi(r@),
    {
        proof {
            use_type_invariant(&self.entity.id);
        }
        &self.entity.id
    }

    /// The kind of entity.
    pub fn entity_kind(&self) -> (r: EntityKind)
        ensures
            r == self.record().kind,
    {
        self.entity.kind
    }

    /// The identifier of the entity that contains this one.
    pub fn child_of(&self) -> (r: &Option<Dtmi>)
        ensures
            *r == self.record().child_of,
    {
        &self.entity.child_of
    }

    /// The identifier of the root of the document that defines this
    /// entity.
    pub fn defined_in(&self) -> (r: &Option<Dtmi>)
        ensures
            *r == self.record().defined_in,
    {
        &self.entity.defined_in
    }

    /// The members that the entity's kind does not interpret.
    pub fn undefined_properties(&self) -> (r: &Vec<Member>)
        ensures
            *r == self.record().undefined_properties,
    {
        &self.entity.undefined_properties
    }

    /// Sets the uninterpreted member called `key` to `value`: replaces the
    /// first of that name, or adds one at the end.
    pub fn add_undefined_property(&mut self, key: String, value: JsonValue)
        ensures
            same_but_properties(final(self).record(), old(self).record()),
            member_views(final(self).record().undefined_properties@) == with_member(
                member_views(old(self).record().undefined_properties@),
                key@,
                value@,
            ),
            distinct_member_names(member_views(old(self).record().undefined_properties@))
                ==> distinct_member_names(
                member_views(final(self).record().undefined_properties@),
            ),
    {
        self.entity.add_undefined_property(key, value);
    }

    /// The name.
    pub fn name(&self) -> (r: &str)
        ensures
            optional_text(self.record().name) == Some(r@),
    {
        self.name.as_str()
    }

    /// The schema.
    pub fn schema(&self) -> (r: Option<&Dtmi>)
        ensures
            match r {
                Some(d) => first_target(self.record().references@, EntityField::Schema, 0) == Some(
                    d@,
                ),
                None => first_target(self.record().references@, EntityField::Schema, 0) is None,
            },
    {
        self.entity.reference(EntityField::Schema)
    }

    /// The entity, for resolution.
    pub fn into_entity(self) -> (r: Entity)
        ensures
            r == self.record(),
    {
        let inner = self.entity;
        Entity {
            dtdl_version: inner.dtdl_version,
            id: inner.id,
            child_of: inner.child_of,
            defined_in: inner.defined_in,
            undefined_properties: inner.undefined_properties,
            kind: inner.kind,
            name: Some(self.name),
            references: inner.references,
        }
    }
}

/// A command payload built by hand.
#[derive(Debug)]
pub struct CommandPayloadInfoImpl {
    entity: Entity,
}

impl CommandPayloadInfoImpl {
    /// The entity behind this value.
    pub closed spec fn record(&self) -> Entity {
        self.entity
    }

    /// A command payload with these values and no uninterpreted members.
    pub fn new(
        dtdl_version: i32,
        id: Dtmi,
        child_of: Option<Dtmi>,
        defined_in: Option<Dtmi>,
        name: Option<String>,
        schema: Option<Dtmi>,
    ) -> (r: Self)
        ensures
            built_from(
                r.record(),
                dtdl_version,
                id,
                child_of,
                defined_in,
                EntityKind::CommandPayload,
                name,
                schema,
            ),
    {
        CommandPayloadInfoImpl {
            
            entity: base_entity(
                dtdl_version,
                id,
                child_of,
                defined_in,
                EntityKind::CommandPayload,
                name,
                schema,
            ),
        }
    }

    /// The dialect in force where the entity was defined.
    pub fn dtdl_version(&self) -> (r: i32)
        ensures
            r == self.record().dtdl_version,
    {
        self.entity.dtdl_version
    }

    /// The identifier.
    pub fn id(&self) -> (r: &Dtmi)
        ensures
            *r == self.record().id,
            valid_dtmi(r@),
    {
        proof {
            use_type_invariant(&self.entity.id);
        }
        &self.entity.id
    }

    /// The kind of entity.
    pub fn entity_kind(&self) -> (r: EntityKind)
        ensures
            r == self.record().kind,
    {
        self.entity.kind
    }

    /// The identifier of the entity that contains this one.
    pub fn child_of(&self) -> (r: &Option<Dtmi>)
        ensures
            *r == self.record().child_of,
    {
        &self.entity.child_of
    }

    /// The identifier of the root of the document that defines this
    /// entity.
    pub fn defined_in(&self) -> (r: &Option<Dtmi>)
        ensures
            *r == self.record().defined_in,
    {
        &self.entity.defined_in
    }

    /// The members that the entity's kind does not interpret.
    pub fn undefined_properties(&self) -> (r: &Vec<Member>)
        ensures
            *r == self.record().undefined_properties,
    {
        &self.entity.undefined_properties
    }

    /// Sets the uninterpreted member called `key` to `value`: replaces the
    /// first of that name, or adds one at the end.
    pub fn add_undefined_property(&mut self, key: String, value: JsonValue)
        ensures
            same_but_properties(final(self).record(), old(self).record()),
            member_views(final(self).record().undefined_properties@) == with_member(
                member_views(old(self).record().undefined_properties@),
                key@,
                value@,
            ),
            distinct_member_names(member_views(old(self).record().undefined_properties@))
                ==> distinct_member_names(
                member_views(final(self).record().undefined_properties@),
            ),
    {
        self.entity.add_undefined_property(key, value);
    }

    /// The name.
    pub fn name(&self) -> (r: &Option<String>)
        ensures
            *r == self.record().name,
    {
        &self.entity.name
    }

    /// The schema.
    pub fn schema(&self) -> (r: Option<&Dtmi>)
        ensures
            match r {
                Some(d) => first_target(self.record().references@, EntityField::Schema, 0) == Some(
                    d@,
                ),
                None => first_target(self.record().references@, EntityField::Schema, 0) is None,
            },
    {
        self.entity.reference(EntityField::Schema)
    }

    /// The entity, for resolution.
    pub fn into_entity(self) -> (r: Entity)
        ensures
            r == self.record(),
    {
        self.entity
    }
}

} // verus!

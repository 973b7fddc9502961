//! The universal record of a model element, and the references between
//! elements. Every relationship between entities is held as the identifier
//! of the other entity and followed by looking it up in the model
//! dictionary.
use vstd::prelude::*;
use crate::dtmi::{Dtmi, DtmiView};
use crate::entity_kind::{EntityKind, ExpectedKind};
use crate::json_value::{member_views, JsonModel, Member};
use crate::text::find;

verus! {

/// A field of an entity that a failure can name. All but the first refer
/// to another entity.
#[derive(Clone, Copy, Debug, PartialEq, Eq, Structural, Hash)]
pub enum EntityField {
    /// The developer-facing name.
    Name,
    /// The entity in which this one is lexically contained.
    Parent,
    /// The root of the document in which this one is defined.
    Partition,
    /// The schema of a property, telemetry, field or payload, or the
    /// interface of a component.
    Schema,
    /// An interface that this interface extends.
    Extends,
    /// An element that an interface holds.
    Contents,
    /// The request of a command.
    Request,
    /// The response of a command.
    Response,
    /// The interface a relationship points to.
    Target,
    /// A field of an object schema.
    Fields,
    /// The schema of the elements of an array schema.
    ElementSchema,
    /// The key of a map schema.
    MapKey,
    /// The value of a map schema.
    MapValue,
    /// A value of an enum schema.
    EnumValues,
    /// The schema of the values of an enum schema.
    ValueSchema,
}

/// A reference from one entity to another.
#[derive(Clone, Debug)]
pub struct Reference {
    pub field: EntityField,
    pub target: Dtmi,
}

/// A named element in the content set of an entity: its name and the
/// identifier of the element.
#[derive(Clone, Debug)]
pub struct ContentRef {
    pub name: String,
    pub id: Dtmi,
}

impl View for ContentRef {
    type V = (Seq<char>, DtmiView);

    open spec fn view(&self) -> (Seq<char>, DtmiView) {
        (self.name@, self.id@)
    }
}

/// The content entries as name and identifier, in order.
pub open spec fn content_views(contents: Seq<ContentRef>) -> Seq<(Seq<char>, DtmiView)> {
    contents.map_values(|c: ContentRef| c@)
}

/// A model element.
#[derive(Clone, Debug)]
pub struct Entity {
    /// The dialect in force where the entity was defined.
    pub dtdl_version: i32,
    /// The identifier.
    pub id: Dtmi,
    /// The entity that lexically contains this one; `None` for the root of
    /// a document.
    pub child_of: Option<Dtmi>,
    /// The root of the document in which the entity was defined.
    pub defined_in: Option<Dtmi>,
    /// Every member of the source object that the entity's kind does not
    /// interpret.
    pub undefined_properties: Vec<Member>,
    /// Which kind of element this is.
    pub kind: EntityKind,
    /// The developer-facing name, for the kinds that have one.
    pub name: Option<String>,
    /// The references to other entities, in the order written.
    pub references: Vec<Reference>,
}

impl View for Reference {
    type V = (EntityField, DtmiView);

    open spec fn view(&self) -> (EntityField, DtmiView) {
        (self.field, self.target@)
    }
}

/// The references as field and target, in order.
pub open spec fn reference_views(references: Seq<Reference>) -> Seq<(EntityField, DtmiView)> {
    references.map_values(|r: Reference| r@)
}

/// What an entity is, apart from how it is stored.
pub struct EntityView {
    pub dtdl_version: i32,
    pub id: DtmiView,
    pub child_of: Option<DtmiView>,
    pub defined_in: Option<DtmiView>,
    pub undefined_properties: Seq<(Seq<char>, JsonModel)>,
    pub kind: EntityKind,
    pub name: Option<Seq<char>>,
    pub references: Seq<(EntityField, DtmiView)>,
}

/// The identifier behind an optional identifier.
pub open spec fn optional_id(id: Option<Dtmi>) -> Option<DtmiView> {
    match id {
        Some(d) => Some(d@),
        None => None,
    }
}

/// The text behind an optional text.
pub open spec fn optional_text(text: Option<String>) -> Option<Seq<char>> {
    match text {
        Some(t) => Some(t@),
        None => None,
    }
}

impl View for Entity {
    type V = EntityView;

    open spec fn view(&self) -> EntityView {
        EntityView {
            dtdl_version: self.dtdl_version,
            id: self.id@,
            child_of: optional_id(self.child_of),
            defined_in: optional_id(self.defined_in),
            undefined_properties: member_views(self.undefined_properties@),
            kind: self.kind,
            name: optional_text(self.name),
            references: reference_views(self.references@),
        }
    }
}

/// The entities as they are, in order.
pub open spec fn entity_views(entities: Seq<Entity>) -> Seq<EntityView> {
    entities.map_values(|e: Entity| e@)
}

/// What the referenced entity must be, by the field and the kind of the
/// entity that refers. `None` where any kind is accepted.
pub open spec fn expected_kind(owner: EntityKind, field: EntityField) -> Option<ExpectedKind> {
    match field {
        EntityField::Name => None,
        EntityField::Parent => None,
        EntityField::Partition => None,
        EntityField::Schema => if owner is Component {
            Some(ExpectedKind::Interface)
        } else {
            Some(ExpectedKind::Schema)
        },
        EntityField::Extends => Some(ExpectedKind::Interface),
        EntityField::Contents => Some(ExpectedKind::Content),
        EntityField::Request => Some(ExpectedKind::CommandPayload),
        EntityField::Response => Some(ExpectedKind::CommandPayload),
        EntityField::Target => Some(ExpectedKind::Interface),
        EntityField::Fields => Some(ExpectedKind::Field),
        EntityField::ElementSchema => Some(ExpectedKind::Schema),
        EntityField::MapKey => Some(ExpectedKind::MapKey),
        EntityField::MapValue => Some(ExpectedKind::MapValue),
        EntityField::EnumValues => Some(ExpectedKind::EnumValue),
        EntityField::ValueSchema => Some(ExpectedKind::Schema),
    }
}

/// Whether the elements referred to through `field` are named children of
/// the entity: the contents of an interface, the fields of an object, the
/// values of an enum.
pub open spec fn is_child_field(field: EntityField) -> bool {
    field is Contents || field is Fields || field is EnumValues
}

/// The identifiers of the entities, in order.
pub open spec fn entity_ids(entities: Seq<Entity>) -> Seq<DtmiView> {
    entities.map_values(|e: Entity| e.id@)
}

/// Position of the first entity with identifier `id`, or the number of
/// entities if there is none.
pub open spec fn position_of(entities: Seq<Entity>, id: DtmiView) -> nat {
    find(entity_ids(entities), id)
}

/// Whether an entity with identifier `id` is among `entities`.
pub open spec fn has_entity(entities: Seq<Entity>, id: DtmiView) -> bool {
    position_of(entities, id) < entities.len()
}

/// Whether no two of the entities share an identifier.
pub open spec fn distinct_ids(entities: Seq<Entity>) -> bool {
    forall|i: int, j: int|
        0 <= i < j < entities.len() ==> (#[trigger] entities[i]).id@ != (
        #[trigger] entities[j]).id@
}

impl EntityField {
    /// What the referenced entity must be, for an owner of kind `owner`.
    pub fn expected_kind(&self, owner: EntityKind) -> (r: Option<ExpectedKind>)
        ensures
            r == expected_kind(owner, *self),
    {
        match self {
            EntityField::Name => None,
            EntityField::Parent => None,
            EntityField::Partition => None,
            EntityField::Schema => if owner == EntityKind::Component {
                Some(ExpectedKind::Interface)
            } else {
                Some(ExpectedKind::Schema)
            },
            EntityField::Extends => Some(ExpectedKind::Interface),
            EntityField::Contents => Some(ExpectedKind::Content),
            EntityField::Request => Some(ExpectedKind::CommandPayload),
            EntityField::Response => Some(ExpectedKind::CommandPayload),
            EntityField::Target => Some(ExpectedKind::Interface),
            EntityField::Fields => Some(ExpectedKind::Field),
            EntityField::ElementSchema => Some(ExpectedKind::Schema),
            EntityField::MapKey => Some(ExpectedKind::MapKey),
            EntityField::MapValue => Some(ExpectedKind::MapValue),
            EntityField::EnumValues => Some(ExpectedKind::EnumValue),
            EntityField::ValueSchema => Some(ExpectedKind::Schema),
        }
    }

    /// Whether the field holds named children of the entity.
    pub fn is_child_field(&self) -> (r: bool)
        ensures
            r == is_child_field(*self),
    {
        match self {
            EntityField::Contents | EntityField::Fields | EntityField::EnumValues => true,
            _ => false,
        }
    }
}

/// Position of the first entity with identifier `id`, if there is one.
pub fn find_entity(entities: &Vec<Entity>, id: &Dtmi) -> (r: Option<usize>)
    ensures
        match r {
            Some(i) => i == position_of(entities@, id@) && i < entities@.len()
                && entities@[i as int].id@ == id@,
            None => !has_entity(entities@, id@),
        },
{
    let mut i: usize = 0;
    while i < entities.len()
        invariant
            i <= entities@.len(),
            forall|j: int| 0 <= j < i ==> entity_ids(entities@)[j] != id@,
        decreases entities@.len() - i,
    {
        if entities[i].id.equals(id) {
            proof {
                crate::text::lemma_find_first(entity_ids(entities@), id@, i as int);
            }
            return Some(i);
        }
        i += 1;
    }
    proof {
        crate::text::lemma_find_first(entity_ids(entities@), id@, i as int);
    }
    None
}

} // verus!

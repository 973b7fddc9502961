//! The primitive schemas, which every model can refer to without defining
//! them.
use vstd::prelude::*;
use vstd::string::*;
use crate::dtmi::{valid_dtmi, valid_label, Dtmi, DtmiView};
use crate::entity::Entity;
use crate::entity_kind::EntityKind;
use crate::text::views;

verus! {

/// The dialect that the primitive schemas are defined in.
pub const DTDL_VERSION: i32 = 2;

/// The last label of the identifier of a primitive schema.
pub open spec fn primitive_label(kind: EntityKind) -> Seq<char> {
    match kind {
        EntityKind::Boolean => "Boolean"@,
        EntityKind::Date => "Date"@,
        EntityKind::DateTime => "DateTime"@,
        EntityKind::Double => "Double"@,
        EntityKind::Duration => "Duration"@,
        EntityKind::Float => "Float"@,
        EntityKind::Integer => "Integer"@,
        EntityKind::Long => "Long"@,
        EntityKind::Time => "Time"@,
        _ => "String"@,
    }
}

/// The identifier of a primitive schema: `dtmi:dtdl:class:` and the
/// schema's label, in version 2.
pub open spec fn primitive_id(kind: EntityKind) -> DtmiView {
    DtmiView { labels: seq!["dtdl"@, "class"@, primitive_label(kind)], version: 2 }
}

/// The ten primitive kinds, in the order in which a dictionary holds them.
pub open spec fn primitive_kinds() -> Seq<EntityKind> {
    seq![
        EntityKind::Boolean,
        EntityKind::Date,
        EntityKind::DateTime,
        EntityKind::Double,
        EntityKind::Duration,
        EntityKind::Float,
        EntityKind::Integer,
        EntityKind::Long,
        EntityKind::String,
        EntityKind::Time,
    ]
}

/// Whether `e` is the entity that stands for the primitive schema `kind`.
pub open spec fn is_primitive_entity(e: Entity, kind: EntityKind) -> bool {
    &&& e.dtdl_version == DTDL_VERSION
    &&& e.id@ == primitive_id(kind)
    &&& e.child_of is None
    &&& e.defined_in is None
    &&& e.undefined_properties@.len() == 0
    &&& e.kind == kind
    &&& e.name is None
    &&& e.references@.len() == 0
}

/// Whether `entities` are the ten primitive schemas, in order.
pub open spec fn are_standard_schemas(entities: Seq<Entity>) -> bool {
    &&& entities.len() == 10
    &&& forall|i: int|
        0 <= i < 10 ==> is_primitive_entity(#[trigger] entities[i], primitive_kinds()[i])
}

/// The last label of the identifier of a primitive schema.
fn primitive_label_text(kind: EntityKind) -> (r: &'static str)
    ensures
        r@ == primitive_label(kind),
        valid_label(r@),
{
    proof {
        reveal_strlit("Boolean");
        reveal_strlit("Date");
        reveal_strlit("DateTime");
        reveal_strlit("Double");
        reveal_strlit("Duration");
        reveal_strlit("Float");
        reveal_strlit("Integer");
        reveal_strlit("Long");
        reveal_strlit("Time");
        reveal_strlit("String");
    }
    match kind {
        EntityKind::Boolean => "Boolean",
        EntityKind::Date => "Date",
        EntityKind::DateTime => "DateTime",
        EntityKind::Double => "Double",
        EntityKind::Duration => "Duration",
        EntityKind::Float => "Float",
        EntityKind::Integer => "Integer",
        EntityKind::Long => "Long",
        EntityKind::Time => "Time",
        _ => "String",
    }
}

/// The identifier of the primitive schema `kind`.
pub fn primitive_schema_id(kind: EntityKind) -> (r: Dtmi)
    ensures
        r@ == primitive_id(kind),
{
    let mut labels: Vec<String> = Vec::new();
    labels.push("dtdl".to_owned());
    labels.push("class".to_owned());
    labels.push(primitive_label_text(kind).to_owned());
    proof {
        reveal_strlit("dtdl");
        reveal_strlit("class");
        let all = views(labels@);
        assert(all =~= seq!["dtdl"@, "class"@, primitive_label(kind)]);
        assert(valid_label(all[0]));
        assert(valid_label(all[1]));
        assert(valid_label(all[2]));
        assert(valid_dtmi(DtmiView { labels: all, version: 2 }));
    }
    let made = Dtmi::from_parts(labels, 2);
    made.unwrap()
}

/// The entity that stands for the primitive schema `kind`.
pub fn primitive_schema(kind: EntityKind) -> (r: Entity)
    ensures
        is_primitive_entity(r, kind),
{
    Entity {
        dtdl_version: DTDL_VERSION,
        id: primitive_schema_id(kind),
        child_of: None,
        defined_in: None,
        undefined_properties: Vec::new(),
        kind,
        name: None,
        references: Vec::new(),
    }
}

/// The ten primitive schemas.
pub fn standard_schemas() -> (r: Vec<Entity>)
    ensures
        are_standard_schemas(r@),
{
    let mut r: Vec<Entity> = Vec::new();
    r.push(primitive_schema(EntityKind::Boolean));
    r.push(primitive_schema(EntityKind::Date));
    r.push(primitive_schema(EntityKind::DateTime));
    r.push(primitive_schema(EntityKind::Double));
    r.push(primitive_schema(EntityKind::Duration));
    r.push(primitive_schema(EntityKind::Float));
    r.push(primitive_schema(EntityKind::Integer));
    r.push(primitive_schema(EntityKind::Long));
    r.push(primitive_schema(EntityKind::String));
    r.push(primitive_schema(EntityKind::Time));
    r
}

} // verus!

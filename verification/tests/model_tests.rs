use dtdl_parser::dtmi::Dtmi;
use dtdl_parser::entity::{Entity, EntityField};
use dtdl_parser::entity_info::CommandInfo;
use dtdl_parser::entity_kind::{EntityKind, ExpectedKind};
use dtdl_parser::error::ParseError;
use dtdl_parser::json_value::{get_member, JsonValue, Member};
use dtdl_parser::model_parser::{classify_documents, parse_model};
use dtdl_parser::resolve::ModelDictionary;

fn to_json(value: &serde_json::Value) -> JsonValue {
    match value {
        serde_json::Value::Null => JsonValue::Null,
        serde_json::Value::Bool(b) => JsonValue::Bool(*b),
        serde_json::Value::Number(n) => JsonValue::Number(n.to_string()),
        serde_json::Value::String(s) => JsonValue::String(s.clone()),
        serde_json::Value::Array(items) => JsonValue::Array(items.iter().map(to_json).collect()),
        serde_json::Value::Object(map) => JsonValue::Object(
            map.iter().map(|(k, v)| Member { name: k.clone(), value: to_json(v) }).collect(),
        ),
    }
}

fn json(text: &str) -> JsonValue {
    let value: serde_json::Value = serde_json::from_str(text).unwrap();
    to_json(&value)
}

fn id(text: &str) -> Dtmi {
    Dtmi::parse(text).unwrap()
}

fn parse(texts: &[&str]) -> Result<ModelDictionary, ParseError> {
    let documents: Vec<JsonValue> = texts.iter().map(|t| json(t)).collect();
    parse_model(&documents, 2)
}

fn ok(texts: &[&str]) -> ModelDictionary {
    match parse(texts) {
        Ok(d) => d,
        Err(e) => panic!("unexpected failure: {e:?}"),
    }
}

fn fails(texts: &[&str]) -> ParseError {
    match parse(texts) {
        Ok(_) => panic!("unexpected success"),
        Err(e) => e,
    }
}

const THERMOSTAT: &str = r#"{
    "@context": "dtmi:dtdl:context;2",
    "@id": "dtmi:com:example:Thermostat;1",
    "@type": "Interface",
    "displayName": "Thermostat",
    "contents": [
        { "@type": "Telemetry", "name": "temperature", "schema": "double", "unit": "degreeCelsius" },
        { "@type": "Property", "name": "setPoint", "schema": "double", "writable": true }
    ]
}"#;

#[test]
fn parses_an_interface_with_contents() {
    let d = ok(&[THERMOSTAT]);
    assert_eq!(d.len(), 13);
    let thermostat = d.get(&id("dtmi:com:example:Thermostat;1")).unwrap();
    assert!(thermostat.kind == EntityKind::Interface);
    assert_eq!(thermostat.dtdl_version, 2);
    assert!(thermostat.child_of.is_none());
    assert!(thermostat.defined_in.is_none());
    assert!(thermostat.name.is_none());
    assert_eq!(thermostat.references.len(), 2);
    assert!(thermostat.references[0].field == EntityField::Contents);
    assert!(thermostat.references[0].target == id("dtmi:com:example:Thermostat:temperature;1"));
    assert!(thermostat.references[1].target == id("dtmi:com:example:Thermostat:setPoint;1"));

    let temperature = d.get(&id("dtmi:com:example:Thermostat:temperature;1")).unwrap();
    assert!(temperature.kind == EntityKind::Telemetry);
    assert_eq!(temperature.name, Some("temperature".to_string()));
    assert!(temperature.child_of == Some(id("dtmi:com:example:Thermostat;1")));
    assert!(temperature.defined_in == Some(id("dtmi:com:example:Thermostat;1")));
    assert!(temperature.schema().unwrap() == &id("dtmi:dtdl:class:Double;2"));

    let contents = d.contents(&id("dtmi:com:example:Thermostat;1")).unwrap();
    assert_eq!(contents.len(), 2);
    assert_eq!(contents[0].name, "temperature");
    assert!(contents[0].id == id("dtmi:com:example:Thermostat:temperature;1"));
    assert_eq!(contents[1].name, "setPoint");
}

#[test]
fn dictionary_holds_the_primitive_schemas_first() {
    let d = ok(&[]);
    assert_eq!(d.len(), 10);
    let kinds = [
        ("Boolean", EntityKind::Boolean),
        ("Date", EntityKind::Date),
        ("DateTime", EntityKind::DateTime),
        ("Double", EntityKind::Double),
        ("Duration", EntityKind::Duration),
        ("Float", EntityKind::Float),
        ("Integer", EntityKind::Integer),
        ("Long", EntityKind::Long),
        ("String", EntityKind::String),
        ("Time", EntityKind::Time),
    ];
    for (i, (label, kind)) in kinds.iter().enumerate() {
        let e = d.entity_at(i);
        assert_eq!(e.id.to_string(), format!("dtmi:dtdl:class:{label};2"));
        assert!(e.kind == *kind);
        assert_eq!(d.position(&e.id), Some(i));
    }
    assert!(d.get(&id("dtmi:com:example:Nothing;1")).is_none());
    assert!(d.contents(&id("dtmi:com:example:Nothing;1")).is_none());
}

#[test]
fn unknown_members_are_kept_unchanged() {
    let d = ok(&[THERMOSTAT]);
    let thermostat = d.get(&id("dtmi:com:example:Thermostat;1")).unwrap();
    assert_eq!(thermostat.undefined_properties.len(), 1);
    assert_eq!(thermostat.undefined_properties[0].name, "displayName");
    assert!(thermostat.undefined_properties[0].value == JsonValue::String("Thermostat".to_string()));

    let temperature = d.get(&id("dtmi:com:example:Thermostat:temperature;1")).unwrap();
    assert_eq!(temperature.undefined_properties.len(), 1);
    assert!(
        get_member(&temperature.undefined_properties, "unit").unwrap()
            == &JsonValue::String("degreeCelsius".to_string())
    );
    let set_point = d.get(&id("dtmi:com:example:Thermostat:setPoint;1")).unwrap();
    assert!(get_member(&set_point.undefined_properties, "writable").unwrap() == &JsonValue::Bool(true));
}

#[test]
fn unknown_members_survive_reading_again() {
    let text = r#"{
        "@id": "dtmi:com:example:Gadget;1",
        "@type": "Interface",
        "comment": { "nested": [1, 2.5, null, "x", { "deep": false }] },
        "x-vendor": 17
    }"#;
    let d = ok(&[text]);
    let gadget = d.get(&id("dtmi:com:example:Gadget;1")).unwrap();
    assert_eq!(gadget.undefined_properties.len(), 2);
    let expected = json(text);
    let expected_members = expected.as_members().unwrap();
    assert!(
        get_member(&gadget.undefined_properties, "comment").unwrap()
            == get_member(expected_members, "comment").unwrap()
    );
    assert!(
        get_member(&gadget.undefined_properties, "x-vendor").unwrap()
            == &JsonValue::Number("17".to_string())
    );

    let mut members = vec![
        Member { name: "@id".to_string(), value: JsonValue::String(gadget.id.to_string()) },
        Member { name: "@type".to_string(), value: JsonValue::String("Interface".to_string()) },
    ];
    for m in &gadget.undefined_properties {
        members.push(Member { name: m.name.clone(), value: m.value.deep_clone() });
    }
    let again = parse_model(&vec![JsonValue::Object(members)], 2).unwrap();
    let gadget_again = again.get(&id("dtmi:com:example:Gadget;1")).unwrap();
    assert!(gadget_again.undefined_properties == gadget.undefined_properties);
}

#[test]
fn duplicate_identifier_in_either_order() {
    let first = r#"{ "@id": "dtmi:com:example:Twin;1", "@type": "Interface" }"#;
    let second = r#"{ "@id": "dtmi:com:example:Twin;1", "@type": "Interface", "comment": "again" }"#;
    for texts in [[first, second], [second, first]] {
        match fails(&texts) {
            ParseError::DuplicateIdentifier { id: found } => {
                assert!(found == id("dtmi:com:example:Twin;1"))
            }
            other => panic!("{other:?}"),
        }
    }
}

#[test]
fn duplicate_of_a_primitive_schema() {
    match fails(&[r#"{ "@id": "dtmi:dtdl:class:String;2", "@type": "Interface" }"#]) {
        ParseError::DuplicateIdentifier { id: found } => assert!(found == id("dtmi:dtdl:class:String;2")),
        other => panic!("{other:?}"),
    }
}

#[test]
fn dangling_schema_reference() {
    let text = r#"{
        "@id": "dtmi:com:example:Thermostat;1",
        "@type": "Interface",
        "contents": [
            { "@type": "Property", "name": "mode", "schema": "dtmi:com:example:Missing;1" }
        ]
    }"#;
    match fails(&[text]) {
        ParseError::UnresolvedReference { from, field, target } => {
            assert!(from == id("dtmi:com:example:Thermostat:mode;1"));
            assert!(field == EntityField::Schema);
            assert!(target == id("dtmi:com:example:Missing;1"));
        }
        other => panic!("{other:?}"),
    }
}

#[test]
fn reference_of_the_wrong_kind() {
    let text = r#"{
        "@id": "dtmi:com:example:Thermostat;1",
        "@type": "Interface",
        "contents": [
            { "@type": "Command", "name": "reboot" },
            { "@type": "Property", "name": "mode", "schema": "dtmi:com:example:Thermostat:reboot;1" }
        ]
    }"#;
    match fails(&[text]) {
        ParseError::ReferenceKindMismatch { from, field, expected_kind, actual_kind } => {
            assert!(from == id("dtmi:com:example:Thermostat:mode;1"));
            assert!(field == EntityField::Schema);
            assert!(expected_kind == ExpectedKind::Schema);
            assert!(actual_kind == EntityKind::Command);
        }
        other => panic!("{other:?}"),
    }
}

const BASE: &str = r#"{
    "@id": "dtmi:com:example:A;1",
    "@type": "Interface",
    "contents": [ { "@type": "Telemetry", "name": "temperature", "schema": "double" } ]
}"#;

#[test]
fn extension_brings_the_contents_of_the_base() {
    let derived = r#"{
        "@id": "dtmi:com:example:B;1",
        "@type": "Interface",
        "extends": "dtmi:com:example:A;1",
        "contents": [ { "@type": "Property", "name": "mode", "schema": "string" } ]
    }"#;
    for texts in [[BASE, derived], [derived, BASE]] {
        let d = ok(&texts);
        let contents = d.contents(&id("dtmi:com:example:B;1")).unwrap();
        assert_eq!(contents.len(), 2);
        let inherited = contents.iter().find(|c| c.name == "temperature").unwrap();
        assert!(inherited.id == id("dtmi:com:example:A:temperature;1"));
        let element = d.get(&inherited.id).unwrap();
        assert!(element.child_of == Some(id("dtmi:com:example:A;1")));
        assert!(contents.iter().any(|c| c.name == "mode"));
        let base_contents = d.contents(&id("dtmi:com:example:A;1")).unwrap();
        assert_eq!(base_contents.len(), 1);
        assert_eq!(base_contents[0].name, "temperature");
    }
}

#[test]
fn extension_is_transitive() {
    let middle = r#"{ "@id": "dtmi:com:example:B;1", "@type": "Interface", "extends": ["dtmi:com:example:A;1"] }"#;
    let last = r#"{ "@id": "dtmi:com:example:C;1", "@type": "Interface", "extends": ["dtmi:com:example:B;1"] }"#;
    let d = ok(&[last, middle, BASE]);
    let contents = d.contents(&id("dtmi:com:example:C;1")).unwrap();
    assert_eq!(contents.len(), 1);
    assert_eq!(contents[0].name, "temperature");
    assert!(contents[0].id == id("dtmi:com:example:A:temperature;1"));
}

#[test]
fn collision_between_inherited_and_own_content() {
    let derived = r#"{
        "@id": "dtmi:com:example:B;1",
        "@type": "Interface",
        "extends": "dtmi:com:example:A;1",
        "contents": [ { "@type": "Telemetry", "name": "temperature", "schema": "double" } ]
    }"#;
    match fails(&[BASE, derived]) {
        ParseError::DuplicateContentName { interface, name } => {
            assert!(interface == id("dtmi:com:example:B;1"));
            assert_eq!(name, "temperature");
        }
        other => panic!("{other:?}"),
    }
}

#[test]
fn collision_between_two_bases() {
    let other_base = r#"{
        "@id": "dtmi:com:example:A2;1",
        "@type": "Interface",
        "contents": [ { "@type": "Property", "name": "temperature", "schema": "double" } ]
    }"#;
    let derived = r#"{
        "@id": "dtmi:com:example:B;1",
        "@type": "Interface",
        "extends": ["dtmi:com:example:A;1", "dtmi:com:example:A2;1"]
    }"#;
    match fails(&[BASE, other_base, derived]) {
        ParseError::DuplicateContentName { interface, name } => {
            assert!(interface == id("dtmi:com:example:B;1"));
            assert_eq!(name, "temperature");
        }
        other => panic!("{other:?}"),
    }
}

#[test]
fn collision_between_own_contents() {
    let text = r#"{
        "@id": "dtmi:com:example:A;1",
        "@type": "Interface",
        "contents": [
            { "@id": "dtmi:com:example:A:first;1", "@type": "Telemetry", "name": "temperature", "schema": "double" },
            { "@id": "dtmi:com:example:A:second;1", "@type": "Property", "name": "temperature", "schema": "double" }
        ]
    }"#;
    match fails(&[text]) {
        ParseError::DuplicateContentName { interface, name } => {
            assert!(interface == id("dtmi:com:example:A;1"));
            assert_eq!(name, "temperature");
        }
        other => panic!("{other:?}"),
    }
}

#[test]
fn cyclic_extension_names_both() {
    let a = r#"{ "@id": "dtmi:com:example:A;1", "@type": "Interface", "extends": "dtmi:com:example:B;1" }"#;
    let b = r#"{ "@id": "dtmi:com:example:B;1", "@type": "Interface", "extends": "dtmi:com:example:A;1" }"#;
    for texts in [[a, b], [b, a]] {
        match fails(&texts) {
            ParseError::CyclicExtension { cycle } => {
                assert_eq!(cycle.len(), 2);
                assert!(cycle.contains(&id("dtmi:com:example:A;1")));
                assert!(cycle.contains(&id("dtmi:com:example:B;1")));
            }
            other => panic!("{other:?}"),
        }
    }
}

#[test]
fn interface_that_extends_itself() {
    let a = r#"{ "@id": "dtmi:com:example:A;1", "@type": "Interface", "extends": "dtmi:com:example:A;1" }"#;
    match fails(&[a]) {
        ParseError::CyclicExtension { cycle } => {
            assert_eq!(cycle.len(), 1);
            assert!(cycle[0] == id("dtmi:com:example:A;1"));
        }
        other => panic!("{other:?}"),
    }
}

#[test]
fn cycle_behind_a_tail_names_only_the_cycle() {
    let t = r#"{ "@id": "dtmi:com:example:T;1", "@type": "Interface", "extends": "dtmi:com:example:A;1" }"#;
    let a = r#"{ "@id": "dtmi:com:example:A;1", "@type": "Interface", "extends": "dtmi:com:example:B;1" }"#;
    let b = r#"{ "@id": "dtmi:com:example:B;1", "@type": "Interface", "extends": "dtmi:com:example:C;1" }"#;
    let c = r#"{ "@id": "dtmi:com:example:C;1", "@type": "Interface", "extends": "dtmi:com:example:A;1" }"#;
    match fails(&[t, a, b, c]) {
        ParseError::CyclicExtension { cycle } => {
            assert_eq!(cycle.len(), 3);
            for name in ["A", "B", "C"] {
                assert!(cycle.contains(&id(&format!("dtmi:com:example:{name};1"))));
            }
            for k in 0..3 {
                let from = d_extends(&[t, a, b, c], &cycle[k]);
                assert!(from == cycle[(k + 1) % 3]);
            }
        }
        other => panic!("{other:?}"),
    }
}

fn d_extends(texts: &[&str], from: &Dtmi) -> Dtmi {
    let documents: Vec<JsonValue> = texts.iter().map(|t| json(t)).collect();
    let entities = classify_documents(&documents, 2).unwrap();
    let entity = entities.iter().find(|e| &e.id == from).unwrap();
    entity.reference(EntityField::Extends).unwrap().clone()
}

#[test]
fn command_without_request_and_response() {
    let text = r#"{
        "@id": "dtmi:com:example:Thermostat;1",
        "@type": "Interface",
        "contents": [ { "@type": "Command", "name": "reboot" } ]
    }"#;
    let d = ok(&[text]);
    let reboot = d.get(&id("dtmi:com:example:Thermostat:reboot;1")).unwrap();
    assert!(reboot.kind == EntityKind::Command);
    assert!(reboot.request().is_none());
    assert!(reboot.response().is_none());
    assert_eq!(reboot.references.len(), 0);
}

#[test]
fn command_with_request_and_response() {
    let text = r#"{
        "@id": "dtmi:com:example:HVAC;1",
        "@type": "Interface",
        "contents": [ {
            "@type": "Command",
            "name": "send_notification",
            "request": { "name": "message", "schema": "string" },
            "response": { "schema": "integer" }
        } ]
    }"#;
    let d = ok(&[text]);
    let command = d.get(&id("dtmi:com:example:HVAC:send_notification;1")).unwrap();
    let request_id = id("dtmi:com:example:HVAC:send_notification:request;1");
    let response_id = id("dtmi:com:example:HVAC:send_notification:response;1");
    assert!(command.request().unwrap() == &request_id);
    assert!(command.response().unwrap() == &response_id);
    let request = d.get(&request_id).unwrap();
    assert!(request.kind == EntityKind::CommandPayload);
    assert_eq!(request.name, Some("message".to_string()));
    assert!(request.child_of == Some(id("dtmi:com:example:HVAC:send_notification;1")));
    assert!(request.defined_in == Some(id("dtmi:com:example:HVAC;1")));
    assert!(request.schema().unwrap() == &id("dtmi:dtdl:class:String;2"));
    let response = d.get(&response_id).unwrap();
    assert!(response.name.is_none());
    assert!(response.schema().unwrap() == &id("dtmi:dtdl:class:Integer;2"));
}

#[test]
fn complex_schemas_written_in_place() {
    let text = r#"{
        "@id": "dtmi:com:example:Car;1",
        "@type": "Interface",
        "contents": [
            { "@type": "Property", "name": "position", "schema": {
                "@type": "Object",
                "fields": [
                    { "name": "latitude", "schema": "double" },
                    { "name": "longitude", "schema": "double" }
                ] } },
            { "@type": "Telemetry", "name": "gears", "schema": {
                "@type": "Array", "elementSchema": "integer" } },
            { "@type": "Property", "name": "state", "schema": {
                "@type": "Enum", "valueSchema": "integer",
                "enumValues": [ { "name": "parked", "enumValue": 0 }, { "name": "driving", "enumValue": 1 } ] } },
            { "@type": "Property", "name": "tags", "schema": {
                "@type": "Map",
                "mapKey": { "name": "key", "schema": "string" },
                "mapValue": { "name": "value", "schema": "string" } } }
        ]
    }"#;
    let d = ok(&[text]);
    let object = d.get(&id("dtmi:com:example:Car:position:schema;1")).unwrap();
    assert!(object.kind == EntityKind::Object);
    assert!(object.child_of == Some(id("dtmi:com:example:Car:position;1")));
    assert!(object.defined_in == Some(id("dtmi:com:example:Car;1")));
    let fields = d.contents(&object.id).unwrap();
    assert_eq!(fields.len(), 2);
    assert_eq!(fields[0].name, "latitude");
    assert!(fields[0].id == id("dtmi:com:example:Car:position:schema:latitude;1"));
    assert!(d.get(&fields[0].id).unwrap().kind == EntityKind::Field);

    let array = d.get(&id("dtmi:com:example:Car:gears:schema;1")).unwrap();
    assert!(array.kind == EntityKind::Array);
    assert!(array.reference(EntityField::ElementSchema).unwrap() == &id("dtmi:dtdl:class:Integer;2"));

    let values = d.contents(&id("dtmi:com:example:Car:state:schema;1")).unwrap();
    assert_eq!(values.len(), 2);
    assert_eq!(values[1].name, "driving");
    let driving = d.get(&values[1].id).unwrap();
    assert!(driving.kind == EntityKind::EnumValue);
    assert!(get_member(&driving.undefined_properties, "enumValue").unwrap() == &JsonValue::Number("1".to_string()));

    let map = d.get(&id("dtmi:com:example:Car:tags:schema;1")).unwrap();
    assert!(map.kind == EntityKind::MapSchema);
    let key = d.get(map.reference(EntityField::MapKey).unwrap()).unwrap();
    assert!(key.kind == EntityKind::MapKey);
    assert!(key.id == id("dtmi:com:example:Car:tags:schema:mapKey;1"));
    let kinds = d.positions_of_kind(EntityKind::Property);
    assert_eq!(kinds.len(), 3);
    for i in kinds {
        assert!(d.entity_at(i).kind == EntityKind::Property);
    }
}

#[test]
fn component_and_relationship_point_to_interfaces() {
    let cabin = r#"{
        "@id": "dtmi:com:example:Cabin;1",
        "@type": "Interface",
        "contents": [
            { "@type": "Component", "name": "thermostat", "schema": "dtmi:com:example:Thermostat;1" },
            { "@type": "Relationship", "name": "partOf", "target": "dtmi:com:example:Vehicle;1" },
            { "@type": "Relationship", "name": "near" }
        ]
    }"#;
    let vehicle = r#"{ "@id": "dtmi:com:example:Vehicle;1", "@type": "Interface" }"#;
    let d = ok(&[cabin, THERMOSTAT, vehicle]);
    let component = d.get(&id("dtmi:com:example:Cabin:thermostat;1")).unwrap();
    assert!(component.kind == EntityKind::Component);
    assert!(component.schema().unwrap() == &id("dtmi:com:example:Thermostat;1"));
    let part_of = d.get(&id("dtmi:com:example:Cabin:partOf;1")).unwrap();
    assert!(part_of.reference(EntityField::Target).unwrap() == &id("dtmi:com:example:Vehicle;1"));

    let wrong = r#"{
        "@id": "dtmi:com:example:Cabin;1",
        "@type": "Interface",
        "contents": [ { "@type": "Component", "name": "thermostat", "schema": "double" } ]
    }"#;
    match fails(&[wrong]) {
        ParseError::MalformedIdentifier { text } => assert_eq!(text, "double"),
        other => panic!("{other:?}"),
    }
    let wrong_kind = r#"{
        "@id": "dtmi:com:example:Cabin;1",
        "@type": "Interface",
        "contents": [ { "@type": "Component", "name": "thermostat", "schema": "dtmi:dtdl:class:Double;2" } ]
    }"#;
    match fails(&[wrong_kind]) {
        ParseError::ReferenceKindMismatch { expected_kind, actual_kind, .. } => {
            assert!(expected_kind == ExpectedKind::Interface);
            assert!(actual_kind == EntityKind::Double);
        }
        other => panic!("{other:?}"),
    }
}

#[test]
fn references_across_documents() {
    let schemas = r#"{
        "@id": "dtmi:com:example:Position;1",
        "@type": "Object",
        "fields": [ { "name": "x", "schema": "double" } ]
    }"#;
    let user = r#"{
        "@id": "dtmi:com:example:Robot;1",
        "@type": "Interface",
        "contents": [ { "@type": "Property", "name": "at", "schema": "dtmi:com:example:Position;1" } ]
    }"#;
    let d = ok(&[user, schemas]);
    let at = d.get(&id("dtmi:com:example:Robot:at;1")).unwrap();
    assert!(at.schema().unwrap() == &id("dtmi:com:example:Position;1"));
    assert!(at.defined_in == Some(id("dtmi:com:example:Robot;1")));
    let x = d.get(&id("dtmi:com:example:Position:x;1")).unwrap();
    assert!(x.defined_in == Some(id("dtmi:com:example:Position;1")));
}

#[test]
fn a_document_may_be_a_list() {
    let list = format!("[{BASE}, {THERMOSTAT}]");
    let d = ok(&[&list]);
    assert_eq!(d.len(), 10 + 2 + 3);
    assert!(d.get(&id("dtmi:com:example:A;1")).is_some());
    assert!(d.get(&id("dtmi:com:example:Thermostat;1")).is_some());
}

#[test]
fn unknown_kind() {
    let text = r#"{ "@id": "dtmi:com:example:Thing;1", "@type": ["Widget", "Interface"] }"#;
    match fails(&[text]) {
        ParseError::UnknownEntityKind { id: found, types } => {
            assert!(found == id("dtmi:com:example:Thing;1"));
            assert_eq!(types, vec!["Widget".to_string(), "Interface".to_string()]);
        }
        other => panic!("{other:?}"),
    }
    let ambiguous = r#"{ "@id": "dtmi:com:example:Thing;1", "@type": ["Property", "Telemetry"] }"#;
    assert!(matches!(fails(&[ambiguous]), ParseError::UnknownEntityKind { .. }));
    let absent = r#"{ "@id": "dtmi:com:example:Thing;1" }"#;
    match fails(&[absent]) {
        ParseError::UnknownEntityKind { types, .. } => assert!(types.is_empty()),
        other => panic!("{other:?}"),
    }
    let repeated = r#"{ "@id": "dtmi:com:example:Thing;1", "@type": ["Interface", "Interface"] }"#;
    assert!(ok(&[repeated]).get(&id("dtmi:com:example:Thing;1")).is_some());
}

#[test]
fn missing_required_fields() {
    let no_name = r#"{
        "@id": "dtmi:com:example:A;1", "@type": "Interface",
        "contents": [ { "@id": "dtmi:com:example:A:x;1", "@type": "Telemetry", "schema": "double" } ]
    }"#;
    match fails(&[no_name]) {
        ParseError::MissingRequiredField { id: found, field } => {
            assert!(found == id("dtmi:com:example:A:x;1"));
            assert!(field == EntityField::Name);
        }
        other => panic!("{other:?}"),
    }
    let no_schema = r#"{
        "@id": "dtmi:com:example:A;1", "@type": "Interface",
        "contents": [ { "@type": "Telemetry", "name": "x" } ]
    }"#;
    match fails(&[no_schema]) {
        ParseError::MissingRequiredField { id: found, field } => {
            assert!(found == id("dtmi:com:example:A:x;1"));
            assert!(field == EntityField::Schema);
        }
        other => panic!("{other:?}"),
    }
    let nameless_child = r#"{
        "@id": "dtmi:com:example:A;1", "@type": "Interface",
        "contents": [ { "@type": "Telemetry", "schema": "double" } ]
    }"#;
    match fails(&[nameless_child]) {
        ParseError::MissingRequiredField { id: found, field } => {
            assert!(found == id("dtmi:com:example:A;1"));
            assert!(field == EntityField::Contents);
        }
        other => panic!("{other:?}"),
    }
    let number_for_schema = r#"{
        "@id": "dtmi:com:example:A;1", "@type": "Interface",
        "contents": [ { "@type": "Telemetry", "name": "x", "schema": 5 } ]
    }"#;
    match fails(&[number_for_schema]) {
        ParseError::MissingRequiredField { id: found, field } => {
            assert!(found == id("dtmi:com:example:A:x;1"));
            assert!(field == EntityField::Schema);
        }
        other => panic!("{other:?}"),
    }
}

#[test]
fn malformed_identifiers() {
    match fails(&[r#"{ "@id": "com:example:A;1", "@type": "Interface" }"#]) {
        ParseError::MalformedIdentifier { text } => assert_eq!(text, "com:example:A;1"),
        other => panic!("{other:?}"),
    }
    match fails(&[r#"{ "@type": "Interface" }"#]) {
        ParseError::MalformedIdentifier { text } => assert_eq!(text, ""),
        other => panic!("{other:?}"),
    }
    match fails(&[r#"{ "@id": 7, "@type": "Interface" }"#]) {
        ParseError::MalformedIdentifier { text } => assert_eq!(text, ""),
        other => panic!("{other:?}"),
    }
    match fails(&["17"]) {
        ParseError::MalformedIdentifier { text } => assert_eq!(text, ""),
        other => panic!("{other:?}"),
    }
    match fails(&[r#"{ "@id": "dtmi:com:example:A;1", "@type": "Interface", "extends": "nowhere" }"#]) {
        ParseError::MalformedIdentifier { text } => assert_eq!(text, "nowhere"),
        other => panic!("{other:?}"),
    }
}

#[test]
fn dialect_comes_from_the_context_or_the_caller() {
    let with_context = r#"{ "@context": "dtmi:dtdl:context;3", "@id": "dtmi:com:example:A;1", "@type": "Interface" }"#;
    let without = r#"{ "@id": "dtmi:com:example:B;1", "@type": "Interface" }"#;
    let other_context = r#"{ "@context": "https://example.com/ctx", "@id": "dtmi:com:example:C;1", "@type": "Interface" }"#;
    let documents = vec![json(with_context), json(without), json(other_context)];
    let entities: Vec<Entity> = classify_documents(&documents, 7).unwrap();
    assert_eq!(entities[0].dtdl_version, 3);
    assert!(entities[0].undefined_properties.is_empty());
    assert_eq!(entities[1].dtdl_version, 7);
    assert_eq!(entities[2].dtdl_version, 7);
    assert_eq!(entities[2].undefined_properties.len(), 1);
    assert_eq!(entities[2].undefined_properties[0].name, "@context");
}

#[test]
fn a_member_of_a_later_dialect_is_kept_not_read() {
    let old = r#"{
        "@context": "dtmi:dtdl:context;1",
        "@id": "dtmi:com:example:B;1",
        "@type": "Interface",
        "extends": "dtmi:com:example:Nowhere;1"
    }"#;
    let d = ok(&[old]);
    let b = d.get(&id("dtmi:com:example:B;1")).unwrap();
    assert_eq!(b.dtdl_version, 1);
    assert!(b.references.is_empty());
    assert_eq!(b.undefined_properties.len(), 1);
    assert_eq!(b.undefined_properties[0].name, "extends");
    assert!(
        b.undefined_properties[0].value == JsonValue::String("dtmi:com:example:Nowhere;1".to_string())
    );
    let new = old.replace("context;1", "context;2");
    assert!(matches!(fails(&[&new]), ParseError::UnresolvedReference { .. }));
}

#[test]
fn entities_come_owner_first_in_document_order() {
    let documents = vec![json(THERMOSTAT), json(BASE)];
    let entities = classify_documents(&documents, 2).unwrap();
    let ids: Vec<String> = entities.iter().map(|e| e.id.to_string()).collect();
    assert_eq!(
        ids,
        vec![
            "dtmi:com:example:Thermostat;1",
            "dtmi:com:example:Thermostat:temperature;1",
            "dtmi:com:example:Thermostat:setPoint;1",
            "dtmi:com:example:A;1",
            "dtmi:com:example:A:temperature;1",
        ]
    );
}

#[test]
fn resolving_entities_built_by_hand() {
    let parent = Entity {
        dtdl_version: 2,
        id: id("dtmi:com:example:A;1"),
        child_of: Some(id("dtmi:com:example:Missing;1")),
        defined_in: None,
        undefined_properties: vec![],
        kind: EntityKind::Interface,
        name: None,
        references: vec![],
    };
    match ModelDictionary::resolve(vec![parent]) {
        Err(ParseError::UnresolvedReference { from, field, target }) => {
            assert!(from == id("dtmi:com:example:A;1"));
            assert!(field == EntityField::Parent);
            assert!(target == id("dtmi:com:example:Missing;1"));
        }
        other => panic!("{:?}", other.err()),
    }
}

#[test]
fn values_tell_their_shape() {
    let value = json(r#"{ "text": "x", "list": [1, "two"], "flag": true, "nothing": null }"#);
    let members = value.as_members().unwrap();
    assert!(value.as_text().is_none());
    assert!(value.as_items().is_none());
    let text = get_member(members, "text").unwrap();
    assert_eq!(text.as_text(), Some(&"x".to_string()));
    assert!(text.as_members().is_none());
    let list = get_member(members, "list").unwrap();
    let items = list.as_items().unwrap();
    assert_eq!(items.len(), 2);
    assert!(items[0] == JsonValue::Number("1".to_string()));
    assert!(items[1].deep_clone() == JsonValue::String("two".to_string()));
    assert!(get_member(members, "flag").unwrap() == &JsonValue::Bool(true));
    assert!(get_member(members, "nothing").unwrap() == &JsonValue::Null);
    assert!(get_member(members, "absent").is_none());
    assert!(value.deep_clone() == value);
}

#[test]
fn a_dictionary_is_always_resolved() {
    let d = ok(&[THERMOSTAT, BASE]);
    d.check_resolved();
    let interfaces = d.positions_of_kind(EntityKind::Interface);
    assert_eq!(interfaces, vec![10, 13]);
    assert!(d.positions_of_kind(EntityKind::Command).is_empty());
}

#[test]
fn a_telemetry_without_schema_does_not_resolve() {
    let telemetry = Entity {
        dtdl_version: 2,
        id: id("dtmi:com:example:A:x;1"),
        child_of: None,
        defined_in: None,
        undefined_properties: vec![],
        kind: EntityKind::Telemetry,
        name: Some("x".to_string()),
        references: vec![],
    };
    match ModelDictionary::resolve(vec![telemetry]) {
        Err(ParseError::MissingRequiredField { id: found, field }) => {
            assert!(found == id("dtmi:com:example:A:x;1"));
            assert!(field == EntityField::Schema);
        }
        other => panic!("{:?}", other.err()),
    }
}

fn bare(id_text: &str, parent: Option<&str>, kind: EntityKind) -> Entity {
    Entity {
        dtdl_version: 2,
        id: id(id_text),
        child_of: parent.map(id),
        defined_in: None,
        undefined_properties: vec![],
        kind,
        name: None,
        references: vec![],
    }
}

#[test]
fn a_child_may_stand_before_its_parent() {
    let child = bare("dtmi:com:example:A:inner;1", Some("dtmi:com:example:A;1"), EntityKind::Object);
    let parent = bare("dtmi:com:example:A;1", None, EntityKind::Interface);
    let d = ModelDictionary::resolve(vec![child, parent]).unwrap();
    assert_eq!(d.position(&id("dtmi:com:example:A:inner;1")), Some(10));
    assert_eq!(d.position(&id("dtmi:com:example:A;1")), Some(11));
}

#[test]
fn parents_in_a_circle_do_not_resolve() {
    let a = bare("dtmi:com:example:A;1", Some("dtmi:com:example:B;1"), EntityKind::Interface);
    let b = bare("dtmi:com:example:B;1", Some("dtmi:com:example:A;1"), EntityKind::Interface);
    match ModelDictionary::resolve(vec![a, b]) {
        Err(ParseError::UnresolvedReference { from, field, target }) => {
            assert!(from == id("dtmi:com:example:A;1"));
            assert!(field == EntityField::Parent);
            assert!(target == id("dtmi:com:example:B;1"));
        }
        other => panic!("{:?}", other.err()),
    }
    let own = bare("dtmi:com:example:C;1", Some("dtmi:com:example:C;1"), EntityKind::Interface);
    assert!(matches!(
        ModelDictionary::resolve(vec![own]),
        Err(ParseError::UnresolvedReference { field: EntityField::Parent, .. })
    ));
}

#[test]
fn a_partition_that_is_not_defined_does_not_resolve() {
    let mut e = bare("dtmi:com:example:A;1", None, EntityKind::Interface);
    e.defined_in = Some(id("dtmi:com:example:Nowhere;1"));
    match ModelDictionary::resolve(vec![e]) {
        Err(ParseError::UnresolvedReference { field, target, .. }) => {
            assert!(field == EntityField::Partition);
            assert!(target == id("dtmi:com:example:Nowhere;1"));
        }
        other => panic!("{:?}", other.err()),
    }
}

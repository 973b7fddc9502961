use dtdl_parser::dtmi::{create_dtmi, Dtmi};
use dtdl_parser::entity::EntityField;
use dtdl_parser::entity_info::{
    CommandInfo, CommandPayloadInfoImpl, ComponentInfoImpl, FieldInfoImpl, InterfaceInfoImpl,
    PrimitiveSchemaInfo, PrimitiveSchemaInfoImpl,
};
use dtdl_parser::entity_kind::EntityKind;
use dtdl_parser::json_value::{get_member, JsonValue, Member};
use dtdl_parser::standard::DTDL_VERSION;

fn to_json(value: &serde_json::Value) -> JsonValue {
    match value {
        serde_json::Value::Null => JsonValue::Null,
        serde_json::Value::Bool(b) => JsonValue::Bool(*b),
        serde_json::Value::Number(n) => JsonValue::Number(n.to_string()),
        serde_json::Value::String(s) => JsonValue::String(s.clone()),
        serde_json::Value::Array(items) => JsonValue::Array(items.iter().map(to_json).collect()),
        serde_json::Value::Object(map) => JsonValue::Object(
            map.iter().map(|(k, v)| Member { name: k.clone(), value: to_json(v) }).collect(),
        ),
    }
}

fn json(text: &str) -> JsonValue {
    let value: serde_json::Value = serde_json::from_str(text).unwrap();
    to_json(&value)
}

#[test]
fn new_interface_info_impl_test() {
    let mut id_result: Option<Dtmi> = None;
    create_dtmi("dtmi:com:example:Thermostat;1.0", &mut id_result);
    assert!(id_result.is_some());
    let id = id_result.unwrap();

    let mut child_of_result: Option<Dtmi> = None;
    create_dtmi("dtmi:com:example:Cabin;1.0", &mut child_of_result);
    assert!(child_of_result.is_some());
    let child_of = child_of_result.unwrap();

    let mut defined_in_result: Option<Dtmi> = None;
    create_dtmi("dtmi:com:example:Something;1.0", &mut defined_in_result);
    assert!(defined_in_result.is_some());
    let defined_in = defined_in_result.unwrap();

    let first_propery_value: JsonValue = json("{\"first\": \"this\"}");
    let second_propery_value: JsonValue = json("{\"second\": \"that\"}");

    let mut interface_info =
        InterfaceInfoImpl::new(2, id.clone(), Some(child_of.clone()), Some(defined_in.clone()));
    interface_info.add_undefined_property(String::from("first"), first_propery_value.deep_clone());
    interface_info.add_undefined_property(String::from("second"), second_propery_value.deep_clone());

    assert!(interface_info.dtdl_version() == 2);
    assert!(interface_info.id() == &id);
    assert!(interface_info.child_of().is_some());
    assert!(interface_info.child_of().clone().unwrap() == child_of);
    assert!(interface_info.defined_in().is_some());
    assert!(interface_info.defined_in().clone().unwrap() == defined_in);
    assert!(interface_info.entity_kind() == EntityKind::Interface);
    assert!(interface_info.undefined_properties().len() == 2);
    assert!(
        get_member(interface_info.undefined_properties(), "first").unwrap().deep_clone()
            == first_propery_value
    );
    assert!(
        get_member(interface_info.undefined_properties(), "second").unwrap().deep_clone()
            == second_propery_value
    );
}

#[test]
fn new_component_info_impl_test() {
    let mut id_result: Option<Dtmi> = None;
    create_dtmi("dtmi:com:example:Thermostat;1.0", &mut id_result);
    assert!(id_result.is_some());
    let id = id_result.unwrap();

    let mut child_of_result: Option<Dtmi> = None;
    create_dtmi("dtmi:com:example:Cabin;1.0", &mut child_of_result);
    assert!(child_of_result.is_some());
    let child_of = child_of_result.unwrap();

    let mut defined_in_result: Option<Dtmi> = None;
    create_dtmi("dtmi:com:example:Something;1.0", &mut defined_in_result);
    assert!(defined_in_result.is_some());
    let defined_in = defined_in_result.unwrap();

    let first_propery_value: JsonValue = json("{\"first\": \"this\"}");
    let second_propery_value: JsonValue = json("{\"second\": \"that\"}");

    let mut schema_info_id: Option<Dtmi> = None;
    create_dtmi("dtmi:dtdl:class:String;2", &mut schema_info_id);
    assert!(schema_info_id.is_some());

    let interface_info = InterfaceInfoImpl::new(DTDL_VERSION, schema_info_id.unwrap(), None, None);

    let mut component_info = ComponentInfoImpl::new(
        String::from("one"),
        2,
        id.clone(),
        Some(child_of.clone()),
        Some(defined_in.clone()),
        Some(interface_info.id().clone()),
    );
    component_info.add_undefined_property(String::from("first"), first_propery_value.deep_clone());
    component_info.add_undefined_property(String::from("second"), second_propery_value.deep_clone());

    assert!(component_info.dtdl_version() == 2);
    assert!(component_info.id() == &id);
    assert!(component_info.child_of().is_some());
    assert!(component_info.child_of().clone().unwrap() == child_of);
    assert!(component_info.defined_in().is_some());
    assert!(component_info.defined_in().clone().unwrap() == defined_in);
    assert!(component_info.entity_kind() == EntityKind::Component);
    assert!(component_info.undefined_properties().len() == 2);
    assert!(
        get_member(component_info.undefined_properties(), "first").unwrap().deep_clone()
            == first_propery_value
    );
    assert!(
        get_member(component_info.undefined_properties(), "second").unwrap().deep_clone()
            == second_propery_value
    );

    assert!(component_info.name() == "one");
    assert!(component_info.schema().unwrap() == interface_info.id());
}

#[test]
fn new_command_payload_info_impl_test() {
    let mut id_result: Option<Dtmi> = None;
    create_dtmi("dtmi:com:example:send_notification:request;1.0", &mut id_result);
    assert!(id_result.is_some());
    let id = id_result.unwrap();

    let mut child_of_result: Option<Dtmi> = None;
    create_dtmi("dtmi:com:example:HVAC;1.0", &mut child_of_result);
    assert!(child_of_result.is_some());
    let child_of = child_of_result.unwrap();

    let mut defined_in_result: Option<Dtmi> = None;
    create_dtmi("dtmi:com:example:command.send_notification;1.0", &mut defined_in_result);
    assert!(defined_in_result.is_some());
    let defined_in = defined_in_result.unwrap();

    let first_propery_value: JsonValue = json("{\"first\": \"this\"}");
    let second_propery_value: JsonValue = json("{\"second\": \"that\"}");

    let mut schema_info_id: Option<Dtmi> = None;
    create_dtmi("dtmi:dtdl:class:String;2", &mut schema_info_id);
    assert!(schema_info_id.is_some());

    let schema_info = PrimitiveSchemaInfoImpl::new(
        DTDL_VERSION,
        schema_info_id.unwrap(),
        None,
        None,
        EntityKind::String,
    );

    let mut command_payload_info = CommandPayloadInfoImpl::new(
        2,
        id.clone(),
        Some(child_of.clone()),
        Some(defined_in.clone()),
        Some(String::from("one")),
        Some(schema_info.as_entity_info().id().clone()),
    );
    command_payload_info
        .add_undefined_property(String::from("first"), first_propery_value.deep_clone());
    command_payload_info
        .add_undefined_property(String::from("second"), second_propery_value.deep_clone());

    assert!(command_payload_info.dtdl_version() == 2);
    assert!(command_payload_info.id() == &id);
    assert!(command_payload_info.child_of().is_some());
    assert!(command_payload_info.child_of().clone().unwrap() == child_of);
    assert!(command_payload_info.defined_in().is_some());
    assert!(command_payload_info.defined_in().clone().unwrap() == defined_in);
    assert!(command_payload_info.entity_kind() == EntityKind::CommandPayload);
    assert!(command_payload_info.undefined_properties().len() == 2);
    assert!(
        get_member(command_payload_info.undefined_properties(), "first").unwrap().deep_clone()
            == first_propery_value
    );
    assert!(
        get_member(command_payload_info.undefined_properties(), "second").unwrap().deep_clone()
            == second_propery_value
    );

    let retrieved_name = command_payload_info.name().clone();
    assert!(retrieved_name.is_some());
    assert!(retrieved_name.unwrap() == "one");
}

#[test]
fn new_field_info_impl_test() {
    let id = Dtmi::parse("dtmi:com:example:Thermostat;1.0").unwrap();
    let child_of = Dtmi::parse("dtmi:com:example:Cabin;1.0").unwrap();
    let defined_in = Dtmi::parse("dtmi:com:example:Something;1.0").unwrap();
    let schema = Dtmi::parse("dtmi:dtdl:class:String;2").unwrap();
    let mut field_info = FieldInfoImpl::new(
        String::from("one"),
        2,
        id.clone(),
        Some(child_of.clone()),
        Some(defined_in.clone()),
        Some(schema.clone()),
    );
    field_info.add_undefined_property(String::from("first"), json("{\"first\": \"this\"}"));
    assert!(field_info.dtdl_version() == 2);
    assert!(field_info.id() == &id);
    assert!(field_info.child_of().clone().unwrap() == child_of);
    assert!(field_info.defined_in().clone().unwrap() == defined_in);
    assert!(field_info.entity_kind() == EntityKind::Field);
    assert!(field_info.undefined_properties().len() == 1);
    assert!(field_info.name() == "one");
    assert!(field_info.schema().unwrap() == &schema);
    let entity = field_info.into_entity();
    assert_eq!(entity.name, Some(String::from("one")));
    assert!(entity.kind == EntityKind::Field);
}

#[test]
fn setting_a_property_twice_replaces_it() {
    let id = Dtmi::parse("dtmi:com:example:Thermostat;1").unwrap();
    let mut interface_info = InterfaceInfoImpl::new(2, id, None, None);
    interface_info.add_undefined_property(String::from("first"), json("1"));
    interface_info.add_undefined_property(String::from("second"), json("2"));
    interface_info.add_undefined_property(String::from("first"), json("3"));
    let properties = interface_info.undefined_properties();
    assert_eq!(properties.len(), 2);
    assert_eq!(properties[0].name, "first");
    assert!(properties[0].value == JsonValue::Number(String::from("3")));
    assert_eq!(properties[1].name, "second");
    assert!(properties[1].value == JsonValue::Number(String::from("2")));
}

#[test]
fn primitive_schema_is_an_entity() {
    let id = Dtmi::parse("dtmi:dtdl:class:String;2").unwrap();
    let schema = PrimitiveSchemaInfoImpl::new(DTDL_VERSION, id.clone(), None, None, EntityKind::String);
    let entity = schema.as_entity_info();
    assert!(entity.id() == &id);
    assert!(entity.entity_kind() == EntityKind::String);
    assert_eq!(entity.dtdl_version(), 2);
    assert!(entity.child_of().is_none());
    assert!(entity.defined_in().is_none());
    assert!(entity.name().is_none());
    assert!(entity.schema().is_none());
    assert!(schema.into_entity().id == id);
}

#[test]
fn command_without_payloads_has_neither() {
    let id = Dtmi::parse("dtmi:com:example:reboot;1").unwrap();
    let payload = CommandPayloadInfoImpl::new(2, id, None, None, None, None);
    let entity = payload.into_entity();
    assert!(entity.request().is_none());
    assert!(entity.response().is_none());
    assert!(entity.reference(EntityField::Schema).is_none());
}

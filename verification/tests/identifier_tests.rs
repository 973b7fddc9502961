use dtdl_parser::dtmi::{create_dtmi, Dtmi};

fn parsed(text: &str) -> Dtmi {
    match Dtmi::parse(text) {
        Ok(d) => d,
        Err(e) => panic!("{} was refused", e.text),
    }
}

#[test]
fn parses_labels_and_version() {
    let d = parsed("dtmi:com:example:Thermostat;1");
    assert_eq!(d.labels(), &vec!["com".to_string(), "example".to_string(), "Thermostat".to_string()]);
    assert_eq!(d.version(), 1);
    assert_eq!(d.to_string(), "dtmi:com:example:Thermostat;1");
}

#[test]
fn version_is_a_whole_number() {
    let d = parsed("dtmi:com:example:Thermostat;12");
    assert_eq!(d.version(), 12);
    assert_eq!(parsed("dtmi:a;999999999").version(), 999_999_999);
    for text in ["dtmi:a;12.345", "dtmi:a;1.5", "dtmi:a;1.00", "dtmi:a;1.0.0", "dtmi:a;.0"] {
        assert!(Dtmi::parse(text).is_err(), "{text}");
    }
}

#[test]
fn a_version_may_be_written_with_a_zero_behind_it() {
    let a = parsed("dtmi:com:example:Thermostat;1.0");
    let b = parsed("dtmi:com:example:Thermostat;1");
    assert!(a == b);
    assert_eq!(a.to_string(), "dtmi:com:example:Thermostat;1");
}

#[test]
fn normal_form_parses_to_the_same_identifier() {
    for text in [
        "dtmi:a;1",
        "dtmi:com:example:command.send_notification;1.0",
        "dtmi:dtdl:class:String;2",
        "dtmi:x9:y_z;999999999.0",
    ] {
        let d = parsed(text);
        let again = parsed(&d.to_string());
        assert!(d == again, "{text}");
        assert_eq!(d.to_string(), again.to_string());
    }
}

#[test]
fn refuses_malformed_text() {
    for text in [
        "",
        "dtmi",
        "dtmi:",
        "dtmi:;1",
        "dtmi:com",
        "dtmi:com;",
        "dtmi:com;0",
        "dtmi:com;01",
        "dtmi:com;1.",
        "dtmi:com;1.01",
        "dtmi:com;1.2.3",
        "dtmi:com;1x",
        "dtmi:com;1000000000",
        "dtmi:com;1.1",
        "dtmi:com:;1",
        "dtmi::com;1",
        "dtmi:9com;1",
        "dtmi:_com;1",
        "dtmi:co m;1",
        "dtmi:com;1;2",
        "DTMI:com;1",
        "urn:com;1",
        "dtmi:caf\u{e9};1",
        "dtmi:com;\u{661}",
    ] {
        match Dtmi::parse(text) {
            Ok(_) => panic!("{text:?} was accepted"),
            Err(e) => assert_eq!(e.text, text),
        }
    }
}

#[test]
fn create_dtmi_fills_the_slot() {
    let mut slot: Option<Dtmi> = None;
    create_dtmi("dtmi:com:example:HVAC;1.0", &mut slot);
    assert!(slot.is_some());
    assert_eq!(slot.unwrap().to_string(), "dtmi:com:example:HVAC;1");
    let mut slot: Option<Dtmi> = Some(parsed("dtmi:a;1"));
    create_dtmi("not an identifier", &mut slot);
    assert!(slot.is_none());
}

#[test]
fn child_adds_a_label() {
    let owner = parsed("dtmi:com:example:Thermostat;3");
    let child = owner.child("temperature").unwrap();
    assert_eq!(child.to_string(), "dtmi:com:example:Thermostat:temperature;3");
    assert!(owner.child("").is_none());
    assert!(owner.child("1st").is_none());
    assert!(owner.child("a:b").is_none());
}

#[test]
fn from_parts_checks_the_parts() {
    let ok = Dtmi::from_parts(vec!["a".to_string(), "b".to_string()], 7).unwrap();
    assert_eq!(ok.to_string(), "dtmi:a:b;7");
    assert!(Dtmi::from_parts(vec![], 7).is_none());
    assert!(Dtmi::from_parts(vec!["a".to_string()], 0).is_none());
    assert!(Dtmi::from_parts(vec!["a".to_string()], 1_000_000_000).is_none());
    assert!(Dtmi::from_parts(vec!["a".to_string()], 999_999_999).is_some());
    assert!(Dtmi::from_parts(vec!["caf\u{e9}".to_string()], 1).is_none());
}

#[test]
fn order_goes_by_labels_then_versions() {
    let texts = [
        "dtmi:a;1",
        "dtmi:a;2",
        "dtmi:a;10",
        "dtmi:a:b;1",
        "dtmi:ab;1",
        "dtmi:b;1",
        "dtmi:b:a;1",
    ];
    let ids: Vec<Dtmi> = texts.iter().map(|t| parsed(t)).collect();
    for i in 0..ids.len() {
        for j in 0..ids.len() {
            assert_eq!(ids[i].precedes(&ids[j]), i < j, "{} {}", texts[i], texts[j]);
        }
    }
    assert!(!parsed("dtmi:a;1.0").precedes(&parsed("dtmi:a;1")));
    assert!(!parsed("dtmi:a;1").precedes(&parsed("dtmi:a;1.0")));
    assert!(parsed("dtmi:A;1").precedes(&parsed("dtmi:a;1")));
}

use dtdl_parser::provider_action::{find_topic, parse_u64, publish_period, ProviderAction};

#[test]
fn actions_by_name() {
    assert_eq!(ProviderAction::from_str("PUBLISH"), Some(ProviderAction::Publish));
    assert_eq!(ProviderAction::from_str("STOP_PUBLISH"), Some(ProviderAction::StopPublish));
    assert_eq!(ProviderAction::from_str("publish"), None);
    assert_eq!(ProviderAction::from_str("Publish"), None);
    assert_eq!(ProviderAction::from_str(""), None);
    assert_eq!(ProviderAction::from_str("STOP"), None);
}

#[test]
fn names_of_actions() {
    assert_eq!(ProviderAction::Publish.as_str(), "PUBLISH");
    assert_eq!(ProviderAction::StopPublish.to_string(), "STOP_PUBLISH");
    for action in [ProviderAction::Publish, ProviderAction::StopPublish] {
        assert_eq!(ProviderAction::from_str(action.as_str()), Some(action));
    }
}

#[test]
fn first_topic_of_a_name() {
    let topics = vec!["a".to_string(), "b".to_string(), "a".to_string()];
    assert_eq!(find_topic(&topics, &"a".to_string()), Some(0));
    assert_eq!(find_topic(&topics, &"b".to_string()), Some(1));
    assert_eq!(find_topic(&topics, &"c".to_string()), None);
    assert_eq!(find_topic(&vec![], &"a".to_string()), None);
}

#[test]
fn numbers_of_up_to_64_bits() {
    assert_eq!(parse_u64("0"), Some(0));
    assert_eq!(parse_u64("300"), Some(300));
    assert_eq!(parse_u64("+300"), Some(300));
    assert_eq!(parse_u64("007"), Some(7));
    assert_eq!(parse_u64("18446744073709551615"), Some(u64::MAX));
    assert_eq!(parse_u64("18446744073709551616"), None);
    assert_eq!(parse_u64("99999999999999999999999"), None);
    for text in ["", "+", "-1", " 1", "1 ", "1_000", "1.0", "0x10", "++1", "1e3", "\u{661}"] {
        assert_eq!(parse_u64(text), None, "{text:?}");
        assert!(text.parse::<u64>().is_err(), "{text:?}");
    }
    for text in ["0", "+0", "0012", "18446744073709551615", "+18446744073709551615"] {
        assert_eq!(parse_u64(text), text.parse::<u64>().ok(), "{text:?}");
    }
}

#[test]
fn period_is_the_last_value_of_the_kind() {
    let pair = |k: &str, v: &str| (k.to_string(), v.to_string());
    assert_eq!(publish_period(&vec![], "frequency_ms", 300), Some(300));
    assert_eq!(publish_period(&vec![pair("other", "x")], "frequency_ms", 300), Some(300));
    let both = vec![pair("frequency_ms", "1000"), pair("other", "5"), pair("frequency_ms", "50")];
    assert_eq!(publish_period(&both, "frequency_ms", 300), Some(50));
    assert_eq!(publish_period(&both, "other", 300), Some(5));
    let bad_last = vec![pair("frequency_ms", "1000"), pair("frequency_ms", "fast")];
    assert_eq!(publish_period(&bad_last, "frequency_ms", 300), None);
    let bad_first = vec![pair("frequency_ms", "fast"), pair("frequency_ms", "1000")];
    assert_eq!(publish_period(&bad_first, "frequency_ms", 300), None);
}

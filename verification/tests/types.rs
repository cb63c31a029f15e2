use bones_core::event::types::{EventType, UnknownEventType};

#[test]
fn display_all_types() {
    let expected = [
        (EventType::Create, "item.create"),
        (EventType::Update, "item.update"),
        (EventType::Move, "item.move"),
        (EventType::Assign, "item.assign"),
        (EventType::Comment, "item.comment"),
        (EventType::Link, "item.link"),
        (EventType::Unlink, "item.unlink"),
        (EventType::Delete, "item.delete"),
        (EventType::Compact, "item.compact"),
        (EventType::Snapshot, "item.snapshot"),
        (EventType::Redact, "item.redact"),
    ];

    for (et, s) in expected {
        assert_eq!(et.to_string(), s);
        assert_eq!(et.as_str(), s);
    }
}

#[test]
fn fromstr_all_types() {
    for et in EventType::ALL {
        let parsed: EventType = et.as_str().parse().expect("should parse");
        assert_eq!(parsed, et);
    }
}

#[test]
fn display_fromstr_roundtrip() {
    for et in EventType::ALL {
        let s = et.to_string();
        let reparsed: EventType = s.parse().expect("should roundtrip");
        assert_eq!(et, reparsed);
    }
}

#[test]
fn fromstr_rejects_unknown() {
    let err = "item.unknown".parse::<EventType>().unwrap_err();
    assert_eq!(err.raw, "item.unknown");
    assert!(err.to_string().contains("item.unknown"));
    assert!(err.to_string().contains("expected one of"));
}

#[test]
fn fromstr_rejects_empty() {
    assert!("".parse::<EventType>().is_err());
}

#[test]
fn fromstr_rejects_bare_verb() {
    // Must use full "item.<verb>" format
    assert!("create".parse::<EventType>().is_err());
}

#[test]
fn all_contains_exactly_11_types() {
    assert_eq!(EventType::ALL.len(), 11);
}

#[test]
fn error_display_includes_valid_options() {
    let err = UnknownEventType { raw: "nope".into() };
    let msg = err.to_string();
    for et in EventType::ALL {
        assert!(msg.contains(et.as_str()), "missing {}", et.as_str());
    }
}

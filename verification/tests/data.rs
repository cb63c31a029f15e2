use bones_core::event::canonical::{canonicalize_json, parse_json};
use bones_core::event::data::{
    AssignAction, AssignData, CommentData, CompactData, CreateData, DeleteData, EventData, LinkData,
    MoveData, RedactData, SnapshotData, UnlinkData, UpdateData,
};
use bones_core::event::json::{JsonMap, JsonValue};
use bones_core::event::types::EventType;
use bones_core::model::item::{Kind, Size, State, Urgency};

fn json_value(text: &str) -> JsonValue {
    parse_json(text).expect("test JSON")
}

// === CreateData =========================================================

#[test]
fn create_data_full_roundtrip() {
    let data = EventData::Create(CreateData {
        title: "Fix auth retry".into(),
        kind: Kind::Task,
        size: Some(Size::M),
        urgency: Urgency::Default,
        labels: vec!["backend".into()],
        parent: None,
        causation: Some("bn-x1y2".into()),
        description: None,
        extra: JsonMap::new(),
    });
    let json = canonicalize_json(&data.to_json_value().expect("serialize"));
    let deser = EventData::deserialize_for(EventType::Create, &json).expect("deserialize");
    assert_eq!(data, deser);
}

#[test]
fn create_data_minimal() {
    let json = r#"{"title":"Hello","kind":"task"}"#;
    let EventData::Create(data) = EventData::deserialize_for(EventType::Create, json).expect("deserialize")
    else {
        panic!("wrong payload");
    };
    assert_eq!(data.title, "Hello");
    assert_eq!(data.kind, Kind::Task);
    assert_eq!(data.urgency, Urgency::Default);
    assert!(data.labels.is_empty());
    assert!(data.parent.is_none());
    assert!(data.causation.is_none());
    assert!(data.description.is_none());
}

#[test]
fn create_data_with_unknown_fields() {
    let json = r#"{"title":"Test","kind":"bug","future_field":"value123"}"#;
    let EventData::Create(data) = EventData::deserialize_for(EventType::Create, json).expect("deserialize")
    else {
        panic!("wrong payload");
    };
    assert_eq!(data.title, "Test");
    assert_eq!(data.kind, Kind::Bug);
    assert_eq!(
        data.extra.get("future_field"),
        Some(&json_value(r#""value123""#))
    );

    // Roundtrip preserves the unknown field
    let reserialized =
        canonicalize_json(&EventData::Create(data).to_json_value().expect("serialize"));
    assert!(reserialized.contains("future_field"));
}

#[test]
fn create_data_plan_example() {
    let json = r#"{"kind":"task","labels":["backend"],"size":"m","title":"Fix auth retry"}"#;
    let EventData::Create(data) = EventData::deserialize_for(EventType::Create, json).expect("deserialize")
    else {
        panic!("wrong payload");
    };
    assert_eq!(data.title, "Fix auth retry");
    assert_eq!(data.kind, Kind::Task);
    assert_eq!(data.size, Some(Size::M));
    assert_eq!(data.labels, vec!["backend"]);
}

// === UpdateData =========================================================

#[test]
fn update_data_string_field() {
    let data = EventData::Update(UpdateData {
        field: "title".into(),
        value: json_value(r#""New title""#),
        extra: JsonMap::new(),
    });
    let json = canonicalize_json(&data.to_json_value().expect("serialize"));
    let deser = EventData::deserialize_for(EventType::Update, &json).expect("deserialize");
    assert_eq!(data, deser);
}

#[test]
fn update_data_array_field() {
    let data = EventData::Update(UpdateData {
        field: "labels".into(),
        value: json_value(r#"["frontend", "urgent"]"#),
        extra: JsonMap::new(),
    });
    let json = canonicalize_json(&data.to_json_value().expect("serialize"));
    let deser = EventData::deserialize_for(EventType::Update, &json).expect("deserialize");
    assert_eq!(data, deser);
}

// === MoveData ===========================================================

#[test]
fn move_data_without_reason() {
    let json = r#"{"state":"doing"}"#;
    let EventData::Move(data) = EventData::deserialize_for(EventType::Move, json).expect("deserialize")
    else {
        panic!("wrong payload");
    };
    assert_eq!(data.state, State::Doing);
    assert!(data.reason.is_none());
}

#[test]
fn move_data_with_reason() {
    let json = r#"{"state":"done","reason":"Shipped in commit 9f3a2b1"}"#;
    let EventData::Move(data) = EventData::deserialize_for(EventType::Move, json).expect("deserialize")
    else {
        panic!("wrong payload");
    };
    assert_eq!(data.state, State::Done);
    assert_eq!(data.reason.as_deref(), Some("Shipped in commit 9f3a2b1"));
}

#[test]
fn move_data_roundtrip() {
    let data = EventData::Move(MoveData {
        state: State::Archived,
        reason: Some("No longer needed".into()),
        extra: JsonMap::new(),
    });
    let json = canonicalize_json(&data.to_json_value().expect("serialize"));
    let deser = EventData::deserialize_for(EventType::Move, &json).expect("deserialize");
    assert_eq!(data, deser);
}

// === AssignData =========================================================

#[test]
fn assign_data_roundtrip() {
    let data = EventData::Assign(AssignData {
        agent: "agent-abc".into(),
        action: AssignAction::Assign,
        extra: JsonMap::new(),
    });
    let json = canonicalize_json(&data.to_json_value().expect("serialize"));
    let deser = EventData::deserialize_for(EventType::Assign, &json).expect("deserialize");
    assert_eq!(data, deser);
}

#[test]
fn assign_data_unassign() {
    let json = r#"{"agent":"gemini-xyz","action":"unassign"}"#;
    let EventData::Assign(data) = EventData::deserialize_for(EventType::Assign, json).expect("deserialize")
    else {
        panic!("wrong payload");
    };
    assert_eq!(data.agent, "gemini-xyz");
    assert_eq!(data.action, AssignAction::Unassign);
}

// === CommentData ========================================================

#[test]
fn comment_data_roundtrip() {
    let data = EventData::Comment(CommentData {
        body: "Root cause is a race in token refresh.".into(),
        extra: JsonMap::new(),
    });
    let json = canonicalize_json(&data.to_json_value().expect("serialize"));
    let deser = EventData::deserialize_for(EventType::Comment, &json).expect("deserialize");
    assert_eq!(data, deser);
}

// === LinkData ===========================================================

#[test]
fn link_data_blocks() {
    let data = EventData::Link(LinkData {
        target: "bn-c7d2".into(),
        link_type: "blocks".into(),
        extra: JsonMap::new(),
    });
    let json = canonicalize_json(&data.to_json_value().expect("serialize"));
    let deser = EventData::deserialize_for(EventType::Link, &json).expect("deserialize");
    assert_eq!(data, deser);
}

#[test]
fn link_data_related() {
    let data = EventData::Link(LinkData {
        target: "bn-a7x".into(),
        link_type: "related_to".into(),
        extra: JsonMap::new(),
    });
    let json = canonicalize_json(&data.to_json_value().expect("serialize"));
    assert!(json.contains("related_to"));
}

// === UnlinkData =========================================================

#[test]
fn unlink_data_roundtrip() {
    let data = EventData::Unlink(UnlinkData {
        target: "bn-c7d2".into(),
        link_type: Some("blocks".into()),
        extra: JsonMap::new(),
    });
    let json = canonicalize_json(&data.to_json_value().expect("serialize"));
    let deser = EventData::deserialize_for(EventType::Unlink, &json).expect("deserialize");
    assert_eq!(data, deser);
}

#[test]
fn unlink_data_without_link_type() {
    let json = r#"{"target":"bn-a7x"}"#;
    let EventData::Unlink(data) = EventData::deserialize_for(EventType::Unlink, json).expect("deserialize")
    else {
        panic!("wrong payload");
    };
    assert_eq!(data.target, "bn-a7x");
    assert!(data.link_type.is_none());
}

// === DeleteData =========================================================

#[test]
fn delete_data_empty() {
    let json = "{}";
    let EventData::Delete(data) = EventData::deserialize_for(EventType::Delete, json).expect("deserialize")
    else {
        panic!("wrong payload");
    };
    assert!(data.reason.is_none());
}

#[test]
fn delete_data_with_reason() {
    let data = EventData::Delete(DeleteData {
        reason: Some("Duplicate of bn-xyz".into()),
        extra: JsonMap::new(),
    });
    let json = canonicalize_json(&data.to_json_value().expect("serialize"));
    let deser = EventData::deserialize_for(EventType::Delete, &json).expect("deserialize");
    assert_eq!(data, deser);
}

// === CompactData ========================================================

#[test]
fn compact_data_roundtrip() {
    let data = EventData::Compact(CompactData {
        summary: "Auth token refresh race condition fix.".into(),
        extra: JsonMap::new(),
    });
    let json = canonicalize_json(&data.to_json_value().expect("serialize"));
    let deser = EventData::deserialize_for(EventType::Compact, &json).expect("deserialize");
    assert_eq!(data, deser);
}

// === SnapshotData =======================================================

#[test]
fn snapshot_data_roundtrip() {
    let state = json_value(r#"{"id": "bn-a3f8", "title": "Fix auth retry", "kind": "task", "state": "done", "urgency": "default", "labels": ["backend"], "assignees": ["agent-abc"]}"#);
    let data = EventData::Snapshot(SnapshotData {
        state,
        extra: JsonMap::new(),
    });
    let json = canonicalize_json(&data.to_json_value().expect("serialize"));
    let deser = EventData::deserialize_for(EventType::Snapshot, &json).expect("deserialize");
    assert_eq!(data, deser);
}

// === RedactData =========================================================

#[test]
fn redact_data_roundtrip() {
    let data = EventData::Redact(RedactData {
        target_hash: "blake3:a1b2c3d4e5f6".into(),
        reason: "Accidental secret exposure".into(),
        extra: JsonMap::new(),
    });
    let json = canonicalize_json(&data.to_json_value().expect("serialize"));
    let deser = EventData::deserialize_for(EventType::Redact, &json).expect("deserialize");
    assert_eq!(data, deser);
}

// === EventData::deserialize_for =========================================

#[test]
fn deserialize_for_create() {
    let json = r#"{"title":"Test","kind":"task"}"#;
    let data = EventData::deserialize_for(EventType::Create, json).expect("should parse");
    assert!(matches!(data, EventData::Create(_)));
}

#[test]
fn deserialize_for_update() {
    let json = r#"{"field":"title","value":"New"}"#;
    let data = EventData::deserialize_for(EventType::Update, json).expect("should parse");
    assert!(matches!(data, EventData::Update(_)));
}

#[test]
fn deserialize_for_move() {
    let json = r#"{"state":"doing"}"#;
    let data = EventData::deserialize_for(EventType::Move, json).expect("should parse");
    assert!(matches!(data, EventData::Move(_)));
}

#[test]
fn deserialize_for_assign() {
    let json = r#"{"agent":"alice","action":"assign"}"#;
    let data = EventData::deserialize_for(EventType::Assign, json).expect("should parse");
    assert!(matches!(data, EventData::Assign(_)));
}

#[test]
fn deserialize_for_comment() {
    let json = r#"{"body":"Hello world"}"#;
    let data = EventData::deserialize_for(EventType::Comment, json).expect("should parse");
    assert!(matches!(data, EventData::Comment(_)));
}

#[test]
fn deserialize_for_link() {
    let json = r#"{"target":"bn-abc","link_type":"blocks"}"#;
    let data = EventData::deserialize_for(EventType::Link, json).expect("should parse");
    assert!(matches!(data, EventData::Link(_)));
}

#[test]
fn deserialize_for_unlink() {
    let json = r#"{"target":"bn-abc"}"#;
    let data = EventData::deserialize_for(EventType::Unlink, json).expect("should parse");
    assert!(matches!(data, EventData::Unlink(_)));
}

#[test]
fn deserialize_for_delete() {
    let json = "{}";
    let data = EventData::deserialize_for(EventType::Delete, json).expect("should parse");
    assert!(matches!(data, EventData::Delete(_)));
}

#[test]
fn deserialize_for_compact() {
    let json = r#"{"summary":"TL;DR"}"#;
    let data = EventData::deserialize_for(EventType::Compact, json).expect("should parse");
    assert!(matches!(data, EventData::Compact(_)));
}

#[test]
fn deserialize_for_snapshot() {
    let json = r#"{"state":{"id":"bn-a3f8","title":"Test"}}"#;
    let data = EventData::deserialize_for(EventType::Snapshot, json).expect("should parse");
    assert!(matches!(data, EventData::Snapshot(_)));
}

#[test]
fn deserialize_for_redact() {
    let json = r#"{"target_hash":"blake3:abc","reason":"oops"}"#;
    let data = EventData::deserialize_for(EventType::Redact, json).expect("should parse");
    assert!(matches!(data, EventData::Redact(_)));
}

#[test]
fn deserialize_for_error_includes_event_type() {
    let err = EventData::deserialize_for(EventType::Create, "not json")
        .expect_err("should fail");
    assert!(err.to_string().contains("item.create"));
}

#[test]
fn deserialize_for_error_missing_required_field() {
    // CreateData requires title and kind
    let err = EventData::deserialize_for(EventType::Create, r#"{"kind":"task"}"#)
        .expect_err("should fail");
    assert!(err.to_string().contains("item.create"));
}

// === AssignAction =======================================================

#[test]
fn assign_action_display_fromstr_roundtrip() {
    for action in [AssignAction::Assign, AssignAction::Unassign] {
        let s = action.to_string();
        let reparsed: AssignAction = s.parse().expect("should parse");
        assert_eq!(action, reparsed);
    }
}

#[test]
fn assign_action_rejects_unknown() {
    assert!("add".parse::<AssignAction>().is_err());
}

// === Forward compatibility =============================================

#[test]
fn all_payload_types_preserve_unknown_fields() {
    // Test that every payload struct preserves unknown fields
    let test_cases: Vec<(&str, EventType)> = vec![
        (r#"{"title":"T","kind":"task","x":1}"#, EventType::Create),
        (r#"{"field":"f","value":"v","x":1}"#, EventType::Update),
        (r#"{"state":"open","x":1}"#, EventType::Move),
        (r#"{"agent":"a","action":"assign","x":1}"#, EventType::Assign),
        (r#"{"body":"b","x":1}"#, EventType::Comment),
        (r#"{"target":"t","link_type":"blocks","x":1}"#, EventType::Link),
        (r#"{"target":"t","x":1}"#, EventType::Unlink),
        (r#"{"x":1}"#, EventType::Delete),
        (r#"{"summary":"s","x":1}"#, EventType::Compact),
        (r#"{"state":{},"x":1}"#, EventType::Snapshot),
        (r#"{"target_hash":"h","reason":"r","x":1}"#, EventType::Redact),
    ];

    for (json_str, event_type) in test_cases {
        let data = EventData::deserialize_for(event_type, json_str)
            .unwrap_or_else(|e| panic!("failed for {event_type:?}: {e:?}"));

        // Roundtrip serialization should preserve the unknown "x" field
        let reserialized = canonicalize_json(&data.to_json_value().expect("serialize"));
        assert!(
            reserialized.contains("\"x\":1") || reserialized.contains("\"x\": 1"),
            "unknown field lost for {event_type:?}: {reserialized}"
        );
    }
}

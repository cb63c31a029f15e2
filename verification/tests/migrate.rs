use bones_core::event::data::{CreateData, EventData};
use bones_core::event::json::JsonMap;
use bones_core::event::migrate::migrate_event;
use bones_core::event::parser::CURRENT_VERSION;
use bones_core::event::types::EventType;
use bones_core::event::Event;
use bones_core::model::item::{Kind, Size, Urgency};
use bones_core::model::item_id::ItemId;

fn sample_event() -> Event {
    Event {
        wall_ts_us: 1_700_000_000_000_000,
        agent: "agent-1".into(),
        itc: "itc:AQ".into(),
        parents: vec![],
        event_type: EventType::Create,
        item_id: ItemId::new_unchecked("bn-a1b"),
        data: EventData::Create(CreateData {
            title: "Sample".into(),
            kind: Kind::Task,
            size: Some(Size::M),
            urgency: Urgency::Default,
            labels: vec!["compatibility".into()],
            parent: None,
            causation: None,
            description: None,
            extra: JsonMap::new(),
        }),
        event_hash: "blake3:deadbeef".into(),
    }
}

#[test]
fn migrate_current_version_passthrough() {
    let event = sample_event();
    let migrated = migrate_event(event.clone(), CURRENT_VERSION).expect("migrate");
    assert_eq!(migrated, event);
}

#[test]
fn migrate_v1_passthrough() {
    let event = sample_event();
    let migrated = migrate_event(event.clone(), 1).expect("migrate");
    assert_eq!(migrated, event);
}

#[test]
fn migrate_unknown_version_errors() {
    let event = sample_event();
    let err = migrate_event(event, CURRENT_VERSION + 1).expect_err("must fail");
    assert!(err.to_string().contains("unknown format version"));
}

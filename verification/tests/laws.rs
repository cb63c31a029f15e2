use bones_core::clock::itc::Stamp;
use bones_core::clock::wall::WallTime;
use bones_core::crdt::item_state::WorkItemState;
use bones_core::crdt::lww::LwwRegister;
use bones_core::crdt::merge::Merge;
use bones_core::crdt::orset::{materialize_from_events, OrSetField};
use bones_core::crdt::state::{EpochPhaseState, Phase, StateError};
use bones_core::crdt::tags::{
    derive_stamp_from_hash, hash_str_to_u64, make_event_tag, make_orset_tag, stamp_from_bits,
    tag_for_event, wall_time_of,
};
use bones_core::crdt::trace::tracing_enabled_by;
use bones_core::crdt::{EpochPhase, GSet, OrSet, Phase as Round, Timestamp};
use bones_core::dag::graph::EventDag;
use bones_core::dag::hash::{verify_chain, verify_event_hash, HashError, HashErrorCode};
use bones_core::dag::lca::{find_all_lcas, find_lca, LcaError};
use bones_core::dag::replay::{replay_divergent, ReplayError};
use bones_core::error::ErrorCode;
use bones_core::event::canonical::{canonicalize_json, canonicalize_json_str, parse_json};
use bones_core::event::data::{
    AssignAction, AssignData, CommentData, CreateData, DataParseError, EventData, MoveData,
    UpdateData,
};
use bones_core::event::hash_text::{
    decode_blake3_hash, encode_blake3_hash, encode_hex, is_valid_blake3_hash,
};
use bones_core::event::json::{JsonMap, JsonValue};
use bones_core::event::members::outline;
use bones_core::event::parser::{
    detect_version, parse_line, parse_line_partial, parse_lines, ParseError, ParsedLine,
    PartialParsedLine,
};
use bones_core::event::types::EventType;
use bones_core::event::validate::{
    parse_error_to_validation, truncate_line, validate_content, validate_event, ValidationErrorKind,
};
use bones_core::event::writer::{
    compute_event_hash, shard_header, to_tsjson_line, write_event, write_line, WriteError,
};
use bones_core::event::{hash_fields, Event};
use bones_core::model::item::{Kind, Size, State, Urgency};
use bones_core::model::item_id::ItemId;
use bones_core::shard::ShardManifest;
use bones_core::text::decimal::{i64_text, parse_i64, parse_u32, u64_text};
use bones_core::text::order::{str_rank, Rank};
use bones_core::text::set::StringSet;
use bones_core::text::slice::{
    join_strings, split_char, str_ascii_lower, str_contains, str_lines, str_strip_line_end,
    str_strip_prefix, str_trim,
};
use std::collections::hash_map::DefaultHasher;
use std::hash::{Hash, Hasher};

fn comment(ts: i64, agent: &str, parents: &[&str], body: &str) -> Event {
    let mut event = Event {
        wall_ts_us: ts,
        agent: agent.into(),
        itc: "itc:AQ".into(),
        parents: parents.iter().map(|p| (*p).to_string()).collect(),
        event_type: EventType::Comment,
        item_id: ItemId::new_unchecked("bn-a7x"),
        data: EventData::Comment(CommentData { body: body.into(), extra: JsonMap::new() }),
        event_hash: String::new(),
    };
    write_event(&mut event).unwrap();
    event
}

// -----------------------------------------------------------------------
// Text
// -----------------------------------------------------------------------

#[test]
fn numbers_are_read_back_from_their_decimal_notation() {
    for n in [0, 7, 10, 4096, i64::MAX, -1, i64::MIN] {
        assert_eq!(i64_text(n), n.to_string());
        assert_eq!(parse_i64(&i64_text(n)), Some(n));
    }
    assert_eq!(u64_text(u64::MAX), "18446744073709551615");
}

#[test]
fn numbers_that_do_not_fit_are_not_read() {
    assert_eq!(parse_i64("9223372036854775808"), None);
    assert_eq!(parse_i64("-9223372036854775809"), None);
    assert_eq!(parse_i64("+5"), Some(5));
    assert_eq!(parse_i64(""), None);
    assert_eq!(parse_i64("-"), None);
    assert_eq!(parse_i64("1_000"), None);
    assert_eq!(parse_u32("4294967295"), Some(u32::MAX));
    assert_eq!(parse_u32("4294967296"), None);
    assert_eq!(parse_u32("-1"), None);
}

#[test]
fn splitting_undoes_joining() {
    let parts = vec!["".to_string(), "a".to_string(), "bc".to_string(), "".to_string()];
    let joined = join_strings(&parts, "\t");
    assert_eq!(joined, "\ta\tbc\t");
    assert_eq!(split_char(&joined, '\t'), vec!["", "a", "bc", ""]);
    assert_eq!(split_char("", ','), vec![""]);
}

#[test]
fn text_helpers_agree_with_the_standard_library() {
    for s in ["", "  a b \u{3000}", "\u{a0}x\n", "Ünï\tCODE ", "a\r\nb\nc", "\n\n", "x\r"] {
        assert_eq!(str_trim(s), s.trim());
        assert_eq!(str_ascii_lower(s), s.to_ascii_lowercase());
        assert_eq!(str_lines(s), s.lines().map(String::from).collect::<Vec<_>>());
        assert_eq!(
            str_strip_line_end(s),
            s.trim_end_matches('\n').trim_end_matches('\r')
        );
        assert_eq!(str_contains(s, "\nb"), s.contains("\nb"));
        assert_eq!(str_strip_prefix(s, "a"), s.strip_prefix('a'));
    }
}

#[test]
fn texts_are_ordered_as_the_standard_library_orders_them() {
    let words = ["", "a", "aa", "ab", "b", "é", "\u{10000}", "\u{ffff}"];
    for a in words {
        for b in words {
            let expected = if a < b {
                Rank::Less
            } else if a == b {
                Rank::Equal
            } else {
                Rank::Greater
            };
            assert_eq!(str_rank(a, b), expected, "{a:?} {b:?}");
        }
    }
}

#[test]
fn a_set_of_texts_keeps_the_order_of_insertion() {
    let mut set = StringSet::new();
    assert!(set.is_empty());
    assert!(set.insert("b".to_string()));
    assert!(set.insert("a".to_string()));
    assert!(!set.insert("b".to_string()));
    assert_eq!(set.len(), 2);
    assert_eq!(set.get(0), "b");
    assert!(set.contains("a") && !set.contains("c"));
}

// -----------------------------------------------------------------------
// Clocks
// -----------------------------------------------------------------------

#[test]
fn forked_stamps_are_concurrent_after_an_event_each() {
    let seed = Stamp::seed();
    let (mut a, mut b) = seed.fork();
    assert!(a.leq(&b) && b.leq(&a));
    a.event();
    assert!(b.leq(&a) && !a.leq(&b));
    b.event();
    assert!(a.concurrent(&b));
    assert!(seed.leq(&a) && seed.leq(&b));
}

#[test]
fn stamps_of_different_low_bits_are_concurrent() {
    for (x, y) in [(0u64, 1u64), (7, 135), (255, 254)] {
        assert!(stamp_from_bits(x).concurrent(&stamp_from_bits(y)));
    }
    // Bits above the eighth do not matter.
    assert_eq!(stamp_from_bits(3), stamp_from_bits(3 + 256));
    assert!(Stamp::seed().leq(&stamp_from_bits(9)));
    assert!(!stamp_from_bits(9).leq(&Stamp::seed()));
}

#[test]
fn event_stamps_follow_the_hash_of_the_text() {
    let mut hasher = DefaultHasher::new();
    "blake3:abc".hash(&mut hasher);
    let bits = hasher.finish();
    assert_eq!(hash_str_to_u64("blake3:abc"), bits);
    assert_eq!(derive_stamp_from_hash("blake3:abc"), stamp_from_bits(bits));
}

#[test]
fn tags_carry_time_agent_and_hash() {
    let tag = tag_for_event(1_700_000_000_123_456, "alice", "blake3:abc");
    assert_eq!(tag.wall, WallTime { secs: 1_700_000_000, nanos: 123_456_000 });
    assert_eq!(tag.actor, hash_str_to_u64("alice"));
    assert_eq!(tag.event_hash, hash_str_to_u64("blake3:abc"));
    assert_eq!(tag.itc, 1_700_000_000_123_456);

    let before = make_event_tag(-1, 1, 2);
    assert_eq!(before.wall, WallTime { secs: -1, nanos: 999_999_000 });
    assert_eq!(before.itc, u64::MAX);
}

#[test]
fn tags_of_items_depend_on_the_value() {
    let wall = WallTime { secs: 1, nanos: 5_000 };
    let tag = make_orset_tag(1_000_005, wall, "alice", "blake3:abc", "backend");
    let mut hasher = DefaultHasher::new();
    "blake3:abc".hash(&mut hasher);
    "backend".hash(&mut hasher);
    assert_eq!(tag.event_hash, hasher.finish());
    assert_eq!(tag.actor, hash_str_to_u64("alice"));
    assert_eq!(tag.wall, wall);
    assert_ne!(tag, make_orset_tag(1_000_005, wall, "alice", "blake3:abc", "frontend"));
}

#[test]
fn a_moment_outside_the_calendar_is_the_present_one() {
    assert_eq!(wall_time_of(1_500_000), WallTime { secs: 1, nanos: 500_000_000 });
    let now = std::time::SystemTime::now()
        .duration_since(std::time::UNIX_EPOCH)
        .unwrap()
        .as_secs() as i64;
    let found = wall_time_of(u64::MAX);
    assert!((found.secs - now).abs() < 60, "{found:?}");
}

// -----------------------------------------------------------------------
// Replicated values
// -----------------------------------------------------------------------

fn timestamp(secs: i64, actor: u64) -> Timestamp {
    Timestamp { wall: WallTime { secs, nanos: 0 }, actor, event_hash: 0, itc: 0 }
}

#[test]
fn the_later_timestamp_wins_in_any_order() {
    let (a, b, c) = (timestamp(1, 9), timestamp(2, 1), timestamp(2, 3));
    assert!(a < b && b < c);
    for (x, y) in [(a, b), (b, c), (a, c)] {
        let mut xy = x;
        xy.merge(y);
        let mut yx = y;
        yx.merge(x);
        assert_eq!(xy, y);
        assert_eq!(yx, y);
    }
}

#[test]
fn rounds_merge_to_the_higher_one() {
    let mut a = EpochPhase { epoch: 1, phase: Round::Commit };
    a.merge(EpochPhase { epoch: 2, phase: Round::Init });
    assert_eq!(a, EpochPhase { epoch: 2, phase: Round::Init });
    a.merge(EpochPhase { epoch: 2, phase: Round::Propose });
    assert_eq!(a.phase, Round::Propose);
    a.merge(EpochPhase { epoch: 1, phase: Round::Commit });
    assert_eq!(a, EpochPhase { epoch: 2, phase: Round::Propose });
}

#[test]
fn grow_only_sets_merge_to_their_union() {
    let mut a: GSet<u64> = GSet::new();
    a.insert(1);
    let mut b: GSet<u64> = GSet::new();
    b.insert(2);
    Merge::merge(&mut a, b);
    assert_eq!(a.len(), 2);
    assert!(a.contains(&1) && a.contains(&2) && !a.contains(&3));
}

#[test]
fn registers_with_an_equal_stamp_converge() {
    let write = |value: &str, ts: u64, agent: &str, hash: &str| {
        LwwRegister::new(
            value.to_string(),
            Stamp::seed(),
            ts,
            agent.to_string(),
            hash.to_string(),
        )
    };
    let pairs = [
        (write("mine", 1, "agent", "hash"), write("theirs", 2, "agent", "hash")),
        (write("mine", 1, "a", "hash"), write("theirs", 1, "b", "hash")),
        (write("mine", 1, "agent", "h1"), write("theirs", 1, "agent", "h2")),
    ];
    for (lower, higher) in pairs {
        let mut a = lower.clone();
        a.merge(&higher);
        assert_eq!(a.value, "theirs");
        let mut b = higher.clone();
        b.merge(&lower);
        assert_eq!(b.value, "theirs");
    }
}

fn titled(title: &str, ts: i64, agent: &str) -> Event {
    let mut event = comment(ts, agent, &[], "");
    event.event_type = EventType::Create;
    event.data = EventData::Create(CreateData {
        title: title.into(),
        kind: Kind::Task,
        size: Some(Size::M),
        urgency: Urgency::Default,
        labels: vec!["backend".into()],
        parent: None,
        causation: None,
        description: Some("A description".into()),
        extra: JsonMap::new(),
    });
    write_event(&mut event).unwrap();
    event
}

#[test]
fn a_fresh_item_is_the_identity_of_merging() {
    let mut item = WorkItemState::new();
    item.apply_event(&titled("T", 1_000, "alice"));
    let mut left = WorkItemState::new();
    left.merge(&item);
    let mut right = item.clone();
    right.merge(&WorkItemState::new());
    for merged in [left, right] {
        assert_eq!(merged.title, item.title);
        assert_eq!(merged.title.value, "T");
        assert_eq!(merged.description, item.description);
        assert_eq!(merged.kind, item.kind);
        assert_eq!(merged.size, item.size);
        assert_eq!(merged.urgency, item.urgency);
        assert_eq!(merged.labels, item.labels);
        assert_eq!((merged.created_at, merged.updated_at), (1_000, 1_000));
    }
}

#[test]
fn replicas_that_merge_converge() {
    let events =
        [titled("one", 1_000, "alice"), titled("two", 1_000, "bob"), titled("three", 900, "carol")];
    let replicas: Vec<WorkItemState> = events
        .iter()
        .map(|event| {
            let mut item = WorkItemState::new();
            item.apply_event(event);
            item
        })
        .collect();
    for order in [[0, 1, 2], [0, 2, 1], [1, 0, 2], [1, 2, 0], [2, 0, 1], [2, 1, 0]] {
        let mut item = replicas[order[0]].clone();
        item.merge(&replicas[order[1]]);
        item.merge(&replicas[order[2]]);
        assert_eq!(item.title.value, "two");
        assert_eq!((item.created_at, item.updated_at), (900, 1_000));
    }
}

#[test]
fn removing_again_takes_nothing_away() {
    let mut set: OrSet<String> = OrSet::new();
    let alice = "alice".to_string();
    set.add(alice.clone(), tag_for_event(1, "a", "h1"));
    assert_eq!(set.remove(&alice), vec![tag_for_event(1, "a", "h1")]);
    assert_eq!(set.remove(&alice), vec![]);
    set.add(alice.clone(), tag_for_event(2, "a", "h2"));
    assert_eq!(set.remove(&alice), vec![tag_for_event(2, "a", "h2")]);
    assert!(set.is_empty());
}

#[test]
fn phases_only_move_forward() {
    let mut state = EpochPhaseState::with(4, Phase::Done);
    let err = state.advance(Phase::Open).unwrap_err();
    assert_eq!(
        err,
        StateError::InvalidTransition { from: Phase::Done, to: Phase::Open, epoch: 4 }
    );
    assert_eq!(err.to_string(), "invalid transition from done to open in epoch 4");
    assert_eq!(state, EpochPhaseState::with(4, Phase::Done));
}

#[test]
fn applying_an_event_twice_changes_nothing() {
    let mut event = comment(5, "alice", &[], "hi");
    event.event_type = EventType::Create;
    event.data = EventData::Create(CreateData {
        title: "T".into(),
        kind: Kind::Bug,
        size: None,
        urgency: Urgency::Punt,
        labels: vec!["a".into(), "b".into(), "a".into()],
        parent: Some("bn-p".into()),
        causation: None,
        description: None,
        extra: JsonMap::new(),
    });
    let mut state = WorkItemState::new();
    state.apply_event(&event);
    let once = state.clone();
    state.apply_event(&event);
    assert_eq!(state.labels, once.labels);
    assert_eq!(state.labels.len(), 2);
    assert_eq!(state.title, once.title);
    assert_eq!(state.parent.value, "bn-p");
    assert_eq!(state.size.value, None);
    assert_eq!((state.created_at, state.updated_at), (5, 5));
}

#[test]
fn moving_back_starts_the_next_epoch() {
    let mut event = comment(5, "alice", &[], "hi");
    event.event_type = EventType::Move;
    let mut state = WorkItemState::new();
    for (to, epoch) in [(State::Done, 0), (State::Doing, 1), (State::Doing, 1), (State::Open, 2)] {
        event.data = EventData::Move(MoveData { state: to, reason: None, extra: JsonMap::new() });
        state.apply_event(&event);
        assert_eq!(state.epoch(), epoch);
    }
    assert_eq!(state.phase(), Phase::Open);
}

#[test]
fn sets_come_from_the_events_about_them() {
    let assign = |hash: &str, ts: i64, action: AssignAction| {
        let mut event = comment(ts, "admin", &[], hash);
        event.event_type = EventType::Assign;
        event.data = EventData::Assign(AssignData {
            agent: "alice".into(),
            action,
            extra: JsonMap::new(),
        });
        event.event_hash = hash.into();
        event
    };
    let mut events = vec![assign("h1", 1, AssignAction::Assign)];
    let set: OrSet<String> = materialize_from_events(&events, &OrSetField::Assignees);
    assert!(set.contains(&"alice".to_string()));
    assert_eq!(set.active_tags(&"alice".to_string()), vec![tag_for_event(1, "admin", "h1")]);
    assert!(materialize_from_events(&events, &OrSetField::Labels).is_empty());

    events.push(assign("h2", 2, AssignAction::Unassign));
    assert!(materialize_from_events(&events, &OrSetField::Assignees).is_empty());
}

#[test]
fn merge_tracing_follows_the_environment() {
    assert!(!tracing_enabled_by(None, None));
    assert!(tracing_enabled_by(Some(" TRUE "), None));
    assert!(tracing_enabled_by(Some("1"), None));
    assert!(!tracing_enabled_by(Some("maybe"), None));
    assert!(tracing_enabled_by(None, Some("bones=DEBUG")));
    assert!(!tracing_enabled_by(None, Some("info")));
}

// -----------------------------------------------------------------------
// Errors and names
// -----------------------------------------------------------------------

#[test]
fn errors_have_code_message_and_hint() {
    let error = ErrorCode::NotInitialized;
    assert_eq!(error.code(), "E1001");
    assert_eq!(error.to_string(), "E1001");
    assert_eq!(error.message(), "Project not initialized");
    assert_eq!(error.hint(), Some("Run `bn init` to initialize this repository."));
}

#[test]
fn names_are_read_back() {
    for kind in [Kind::Task, Kind::Goal, Kind::Bug] {
        assert_eq!(Kind::from_name(kind.as_str()), Some(kind));
    }
    for state in [State::Open, State::Doing, State::Done, State::Archived] {
        assert_eq!(State::from_name(state.as_str()), Some(state));
    }
    for urgency in [Urgency::Urgent, Urgency::Default, Urgency::Punt] {
        assert_eq!(Urgency::from_name(urgency.as_str()), Some(urgency));
    }
    for (size, name) in [(Size::Xxs, "xxs"), (Size::M, "m"), (Size::Xxl, "xxl")] {
        assert_eq!(size.as_str(), name);
        assert_eq!(Size::from_name(name), Some(size));
    }
    assert_eq!(Kind::from_name("story"), None);
    assert!("assign-all".parse::<AssignAction>().unwrap_err().to_string().contains("assign-all"));
}

#[test]
fn identifiers_have_a_prefix() {
    assert_eq!(ItemId::parse("bn-a7x.2").unwrap().as_str(), "bn-a7x.2");
    for bad in ["", "bn-", "xx-a7x", "bn-A", "bn-a b"] {
        assert!(ItemId::parse(bad).is_none(), "{bad:?}");
    }
}

// -----------------------------------------------------------------------
// Events
// -----------------------------------------------------------------------

#[test]
fn hashes_are_read_back() {
    let bytes: [u8; 32] = *blake3::hash(b"abc").as_bytes();
    assert_eq!(decode_blake3_hash(&encode_blake3_hash(&bytes)), Some(bytes));
    let hex = format!("blake3:{}", encode_hex(&bytes));
    assert_eq!(hex, format!("blake3:{}", blake3::hash(b"abc").to_hex()));
    assert_eq!(decode_blake3_hash(&hex), Some(bytes));
    assert!(is_valid_blake3_hash(&hex));
    assert!(!is_valid_blake3_hash("blake3:abc"));
    assert_eq!(encode_blake3_hash(&[0; 32]), format!("blake3:{}", "A".repeat(43)));
    assert_eq!(encode_blake3_hash(&[255; 32]), format!("blake3:{}8", "_".repeat(42)));
}

#[test]
fn the_hash_of_a_line_covers_its_fields() {
    let fields = vec!["1", "a", "itc:A", "", "item.delete", "bn-a7x", "{}"];
    let input = "1\ta\titc:A\t\titem.delete\tbn-a7x\t{}\n";
    let expected = format!("blake3:{}", blake3::hash(input.as_bytes()).to_hex());
    assert_eq!(hash_fields(&fields), expected);
}

#[test]
fn a_written_event_is_read() {
    let events = [
        comment(-5, "alice", &[], "tab\t line\n quote\" back\\ \u{1} é 🎉"),
        comment(i64::MAX, "bob", &["blake3:0F", "blake3:aa"], ""),
    ];
    for event in events {
        let line = write_line(&event).unwrap();
        assert_eq!(line.matches('\n').count(), 1);
        let bare = line.trim_end_matches('\n');
        for text in [line.clone(), bare.to_string(), format!("{bare}\r\n")] {
            assert_eq!(parse_line(&text).unwrap(), ParsedLine::Event(Box::new(event.clone())));
            assert!(validate_event(&text, 1).is_ok());
        }
    }
}

#[test]
fn reading_a_line_and_taking_it_apart_agree() {
    let event = comment(7, "bob", &["blake3:0F", "blake3:aa"], "hi");
    let line = write_line(&event).unwrap();
    match parse_line_partial(&line).unwrap() {
        PartialParsedLine::Event(partial) => {
            assert_eq!(partial.wall_ts_us, event.wall_ts_us);
            assert_eq!(partial.agent, event.agent);
            assert_eq!(partial.itc, event.itc);
            assert_eq!(partial.event_type, event.event_type);
            assert_eq!(partial.parents_raw, event.parents.join(","));
            assert_eq!(partial.parents_raw, "blake3:0F,blake3:aa");
            assert_eq!(partial.item_id_raw, event.item_id.as_str());
            assert_eq!(partial.event_hash_raw, event.event_hash);
        }
        other => panic!("expected an event, got {other:?}"),
    }
    assert_eq!(parse_line("# note\r\n").unwrap(), ParsedLine::Comment("# note".to_string()));
    assert_eq!(parse_line_partial("# note\r\n").unwrap(), PartialParsedLine::Comment("# note"));
    assert_eq!(parse_line(" \t\n").unwrap(), ParsedLine::Blank);
    assert_eq!(parse_line_partial(" \t\n").unwrap(), PartialParsedLine::Blank);
    for bad in ["a\tb", "x\ta\titc\t\titem.create\tbn-a7x\t{}\tblake3:aa"] {
        assert_eq!(parse_line(bad).unwrap_err(), parse_line_partial(bad).unwrap_err());
    }
    // What only the full reading checks can be taken apart.
    let unchecked = "1\ta\titc\tnone\titem.create\tbn-a7x\t{}\tblake3:aa";
    assert!(parse_line_partial(unchecked).is_ok());
    assert_eq!(
        parse_line(unchecked).unwrap_err(),
        ParseError::InvalidParentHash("none".to_string())
    );
}

#[test]
fn the_header_is_of_version_one() {
    let header = shard_header();
    assert_eq!(detect_version(header.lines().next().unwrap()), Ok(1));
    assert_eq!(parse_lines(&header).unwrap(), vec![]);
    assert_eq!(parse_lines("# bones event log v1").unwrap(), vec![]);
}

#[test]
fn a_version_is_positive() {
    for header in ["# bones event log v0", "# bones event log v00"] {
        let message = detect_version(header).unwrap_err();
        assert!(message.starts_with("Invalid version number"), "{message}");
        let (line, err) = parse_lines(&format!("{header}\n")).unwrap_err();
        assert_eq!((line, err), (1, ParseError::VersionMismatch(message)));
    }
}

#[test]
fn an_agent_has_no_white_space() {
    for agent in ["my agent", " a", "a ", "a\u{a0}b", "a\u{3000}"] {
        let line =
            format!("1000\t{agent}\titc:A\t\titem.create\tbn-a7x\t{{}}\tblake3:aaa");
        assert_eq!(
            parse_line(&line).unwrap_err(),
            ParseError::InvalidAgent(agent.to_string())
        );
    }
    let line = "1000\t\titc:A\t\titem.create\tbn-a7x\t{}\tblake3:aaa";
    assert_eq!(parse_line(line).unwrap_err(), ParseError::InvalidAgent(String::new()));
}

#[test]
fn parents_are_written_in_order() {
    let mut event = comment(1, "a", &[], "hi");
    event.parents = vec!["blake3:bbb".into(), "blake3:aaa".into(), "blake3:aab".into()];
    assert_eq!(event.parents_str(), "blake3:aaa,blake3:aab,blake3:bbb");
    let mut sorted = event.clone();
    sorted.parents.sort();
    assert_eq!(compute_event_hash(&event), compute_event_hash(&sorted));
    assert_eq!(to_tsjson_line(&event), to_tsjson_line(&sorted));
    // What is read back has its parents in order.
    let line = write_event(&mut event).unwrap();
    sorted.event_hash = event.event_hash.clone();
    assert_eq!(parse_line(&line).unwrap(), ParsedLine::Event(Box::new(sorted)));
}

#[test]
fn a_canonical_text_made_canonical_stays() {
    let cases = [
        ("{ \"b\": [1, -2, {\"z\": null, \"a\": true}], \"a\": \"\\u00e9\\n\" }",
            "{\"a\":\"é\\n\",\"b\":[1,-2,{\"a\":true,\"z\":null}]}"),
        (" [ ] ", "[]"),
        ("18446744073709551615", "18446744073709551615"),
    ];
    for (json, canonical) in cases {
        let once = canonicalize_json_str(json).unwrap();
        assert_eq!(once, canonical);
        assert_eq!(canonicalize_json_str(&once).unwrap(), once);
    }
}

#[test]
fn base64_is_refused_by_length_and_alphabet() {
    let digits = "A".repeat(43);
    assert_eq!(decode_blake3_hash(&format!("blake3:{digits}")), Some([0; 32]));
    // Forty-two digits stand for thirty-one bytes, forty-four for thirty-three.
    assert_eq!(decode_blake3_hash(&format!("blake3:{}", &digits[..42])), None);
    assert_eq!(decode_blake3_hash(&format!("blake3:{digits}A")), None);
    assert_eq!(decode_blake3_hash(&format!("blake3:{digits}AA")), None);
    for bad in ["+", "/", "=", "é", " "] {
        for at in [0, 1, 2, 3, 41, 42] {
            let text = format!("{}{bad}{}", &digits[..at], &digits[at + 1..]);
            assert_eq!(decode_blake3_hash(&format!("blake3:{text}")), None);
        }
    }
}

fn log_of(events: &[Event]) -> String {
    let mut log = shard_header();
    for event in events {
        log.push_str(&write_line(event).unwrap());
    }
    log
}

#[test]
fn a_written_log_is_read() {
    let first = comment(-5, "a", &[], "one\ntwo\t\"three\"");
    let second = comment(7, "b", &[&first.event_hash], "\u{1}…");
    let events = vec![first, second];
    assert_eq!(parse_lines(&log_of(&events)).unwrap(), events);
    assert_eq!(parse_lines(&log_of(&[])).unwrap(), vec![]);
    for event in &events {
        assert!(validate_event(&write_line(event).unwrap(), 1).is_ok());
    }
}

#[test]
fn a_log_is_read_in_parts() {
    let events: Vec<Event> =
        (0..4).map(|i| comment(i, "a", &[], &format!("comment {i}"))).collect();
    let seen = log_of(&events[..3]);
    // A second file of the log starts with a header of its own.
    let rest = format!("{}{}", shard_header(), write_line(&events[3]).unwrap());
    assert_eq!(parse_lines(&seen).unwrap(), events[..3]);
    assert_eq!(parse_lines(&rest).unwrap(), events[3..]);
    assert_eq!(parse_lines(&format!("{seen}{rest}")).unwrap(), events);
}

#[test]
fn the_stored_hash_is_not_hashed() {
    let mut event = comment(1, "a", &[], "text");
    let hash = event.event_hash.clone();
    event.event_hash = "blake3:00".into();
    assert_eq!(compute_event_hash(&event).unwrap(), hash);
    assert!(!verify_event_hash(&event).unwrap());
}

#[test]
fn a_changed_field_breaks_the_hash() {
    let event = comment(5, "alice", &[], "hi");
    let line = to_tsjson_line(&event).unwrap().replace("alice", "malory");
    let err = parse_line(&line).unwrap_err();
    let mut changed = event.clone();
    changed.agent = "malory".into();
    assert_eq!(
        err,
        ParseError::HashMismatch {
            expected: event.event_hash.clone(),
            computed: compute_event_hash(&changed).unwrap(),
        }
    );
}

#[test]
fn payloads_keep_unknown_members() {
    let json = r#"{"body":"b","x":[1,{"z":null,"y":true}]}"#;
    let data = EventData::deserialize_for(EventType::Comment, json).unwrap();
    assert_eq!(
        canonicalize_json(&data.to_json_value().unwrap()),
        r#"{"body":"b","x":[1,{"y":true,"z":null}]}"#
    );
    let value = parse_json(json).unwrap();
    assert_eq!(EventData::from_json_value(EventType::Comment, &value).unwrap(), data);
}

#[test]
fn a_known_key_stands_in_a_payload_once() {
    let read = |json: &str| EventData::deserialize_for(EventType::Create, json);
    let twice = [
        r#"{"title":"a","title":"b","kind":"task"}"#,
        r#"{"kind":"task","title":"a","x":{"y":[1,{"z":2}]},"\u0074itle":"a"}"#,
        " {\n\t\"title\" : \"a\" , \"kind\" : \"task\" ,\r\n \"title\":5 } ",
    ];
    for json in twice {
        let err = read(json).unwrap_err();
        assert_eq!(err.event_type, EventType::Create);
        assert_eq!(err.source, "duplicate field `title`");
    }
    let err = read(r#"{"title":"a","kind":"task","parent":null,"parent":null}"#).unwrap_err();
    assert_eq!(err.source, "duplicate field `parent`");
    let err = EventData::deserialize_for(EventType::Delete, r#"{"reason":"a","reason":"b"}"#);
    assert_eq!(err.unwrap_err().source, "duplicate field `reason`");

    // Of an unknown key the last value is kept, and inside a value any key may
    // be repeated.
    let json = r#"{"title":"{\"title\":1,\"title\":2}","kind":"task","x":1,"x":{"title":1,"title":2}}"#;
    match read(json).unwrap() {
        EventData::Create(data) => {
            assert_eq!(data.title, r#"{"title":1,"title":2}"#);
            let kept = data.extra.get("x").unwrap();
            assert_eq!(canonicalize_json(kept), r#"{"title":2}"#);
        }
        other => panic!("expected a create payload, got {other:?}"),
    }
}

#[test]
fn a_variant_has_one_name() {
    let read = |json: &str| EventData::deserialize_for(EventType::Create, json);
    assert!(read(r#"{"title":"a","kind":{"bug":null}}"#).is_ok());
    for json in [
        r#"{"title":"a","kind":{"bug":null,"bug":null}}"#,
        r#"{"title":"a","kind":{"bug":null,"task":null}}"#,
        r#"{"title":"a","kind":{}}"#,
    ] {
        assert_eq!(read(json).unwrap_err().source, "invalid value for field `kind`");
    }
}

#[test]
fn a_line_that_repeats_a_known_key_is_refused() {
    let data = r#"{"body":"a","body":"b"}"#;
    let canonical = canonicalize_json_str(data).unwrap();
    let fields = ["1", "a", "itc:A", "", "item.comment", "bn-a7x"];
    let mut hashed = fields.to_vec();
    hashed.push(&canonical);
    let line = format!("{}\t{data}\t{}", fields.join("\t"), hash_fields(&hashed));
    assert_eq!(
        parse_line(&line).unwrap_err(),
        ParseError::DataSchemaMismatch {
            event_type: "item.comment".to_string(),
            details: "invalid item.comment data payload: duplicate field `body`".to_string(),
        }
    );
}

#[test]
fn outlines_count_the_members_of_a_text() {
    let named = |text: &str| -> Vec<(String, usize)> { outline(text) };
    let pair = |key: &str, size: usize| (key.to_string(), size);
    assert_eq!(named("{}"), vec![]);
    assert_eq!(named(" [{\"a\":1}]"), vec![]);
    assert_eq!(named(r#""{""#), vec![]);
    assert_eq!(
        named(r#" { "a" : {"x":1,"x":{"y":2}} , "é\n":[1,2],"a":null } "#),
        vec![pair("a", 2), pair("é\n", 0), pair("a", 0)]
    );
}

#[test]
fn a_copied_graph_is_the_same_graph() {
    let root = comment(1, "a", &[], "root");
    let child = comment(2, "a", &[&root.event_hash, "blake3:aa"], "child");
    let dag = EventDag::from_events(&[root.clone(), child.clone()]);
    let mut copy = dag.clone();
    assert_eq!(copy.len(), 2);
    assert_eq!(copy.ancestors(&child.event_hash).len(), 2);
    assert!(copy.descendants(&root.event_hash).contains(&child.event_hash));
    assert_eq!(copy.get(&child.event_hash).unwrap().event, child);
    copy.insert(comment(3, "b", &[&child.event_hash], "later"));
    assert_eq!((dag.len(), copy.len()), (2, 3));
}

#[test]
fn payload_errors_name_the_event_type() {
    let err: DataParseError =
        EventData::deserialize_for(EventType::Move, r#"{"state":"lost"}"#).unwrap_err();
    assert_eq!(err.event_type, EventType::Move);
    assert!(err.to_string().contains("item.move"));
    assert!(EventData::deserialize_for(EventType::Move, "[]").is_err());
    assert!(EventData::deserialize_for(EventType::Comment, r#"{"body":1}"#).is_err());
}

#[test]
fn numbers_keep_their_value() {
    for text in ["0", "-1", "18446744073709551615", "1.5", "-0.25"] {
        assert_eq!(canonicalize_json(&parse_json(text).unwrap()), text);
    }
    assert!(parse_json("01").is_err());
    assert!(parse_json("{\"a\":1,}").is_err());
}

#[test]
fn control_characters_are_escaped() {
    let value = JsonValue::Text("\u{8}\u{c}\n\r\t\u{1f}\u{7f}/".to_string());
    assert_eq!(canonicalize_json(&value), "\"\\b\\f\\n\\r\\t\\u001f\u{7f}/\"");
}

#[test]
fn a_line_feed_in_the_data_cannot_be_written() {
    // Only numbers hold raw text.
    let mut event = comment(1, "alice", &[], "x");
    event.event_type = EventType::Update;
    event.data = EventData::Update(UpdateData {
        field: "f".into(),
        value: JsonValue::Number("1\n2".into()),
        extra: JsonMap::new(),
    });
    assert_eq!(to_tsjson_line(&event).unwrap_err(), WriteError::NewlineInPayload);
    assert!(!WriteError::NewlineInPayload.to_string().is_empty());
    let err = HashError::Compute(WriteError::NewlineInPayload);
    assert_eq!(err.code(), HashErrorCode::ComputeFailure);
    assert_eq!(
        err.to_string(),
        format!("failed to compute event hash: {}", WriteError::NewlineInPayload.to_string())
    );
    let err = HashError::Compute(WriteError::SerializeData("why".to_string()));
    assert_eq!(
        err.to_string(),
        "failed to compute event hash: failed to serialize event data: why"
    );
}

// -----------------------------------------------------------------------
// Validation
// -----------------------------------------------------------------------

#[test]
fn every_event_line_is_counted() {
    let good = write_line(&comment(1, "alice", &[], "x")).unwrap();
    let content = format!("# bones event log v1\n{good}bad\n\n{good}worse\tstill\n");
    let report = validate_content(content.as_bytes(), None, "s".to_string());
    assert_eq!((report.passed, report.failed), (2, 2));
    assert_eq!(report.total(), 4);
    assert_eq!(report.errors[0].line_num, 3);
    assert_eq!(report.errors[1].line_num, 6);
    assert!(!report.truncated);
}

#[test]
fn a_manifest_with_another_count_is_wrong() {
    let good = write_line(&comment(1, "alice", &[], "x")).unwrap();
    let manifest = ShardManifest {
        shard_name: "s".to_string(),
        event_count: 2,
        byte_len: good.len() as u64,
        file_hash: format!("blake3:{}", blake3::hash(good.as_bytes()).to_hex()),
    };
    let report = validate_content(good.as_bytes(), Some(&manifest), "s".to_string());
    assert_eq!(report.errors.len(), 1);
    assert_eq!(report.errors[0].kind, ValidationErrorKind::ManifestCountMismatch);
}

#[test]
fn a_log_of_another_version_is_not_read() {
    let (line_no, err) = parse_lines("\n# bones event log v9\n").unwrap_err();
    assert_eq!(line_no, 2);
    let err = parse_error_to_validation(err, line_no, "# bones event log v9");
    assert_eq!(err.kind, ValidationErrorKind::UnsupportedVersion);
    assert_eq!(err.raw_line.as_deref(), Some("# bones event log v9"));
}

#[test]
fn long_lines_are_cut_by_characters() {
    let line = "é".repeat(300);
    assert_eq!(truncate_line(&line), format!("{}…", "é".repeat(256)));
    let err = validate_event(&line, 1).unwrap_err();
    assert_eq!(err.raw_line, Some(format!("{}…", "é".repeat(256))));
}

// -----------------------------------------------------------------------
// Event graph
// -----------------------------------------------------------------------

#[test]
fn ancestors_and_descendants_mirror_each_other() {
    let root = comment(1, "a", &[], "root");
    let left = comment(2, "a", &[&root.event_hash], "left");
    let right = comment(3, "b", &[&root.event_hash, "blake3:gone"], "right");
    let dag = EventDag::from_events(&[left.clone(), right.clone(), root.clone()]);
    for a in dag.hashes() {
        for b in dag.hashes() {
            assert_eq!(dag.ancestors(b).contains(a), dag.descendants(a).contains(b));
            assert_eq!(dag.is_ancestor(a, b), dag.ancestors(b).contains(a));
        }
    }
    assert_eq!(dag.roots(), vec![root.event_hash.as_str()]);
    assert!(!dag.contains("blake3:gone"));
}

#[test]
fn the_order_of_events_does_not_matter() {
    let root = comment(1, "a", &[], "root");
    let child = comment(2, "a", &[&root.event_hash], "child");
    let other = comment(3, "b", &[&root.event_hash], "other");
    let one = [root.clone(), child.clone(), other.clone()];
    let two = [other, child, root.clone(), root];
    let order = |events: &[Event]| -> Vec<String> {
        let dag = EventDag::from_events(events);
        dag.topological_order().iter().map(|e| e.event_hash.clone()).collect()
    };
    assert_eq!(order(&one), order(&two));
    assert!(verify_chain(&one.iter().collect::<Vec<_>>()).is_ok());
    assert!(verify_chain(&two.iter().collect::<Vec<_>>()).is_ok());
    assert!(verify_chain(&two[..2].iter().collect::<Vec<_>>()).is_err());
}

#[test]
fn an_event_whose_parents_are_unknown_is_a_root() {
    let orphan = comment(3, "b", &["blake3:gone"], "orphan");
    let dag = EventDag::from_events(&[orphan.clone()]);
    assert_eq!(dag.roots(), vec![orphan.event_hash.as_str()]);
    assert_eq!(dag.topological_order().len(), 1);
}

#[test]
fn an_event_that_names_a_parent_twice_is_ordered() {
    let root = comment(1, "a", &[], "root");
    let child = comment(2, "a", &[&root.event_hash, &root.event_hash], "child");
    let dag = EventDag::from_events(&[child.clone(), root.clone()]);
    let order: Vec<&str> =
        dag.topological_order().iter().map(|e| e.event_hash.as_str()).collect();
    assert_eq!(order, vec![root.event_hash.as_str(), child.event_hash.as_str()]);
}

#[test]
fn the_common_ancestor_is_lowest() {
    // root -> a -> b, root -> b: the lowest common ancestor of two children of b
    // and a is a, not root.
    let root = comment(1, "a", &[], "root");
    let a = comment(2, "a", &[&root.event_hash], "a");
    let b = comment(3, "a", &[&root.event_hash, &a.event_hash], "b");
    let c = comment(4, "b", &[&a.event_hash], "c");
    let dag = EventDag::from_events(&[root.clone(), a.clone(), b.clone(), c.clone()]);
    assert_eq!(find_lca(&dag, &b.event_hash, &c.event_hash).unwrap(), Some(a.event_hash.clone()));
    assert_eq!(
        find_all_lcas(&dag, &b.event_hash, &c.event_hash).unwrap(),
        vec![a.event_hash.clone()]
    );
}

#[test]
fn of_several_lowest_ancestors_the_walks_meet_at_one() {
    // Two branches that were merged crosswise have two lowest common ancestors.
    let root = comment(1, "a", &[], "root");
    let left = comment(2, "a", &[&root.event_hash], "left");
    let right = comment(3, "b", &[&root.event_hash], "right");
    let one = comment(4, "a", &[&left.event_hash, &right.event_hash], "one");
    let two = comment(5, "b", &[&right.event_hash, &left.event_hash], "two");
    let dag = EventDag::from_events(&[
        root.clone(),
        left.clone(),
        right.clone(),
        one.clone(),
        two.clone(),
    ]);
    let mut both = vec![left.event_hash.clone(), right.event_hash.clone()];
    both.sort();
    assert_eq!(find_all_lcas(&dag, &one.event_hash, &two.event_hash).unwrap(), both);
    // The first event sees both parents, then the second meets its first parent.
    assert_eq!(find_lca(&dag, &one.event_hash, &two.event_hash).unwrap().as_ref(), Some(&two.parents[0]));
    assert_eq!(find_lca(&dag, &two.event_hash, &one.event_hash).unwrap().as_ref(), Some(&one.parents[0]));
}

#[test]
fn errors_of_the_graph_name_the_event() {
    let dag = EventDag::new();
    let err = find_lca(&dag, "blake3:x", "blake3:y").unwrap_err();
    assert_eq!(err, LcaError::EventNotFound("blake3:x".to_string()));
    assert!(err.to_string().contains("blake3:x"));
    let err = replay_divergent(&dag, "blake3:x", "blake3:y").unwrap_err();
    assert_eq!(err, ReplayError::Lca(LcaError::EventNotFound("blake3:x".to_string())));
    assert!(!ReplayError::NoDivergence.to_string().is_empty());
}

#[test]
fn a_replay_lists_every_event_once() {
    let root = comment(1, "a", &[], "root");
    let left = comment(5, "b", &[&root.event_hash], "left");
    let right = comment(5, "a", &[&root.event_hash], "right");
    let both = comment(6, "a", &[&left.event_hash, &right.event_hash], "both");
    let dag =
        EventDag::from_events(&[root.clone(), left.clone(), right.clone(), both.clone()]);
    let replay = replay_divergent(&dag, &both.event_hash, &root.event_hash).unwrap();
    assert_eq!(replay.lca, root.event_hash);
    assert!(replay.branch_b.is_empty());
    // Equal times are ordered by agent.
    let hashes: Vec<&str> = replay.merged.iter().map(|e| e.event_hash.as_str()).collect();
    assert_eq!(
        hashes,
        vec![
            right.event_hash.as_str(),
            left.event_hash.as_str(),
            both.event_hash.as_str(),
        ]
    );
}

fn replayed(events: &[Event]) -> Vec<&str> {
    events.iter().map(|e| e.event_hash.as_str()).collect()
}

#[test]
fn a_replay_has_nothing_from_before_the_branches_parted() {
    // The first branch reaches the root past the event where they parted.
    let r = comment(1, "a", &[], "r");
    let l = comment(2, "a", &[&r.event_hash], "l");
    let y = comment(3, "a", &[&r.event_hash], "y");
    let a = comment(4, "a", &[&l.event_hash, &y.event_hash], "a");
    let b = comment(5, "b", &[&l.event_hash], "b");
    let dag = EventDag::from_events(&[r.clone(), l.clone(), y.clone(), a.clone(), b.clone()]);
    let replay = replay_divergent(&dag, &a.event_hash, &b.event_hash).unwrap();
    assert_eq!(replay.lca, l.event_hash);
    assert_eq!(replayed(&replay.branch_a), vec![y.event_hash.as_str(), a.event_hash.as_str()]);
    assert_eq!(replayed(&replay.branch_b), vec![b.event_hash.as_str()]);
    assert_eq!(
        replayed(&replay.merged),
        vec![y.event_hash.as_str(), a.event_hash.as_str(), b.event_hash.as_str()]
    );
}

#[test]
fn an_earlier_tip_has_no_branch() {
    let root = comment(1, "a", &[], "root");
    let side = comment(2, "b", &[&root.event_hash], "side");
    let tip = comment(3, "a", &[&root.event_hash], "tip");
    let later = comment(4, "a", &[&tip.event_hash, &side.event_hash], "later");
    let dag = EventDag::from_events(&[root.clone(), side.clone(), tip.clone(), later.clone()]);
    let replay = replay_divergent(&dag, &tip.event_hash, &later.event_hash).unwrap();
    assert_eq!(replay.lca, tip.event_hash);
    assert!(replay.branch_a.is_empty());
    assert_eq!(
        replayed(&replay.branch_b),
        vec![side.event_hash.as_str(), later.event_hash.as_str()]
    );
    assert_eq!(replayed(&replay.merged), replayed(&replay.branch_b));
    let same = replay_divergent(&dag, &later.event_hash, &later.event_hash).unwrap();
    assert_eq!(same.lca, later.event_hash);
    assert!(same.branch_a.is_empty() && same.branch_b.is_empty() && same.merged.is_empty());
}

#[test]
fn what_both_branches_have_is_merged_once() {
    // Two branches that were merged crosswise part at one of two events; the
    // other is on both branches.
    let root = comment(1, "a", &[], "root");
    let left = comment(2, "a", &[&root.event_hash], "left");
    let right = comment(3, "b", &[&root.event_hash], "right");
    let one = comment(4, "a", &[&left.event_hash, &right.event_hash], "one");
    let two = comment(5, "b", &[&left.event_hash, &right.event_hash], "two");
    let dag = EventDag::from_events(&[
        root.clone(),
        left.clone(),
        right.clone(),
        one.clone(),
        two.clone(),
    ]);
    let replay = replay_divergent(&dag, &one.event_hash, &two.event_hash).unwrap();
    let other = if replay.lca == left.event_hash { &right } else { &left };
    assert_eq!(replayed(&replay.branch_a), vec![one.event_hash.as_str()]);
    assert_eq!(replayed(&replay.branch_b), vec![two.event_hash.as_str()]);
    assert_eq!(
        replayed(&replay.merged),
        vec![
            other.event_hash.as_str(),
            one.event_hash.as_str(),
            two.event_hash.as_str(),
        ]
    );
}

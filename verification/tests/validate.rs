use bones_core::event::canonical::{canonicalize_json, parse_json};
use bones_core::event::json::JsonValue;
use bones_core::event::validate::{
    is_shard_file, shard_files, truncate_line, unreadable_report, validate_content,
    validate_event, ValidationErrorKind, ValidationReport, MAX_PAYLOAD_BYTES,
};
use bones_core::shard::ShardManifest;

fn json_value(text: &str) -> JsonValue {
    parse_json(text).expect("test JSON")
}

/// What a manifest says of a file with the given content.
fn manifest_of(shard_name: &str, content_bytes: &[u8]) -> ShardManifest {
    let content_str = std::str::from_utf8(content_bytes).unwrap();
    let event_count = content_str
        .lines()
        .filter(|l| !l.is_empty() && !l.starts_with('#') && !l.trim().is_empty())
        .count() as u64;
    ShardManifest {
        shard_name: shard_name.to_string(),
        event_count,
        byte_len: content_bytes.len() as u64,
        file_hash: format!("blake3:{}", blake3::hash(content_bytes).to_hex()),
    }
}

// -----------------------------------------------------------------------
// Test helpers
// -----------------------------------------------------------------------

/// Build a valid TSJSON line with correct event hash.
fn make_line(
    wall_ts_us: i64,
    agent: &str,
    itc: &str,
    parents: &str,
    event_type: &str,
    item_id: &str,
    data_json: &str,
) -> String {
    let canonical_data = canonicalize_json(
        &parse_json(data_json).expect("test JSON"),
    );
    let hash_input = format!(
        "{wall_ts_us}\t{agent}\t{itc}\t{parents}\t{event_type}\t{item_id}\t{canonical_data}\n"
    );
    let hash = blake3::hash(hash_input.as_bytes());
    let event_hash = format!("blake3:{}", hash.to_hex());
    format!(
        "{wall_ts_us}\t{agent}\t{itc}\t{parents}\t{event_type}\t{item_id}\t{canonical_data}\t{event_hash}"
    )
}

fn sample_create_json() -> String {
    canonicalize_json(&json_value(r#"{"title": "Fix auth retry", "kind": "task", "size": "m", "labels": ["backend"]}"#))
}

fn sample_comment_json() -> String {
    canonicalize_json(&json_value(r#"{"body": "Root cause found"}"#))
}

// -----------------------------------------------------------------------
// validate_event — valid lines
// -----------------------------------------------------------------------

#[test]
fn validate_event_valid_create() {
    let line = make_line(
        1_708_012_200_123_456,
        "agent-abc",
        "itc:AQ",
        "",
        "item.create",
        "bn-a7x",
        &sample_create_json(),
    );
    assert!(validate_event(&line, 1).is_ok());
}

#[test]
fn validate_event_valid_with_parents() {
    let line = make_line(
        1_000_000,
        "agent",
        "itc:AQ.1",
        "blake3:a1b2c3d4e5f6",
        "item.comment",
        "bn-a7x",
        &sample_comment_json(),
    );
    assert!(validate_event(&line, 1).is_ok());
}

#[test]
fn validate_event_comment_line() {
    assert!(validate_event("# this is a comment", 1).is_ok());
}

#[test]
fn validate_event_blank_line() {
    assert!(validate_event("", 1).is_ok());
    assert!(validate_event("   ", 1).is_ok());
}

// -----------------------------------------------------------------------
// validate_event — invalid lines
// -----------------------------------------------------------------------

#[test]
fn validate_event_bad_field_count() {
    let err = validate_event("too\tfew\tfields", 5).unwrap_err();
    assert_eq!(err.kind, ValidationErrorKind::BadFieldCount);
    assert_eq!(err.line_num, 5);
}

#[test]
fn validate_event_bad_timestamp() {
    let line = "abc\tagent\titc:A\t\titem.create\tbn-a7x\t{\"title\":\"T\",\"kind\":\"task\"}\tblake3:aaa";
    let err = validate_event(line, 3).unwrap_err();
    assert_eq!(err.kind, ValidationErrorKind::MalformedTimestamp);
}

#[test]
fn validate_event_unknown_event_type() {
    let line = "1000\tagent\titc:A\t\titem.unknown\tbn-a7x\t{}\tblake3:aaa";
    let err = validate_event(line, 1).unwrap_err();
    assert_eq!(err.kind, ValidationErrorKind::UnknownEventType);
}

#[test]
fn validate_event_invalid_item_id() {
    let line = "1000\tagent\titc:A\t\titem.create\tnot-valid\t{\"title\":\"T\",\"kind\":\"task\"}\tblake3:aaa";
    let err = validate_event(line, 1).unwrap_err();
    assert_eq!(err.kind, ValidationErrorKind::InvalidItemId);
}

#[test]
fn validate_event_invalid_json() {
    let line = "1000\tagent\titc:A\t\titem.create\tbn-a7x\t{not json}\tblake3:aaa";
    let err = validate_event(line, 1).unwrap_err();
    assert_eq!(err.kind, ValidationErrorKind::InvalidJson);
}

#[test]
fn validate_event_schema_mismatch() {
    // Valid JSON but missing required "title" for create
    let line = make_line(
        1000,
        "agent",
        "itc:A",
        "",
        "item.create",
        "bn-a7x",
        r#"{"kind":"task"}"#,
    );
    let err = validate_event(&line, 1).unwrap_err();
    assert_eq!(err.kind, ValidationErrorKind::InvalidJson);
}

#[test]
fn validate_event_hash_mismatch() {
    let canonical = sample_comment_json();
    let line = format!(
        "1000\tagent\titc:A\t\titem.comment\tbn-a7x\t{}\tblake3:{}",
        canonical,
        "0".repeat(64)
    );
    let err = validate_event(&line, 1).unwrap_err();
    assert_eq!(err.kind, ValidationErrorKind::HashChainBroken);
}

#[test]
fn validate_event_bad_hash_format() {
    let line = "1000\tagent\titc:A\t\titem.comment\tbn-a7x\t{\"body\":\"hi\"}\tsha256:abc";
    let err = validate_event(line, 1).unwrap_err();
    assert_eq!(err.kind, ValidationErrorKind::InvalidHashFormat);
}

#[test]
fn validate_event_empty_agent() {
    let line = "1000\t\titc:A\t\titem.comment\tbn-a7x\t{\"body\":\"hi\"}\tblake3:abc";
    let err = validate_event(line, 1).unwrap_err();
    assert_eq!(err.kind, ValidationErrorKind::InvalidAgent);
}

#[test]
fn validate_event_empty_itc() {
    let line = "1000\tagent\t\t\titem.comment\tbn-a7x\t{\"body\":\"hi\"}\tblake3:abc";
    let err = validate_event(line, 1).unwrap_err();
    assert_eq!(err.kind, ValidationErrorKind::EmptyItc);
}

#[test]
fn validate_event_bad_parent_hash() {
    let line = "1000\tagent\titc:A\tnotahash\titem.comment\tbn-a7x\t{\"body\":\"hi\"}\tblake3:abc";
    let err = validate_event(line, 1).unwrap_err();
    assert_eq!(err.kind, ValidationErrorKind::InvalidParentHash);
}

#[test]
fn validate_event_oversized_payload() {
    let big_payload = format!("{{\"body\":\"{}\"}}", "a".repeat(MAX_PAYLOAD_BYTES + 1));
    let line = format!(
        "1000\tagent\titc:A\t\titem.comment\tbn-a7x\t{}\tblake3:abc",
        big_payload
    );
    let err = validate_event(&line, 1).unwrap_err();
    assert_eq!(err.kind, ValidationErrorKind::OversizedPayload);
}

// -----------------------------------------------------------------------
// validate_shard
// -----------------------------------------------------------------------

#[test]
fn validate_shard_valid_file() {
    let line1 = make_line(
        1000,
        "agent",
        "itc:AQ",
        "",
        "item.comment",
        "bn-a7x",
        &sample_comment_json(),
    );
    let line2 = make_line(
        2000,
        "agent",
        "itc:AQ.1",
        "",
        "item.comment",
        "bn-a7x",
        &sample_comment_json(),
    );
    let content = format!("# bones event log v1\n# fields: ...\n{line1}\n{line2}\n");
    let path = "2026-01.events".to_string();

    let report = validate_content(content.as_bytes(), None, path);
    assert!(report.is_ok());
    assert_eq!(report.passed, 2);
    assert_eq!(report.failed, 0);
    assert!(!report.truncated);
}

#[test]
fn validate_shard_with_errors_preserves_valid() {
    let valid_line = make_line(
        1000,
        "agent",
        "itc:AQ",
        "",
        "item.comment",
        "bn-a7x",
        &sample_comment_json(),
    );
    let content = format!(
        "# header\n{valid_line}\nbad\tline\twith\twrong\tfield\tcount\n"
    );
    let path = "2026-01.events".to_string();

    let report = validate_content(content.as_bytes(), None, path);
    assert!(!report.is_ok());
    assert_eq!(report.passed, 1); // valid line preserved
    assert_eq!(report.failed, 1);
    assert_eq!(report.errors.len(), 1);
    assert_eq!(report.errors[0].kind, ValidationErrorKind::BadFieldCount);
}

#[test]
fn validate_shard_detects_truncation() {
    let valid_line = make_line(
        1000,
        "agent",
        "itc:AQ",
        "",
        "item.comment",
        "bn-a7x",
        &sample_comment_json(),
    );
    // No trailing newline after the last line
    let content = format!("# header\n{valid_line}");
    let path = "2026-01.events".to_string();

    let report = validate_content(content.as_bytes(), None, path);
    assert!(report.truncated);
    assert!(
        report
            .errors
            .iter()
            .any(|e| e.kind == ValidationErrorKind::TruncatedFile)
    );
    // The valid event still parses (line ends are trimmed)
    assert_eq!(report.passed, 1);
}

#[test]
fn validate_shard_missing_file() {
    let report = unreadable_report(
        "/nonexistent/2026-01.events".to_string(),
        "No such file or directory (os error 2)",
    );
    assert!(!report.is_ok());
    assert_eq!(report.failed, 1);
}

#[test]
fn validate_shard_empty_file() {
    let content = "";
    let path = "2026-01.events".to_string();
    let report = validate_content(content.as_bytes(), None, path);
    assert!(report.is_ok());
    assert_eq!(report.passed, 0);
    assert_eq!(report.failed, 0);
}

#[test]
fn validate_shard_only_comments() {
    let content = "# bones event log v1\n# fields: ...\n";
    let path = "2026-01.events".to_string();
    let report = validate_content(content.as_bytes(), None, path);
    assert!(report.is_ok());
    assert_eq!(report.passed, 0);
    assert_eq!(report.failed, 0);
}

#[test]
fn validate_shard_invalid_utf8() {
    let report =
        validate_content(&[0xFF, 0xFE, 0xFD], None, "2026-01.events".to_string());
    assert!(!report.is_ok());
    assert!(
        report
            .errors
            .iter()
            .any(|e| e.kind == ValidationErrorKind::InvalidUtf8)
    );
}

// -----------------------------------------------------------------------
// validate_shard with manifest
// -----------------------------------------------------------------------

#[test]
fn validate_shard_manifest_match() {
    let line = make_line(
        1000,
        "agent",
        "itc:AQ",
        "",
        "item.comment",
        "bn-a7x",
        &sample_comment_json(),
    );
    let content = format!("# header\n{line}\n");
    let content_bytes = content.as_bytes();
    let path = "2026-01.events".to_string();
    let manifest = manifest_of("2026-01.events", content_bytes);

    let report = validate_content(content.as_bytes(), Some(&manifest), path);
    assert!(report.is_ok());
}

#[test]
fn validate_shard_manifest_hash_mismatch() {
    let content = "# header\n";
    let path = "2026-01.events".to_string();

    let bad_manifest = ShardManifest {
        shard_name: "2026-01.events".into(),
        event_count: 0,
        byte_len: content.len() as u64,
        file_hash: "blake3:0000000000000000000000000000000000000000000000000000000000000000"
            .into(),
    };

    let report = validate_content(content.as_bytes(), Some(&bad_manifest), path);
    assert!(!report.is_ok());
    assert!(
        report
            .errors
            .iter()
            .any(|e| e.kind == ValidationErrorKind::ManifestMismatch)
    );
}

#[test]
fn validate_shard_manifest_size_mismatch() {
    let content = "# header\n";
    let content_bytes = content.as_bytes();
    let path = "2026-01.events".to_string();
    let file_hash = format!("blake3:{}", blake3::hash(content_bytes).to_hex());

    let bad_manifest = ShardManifest {
        shard_name: "2026-01.events".into(),
        event_count: 0,
        byte_len: 999, // wrong
        file_hash,
    };

    let report = validate_content(content.as_bytes(), Some(&bad_manifest), path);
    assert!(!report.is_ok());
    assert!(
        report
            .errors
            .iter()
            .any(|e| e.kind == ValidationErrorKind::ManifestSizeMismatch)
    );
}

// -----------------------------------------------------------------------
// validate_all
// -----------------------------------------------------------------------

/// Checks the shards among the files of a directory, against the manifests of
/// those that have one.
fn validate_all(
    files: &[(&str, &str)],
    manifests: &[ShardManifest],
) -> Vec<ValidationReport> {
    let names: Vec<String> = files.iter().map(|(name, _)| name.to_string()).collect();
    shard_files(&names)
        .into_iter()
        .map(|name| {
            let (_, content) = files.iter().find(|(n, _)| *n == name).expect("listed file");
            let manifest = manifests.iter().find(|m| m.shard_name == name);
            validate_content(content.as_bytes(), manifest, name)
        })
        .collect()
}

#[test]
fn validate_all_multiple_shards() {
    let line = make_line(
        1000,
        "agent",
        "itc:AQ",
        "",
        "item.comment",
        "bn-a7x",
        &sample_comment_json(),
    );

    let content1 = format!("# header\n{line}\n");
    let content2 = format!("# header\nbad line without tabs\n");

    let reports =
        validate_all(&[("2026-02.events", &content2), ("2026-01.events", &content1)], &[]);
    assert_eq!(reports.len(), 2);
    assert!(reports[0].is_ok()); // first shard is valid
    assert!(!reports[1].is_ok()); // second shard has error
}

#[test]
fn validate_all_empty_dir() {
    let reports = validate_all(&[], &[]);
    assert!(reports.is_empty());
}

#[test]
fn validate_all_skips_non_shard_files() {
    let reports = validate_all(&[("readme.txt", "hello"), ("2026-01.manifest", "manifest")], &[]);
    assert!(reports.is_empty());
}

#[test]
fn validate_all_loads_manifests() {
    let line = make_line(
        1000,
        "agent",
        "itc:AQ",
        "",
        "item.comment",
        "bn-a7x",
        &sample_comment_json(),
    );
    let content = format!("# header\n{line}\n");
    let manifest = manifest_of("2026-01.events", content.as_bytes());

    let reports = validate_all(&[("2026-01.events", &content)], &[manifest.clone()]);
    assert_eq!(reports.len(), 1);
    assert!(reports[0].is_ok());

    // A file that is not what its manifest says is found out.
    let reports = validate_all(&[("2026-01.events", "# header\n")], &[manifest]);
    assert!(!reports[0].is_ok());
}

#[test]
fn shard_files_are_told_by_their_names() {
    assert!(is_shard_file("2026-01.events"));
    assert!(is_shard_file("a.b.events"));
    assert!(!is_shard_file("current.events"));
    assert!(!is_shard_file(".events"));
    assert!(!is_shard_file("events"));
    assert!(!is_shard_file("2026-01.events.bak"));
    let names: Vec<String> = ["2026-10.events", "2025-12.events", "current.events", "2026-02.events"]
        .iter()
        .map(|n| n.to_string())
        .collect();
    assert_eq!(shard_files(&names), vec!["2025-12.events", "2026-02.events", "2026-10.events"]);
}

// -----------------------------------------------------------------------
// Multiple errors in one shard
// -----------------------------------------------------------------------

#[test]
fn validate_shard_multiple_errors() {
    let valid_line = make_line(
        1000,
        "agent",
        "itc:AQ",
        "",
        "item.comment",
        "bn-a7x",
        &sample_comment_json(),
    );
    let content = format!(
        "# header\n{valid_line}\nbad1\nbad2\tbad\n{valid_line}\n"
    );
    let path = "2026-01.events".to_string();

    let report = validate_content(content.as_bytes(), None, path);
    assert_eq!(report.passed, 2); // two valid event lines
    assert_eq!(report.failed, 2); // two bad lines
    assert_eq!(report.errors.len(), 2);
}

// -----------------------------------------------------------------------
// truncate_line
// -----------------------------------------------------------------------

#[test]
fn truncate_line_short() {
    assert_eq!(truncate_line("hello"), "hello");
}

#[test]
fn truncate_line_long() {
    let long = "a".repeat(300);
    let truncated = truncate_line(&long);
    assert!(truncated.len() < 300);
    assert!(truncated.ends_with('…'));
}

// -----------------------------------------------------------------------
// Edge cases
// -----------------------------------------------------------------------

#[test]
fn validate_event_no_panic_on_garbage() {
    let long_string = "a".repeat(10_000);
    let inputs: Vec<&str> = vec![
        "",
        "\t",
        "🎉🎉🎉",
        &long_string,
        "\t\t\t\t\t\t\t",
        "\t\t\t\t\t\t\t\t",
    ];
    for input in inputs {
        let _ = validate_event(input, 1); // must not panic
    }
}

#[test]
fn validation_report_total() {
    let report = ValidationReport {
        passed: 5,
        failed: 3,
        errors: Vec::new(),
        shard_path: "test".to_string(),
        truncated: false,
    };
    assert_eq!(report.total(), 8);
}

#[test]
fn validation_report_is_ok_with_truncation() {
    let report = ValidationReport {
        passed: 5,
        failed: 0,
        errors: Vec::new(),
        shard_path: "test".to_string(),
        truncated: true,
    };
    assert!(!report.is_ok()); // truncation makes it not OK
}

use bones_core::error::ErrorCode;
use std::collections::HashSet;

#[test]
fn all_codes_are_unique() {
    let all = [
        ErrorCode::NotInitialized,
        ErrorCode::ConfigParseError,
        ErrorCode::ModelNotFound,
        ErrorCode::ItemNotFound,
        ErrorCode::InvalidStateTransition,
        ErrorCode::CycleDetected,
        ErrorCode::AmbiguousId,
        ErrorCode::InvalidEnumValue,
        ErrorCode::ShardManifestMismatch,
        ErrorCode::EventHashCollision,
        ErrorCode::CorruptProjection,
        ErrorCode::EventFileWriteFailed,
        ErrorCode::LockContention,
        ErrorCode::FtsIndexMissing,
        ErrorCode::SemanticModelLoadFailed,
        ErrorCode::InternalUnexpected,
    ];

    let mut seen = HashSet::new();
    for code in all {
        assert!(seen.insert(code.code()), "duplicate code {}", code.code());
    }
}

#[test]
fn code_format_is_machine_friendly() {
    let code = ErrorCode::InvalidStateTransition.code();
    assert_eq!(code.len(), 5);
    assert!(code.starts_with('E'));
    assert!(code.chars().skip(1).all(|c| c.is_ascii_digit()));
}

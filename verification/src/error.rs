//! Machine-readable error codes.

use vstd::prelude::*;

verus! {

/// Machine-readable error codes for agent-friendly decision making.
#[derive(Clone, Copy, Debug, PartialEq, Eq, Hash, Structural)]
pub enum ErrorCode {
    NotInitialized,
    ConfigParseError,
    ModelNotFound,
    ItemNotFound,
    InvalidStateTransition,
    CycleDetected,
    AmbiguousId,
    InvalidEnumValue,
    ShardManifestMismatch,
    EventHashCollision,
    CorruptProjection,
    EventFileWriteFailed,
    LockContention,
    FtsIndexMissing,
    SemanticModelLoadFailed,
    InternalUnexpected,
}

impl ErrorCode {
    /// The stable identifier of each code.
    pub open spec fn code_text(self) -> Seq<char> {
        match self {
            ErrorCode::NotInitialized => "E1001"@,
            ErrorCode::ConfigParseError => "E1002"@,
            ErrorCode::ModelNotFound => "E1003"@,
            ErrorCode::ItemNotFound => "E2001"@,
            ErrorCode::InvalidStateTransition => "E2002"@,
            ErrorCode::CycleDetected => "E2003"@,
            ErrorCode::AmbiguousId => "E2004"@,
            ErrorCode::InvalidEnumValue => "E2005"@,
            ErrorCode::ShardManifestMismatch => "E3001"@,
            ErrorCode::EventHashCollision => "E3002"@,
            ErrorCode::CorruptProjection => "E3003"@,
            ErrorCode::EventFileWriteFailed => "E5001"@,
            ErrorCode::LockContention => "E5002"@,
            ErrorCode::FtsIndexMissing => "E6001"@,
            ErrorCode::SemanticModelLoadFailed => "E6002"@,
            ErrorCode::InternalUnexpected => "E9001"@,
        }
    }

    /// The summary of each code.
    pub open spec fn message_text(self) -> Seq<char> {
        match self {
            ErrorCode::NotInitialized => "Project not initialized"@,
            ErrorCode::ConfigParseError => "Config file parse error"@,
            ErrorCode::ModelNotFound => "Semantic model not found"@,
            ErrorCode::ItemNotFound => "Item not found"@,
            ErrorCode::InvalidStateTransition => "Invalid state transition"@,
            ErrorCode::CycleDetected => "Cycle would be created"@,
            ErrorCode::AmbiguousId => "Ambiguous item ID"@,
            ErrorCode::InvalidEnumValue => "Invalid kind/urgency/size value"@,
            ErrorCode::ShardManifestMismatch => "Shard manifest mismatch"@,
            ErrorCode::EventHashCollision => "Event hash collision"@,
            ErrorCode::CorruptProjection => "Corrupt SQLite projection"@,
            ErrorCode::EventFileWriteFailed => "Event file write failed"@,
            ErrorCode::LockContention => "Lock contention"@,
            ErrorCode::FtsIndexMissing => "FTS index missing"@,
            ErrorCode::SemanticModelLoadFailed => "Semantic model load failed"@,
            ErrorCode::InternalUnexpected => "Internal unexpected error"@,
        }
    }

    /// The remediation hint of each code.
    pub open spec fn hint_text(self) -> Option<Seq<char>> {
        match self {
            ErrorCode::NotInitialized => Some("Run `bn init` to initialize this repository."@),
            ErrorCode::ConfigParseError => Some("Fix syntax in .bones/config.toml and retry."@),
            ErrorCode::ModelNotFound => Some("Install or configure the semantic model before search."@),
            ErrorCode::ItemNotFound => None,
            ErrorCode::InvalidStateTransition => Some("Follow valid transitions: open -> doing -> done -> archived."@),
            ErrorCode::CycleDetected => Some("Remove/adjust dependency links to keep the graph acyclic."@),
            ErrorCode::AmbiguousId => Some("Use a longer ID prefix to disambiguate."@),
            ErrorCode::InvalidEnumValue => Some("Use one of the documented kind/urgency/size values."@),
            ErrorCode::ShardManifestMismatch => Some("Run `bn rebuild` to repair the shard manifest."@),
            ErrorCode::EventHashCollision => Some("Regenerate the event with a different payload/metadata."@),
            ErrorCode::CorruptProjection => Some("Run `bn rebuild` to repair the SQLite projection."@),
            ErrorCode::EventFileWriteFailed => Some("Check disk space and write permissions."@),
            ErrorCode::LockContention => Some("Retry after the other `bn` process releases its lock."@),
            ErrorCode::FtsIndexMissing => Some("Run `bn rebuild` to create the FTS index."@),
            ErrorCode::SemanticModelLoadFailed => Some("Verify model files and runtime dependencies are available."@),
            ErrorCode::InternalUnexpected => Some("Retry once. If persistent, report a bug with logs."@),
        }
    }

    /// Stable code identifier (`E####`) for machine parsing.
    #[must_use]
    pub fn code(self) -> (r: &'static str)
        ensures
            r@ == self.code_text(),
    {
        match self {
            ErrorCode::NotInitialized => "E1001",
            ErrorCode::ConfigParseError => "E1002",
            ErrorCode::ModelNotFound => "E1003",
            ErrorCode::ItemNotFound => "E2001",
            ErrorCode::InvalidStateTransition => "E2002",
            ErrorCode::CycleDetected => "E2003",
            ErrorCode::AmbiguousId => "E2004",
            ErrorCode::InvalidEnumValue => "E2005",
            ErrorCode::ShardManifestMismatch => "E3001",
            ErrorCode::EventHashCollision => "E3002",
            ErrorCode::CorruptProjection => "E3003",
            ErrorCode::EventFileWriteFailed => "E5001",
            ErrorCode::LockContention => "E5002",
            ErrorCode::FtsIndexMissing => "E6001",
            ErrorCode::SemanticModelLoadFailed => "E6002",
            ErrorCode::InternalUnexpected => "E9001",
        }
    }

    /// Short human-facing summary for logs and terminal output.
    #[must_use]
    pub fn message(self) -> (r: &'static str)
        ensures
            r@ == self.message_text(),
    {
        match self {
            ErrorCode::NotInitialized => "Project not initialized",
            ErrorCode::ConfigParseError => "Config file parse error",
            ErrorCode::ModelNotFound => "Semantic model not found",
            ErrorCode::ItemNotFound => "Item not found",
            ErrorCode::InvalidStateTransition => "Invalid state transition",
            ErrorCode::CycleDetected => "Cycle would be created",
            ErrorCode::AmbiguousId => "Ambiguous item ID",
            ErrorCode::InvalidEnumValue => "Invalid kind/urgency/size value",
            ErrorCode::ShardManifestMismatch => "Shard manifest mismatch",
            ErrorCode::EventHashCollision => "Event hash collision",
            ErrorCode::CorruptProjection => "Corrupt SQLite projection",
            ErrorCode::EventFileWriteFailed => "Event file write failed",
            ErrorCode::LockContention => "Lock contention",
            ErrorCode::FtsIndexMissing => "FTS index missing",
            ErrorCode::SemanticModelLoadFailed => "Semantic model load failed",
            ErrorCode::InternalUnexpected => "Internal unexpected error",
        }
    }

    /// Optional remediation hint that can be surfaced to operators and agents.
    #[must_use]
    pub fn hint(self) -> (r: Option<&'static str>)
        ensures
            match r {
                Some(s) => self.hint_text() == Some(s@),
                None => self.hint_text() is None,
            },
    {
        match self {
            ErrorCode::NotInitialized => Some("Run `bn init` to initialize this repository."),
            ErrorCode::ConfigParseError => Some("Fix syntax in .bones/config.toml and retry."),
            ErrorCode::ModelNotFound => Some("Install or configure the semantic model before search."),
            ErrorCode::ItemNotFound => None,
            ErrorCode::InvalidStateTransition => Some("Follow valid transitions: open -> doing -> done -> archived."),
            ErrorCode::CycleDetected => Some("Remove/adjust dependency links to keep the graph acyclic."),
            ErrorCode::AmbiguousId => Some("Use a longer ID prefix to disambiguate."),
            ErrorCode::InvalidEnumValue => Some("Use one of the documented kind/urgency/size values."),
            ErrorCode::ShardManifestMismatch => Some("Run `bn rebuild` to repair the shard manifest."),
            ErrorCode::EventHashCollision => Some("Regenerate the event with a different payload/metadata."),
            ErrorCode::CorruptProjection => Some("Run `bn rebuild` to repair the SQLite projection."),
            ErrorCode::EventFileWriteFailed => Some("Check disk space and write permissions."),
            ErrorCode::LockContention => Some("Retry after the other `bn` process releases its lock."),
            ErrorCode::FtsIndexMissing => Some("Run `bn rebuild` to create the FTS index."),
            ErrorCode::SemanticModelLoadFailed => Some("Verify model files and runtime dependencies are available."),
            ErrorCode::InternalUnexpected => Some("Retry once. If persistent, report a bug with logs."),
        }
    }

    /// The identifier as an owned text.
    pub fn to_string(&self) -> (r: String)
        ensures
            r@ == self.code_text(),
    {
        self.code().to_owned()
    }

    proof fn reveal_codes()
        ensures
            "E1001"@ == seq!['E', '1', '0', '0', '1'],
            "E1002"@ == seq!['E', '1', '0', '0', '2'],
            "E1003"@ == seq!['E', '1', '0', '0', '3'],
            "E2001"@ == seq!['E', '2', '0', '0', '1'],
            "E2002"@ == seq!['E', '2', '0', '0', '2'],
            "E2003"@ == seq!['E', '2', '0', '0', '3'],
            "E2004"@ == seq!['E', '2', '0', '0', '4'],
            "E2005"@ == seq!['E', '2', '0', '0', '5'],
            "E3001"@ == seq!['E', '3', '0', '0', '1'],
            "E3002"@ == seq!['E', '3', '0', '0', '2'],
            "E3003"@ == seq!['E', '3', '0', '0', '3'],
            "E5001"@ == seq!['E', '5', '0', '0', '1'],
            "E5002"@ == seq!['E', '5', '0', '0', '2'],
            "E6001"@ == seq!['E', '6', '0', '0', '1'],
            "E6002"@ == seq!['E', '6', '0', '0', '2'],
            "E9001"@ == seq!['E', '9', '0', '0', '1'],
    {
        reveal_strlit("E1001");
        reveal_strlit("E1002");
        reveal_strlit("E1003");
        reveal_strlit("E2001");
        reveal_strlit("E2002");
        reveal_strlit("E2003");
        reveal_strlit("E2004");
        reveal_strlit("E2005");
        reveal_strlit("E3001");
        reveal_strlit("E3002");
        reveal_strlit("E3003");
        reveal_strlit("E5001");
        reveal_strlit("E5002");
        reveal_strlit("E6001");
        reveal_strlit("E6002");
        reveal_strlit("E9001");
    }

    /// No two codes share an identifier.
    pub proof fn codes_are_unique(self, other: ErrorCode)
        requires
            self.code_text() == other.code_text(),
        ensures
            self == other,
    {
        Self::reveal_codes();
        assert(self.code_text()[1] == other.code_text()[1]);
        assert(self.code_text()[4] == other.code_text()[4]);
    }

    /// Every identifier is the letter `E` and four digits.
    pub proof fn codes_have_one_shape(self)
        ensures
            self.code_text().len() == 5,
            self.code_text()[0] == 'E',
            forall|i: int|
                1 <= i < 5 ==> '0' <= #[trigger] self.code_text()[i] && self.code_text()[i] <= '9',
    {
        Self::reveal_codes();
    }
}

}

use vstd::prelude::*;

verus! {

/// Error type of the storage engine and the query layer.
///
/// Messages that arise as borrowed or outside values (an I/O error, a
/// static string) are held here as owned strings.
#[derive(Debug)]
pub enum LivenError {
    Storage(String),
    PointerOutOfBounds { segment_id: u64, offset: u64 },
    PayloadOutOfBounds { segment_id: u64, offset: u64 },
    CrcMismatch { segment_id: u64, offset: u64 },
    PayloadTooShort { kind: String },
    DiskFull,
    StreamLimitExceeded { max: usize },
    IndexRamLimitExceeded { max_bytes: u64, current_bytes: u64 },
    StreamNotFound { name: String },
    KeyAlreadyExists { key: String, stream: String },
    KeyTooLong { len: usize, key: String },
    Parse(String),
    InvalidPipeline(String),
    Query(String),
    Io(String),
    Subscription(String),
    AuthFailed { reason: String },
    InsufficientCapabilities,
    Serialization(String),
    Internal(String),
    FlusherTerminated,
}

impl LivenError {
    /// A storage error carrying the given message (what a `String` converts to).
    pub fn from_string(s: String) -> (e: LivenError)
        ensures
            e matches LivenError::Storage(m) && m@ == s@,
    {
        LivenError::Storage(s)
    }
}

} // verus!

use vstd::prelude::*;

verus! {

/// Failure taxonomy of the engine.
///
/// `NotFound` reports a lookup of an unknown language code or id.
/// `Malformed` reports an unparseable ingestion record; bulk ingestion skips
/// such records and continues, so this variant surfaces only from per-record
/// parsers. `StorageFailure` reports a fault of the underlying store (for the
/// in-memory store: exhaustion of the row-id space) and aborts the current
/// batch. `Conflict` reports a duplicate insert where uniqueness is enforced
/// and the policy is not "ignore".
#[derive(Debug, PartialEq)]
pub enum Error {
    NotFound,
    Malformed(String),
    StorageFailure,
    Conflict,
}

} // verus!

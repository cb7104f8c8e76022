//! Errors of the connector logic.
use vstd::prelude::*;

verus! {

/// Which list of key names a field lookup belongs to.
#[derive(Clone, Copy, Debug, PartialEq, Eq, Structural)]
pub enum FieldKind {
    Partition,
    BucketKey,
}

/// Errors returned by the connector.
#[derive(Debug)]
pub enum PaimonError {
    /// The write router needs a table with a primary key.
    NotPrimaryKeyTable,
    /// The write router needs a fixed bucket count of at least one.
    InvalidBucketCount { bucket_count: i32 },
    /// The write router needs at least one bucket key.
    EmptyBucketKeys,
    /// A partition or bucket key names no field of the schema.
    MissingField { kind: FieldKind, name: String },
    /// A block reached the commit sink with a meta that is not a commit meta.
    InvalidCommitMeta,
    /// One route key of one query was observed on two writer lanes.
    RouteLaneConflict {
        query_id: String,
        previous_executor: String,
        previous_lane: u64,
        executor: String,
        lane: u64,
    },
    /// An error reported by Paimon.
    Storage(paimon::Error),
}

} // verus!

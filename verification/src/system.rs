//! Metadata system tables of a Paimon table (`$options`, `$snapshots`, ...):
//! their scan part, their scan plan and the single-shot source that reads
//! them.
use crate::table::PartStatistics;
use vstd::prelude::*;

verus! {

/// The metadata tables that can be read next to a Paimon table.
#[derive(Clone, Copy, Debug, PartialEq, Eq, Structural)]
pub enum PaimonSystemTableKind {
    Options,
    Snapshots,
    Schemas,
    Branches,
    Tags,
    Files,
    Manifests,
    Partitions,
}

/// The position of a kind in the list of kinds.
pub open spec fn kind_index(kind: PaimonSystemTableKind) -> u64 {
    match kind {
        PaimonSystemTableKind::Options => 0,
        PaimonSystemTableKind::Snapshots => 1,
        PaimonSystemTableKind::Schemas => 2,
        PaimonSystemTableKind::Branches => 3,
        PaimonSystemTableKind::Tags => 4,
        PaimonSystemTableKind::Files => 5,
        PaimonSystemTableKind::Manifests => 6,
        PaimonSystemTableKind::Partitions => 7,
    }
}

/// The scan part of a system table: the whole table is read at once.
#[derive(Clone, Copy, Debug, PartialEq, Eq, Structural)]
pub struct PaimonSystemPartInfo {
    pub kind: PaimonSystemTableKind,
}

impl PaimonSystemPartInfo {
    /// Whether `other` (when it is a system part at all) is the same part:
    /// parts are equal when they read the same kind of table.
    pub fn equals(&self, other: Option<&PaimonSystemPartInfo>) -> (r: bool)
        ensures
            r == (other matches Some(o) && o.kind == self.kind),
    {
        match other {
            Some(o) => o.kind == self.kind,
            None => false,
        }
    }

    /// The hash of the part: the position of its kind.
    pub fn hash(&self) -> (h: u64)
        ensures
            h == kind_index(self.kind),
    {
        match self.kind {
            PaimonSystemTableKind::Options => 0,
            PaimonSystemTableKind::Snapshots => 1,
            PaimonSystemTableKind::Schemas => 2,
            PaimonSystemTableKind::Branches => 3,
            PaimonSystemTableKind::Tags => 4,
            PaimonSystemTableKind::Files => 5,
            PaimonSystemTableKind::Manifests => 6,
            PaimonSystemTableKind::Partitions => 7,
        }
    }
}

/// Equal parts hash equally, and distinct kinds hash apart.
pub proof fn lemma_part_hash_consistent(a: PaimonSystemPartInfo, b: PaimonSystemPartInfo)
    ensures
        (a.kind == b.kind) <==> (kind_index(a.kind) == kind_index(b.kind)),
{
}

/// The scan plan of a system table: exact statistics of one row, no bytes
/// and one partition, and a single part for the table's kind.
pub fn system_table_partitions(kind: PaimonSystemTableKind) -> (plan: (PartStatistics, Vec<PaimonSystemPartInfo>))
    ensures
        plan.0.read_rows == 1,
        plan.0.read_bytes == 0,
        plan.0.partitions_scanned == 1,
        plan.0.partitions_total == 1,
        plan.0.is_exact,
        plan.1@ == seq![PaimonSystemPartInfo { kind }],
{
    let mut parts: Vec<PaimonSystemPartInfo> = Vec::new();
    parts.push(PaimonSystemPartInfo { kind });
    assert(parts@ =~= seq![PaimonSystemPartInfo { kind }]);
    (PartStatistics::new_exact(1, 0, 1, 1), parts)
}

/// The source a system-table scan is given.
#[derive(Clone, Copy, Debug, PartialEq, Eq, Structural)]
pub enum SystemSourcePlan {
    /// No part was planned: an empty source.
    Empty,
    /// One source that reads the system table.
    ReadTable,
}

/// A scan with no part gets an empty source; otherwise one source reads the
/// system table.
pub fn system_table_source(parts: usize) -> (plan: SystemSourcePlan)
    ensures
        plan == (if parts == 0 { SystemSourcePlan::Empty } else { SystemSourcePlan::ReadTable }),
{
    if parts == 0 { SystemSourcePlan::Empty } else { SystemSourcePlan::ReadTable }
}

/// What one call of `generate` does, given whether the table was already
/// produced: whether it reads the table now, and whether it is produced after.
pub open spec fn generate_outcome(finished: bool) -> (bool, bool) {
    (!finished, true)
}

/// A system-table source reads its table at most once: after any call,
/// the next call does not read.
pub proof fn lemma_system_table_read_once(finished: bool)
    ensures
        !generate_outcome(generate_outcome(finished).1).0,
{
}

/// The state of the source that reads a system table: it produces the
/// table once and then reports that it is done.
pub struct PaimonSystemSource {
    finished: bool,
    calls: Ghost<nat>,
}

impl PaimonSystemSource {
    /// The table has been produced exactly when `generate` has been called.
    #[verifier::type_invariant]
    closed spec fn inv(self) -> bool {
        self.finished == (self.calls@ > 0)
    }

    /// Whether the table has been produced.
    pub closed spec fn is_finished(self) -> bool {
        self.finished
    }

    /// How many times `generate` has been called on this source.
    pub closed spec fn generate_calls(self) -> nat {
        self.calls@
    }

    /// A source that has not produced anything yet.
    pub fn new() -> (s: Self)
        ensures
            !s.is_finished(),
            s.generate_calls() == 0,
    {
        PaimonSystemSource { finished: false, calls: Ghost(0) }
    }

    /// Whether the table is to be read now: true on the first call of the
    /// source only, so over any run of calls the table is read once, by the
    /// first call, whatever that read gives.
    pub fn generate(&mut self) -> (read_now: bool)
        ensures
            read_now == generate_outcome(old(self).is_finished()).0,
            final(self).is_finished() == generate_outcome(old(self).is_finished()).1,
            read_now == (old(self).generate_calls() == 0),
            final(self).generate_calls() == old(self).generate_calls() + 1,
    {
        proof {
            use_type_invariant(&*self);
        }
        let read_now = !self.finished;
        *self = PaimonSystemSource { finished: true, calls: Ghost(self.calls@ + 1) };
        read_now
    }
}

} // verus!

//! Table-level planning: the table descriptor, the storage description,
//! the display name of a table, scan statistics and the number of sources.
use crate::paimon_api::{options_entries, options_new, options_set};
use std::collections::HashMap;
use vstd::prelude::*;
use vstd::string::StringExecFns;

verus! {

/// Everything needed to reopen a Paimon table: the catalog options, the
/// table identifier, its location and its schema.
pub struct PaimonTableDescriptor {
    pub catalog_options: HashMap<String, String>,
    pub identifier: paimon::catalog::Identifier,
    pub location: String,
    pub schema: paimon::spec::TableSchema,
}

/// How a storage engine describes itself.
pub struct StorageDescription {
    pub engine_name: String,
    pub comment: String,
    pub support_cluster_key: bool,
}

/// The engine name of Paimon tables.
pub open spec fn paimon_engine() -> Seq<char> {
    "PAIMON"@
}

impl StorageDescription {
    /// The description of the Paimon engine: engine `PAIMON`, comment
    /// `PAIMON Storage Engine`, no cluster keys.
    pub fn paimon() -> (d: Self)
        ensures
            d.engine_name@ == paimon_engine(),
            d.comment@ == "PAIMON Storage Engine"@,
            !d.support_cluster_key,
    {
        StorageDescription {
            engine_name: String::from_str("PAIMON"),
            comment: String::from_str("PAIMON Storage Engine"),
            support_cluster_key: false,
        }
    }
}

/// The display name of a table: `'catalog'.'database'.'table'`.
pub open spec fn table_description_spec(catalog: Seq<char>, database: Seq<char>, name: Seq<char>) -> Seq<char> {
    "'"@ + catalog + "'.'"@ + database + "'.'"@ + name + "'"@
}

/// The display name of a table: `'catalog'.'database'.'table'`.
pub fn table_description(catalog: &str, database: &str, name: &str) -> (desc: String)
    ensures
        desc@ == table_description_spec(catalog@, database@, name@),
{
    let mut desc = String::from_str("'");
    desc.append(catalog);
    desc.append("'.'");
    desc.append(database);
    desc.append("'.'");
    desc.append(name);
    desc.append("'");
    desc
}

/// The option set holding the given pairs, a later pair replacing an
/// earlier value of the same key.
pub open spec fn pairs_to_map(pairs: Seq<(String, String)>) -> Map<Seq<char>, Seq<char>>
    decreases pairs.len(),
{
    if pairs.len() == 0 {
        Map::empty()
    } else {
        pairs_to_map(pairs.drop_last()).insert(pairs.last().0@, pairs.last().1@)
    }
}

/// Builds Paimon catalog options from key/value pairs.
pub fn options_from_pairs(pairs: &Vec<(String, String)>) -> (options: paimon::Options)
    ensures
        options_entries(options) == pairs_to_map(pairs@),
{
    let mut options = options_new();
    let n = pairs.len();
    for i in 0..n
        invariant
            n == pairs@.len(),
            options_entries(options) == pairs_to_map(pairs@.take(i as int)),
    {
        let (key, value) = &pairs[i];
        options_set(&mut options, key.clone(), value.clone());
        assert(pairs@.take(i + 1).drop_last() =~= pairs@.take(i as int));
    }
    assert(pairs@.take(n as int) =~= pairs@);
    options
}

/// Scan statistics of a planned read.
pub struct PartStatistics {
    pub read_rows: usize,
    pub read_bytes: usize,
    pub partitions_scanned: usize,
    pub partitions_total: usize,
    pub is_exact: bool,
}

impl PartStatistics {
    /// Exact statistics.
    pub fn new_exact(read_rows: usize, read_bytes: usize, partitions_scanned: usize, partitions_total: usize) -> (s: Self)
        ensures
            s.read_rows == read_rows,
            s.read_bytes == read_bytes,
            s.partitions_scanned == partitions_scanned,
            s.partitions_total == partitions_total,
            s.is_exact,
    {
        PartStatistics { read_rows, read_bytes, partitions_scanned, partitions_total, is_exact: true }
    }
}

/// What read planning reads of one split: its merged row count when
/// known, its raw row count and the sizes of its data files.
pub struct SplitSize {
    pub merged_row_count: Option<i64>,
    pub row_count: i64,
    pub file_sizes: Vec<i64>,
}

/// The rows a split contributes: its merged row count when known, else its
/// raw row count, taken as a `usize`.
pub open spec fn split_rows(split: SplitSize) -> int {
    (match split.merged_row_count {
        Some(n) => n,
        None => split.row_count,
    }) as usize as int
}

/// The bytes of a list of data files, each size taken as a `usize`.
pub open spec fn sizes_total(sizes: Seq<i64>) -> int
    decreases sizes.len(),
{
    if sizes.len() == 0 { 0 } else { sizes_total(sizes.drop_last()) + sizes.last() as usize as int }
}

pub open spec fn rows_total(splits: Seq<SplitSize>) -> int
    decreases splits.len(),
{
    if splits.len() == 0 { 0 } else { rows_total(splits.drop_last()) + split_rows(splits.last()) }
}

pub open spec fn bytes_total(splits: Seq<SplitSize>) -> int
    decreases splits.len(),
{
    if splits.len() == 0 { 0 } else { bytes_total(splits.drop_last()) + sizes_total(splits.last().file_sizes@) }
}

proof fn lemma_sizes_total_monotone(sizes: Seq<i64>, j: int)
    requires
        0 <= j <= sizes.len(),
    ensures
        0 <= sizes_total(sizes.take(j)) <= sizes_total(sizes),
    decreases sizes.len(),
{
    if j < sizes.len() {
        lemma_sizes_total_monotone(sizes.drop_last(), j);
        assert(sizes.drop_last().take(j) =~= sizes.take(j));
    } else {
        assert(sizes.take(j) =~= sizes);
        lemma_sizes_total_nonneg(sizes);
    }
}

proof fn lemma_sizes_total_nonneg(sizes: Seq<i64>)
    ensures
        sizes_total(sizes) >= 0,
    decreases sizes.len(),
{
    if sizes.len() > 0 {
        lemma_sizes_total_nonneg(sizes.drop_last());
    }
}

proof fn lemma_totals_monotone(splits: Seq<SplitSize>, i: int)
    requires
        0 <= i <= splits.len(),
    ensures
        0 <= rows_total(splits.take(i)) <= rows_total(splits),
        0 <= bytes_total(splits.take(i)) <= bytes_total(splits),
    decreases splits.len(),
{
    if splits.len() > 0 {
        lemma_sizes_total_nonneg(splits.last().file_sizes@);
    }
    if i < splits.len() {
        lemma_totals_monotone(splits.drop_last(), i);
        assert(splits.drop_last().take(i) =~= splits.take(i));
    } else {
        assert(splits.take(i) =~= splits);
        if splits.len() > 0 {
            lemma_totals_monotone(splits.drop_last(), splits.len() - 1);
            assert(splits.drop_last().take(splits.len() - 1) =~= splits.drop_last());
        }
    }
}

/// Exact statistics of a planned scan: the rows of all splits, the bytes
/// of all their data files, and one partition per split, all scanned.
/// When the rows or the bytes exceed `usize::MAX`, nothing is returned.
pub fn partition_statistics(splits: &Vec<SplitSize>) -> (result: Option<PartStatistics>)
    ensures
        result is None <==> (rows_total(splits@) > usize::MAX || bytes_total(splits@) > usize::MAX),
        result matches Some(stats) ==> stats.read_rows == rows_total(splits@)
            && stats.read_bytes == bytes_total(splits@)
            && stats.partitions_scanned == splits@.len()
            && stats.partitions_total == splits@.len()
            && stats.is_exact,
{
    let mut read_rows: usize = 0;
    let mut read_bytes: usize = 0;
    let n = splits.len();
    for i in 0..n
        invariant
            n == splits@.len(),
            read_rows == rows_total(splits@.take(i as int)),
            read_bytes == bytes_total(splits@.take(i as int)),
    {
        let split = &splits[i];
        proof {
            assert(splits@.take(i + 1).drop_last() =~= splits@.take(i as int));
        }
        let rows = match split.merged_row_count {
            Some(merged) => merged,
            None => split.row_count,
        };
        read_rows = match read_rows.checked_add(#[verifier::truncate] (rows as usize)) {
            Some(total) => total,
            None => {
                proof {
                    lemma_totals_monotone(splits@, i + 1);
                }
                return None;
            },
        };
        let sizes = &split.file_sizes;
        let mut split_bytes: usize = 0;
        let m = sizes.len();
        for j in 0..m
            invariant
                m == sizes@.len(),
                n == splits@.len(),
                0 <= i < n,
                sizes@ == splits@[i as int].file_sizes@,
                split_bytes == sizes_total(sizes@.take(j as int)),
        {
            proof {
                assert(sizes@.take(j + 1).drop_last() =~= sizes@.take(j as int));
            }
            split_bytes = match split_bytes.checked_add(#[verifier::truncate] (sizes[j] as usize)) {
                Some(total) => total,
                None => {
                    proof {
                        lemma_sizes_total_monotone(sizes@, j + 1);
                        lemma_totals_monotone(splits@, i + 1);
                        lemma_bytes_total_ge_split(splits@.take(i + 1));
                        assert(splits@.take(i + 1).last() == splits@[i as int]);
                    }
                    return None;
                },
            };
        }
        assert(sizes@.take(m as int) =~= sizes@);
        read_bytes = match read_bytes.checked_add(split_bytes) {
            Some(total) => total,
            None => {
                proof {
                    lemma_totals_monotone(splits@, i + 1);
                }
                return None;
            },
        };
    }
    assert(splits@.take(n as int) =~= splits@);
    Some(PartStatistics::new_exact(read_rows, read_bytes, n, n))
}

proof fn lemma_bytes_total_ge_split(splits: Seq<SplitSize>)
    requires
        splits.len() > 0,
    ensures
        bytes_total(splits) >= sizes_total(splits.last().file_sizes@),
{
    lemma_totals_monotone(splits, splits.len() - 1);
}

/// The number of source processors of a scan: one per part, at least one,
/// at most `max_threads`.
pub fn source_count(parts: usize, max_threads: u64) -> (count: usize)
    ensures
        count == if parts <= 1 {
            if 1 <= max_threads as usize { 1 } else { max_threads as usize }
        } else {
            if parts <= max_threads as usize { parts } else { max_threads as usize }
        },
{
    let threads = max_threads as usize;
    let at_least_one = if parts < 1 { 1 } else { parts };
    if at_least_one <= threads { at_least_one } else { threads }
}

} // verus!

//! Per-partition metadata of a table (the `partitions` system table): the
//! data files of all splits, grouped by partition in first-seen order.
use vstd::prelude::*;

verus! {

/// What the aggregation reads of one data file.
pub struct DataFileSummary {
    pub row_count: i64,
    pub file_size: i64,
    /// Creation time in microseconds since the epoch, when known.
    pub creation_micros: Option<i64>,
}

/// What the aggregation reads of one split: its formatted partition (none
/// for an unpartitioned table), its bucket count and its data files.
pub struct SplitSummary {
    pub partition: Option<String>,
    pub total_buckets: i32,
    pub files: Vec<DataFileSummary>,
}

/// One row of the partitions table.
pub struct PartitionRow {
    pub partition: Option<String>,
    pub record_count: i64,
    pub file_size: i64,
    pub file_count: i64,
    pub last_update_time: Option<i64>,
    pub total_buckets: i32,
}

pub open spec fn opt_str_view(o: Option<String>) -> Option<Seq<char>> {
    match o {
        Some(s) => Some(s@),
        None => None,
    }
}

pub open spec fn opt_int(o: Option<i64>) -> Option<int> {
    match o {
        Some(x) => Some(x as int),
        None => None,
    }
}

/// The partition of a split.
pub open spec fn split_key(split: SplitSummary) -> Option<Seq<char>> {
    opt_str_view(split.partition)
}

/// The later of two optional times.
pub open spec fn max_opt(a: Option<int>, b: Option<int>) -> Option<int> {
    match (a, b) {
        (None, _) => b,
        (_, None) => a,
        (Some(x), Some(y)) => Some(if x >= y { x } else { y }),
    }
}

pub open spec fn files_rows(files: Seq<DataFileSummary>) -> int
    decreases files.len(),
{
    if files.len() == 0 { 0 } else { files_rows(files.drop_last()) + files.last().row_count }
}

pub open spec fn files_size(files: Seq<DataFileSummary>) -> int
    decreases files.len(),
{
    if files.len() == 0 { 0 } else { files_size(files.drop_last()) + files.last().file_size }
}

pub open spec fn files_latest(files: Seq<DataFileSummary>) -> Option<int>
    decreases files.len(),
{
    if files.len() == 0 {
        None
    } else {
        max_opt(files_latest(files.drop_last()), opt_int(files.last().creation_micros))
    }
}

/// The distinct partitions of the splits, in the order they first occur.
pub open spec fn partition_keys(splits: Seq<SplitSummary>) -> Seq<Option<Seq<char>>>
    decreases splits.len(),
{
    if splits.len() == 0 {
        Seq::empty()
    } else {
        let keys = partition_keys(splits.drop_last());
        let k = split_key(splits.last());
        if keys.contains(k) { keys } else { keys.push(k) }
    }
}

/// Total rows of the files of the splits of partition `k`.
pub open spec fn record_count(splits: Seq<SplitSummary>, k: Option<Seq<char>>) -> int
    decreases splits.len(),
{
    if splits.len() == 0 {
        0
    } else {
        record_count(splits.drop_last(), k) + if split_key(splits.last()) == k {
            files_rows(splits.last().files@)
        } else {
            0
        }
    }
}

/// Total bytes of the files of the splits of partition `k`.
pub open spec fn total_file_size(splits: Seq<SplitSummary>, k: Option<Seq<char>>) -> int
    decreases splits.len(),
{
    if splits.len() == 0 {
        0
    } else {
        total_file_size(splits.drop_last(), k) + if split_key(splits.last()) == k {
            files_size(splits.last().files@)
        } else {
            0
        }
    }
}

/// Number of files of the splits of partition `k`.
pub open spec fn file_count(splits: Seq<SplitSummary>, k: Option<Seq<char>>) -> int
    decreases splits.len(),
{
    if splits.len() == 0 {
        0
    } else {
        file_count(splits.drop_last(), k) + if split_key(splits.last()) == k {
            splits.last().files@.len() as int
        } else {
            0
        }
    }
}

/// The latest known creation time of the files of the splits of partition `k`.
pub open spec fn last_update(splits: Seq<SplitSummary>, k: Option<Seq<char>>) -> Option<int>
    decreases splits.len(),
{
    if splits.len() == 0 {
        None
    } else if split_key(splits.last()) == k {
        max_opt(last_update(splits.drop_last(), k), files_latest(splits.last().files@))
    } else {
        last_update(splits.drop_last(), k)
    }
}

/// The bucket count of the last split of partition `k` (0 when there is none).
pub open spec fn total_buckets(splits: Seq<SplitSummary>, k: Option<Seq<char>>) -> int
    decreases splits.len(),
{
    if splits.len() == 0 {
        0
    } else if split_key(splits.last()) == k {
        splits.last().total_buckets as int
    } else {
        total_buckets(splits.drop_last(), k)
    }
}

pub open spec fn fits_i64(x: int) -> bool {
    i64::MIN <= x <= i64::MAX
}

/// The running totals that the aggregation holds after the first `j` files
/// of split `i` all fit in an `i64`.
pub open spec fn fits_at(splits: Seq<SplitSummary>, i: int, j: int) -> bool {
    let k = split_key(splits[i]);
    let prefix = splits.take(i);
    let files = splits[i].files@.take(j);
    &&& fits_i64(record_count(prefix, k) + files_rows(files))
    &&& fits_i64(total_file_size(prefix, k) + files_size(files))
    &&& fits_i64(file_count(prefix, k) + j)
}

/// Every running total that the aggregation forms, file by file, fits in
/// an `i64` (otherwise an addition overflows).
pub open spec fn totals_fit(splits: Seq<SplitSummary>) -> bool {
    forall|i: int, j: int|
        0 <= i < splits.len() && 0 <= j <= splits[i].files@.len() ==> #[trigger] fits_at(splits, i, j)
}

/// `row` is the aggregate of partition `k` over the splits.
pub open spec fn is_partition_row(row: PartitionRow, splits: Seq<SplitSummary>, k: Option<Seq<char>>) -> bool {
    &&& opt_str_view(row.partition) == k
    &&& row.record_count == record_count(splits, k)
    &&& row.file_size == total_file_size(splits, k)
    &&& row.file_count == file_count(splits, k)
    &&& opt_int(row.last_update_time) == last_update(splits, k)
    &&& row.total_buckets == total_buckets(splits, k)
}

/// A partition that no split has contributes nothing.
proof fn lemma_absent_key(splits: Seq<SplitSummary>, k: Option<Seq<char>>)
    requires
        !partition_keys(splits).contains(k),
    ensures
        record_count(splits, k) == 0,
        total_file_size(splits, k) == 0,
        file_count(splits, k) == 0,
        last_update(splits, k) is None,
        total_buckets(splits, k) == 0,
    decreases splits.len(),
{
    if splits.len() > 0 {
        let keys = partition_keys(splits.drop_last());
        if keys.contains(k) {
            let j = choose|j: int| 0 <= j < keys.len() && keys[j] == k;
            let kl = split_key(splits.last());
            if !keys.contains(kl) {
                assert(keys.push(kl)[j] == k);
            }
            assert(partition_keys(splits)[j] == k);
        }
        if split_key(splits.last()) == k {
            assert(partition_keys(splits).contains(k)) by {
                if !keys.contains(k) {
                    assert(partition_keys(splits) == keys.push(k));
                    assert(keys.push(k)[keys.len() as int] == k);
                }
            }
        }
        lemma_absent_key(splits.drop_last(), k);
    }
}

/// The partitions table has one row per distinct partition: no partition
/// occurs twice.
pub proof fn lemma_partition_keys_distinct(splits: Seq<SplitSummary>)
    ensures
        partition_keys(splits).no_duplicates(),
    decreases splits.len(),
{
    if splits.len() > 0 {
        lemma_partition_keys_distinct(splits.drop_last());
    }
}

/// Every split's partition has a row, and every row's partition is that of
/// some split.
pub proof fn lemma_partition_keys_cover(splits: Seq<SplitSummary>)
    ensures
        forall|i: int| 0 <= i < splits.len() ==> partition_keys(splits).contains(#[trigger] split_key(splits[i])),
        forall|k: Option<Seq<char>>| partition_keys(splits).contains(k) ==> exists|i: int|
            0 <= i < splits.len() && #[trigger] split_key(splits[i]) == k,
    decreases splits.len(),
{
    if splits.len() > 0 {
        let prefix = splits.drop_last();
        lemma_partition_keys_cover(prefix);
        let keys = partition_keys(prefix);
        let k = split_key(splits.last());
        assert forall|i: int| 0 <= i < splits.len() implies partition_keys(splits).contains(#[trigger] split_key(splits[i])) by {
            if i < splits.len() - 1 {
                assert(prefix[i] == splits[i]);
                assert(keys.contains(split_key(prefix[i])));
                let j = choose|j: int| 0 <= j < keys.len() && keys[j] == split_key(prefix[i]);
                if !keys.contains(k) {
                    assert(keys.push(k)[j] == keys[j]);
                }
            } else {
                if !keys.contains(k) {
                    assert(keys.push(k)[keys.len() as int] == k);
                }
            }
        }
        assert forall|kk: Option<Seq<char>>| partition_keys(splits).contains(kk) implies exists|i: int|
            0 <= i < splits.len() && #[trigger] split_key(splits[i]) == kk by {
            if kk == k {
                assert(split_key(splits[splits.len() - 1]) == kk);
            } else {
                let j = choose|j: int| 0 <= j < partition_keys(splits).len() && partition_keys(splits)[j] == kk;
                if !keys.contains(k) {
                    assert(j < keys.len());
                    assert(keys[j] == kk);
                }
                assert(keys.contains(kk));
                let i = choose|i: int| 0 <= i < prefix.len() && #[trigger] split_key(prefix[i]) == kk;
                assert(split_key(splits[i]) == kk);
            }
        }
    }
}

/// Rows come in first-seen order: for two rows, some split of the earlier
/// row's partition comes before every split of the later row's partition.
pub proof fn lemma_partition_keys_first_seen_order(splits: Seq<SplitSummary>, i: int, j: int)
    requires
        0 <= i < j < partition_keys(splits).len(),
    ensures
        exists|a: int|
            0 <= a < splits.len() && #[trigger] split_key(splits[a]) == partition_keys(splits)[i] && forall|b: int|
                0 <= b <= a ==> split_key(splits[b]) != partition_keys(splits)[j],
    decreases splits.len(),
{
    let prefix = splits.drop_last();
    let keys = partition_keys(prefix);
    let k = split_key(splits.last());
    lemma_partition_keys_cover(prefix);
    lemma_partition_keys_distinct(splits);
    if j < keys.len() {
        if !keys.contains(k) {
            assert(partition_keys(splits)[i] == keys[i]);
            assert(partition_keys(splits)[j] == keys[j]);
        }
        lemma_partition_keys_first_seen_order(prefix, i, j);
        let a = choose|a: int|
            0 <= a < prefix.len() && #[trigger] split_key(prefix[a]) == keys[i] && forall|b: int|
                0 <= b <= a ==> split_key(prefix[b]) != keys[j];
        assert(split_key(splits[a]) == partition_keys(splits)[i]);
        assert forall|b: int| 0 <= b <= a implies split_key(splits[b]) != partition_keys(splits)[j] by {
            assert(prefix[b] == splits[b]);
        }
    } else {
        assert(!keys.contains(k));
        assert(partition_keys(splits) == keys.push(k));
        assert(partition_keys(splits)[j] == k);
        assert(partition_keys(splits)[i] == keys[i]);
        assert(keys.contains(keys[i]));
        let a = choose|a: int| 0 <= a < prefix.len() && #[trigger] split_key(prefix[a]) == keys[i];
        assert(split_key(splits[a]) == partition_keys(splits)[i]);
        assert forall|b: int| 0 <= b <= a implies split_key(splits[b]) != partition_keys(splits)[j] by {
            assert(prefix[b] == splits[b]);
            assert(keys.contains(split_key(prefix[b])));
        }
    }
}

/// The creation time of file `j` of split `i`, when known.
pub open spec fn file_time(splits: Seq<SplitSummary>, i: int, j: int) -> Option<int> {
    opt_int(splits[i].files@[j].creation_micros)
}

/// `j` is a file of split `i`, and split `i` belongs to partition `k`.
pub open spec fn is_file_of(splits: Seq<SplitSummary>, k: Option<Seq<char>>, i: int, j: int) -> bool {
    &&& 0 <= i < splits.len()
    &&& split_key(splits[i]) == k
    &&& 0 <= j < splits[i].files@.len()
}

/// `latest` is the latest known creation time of the files of partition
/// `k`: it is at least the known time of every such file and is the time of
/// one of them; it is absent only when no such file has a known time.
pub open spec fn is_latest_time(latest: Option<int>, splits: Seq<SplitSummary>, k: Option<Seq<char>>) -> bool {
    &&& forall|i: int, j: int| #[trigger] is_file_of(splits, k, i, j) && #[trigger] file_time(splits, i, j) is Some
        ==> (latest is Some && file_time(splits, i, j)->Some_0 <= latest->Some_0)
    &&& latest matches Some(l) ==> exists|i: int, j: int| #[trigger] is_file_of(splits, k, i, j) && #[trigger] file_time(splits, i, j) == Some(l)
}

proof fn lemma_files_latest_is_max(files: Seq<DataFileSummary>)
    ensures
        forall|j: int| 0 <= j < files.len() && #[trigger] opt_int(files[j].creation_micros) is Some
            ==> (files_latest(files) is Some && opt_int(files[j].creation_micros)->Some_0 <= files_latest(files)->Some_0),
        files_latest(files) matches Some(l) ==> exists|j: int| 0 <= j < files.len() && #[trigger] opt_int(files[j].creation_micros) == Some(l),
    decreases files.len(),
{
    if files.len() > 0 {
        let prefix = files.drop_last();
        lemma_files_latest_is_max(prefix);
        assert forall|j: int| 0 <= j < files.len() && #[trigger] opt_int(files[j].creation_micros) is Some
            implies (files_latest(files) is Some && opt_int(files[j].creation_micros)->Some_0 <= files_latest(files)->Some_0) by {
            if j < files.len() - 1 {
                assert(files[j] == prefix[j]);
            }
        }
        if let Some(l) = files_latest(files) {
            if files_latest(prefix) == Some(l) {
                let j = choose|j: int| 0 <= j < prefix.len() && #[trigger] opt_int(prefix[j].creation_micros) == Some(l);
                assert(files[j] == prefix[j]);
            } else {
                assert(opt_int(files[files.len() - 1].creation_micros) == Some(l));
            }
        }
    }
}

/// The last update time of a partition is the latest known creation time of
/// its files, whatever the order the splits and files are listed in.
pub proof fn lemma_last_update_is_latest(splits: Seq<SplitSummary>, k: Option<Seq<char>>)
    ensures
        is_latest_time(last_update(splits, k), splits, k),
    decreases splits.len(),
{
    if splits.len() > 0 {
        let prefix = splits.drop_last();
        let n = splits.len() - 1;
        lemma_last_update_is_latest(prefix, k);
        let files = splits[n].files@;
        lemma_files_latest_is_max(files);
        assert(splits.last() == splits[n]);
        assert forall|i: int, j: int| #[trigger] is_file_of(splits, k, i, j) && #[trigger] file_time(splits, i, j) is Some
            implies (last_update(splits, k) is Some && file_time(splits, i, j)->Some_0 <= last_update(splits, k)->Some_0) by {
            if i < n {
                assert(splits[i] == prefix[i]);
                assert(is_file_of(prefix, k, i, j));
                assert(file_time(prefix, i, j) == file_time(splits, i, j));
            } else {
                assert(opt_int(files[j].creation_micros) == file_time(splits, i, j));
            }
        }
        if let Some(l) = last_update(splits, k) {
            if split_key(splits[n]) == k && files_latest(files) == Some(l) {
                let j = choose|j: int| 0 <= j < files.len() && #[trigger] opt_int(files[j].creation_micros) == Some(l);
                assert(is_file_of(splits, k, n, j) && file_time(splits, n, j) == Some(l));
            } else {
                assert(last_update(prefix, k) == Some(l));
                let (i, j) = choose|i: int, j: int| #[trigger] is_file_of(prefix, k, i, j) && #[trigger] file_time(prefix, i, j) == Some(l);
                assert(splits[i] == prefix[i]);
                assert(is_file_of(splits, k, i, j) && file_time(splits, i, j) == Some(l));
            }
        }
    }
}

fn clone_partition(p: &Option<String>) -> (r: Option<String>)
    ensures
        opt_str_view(r) == opt_str_view(*p),
{
    match p {
        Some(s) => Some(s.clone()),
        None => None,
    }
}

fn same_partition(a: &Option<String>, b: &Option<String>) -> (r: bool)
    ensures
        r == (opt_str_view(*a) == opt_str_view(*b)),
{
    match (a, b) {
        (Some(x), Some(y)) => *x == *y,
        (None, None) => true,
        _ => false,
    }
}

fn find_partition(keys: &Vec<Option<String>>, key: &Option<String>) -> (r: Option<usize>)
    ensures
        r matches Some(i) ==> i < keys@.len() && opt_str_view(keys@[i as int]) == opt_str_view(*key),
        r is None ==> forall|i: int| 0 <= i < keys@.len() ==> opt_str_view(#[trigger] keys@[i]) != opt_str_view(*key),
{
    let n = keys.len();
    for i in 0..n
        invariant
            n == keys@.len(),
            forall|k: int| 0 <= k < i ==> opt_str_view(#[trigger] keys@[k]) != opt_str_view(*key),
    {
        if same_partition(&keys[i], key) {
            return Some(i);
        }
    }
    None
}

pub open spec fn key_views(keys: Seq<Option<String>>) -> Seq<Option<Seq<char>>> {
    keys.map_values(|k: Option<String>| opt_str_view(k))
}

proof fn lemma_take_next(splits: Seq<SplitSummary>, s: int)
    requires
        0 <= s < splits.len(),
    ensures
        splits.take(s + 1).drop_last() == splits.take(s),
        splits.take(s + 1).last() == splits[s],
{
    assert(splits.take(s + 1).drop_last() =~= splits.take(s));
}

proof fn lemma_files_take_next(files: Seq<DataFileSummary>, j: int)
    requires
        0 <= j < files.len(),
    ensures
        files.take(j + 1).drop_last() == files.take(j),
        files.take(j + 1).last() == files[j],
{
    assert(files.take(j + 1).drop_last() =~= files.take(j));
}

proof fn lemma_max_opt_assoc(a: Option<int>, b: Option<int>, c: Option<int>)
    ensures
        max_opt(max_opt(a, b), c) == max_opt(a, max_opt(b, c)),
{
}

/// Groups the splits' data files by partition, in the order partitions first
/// occur. Each row holds the partition, the total rows, bytes and number of
/// its files, the latest creation time among them, and the bucket count of
/// the partition's last split. When a running total would overflow an
/// `i64`, nothing is returned.
pub fn aggregate_partitions(splits: &Vec<SplitSummary>) -> (result: Option<Vec<PartitionRow>>)
    ensures
        result is None <==> !totals_fit(splits@),
        result matches Some(rows) ==> rows@.len() == partition_keys(splits@).len(),
        result matches Some(rows) ==> forall|i: int|
            0 <= i < rows@.len() ==> is_partition_row(#[trigger] rows@[i], splits@, partition_keys(splits@)[i]),
        result matches Some(rows) ==> forall|i: int|
            0 <= i < rows@.len() ==> is_latest_time(opt_int(#[trigger] rows@[i].last_update_time), splits@, partition_keys(splits@)[i]),
{
    let mut keys: Vec<Option<String>> = Vec::new();
    let mut record_counts: Vec<i64> = Vec::new();
    let mut file_sizes: Vec<i64> = Vec::new();
    let mut file_counts: Vec<i64> = Vec::new();
    let mut last_updates: Vec<Option<i64>> = Vec::new();
    let mut buckets: Vec<i32> = Vec::new();
    let n = splits.len();
    for s in 0..n
        invariant
            n == splits@.len(),
            forall|i: int, j: int|
                0 <= i < s && 0 <= j <= splits@[i].files@.len() ==> #[trigger] fits_at(splits@, i, j),
            key_views(keys@) == partition_keys(splits@.take(s as int)),
            record_counts@.len() == keys@.len(),
            file_sizes@.len() == keys@.len(),
            file_counts@.len() == keys@.len(),
            last_updates@.len() == keys@.len(),
            buckets@.len() == keys@.len(),
            forall|g: int| 0 <= g < keys@.len() ==> {
                let k = #[trigger] key_views(keys@)[g];
                let p = splits@.take(s as int);
                &&& record_counts@[g] == record_count(p, k)
                &&& file_sizes@[g] == total_file_size(p, k)
                &&& file_counts@[g] == file_count(p, k)
                &&& opt_int(last_updates@[g]) == last_update(p, k)
                &&& buckets@[g] == total_buckets(p, k)
            },
    {
        let split = &splits[s];
        let ghost prefix = splits@.take(s as int);
        let ghost k = split_key(splits@[s as int]);
        proof {
            lemma_take_next(splits@, s as int);
        }
        let index = match find_partition(&keys, &split.partition) {
            Some(i) => {
                assert(key_views(keys@)[i as int] == k);
                i
            },
            None => {
                proof {
                    assert(!partition_keys(prefix).contains(k)) by {
                        if partition_keys(prefix).contains(k) {
                            let g = choose|g: int| 0 <= g < key_views(keys@).len() && key_views(keys@)[g] == k;
                            assert(opt_str_view(keys@[g]) == k);
                        }
                    }
                    lemma_absent_key(prefix, k);
                }
                keys.push(clone_partition(&split.partition));
                record_counts.push(0);
                file_sizes.push(0);
                file_counts.push(0);
                last_updates.push(None);
                buckets.push(0);
                proof {
                    assert(key_views(keys@) =~= partition_keys(prefix).push(k));
                }
                keys.len() - 1
            },
        };
        let ghost kv = key_views(keys@);
        assert(kv[index as int] == k);
        assert(kv == partition_keys(splits@.take(s + 1)));
        let mut rc = record_counts[index];
        let mut fs = file_sizes[index];
        let mut fc = file_counts[index];
        let mut lu = last_updates[index];
        let files = &split.files;
        let m = files.len();
        proof {
            assert(files@.take(0) =~= Seq::<DataFileSummary>::empty());
            assert(fits_at(splits@, s as int, 0));
        }
        for j in 0..m
            invariant
                m == files@.len(),
                files@ == splits@[s as int].files@,
                0 <= s < splits@.len(),
                forall|jj: int| 0 <= jj <= j ==> #[trigger] fits_at(splits@, s as int, jj),
                prefix == splits@.take(s as int),
                k == split_key(splits@[s as int]),
                rc == record_count(prefix, k) + files_rows(files@.take(j as int)),
                fs == total_file_size(prefix, k) + files_size(files@.take(j as int)),
                fc == file_count(prefix, k) + j,
                opt_int(lu) == max_opt(last_update(prefix, k), files_latest(files@.take(j as int))),
        {
            proof {
                lemma_files_take_next(files@, j as int);
                assert(splits@[s as int].files@.take(j + 1) == files@.take(j + 1));
                lemma_max_opt_assoc(last_update(prefix, k), files_latest(files@.take(j as int)), opt_int(files@[j as int].creation_micros));
            }
            let file = &files[j];
            let (next_rc, next_fs, next_fc) = match (
                rc.checked_add(file.row_count),
                fs.checked_add(file.file_size),
                fc.checked_add(1),
            ) {
                (Some(a), Some(b), Some(c)) => (a, b, c),
                _ => {
                    proof {
                        assert(!fits_at(splits@, s as int, j + 1));
                    }
                    return None;
                },
            };
            rc = next_rc;
            fs = next_fs;
            fc = next_fc;
            proof {
                assert(fits_at(splits@, s as int, j + 1));
            }
            match file.creation_micros {
                Some(time) => {
                    lu = Some(
                        match lu {
                            Some(current) => if current >= time { current } else { time },
                            None => time,
                        },
                    );
                },
                None => {},
            }
        }
        proof {
            assert(files@.take(m as int) =~= files@);
        }
        record_counts.set(index, rc);
        file_sizes.set(index, fs);
        file_counts.set(index, fc);
        last_updates.set(index, lu);
        buckets.set(index, split.total_buckets);
        proof {
            let next = splits@.take(s + 1);
            assert forall|g: int| 0 <= g < keys@.len() implies {
                let kg = #[trigger] key_views(keys@)[g];
                &&& record_counts@[g] == record_count(next, kg)
                &&& file_sizes@[g] == total_file_size(next, kg)
                &&& file_counts@[g] == file_count(next, kg)
                &&& opt_int(last_updates@[g]) == last_update(next, kg)
                &&& buckets@[g] == total_buckets(next, kg)
            } by {
                if g != index {
                    lemma_partition_keys_distinct(next);
                    assert(key_views(keys@)[g] != k);
                }
            }
        }
    }
    proof {
        assert(splits@.take(n as int) =~= splits@);
        assert forall|k: Option<Seq<char>>| is_latest_time(last_update(splits@, k), splits@, k) by {
            lemma_last_update_is_latest(splits@, k);
        }
    }
    let mut rows: Vec<PartitionRow> = Vec::new();
    let groups = keys.len();
    for g in 0..groups
        invariant
            groups == keys@.len(),
            record_counts@.len() == groups,
            file_sizes@.len() == groups,
            file_counts@.len() == groups,
            last_updates@.len() == groups,
            buckets@.len() == groups,
            key_views(keys@) == partition_keys(splits@),
            forall|h: int| 0 <= h < groups ==> {
                let k = #[trigger] key_views(keys@)[h];
                &&& record_counts@[h] == record_count(splits@, k)
                &&& file_sizes@[h] == total_file_size(splits@, k)
                &&& file_counts@[h] == file_count(splits@, k)
                &&& opt_int(last_updates@[h]) == last_update(splits@, k)
                &&& buckets@[h] == total_buckets(splits@, k)
            },
            rows@.len() == g,
            forall|h: int| 0 <= h < g ==> is_partition_row(#[trigger] rows@[h], splits@, partition_keys(splits@)[h]),
    {
        let partition = clone_partition(&keys[g]);
        assert(key_views(keys@)[g as int] == opt_str_view(keys@[g as int]));
        rows.push(PartitionRow {
            partition,
            record_count: record_counts[g],
            file_size: file_sizes[g],
            file_count: file_counts[g],
            last_update_time: last_updates[g],
            total_buckets: buckets[g],
        });
    }
    Some(rows)
}

} // verus!

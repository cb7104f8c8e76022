use paimon_route::partitions::{aggregate_partitions, DataFileSummary, SplitSummary};

fn file(rows: i64, size: i64, time: Option<i64>) -> DataFileSummary {
    DataFileSummary { row_count: rows, file_size: size, creation_micros: time }
}

fn split(partition: Option<&str>, buckets: i32, files: Vec<DataFileSummary>) -> SplitSummary {
    SplitSummary { partition: partition.map(|p| p.to_string()), total_buckets: buckets, files }
}

#[test]
fn groups_by_partition_in_first_seen_order() {
    let splits = vec![
        split(Some("dt=2"), 2, vec![file(3, 100, Some(50)), file(1, 10, None)]),
        split(Some("dt=1"), 2, vec![file(5, 200, Some(20))]),
        split(Some("dt=2"), 4, vec![file(2, 30, Some(70))]),
    ];
    let rows = aggregate_partitions(&splits).expect("totals fit");
    assert_eq!(rows.len(), 2);
    assert_eq!(rows[0].partition.as_deref(), Some("dt=2"));
    assert_eq!(rows[0].record_count, 6);
    assert_eq!(rows[0].file_size, 140);
    assert_eq!(rows[0].file_count, 3);
    assert_eq!(rows[0].last_update_time, Some(70));
    assert_eq!(rows[0].total_buckets, 4);
    assert_eq!(rows[1].partition.as_deref(), Some("dt=1"));
    assert_eq!(rows[1].record_count, 5);
    assert_eq!(rows[1].file_size, 200);
    assert_eq!(rows[1].file_count, 1);
    assert_eq!(rows[1].last_update_time, Some(20));
    assert_eq!(rows[1].total_buckets, 2);
}

#[test]
fn unpartitioned_splits_form_one_row() {
    let splits = vec![
        split(None, 1, vec![file(1, 5, None)]),
        split(None, 1, vec![]),
        split(None, 1, vec![file(2, 6, None), file(4, 7, None), file(0, 1, None)]),
    ];
    let rows = aggregate_partitions(&splits).expect("totals fit");
    assert_eq!(rows.len(), 1);
    assert_eq!(rows[0].partition, None);
    assert_eq!(rows[0].record_count, 7);
    assert_eq!(rows[0].file_size, 19);
    assert_eq!(rows[0].file_count, 4);
    assert_eq!(rows[0].last_update_time, None);
}

#[test]
fn split_without_files_still_gets_a_row() {
    let rows = aggregate_partitions(&vec![split(Some("p"), 3, vec![])]).expect("totals fit");
    assert_eq!(rows.len(), 1);
    assert_eq!(rows[0].record_count, 0);
    assert_eq!(rows[0].file_count, 0);
    assert_eq!(rows[0].last_update_time, None);
    assert_eq!(rows[0].total_buckets, 3);
}

#[test]
fn no_splits_no_rows() {
    assert!(aggregate_partitions(&vec![]).expect("totals fit").is_empty());
}

#[test]
fn four_partitions_four_rows() {
    let splits: Vec<SplitSummary> = ["a", "b", "c", "d", "a", "c"]
        .iter()
        .map(|p| split(Some(p), 1, vec![file(1, 1, Some(1))]))
        .collect();
    let rows = aggregate_partitions(&splits).expect("totals fit");
    let names: Vec<&str> = rows.iter().map(|r| r.partition.as_deref().unwrap()).collect();
    assert_eq!(names, vec!["a", "b", "c", "d"]);
    assert_eq!(rows[0].record_count, 2);
    assert_eq!(rows[1].record_count, 1);
}

#[test]
fn overflowing_total_gives_nothing() {
    let splits = vec![
        split(Some("a"), 1, vec![file(i64::MAX, 1, None)]),
        split(Some("b"), 1, vec![file(i64::MAX, 1, None)]),
        split(Some("a"), 1, vec![file(1, 1, None)]),
    ];
    assert!(aggregate_partitions(&splits).is_none());
    // The same values in distinct partitions fit.
    let splits = vec![
        split(Some("a"), 1, vec![file(i64::MAX, 1, None)]),
        split(Some("b"), 1, vec![file(i64::MAX, 1, None)]),
    ];
    assert!(aggregate_partitions(&splits).is_some());
}

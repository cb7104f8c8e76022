use paimon_route::table::{
    options_from_pairs, partition_statistics, source_count, table_description, SplitSize,
    StorageDescription,
};

#[test]
fn description_quotes_each_part() {
    assert_eq!(table_description("paimon_test", "db", "append_t"), "'paimon_test'.'db'.'append_t'");
    assert_eq!(table_description("", "", ""), "''.''.''");
}

#[test]
fn storage_description_of_paimon() {
    let d = StorageDescription::paimon();
    assert_eq!(d.engine_name, "PAIMON");
    assert_eq!(d.comment, "PAIMON Storage Engine");
    assert!(!d.support_cluster_key);
}

#[test]
fn options_hold_every_pair() {
    let options = options_from_pairs(&vec![
        ("metastore".to_string(), "filesystem".to_string()),
        ("warehouse".to_string(), "/tmp/w1".to_string()),
        ("warehouse".to_string(), "/tmp/w2".to_string()),
    ]);
    assert_eq!(options.get("metastore").map(|s| s.as_str()), Some("filesystem"));
    assert_eq!(options.get("warehouse").map(|s| s.as_str()), Some("/tmp/w2"));
    assert_eq!(options.to_map().len(), 2);
}

#[test]
fn statistics_use_merged_rows_when_known() {
    let splits = vec![
        SplitSize { merged_row_count: Some(1), row_count: 3, file_sizes: vec![10, 20] },
        SplitSize { merged_row_count: None, row_count: 4, file_sizes: vec![] },
        SplitSize { merged_row_count: None, row_count: 2, file_sizes: vec![5] },
    ];
    let stats = partition_statistics(&splits).expect("fits");
    assert_eq!(stats.read_rows, 7);
    assert_eq!(stats.read_bytes, 35);
    assert_eq!(stats.partitions_scanned, 3);
    assert_eq!(stats.partitions_total, 3);
    assert!(stats.is_exact);
}

#[test]
fn statistics_of_no_splits() {
    let stats = partition_statistics(&vec![]).expect("fits");
    assert_eq!(stats.read_rows, 0);
    assert_eq!(stats.read_bytes, 0);
    assert_eq!(stats.partitions_total, 0);
}

#[test]
fn single_thread_scan_uses_one_source() {
    assert_eq!(source_count(4, 1), 1);
}

#[test]
fn source_count_bounds() {
    assert_eq!(source_count(0, 8), 1);
    assert_eq!(source_count(3, 8), 3);
    assert_eq!(source_count(12, 8), 8);
    assert_eq!(source_count(5, 0), 0);
}

#[test]
fn statistics_overflow_gives_nothing() {
    let splits = vec![
        SplitSize { merged_row_count: None, row_count: -1, file_sizes: vec![] },
        SplitSize { merged_row_count: Some(1), row_count: 0, file_sizes: vec![] },
    ];
    assert!(partition_statistics(&splits).is_none());
}

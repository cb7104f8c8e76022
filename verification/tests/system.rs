use paimon_route::system::{
    system_table_partitions, system_table_source, PaimonSystemPartInfo, PaimonSystemSource,
    PaimonSystemTableKind, SystemSourcePlan,
};

#[test]
fn part_equality_and_hash_follow_kind() {
    let files = PaimonSystemPartInfo { kind: PaimonSystemTableKind::Files };
    let tags = PaimonSystemPartInfo { kind: PaimonSystemTableKind::Tags };
    assert!(files.equals(Some(&PaimonSystemPartInfo { kind: PaimonSystemTableKind::Files })));
    assert!(!files.equals(Some(&tags)));
    assert!(!files.equals(None));
    assert_eq!(files.hash(), 5);
    assert_eq!(tags.hash(), 4);
    assert_eq!(PaimonSystemPartInfo { kind: PaimonSystemTableKind::Options }.hash(), 0);
}

#[test]
fn system_scan_has_one_part() {
    let (stats, parts) = system_table_partitions(PaimonSystemTableKind::Manifests);
    assert_eq!((stats.read_rows, stats.read_bytes, stats.partitions_scanned, stats.partitions_total), (1, 0, 1, 1));
    assert!(stats.is_exact);
    assert_eq!(parts, vec![PaimonSystemPartInfo { kind: PaimonSystemTableKind::Manifests }]);
}

#[test]
fn empty_scan_gets_empty_source() {
    assert_eq!(system_table_source(0), SystemSourcePlan::Empty);
    assert_eq!(system_table_source(1), SystemSourcePlan::ReadTable);
}

#[test]
fn system_source_reads_once() {
    let mut source = PaimonSystemSource::new();
    assert!(source.generate());
    assert!(!source.generate());
    assert!(!source.generate());
}

#[test]
fn only_the_first_generate_reads() {
    let mut source = PaimonSystemSource::new();
    let reads: Vec<bool> = (0..5).map(|_| source.generate()).collect();
    assert_eq!(reads, vec![true, false, false, false, false]);
}

use std::sync::Arc;

use arrow_array::{Int32Array, RecordBatch, StringArray};
use arrow_schema::{DataType as ArrowDataType, Field as ArrowField, Schema as ArrowSchema};
use paimon::spec::{DataType, IntType, Schema, TableSchema, VarCharType};
use paimon_route::encode_route_key;
use paimon_route::error::{FieldKind, PaimonError};
use paimon_route::paimon_api::RowBatch;
use paimon_route::router::{bucket_for_hash, resolve_field_indices, routes_from_rows, PaimonWriteRouter};

fn strings(names: &[&str]) -> Vec<String> {
    names.iter().map(|s| s.to_string()).collect()
}

fn pk_schema(bucket: Option<&str>, partitioned: bool) -> TableSchema {
    let mut builder = Schema::builder()
        .column("id", DataType::Int(IntType::new()))
        .column("name", DataType::VarChar(VarCharType::string_type()));
    if partitioned {
        builder = builder.primary_key(["id", "name"]).partition_keys(["name"]);
    } else {
        builder = builder.primary_key(["id"]);
    }
    if let Some(b) = bucket {
        builder = builder.option("bucket", b);
    }
    TableSchema::new(0, &builder.build().expect("schema"))
}

fn batch(ids: Vec<i32>, names: Vec<&str>) -> RowBatch {
    let schema = Arc::new(ArrowSchema::new(vec![
        ArrowField::new("id", ArrowDataType::Int32, false),
        ArrowField::new("name", ArrowDataType::Utf8, false),
    ]));
    RowBatch(
        RecordBatch::try_new(schema, vec![
            Arc::new(Int32Array::from(ids)),
            Arc::new(StringArray::from(names)),
        ])
        .expect("record batch"),
    )
}

#[test]
fn bucket_is_absolute_remainder() {
    assert_eq!(bucket_for_hash(-7, 4), 3);
    assert_eq!(bucket_for_hash(7, 4), 3);
    assert_eq!(bucket_for_hash(8, 4), 0);
    assert_eq!(bucket_for_hash(i32::MIN, 3), 2);
    assert_eq!(bucket_for_hash(i32::MAX, 1), 0);
}

#[test]
fn routes_pair_rows_as_far_as_both_lists_reach() {
    let routes = routes_from_rows(&vec![vec![1], vec![2], vec![3]], &vec![5, -6], 4);
    assert_eq!(routes.len(), 2);
    assert_eq!(routes[0].partition, vec![1]);
    assert_eq!(routes[0].bucket, 1);
    assert_eq!(routes[0].key, encode_route_key(&[1], 1));
    assert_eq!(routes[1].bucket, 2);
    assert_eq!(routes[1].key, vec![0, 0, 0, 1, 2, 0, 0, 0, 2]);
}

#[test]
fn resolve_indices_finds_first_position() {
    let fields = strings(&["a", "b", "a", "c"]);
    let indices = resolve_field_indices(&fields, &strings(&["c", "a"]), FieldKind::Partition).unwrap();
    assert_eq!(indices, vec![3, 0]);
}

#[test]
fn resolve_indices_reports_first_missing_name() {
    let fields = strings(&["a", "b"]);
    match resolve_field_indices(&fields, &strings(&["b", "x", "y"]), FieldKind::BucketKey) {
        Err(PaimonError::MissingField { kind, name }) => {
            assert_eq!(kind, FieldKind::BucketKey);
            assert_eq!(name, "x");
        }
        other => panic!("unexpected {:?}", other.map(|_| ())),
    }
}

#[test]
fn from_parts_requires_primary_key_first() {
    let r = PaimonWriteRouter::from_parts(vec![], &vec![], &vec![], &vec![], &vec![], 0);
    assert!(matches!(r, Err(PaimonError::NotPrimaryKeyTable)));
}

#[test]
fn from_parts_requires_fixed_bucket() {
    let r = PaimonWriteRouter::from_parts(vec![], &vec![], &vec![], &strings(&["id"]), &strings(&["id"]), -1);
    assert!(matches!(r, Err(PaimonError::InvalidBucketCount { bucket_count: -1 })));
}

#[test]
fn from_parts_requires_bucket_keys() {
    let r = PaimonWriteRouter::from_parts(vec![], &vec![], &vec![], &vec![], &strings(&["id"]), 2);
    assert!(matches!(r, Err(PaimonError::EmptyBucketKeys)));
}

#[test]
fn from_parts_reports_missing_partition_before_bucket_key() {
    let r = PaimonWriteRouter::from_parts(
        vec![],
        &vec![],
        &strings(&["dt"]),
        &strings(&["id"]),
        &strings(&["id"]),
        2,
    );
    match r {
        Err(PaimonError::MissingField { kind, name }) => {
            assert_eq!(kind, FieldKind::Partition);
            assert_eq!(name, "dt");
        }
        _ => panic!("expected a missing partition field"),
    }
}

#[test]
fn try_create_rejects_append_table() {
    let schema = Schema::builder()
        .column("id", DataType::Int(IntType::new()))
        .option("bucket", "2")
        .build()
        .expect("schema");
    let r = PaimonWriteRouter::try_create(&TableSchema::new(0, &schema));
    assert!(matches!(r, Err(PaimonError::NotPrimaryKeyTable)));
}

#[test]
fn try_create_rejects_dynamic_bucket() {
    let r = PaimonWriteRouter::try_create(&pk_schema(None, false));
    assert!(matches!(r, Err(PaimonError::InvalidBucketCount { bucket_count: -1 })));
}

#[test]
fn try_create_reads_bucket_option() {
    let one = PaimonWriteRouter::try_create(&pk_schema(Some("1"), false)).expect("router");
    let routes = one.route_batch(&batch(vec![1, 2, 3, 4, 5], vec!["a"; 5])).expect("routes");
    assert!(routes.iter().all(|r| r.bucket == 0));
    let many = PaimonWriteRouter::try_create(&pk_schema(Some("64"), false)).expect("router");
    let routes = many
        .route_batch(&batch((0..40).collect(), vec!["a"; 40]))
        .expect("routes");
    assert!(routes.iter().all(|r| 0 <= r.bucket && r.bucket < 64));
    assert!(routes.iter().any(|r| r.bucket != 0));
}

#[test]
fn route_batch_unpartitioned_table() {
    let router = PaimonWriteRouter::try_create(&pk_schema(Some("4"), false)).expect("router");
    let routes = router
        .route_batch(&batch(vec![1, 2, 3, 1], vec!["a", "b", "c", "d"]))
        .expect("routes");
    assert_eq!(routes.len(), 4);
    for route in &routes {
        assert!(0 <= route.bucket && route.bucket < 4);
        assert_eq!(route.key, encode_route_key(&route.partition, route.bucket));
        assert_eq!(route.partition, routes[0].partition);
    }
    // The bucket depends on the bucket key (id) alone.
    assert_eq!(routes[0].bucket, routes[3].bucket);
    assert_eq!(routes[0].key, routes[3].key);
}

#[test]
fn route_batch_partitioned_table() {
    let router = PaimonWriteRouter::try_create(&pk_schema(Some("3"), true)).expect("router");
    let routes = router
        .route_batch(&batch(vec![1, 1, 2], vec!["x", "y", "x"]))
        .expect("routes");
    assert_eq!(routes.len(), 3);
    assert_ne!(routes[0].partition, routes[1].partition);
    assert_eq!(routes[0].partition, routes[2].partition);
    for route in &routes {
        assert!(0 <= route.bucket && route.bucket < 3);
        assert_eq!(route.key, encode_route_key(&route.partition, route.bucket));
    }
}

#[test]
fn try_route_batch_needs_every_read_column() {
    let router = PaimonWriteRouter::try_create(&pk_schema(Some("3"), true)).expect("router");
    let schema = Arc::new(ArrowSchema::new(vec![ArrowField::new("id", ArrowDataType::Int32, false)]));
    let narrow = RowBatch(
        RecordBatch::try_new(schema, vec![Arc::new(Int32Array::from(vec![1, 2]))]).expect("batch"),
    );
    assert!(router.try_route_batch(&narrow).is_none());
    let routes = router
        .try_route_batch(&batch(vec![1], vec!["x"]))
        .expect("all columns present")
        .expect("routes");
    assert_eq!(routes.len(), 1);
}

#[test]
fn route_batch_reports_paimon_errors() {
    let router = PaimonWriteRouter::try_create(&pk_schema(Some("3"), true)).expect("router");
    let schema = Arc::new(ArrowSchema::new(vec![
        ArrowField::new("id", ArrowDataType::Int32, false),
        ArrowField::new("name", ArrowDataType::Int32, false),
    ]));
    let mistyped = RowBatch(
        RecordBatch::try_new(schema, vec![
            Arc::new(Int32Array::from(vec![1])),
            Arc::new(Int32Array::from(vec![2])),
        ])
        .expect("batch"),
    );
    assert!(matches!(router.route_batch(&mistyped), Err(PaimonError::Storage(_))));
}

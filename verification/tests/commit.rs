use paimon::catalog::Identifier;
use paimon::io::FileIOBuilder;
use paimon::spec::{DataType, IntType, Schema, TableSchema};
use paimon::table::CommitMessage;
use paimon::Table;
use paimon_route::commit::{CommitBlockMeta, PaimonCommitSink};
use paimon_route::error::PaimonError;

fn memory_table() -> Table {
    let schema = Schema::builder()
        .column("id", DataType::Int(IntType::new()))
        .build()
        .expect("schema");
    let file_io = FileIOBuilder::new("memory").build().expect("file io");
    Table::new(
        file_io,
        Identifier::new("db", "t"),
        "memory:/db/t".to_string(),
        TableSchema::new(0, &schema),
        None,
    )
}

fn message(bucket: i32) -> CommitMessage {
    CommitMessage::new(vec![bucket as u8], bucket, vec![])
}

#[test]
fn nothing_collected_means_nothing_to_commit() {
    let mut sink = PaimonCommitSink::new(memory_table());
    assert!(sink.on_finish().is_none());
    assert!(matches!(sink.consume(CommitBlockMeta::Absent), Ok(false)));
    assert!(sink.on_finish().is_none());
}

#[test]
fn messages_are_committed_once_in_order() {
    let mut sink = PaimonCommitSink::new(memory_table());
    assert!(matches!(sink.consume(CommitBlockMeta::Commit(vec![message(1), message(2)])), Ok(false)));
    assert!(matches!(sink.consume(CommitBlockMeta::Absent), Ok(false)));
    assert!(matches!(sink.consume(CommitBlockMeta::Commit(vec![message(3)])), Ok(false)));
    let batch = sink.on_finish().expect("messages to commit");
    let buckets: Vec<i32> = batch.iter().map(|m| m.bucket).collect();
    assert_eq!(buckets, vec![1, 2, 3]);
    assert!(sink.on_finish().is_none());
}

#[test]
fn foreign_meta_is_rejected() {
    let mut sink = PaimonCommitSink::new(memory_table());
    sink.consume(CommitBlockMeta::Commit(vec![message(4)])).unwrap();
    assert!(matches!(sink.consume(CommitBlockMeta::Foreign), Err(PaimonError::InvalidCommitMeta)));
    let batch = sink.on_finish().expect("earlier messages stay");
    assert_eq!(batch.len(), 1);
    assert_eq!(batch[0].bucket, 4);
}

#[test]
fn sink_keeps_its_table() {
    let sink = PaimonCommitSink::new(memory_table());
    assert_eq!(sink.table().identifier().object(), "t");
}

#[test]
fn undecodable_meta_is_rejected_with_its_error() {
    let mut sink = PaimonCommitSink::new(memory_table());
    sink.consume(CommitBlockMeta::Commit(vec![message(6)])).unwrap();
    let decode_error = PaimonError::Storage(paimon::Error::DataInvalid {
        message: "commit message bytes".to_string(),
        source: None,
    });
    match sink.consume(CommitBlockMeta::Undecodable(decode_error)) {
        Err(PaimonError::Storage(paimon::Error::DataInvalid { message, .. })) => {
            assert_eq!(message, "commit message bytes")
        }
        other => panic!("unexpected outcome: {other:?}"),
    }
    let batch = sink.on_finish().expect("earlier messages stay");
    assert_eq!(batch.len(), 1);
    assert_eq!(batch[0].bucket, 6);
}

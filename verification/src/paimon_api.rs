//! The Paimon and Arrow items that the connector calls, with the contracts
//! that verified code relies on.
use std::collections::HashMap;
use vstd::prelude::*;

verus! {

/// A Paimon table schema (fields, keys and options), opaque to proofs.
#[verifier::external_type_specification]
#[verifier::external_body]
pub struct ExTableSchema(paimon::spec::TableSchema);

/// A Paimon schema field, opaque to proofs.
#[verifier::external_type_specification]
#[verifier::external_body]
pub struct ExDataField(paimon::spec::DataField);

/// A batch of rows to be written, held as an Arrow record batch. Its rows
/// are read only through the Paimon and Arrow calls below; to proofs the
/// batch is what those calls say of it.
#[verifier::external_body]
pub struct RowBatch(pub arrow_array::RecordBatch);

/// Paimon's error type, opaque to proofs.
#[verifier::external_type_specification]
#[verifier::external_body]
pub struct ExPaimonError(paimon::Error);

/// A loaded Paimon table handle, carried through unchanged.
#[verifier::external_type_specification]
#[verifier::external_body]
pub struct ExPaimonTable(paimon::Table);

/// One writer's commit message, carried through unchanged.
#[verifier::external_type_specification]
#[verifier::external_body]
pub struct ExCommitMessage(paimon::table::CommitMessage);

/// A Paimon catalog table identifier (database and object name).
#[verifier::external_type_specification]
#[verifier::external_body]
pub struct ExIdentifier(paimon::catalog::Identifier);

/// A Paimon option set (string keys to string values).
#[verifier::external_type_specification]
#[verifier::external_body]
pub struct ExOptions(paimon::Options);

/// What a `paimon::Options` holds: its key/value pairs.
pub uninterp spec fn options_entries(options: paimon::Options) -> Map<Seq<char>, Seq<char>>;

/// What `paimon::spec::CoreOptions::bucket` computes from a table's options.
pub uninterp spec fn core_options_bucket(options: Map<Seq<char>, Seq<char>>) -> i32;

/// The character sequences of a sequence of strings.
pub open spec fn str_views(v: Seq<String>) -> Seq<Seq<char>> {
    v.map_values(|s: String| s@)
}

/// What `paimon::spec::TableSchema::fields` returns for a schema.
pub uninterp spec fn schema_fields_of(schema: paimon::spec::TableSchema) -> Seq<paimon::spec::DataField>;

/// What `paimon::spec::TableSchema::partition_keys` returns for a schema.
pub uninterp spec fn schema_partition_keys_of(schema: paimon::spec::TableSchema) -> Seq<Seq<char>>;

/// What `paimon::spec::TableSchema::primary_keys` returns for a schema.
pub uninterp spec fn schema_primary_keys_of(schema: paimon::spec::TableSchema) -> Seq<Seq<char>>;

/// What `paimon::spec::TableSchema::bucket_keys` returns for a schema.
pub uninterp spec fn schema_bucket_keys_of(schema: paimon::spec::TableSchema) -> Seq<Seq<char>>;

/// What `paimon::spec::TableSchema::options` holds for a schema.
pub uninterp spec fn schema_options_of(schema: paimon::spec::TableSchema) -> Map<Seq<char>, Seq<char>>;

/// What `paimon::spec::DataField::name` returns for a field.
pub uninterp spec fn data_field_name_of(field: paimon::spec::DataField) -> Seq<char>;

/// Calls `paimon::spec::TableSchema::fields`; the fields are handed back
/// as a vector. Claimed: they are a function of the schema alone.
#[verifier::external_body]
pub(crate) fn schema_fields(schema: &paimon::spec::TableSchema) -> (fields: Vec<paimon::spec::DataField>)
    ensures
        fields@ == schema_fields_of(*schema),
{
    schema.fields().to_vec()
}

/// Calls `paimon::spec::TableSchema::partition_keys`. Claimed: they are a
/// function of the schema alone.
#[verifier::external_body]
pub(crate) fn schema_partition_keys(schema: &paimon::spec::TableSchema) -> (keys: Vec<String>)
    ensures
        str_views(keys@) == schema_partition_keys_of(*schema),
{
    schema.partition_keys().to_vec()
}

/// Calls `paimon::spec::TableSchema::primary_keys`. Claimed: they are a
/// function of the schema alone.
#[verifier::external_body]
pub(crate) fn schema_primary_keys(schema: &paimon::spec::TableSchema) -> (keys: Vec<String>)
    ensures
        str_views(keys@) == schema_primary_keys_of(*schema),
{
    schema.primary_keys().to_vec()
}

/// Calls `paimon::spec::TableSchema::bucket_keys`: the explicit `bucket-key`
/// option, else the primary keys without the partition columns, else the
/// non-partition fields. Claimed: they are a function of the schema alone.
#[verifier::external_body]
pub(crate) fn schema_bucket_keys(schema: &paimon::spec::TableSchema) -> (keys: Vec<String>)
    ensures
        str_views(keys@) == schema_bucket_keys_of(*schema),
{
    schema.bucket_keys()
}

/// Calls `paimon::spec::TableSchema::options`; the options are handed back
/// as a copy. Claimed: they are a function of the schema alone.
#[verifier::external_body]
pub(crate) fn schema_options(schema: &paimon::spec::TableSchema) -> (options: HashMap<String, String>)
    ensures
        options.deep_view() == schema_options_of(*schema),
{
    schema.options().clone()
}

/// Calls `paimon::spec::DataField::name`. Claimed: it is a function of the
/// field alone.
#[verifier::external_body]
pub(crate) fn data_field_name(field: &paimon::spec::DataField) -> (name: String)
    ensures
        name@ == data_field_name_of(*field),
{
    field.name().to_string()
}

/// Calls `paimon::spec::CoreOptions::bucket`: the `bucket` option parsed as
/// an `i32`. Claimed: the result is a function of the options alone, and it
/// is -1 (dynamic bucket) when the option is absent. Unparsable values also
/// give -1; that is not stated.
#[verifier::external_body]
pub(crate) fn core_bucket(options: &HashMap<String, String>) -> (bucket: i32)
    ensures
        bucket == core_options_bucket(options.deep_view()),
        bucket == -1 || options.deep_view().contains_key("bucket"@),
{
    paimon::spec::CoreOptions::new(options).bucket()
}

/// The number of columns of a batch.
pub uninterp spec fn row_batch_column_count(batch: RowBatch) -> nat;

/// Calls `arrow_array::RecordBatch::num_columns`.
#[verifier::external_body]
pub(crate) fn batch_column_count(batch: &RowBatch) -> (count: usize)
    ensures
        count == row_batch_column_count(*batch),
{
    batch.0.num_columns()
}

/// The number of rows of a batch.
pub uninterp spec fn row_batch_row_count(batch: RowBatch) -> nat;

/// What `paimon::spec::batch_to_serialized_bytes` returns for a batch, the
/// field positions and the schema fields.
pub uninterp spec fn batch_partition_rows(
    batch: RowBatch,
    indices: Seq<usize>,
    fields: Seq<paimon::spec::DataField>,
) -> Result<Seq<Seq<u8>>, paimon::Error>;

/// What `paimon::spec::batch_hash_codes` returns for a batch, the field
/// positions and the schema fields.
pub uninterp spec fn batch_hash_codes_of(
    batch: RowBatch,
    indices: Seq<usize>,
    fields: Seq<paimon::spec::DataField>,
) -> Result<Seq<i32>, paimon::Error>;

/// The byte sequences of a list of byte vectors.
pub open spec fn bytes_views(v: Seq<Vec<u8>>) -> Seq<Seq<u8>> {
    v.map_values(|b: Vec<u8>| b@)
}

/// Calls `paimon::spec::batch_to_serialized_bytes`: the serialized
/// partition row of every row of the batch. Claimed: the result is a
/// function of the arguments alone, with one entry per row of the batch.
/// Nothing is claimed of the bytes themselves. It indexes both the fields and the batch's columns by each index,
/// and panics on an index out of either range.
#[verifier::external_body]
pub(crate) fn batch_partition_bytes(
    batch: &RowBatch,
    indices: &Vec<usize>,
    fields: &Vec<paimon::spec::DataField>,
) -> (rows: Result<Vec<Vec<u8>>, paimon::Error>)
    requires
        forall|i: int| 0 <= i < indices@.len() ==> #[trigger] indices@[i] < fields@.len()
            && indices@[i] < row_batch_column_count(*batch),
    ensures
        rows matches Ok(v) ==> v@.len() == row_batch_row_count(*batch),
        rows matches Ok(v) ==> (batch_partition_rows(*batch, indices@, fields@) matches Ok(p) && p == bytes_views(v@)),
        rows matches Err(e) ==> (batch_partition_rows(*batch, indices@, fields@) matches Err(pe) && pe == e),
{
    paimon::spec::batch_to_serialized_bytes(&batch.0, indices, fields)
}

/// Calls `paimon::spec::batch_hash_codes`: the Murmur3 hash of the bucket-key
/// row of every row of the batch. Claimed: the result is a function of the
/// arguments alone, with one hash per row of the batch. Nothing is claimed
/// of the hash values themselves. It
/// indexes both the fields and the batch's columns by each index, and panics
/// on an index out of either range.
#[verifier::external_body]
pub(crate) fn batch_bucket_hashes(
    batch: &RowBatch,
    indices: &Vec<usize>,
    fields: &Vec<paimon::spec::DataField>,
) -> (hashes: Result<Vec<i32>, paimon::Error>)
    requires
        forall|i: int| 0 <= i < indices@.len() ==> #[trigger] indices@[i] < fields@.len()
            && indices@[i] < row_batch_column_count(*batch),
    ensures
        hashes matches Ok(v) ==> v@.len() == row_batch_row_count(*batch),
        hashes matches Ok(v) ==> (batch_hash_codes_of(*batch, indices@, fields@) matches Ok(h) && h == v@),
        hashes matches Err(e) ==> (batch_hash_codes_of(*batch, indices@, fields@) matches Err(he) && he == e),
{
    paimon::spec::batch_hash_codes(&batch.0, indices, fields)
}

/// Calls `paimon::Options::new`: an empty option set.
#[verifier::external_body]
pub(crate) fn options_new() -> (fresh: paimon::Options)
    ensures
        options_entries(fresh).dom() == Set::<Seq<char>>::empty(),
{
    paimon::Options::new()
}

/// Calls `paimon::Options::set`, which inserts the pair into its map,
/// replacing an earlier value of the key.
#[verifier::external_body]
pub(crate) fn options_set(options: &mut paimon::Options, key: String, value: String)
    ensures
        options_entries(*final(options)) == options_entries(*old(options)).insert(key@, value@),
{
    options.set(key, value)
}

} // verus!

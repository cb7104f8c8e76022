//! Routing of written rows to (partition, bucket) writer lanes.
use crate::error::{FieldKind, PaimonError};
use crate::paimon_api::{
    batch_bucket_hashes, batch_column_count, batch_partition_bytes, core_bucket, data_field_name,
    batch_hash_codes_of, batch_partition_rows, core_options_bucket, data_field_name_of,
    row_batch_column_count, row_batch_row_count, schema_bucket_keys, schema_bucket_keys_of,
    schema_fields_of, schema_options_of, schema_partition_keys_of, schema_primary_keys_of, schema_fields, schema_options,
    schema_partition_keys, schema_primary_keys, str_views, RowBatch,
};
use crate::route_key::{encode_route_key, lemma_route_key_injective, route_key_spec};
use vstd::prelude::*;

verus! {

/// `j` is the first position of `name` in `names`.
pub open spec fn is_first_position(names: Seq<Seq<char>>, name: Seq<char>, j: int) -> bool {
    &&& 0 <= j < names.len()
    &&& names[j] == name
    &&& forall|k: int| 0 <= k < j ==> names[k] != name
}

/// Every wanted name occurs among the field names.
pub open spec fn all_resolvable(field_names: Seq<Seq<char>>, wanted: Seq<Seq<char>>) -> bool {
    forall|i: int| 0 <= i < wanted.len() ==> field_names.contains(#[trigger] wanted[i])
}

/// `i` is the first wanted name that occurs among no field name.
pub open spec fn first_unresolvable(field_names: Seq<Seq<char>>, wanted: Seq<Seq<char>>, i: int) -> bool {
    &&& 0 <= i < wanted.len()
    &&& !field_names.contains(wanted[i])
    &&& forall|k: int| 0 <= k < i ==> field_names.contains(#[trigger] wanted[k])
}

/// `indices` gives, for each wanted name, its first position among the field names.
pub open spec fn resolves_to(field_names: Seq<Seq<char>>, wanted: Seq<Seq<char>>, indices: Seq<usize>) -> bool {
    &&& indices.len() == wanted.len()
    &&& forall|i: int| 0 <= i < wanted.len() ==> is_first_position(field_names, wanted[i], #[trigger] indices[i] as int)
}

/// The bucket of a row with bucket-key hash `hash` in a table with
/// `bucket_count` buckets: `|hash % bucket_count|`, which is `|hash|` modulo
/// the bucket count.
pub open spec fn bucket_of(hash: i32, bucket_count: i32) -> int {
    (if hash < 0 { -(hash as int) } else { hash as int }) % (bucket_count as int)
}

/// The route of a row with the given serialized partition and bucket-key hash.
pub open spec fn is_route_of(route: PaimonWriteRoute, partition: Seq<u8>, hash: i32, bucket_count: i32) -> bool {
    &&& route.partition@ == partition
    &&& route.bucket as int == bucket_of(hash, bucket_count)
    &&& route.key@ == route_key_spec(partition, route.bucket)
}

/// A route whose bucket lies in the table's bucket range and whose key
/// encodes its partition and bucket.
pub open spec fn is_well_formed_route(route: PaimonWriteRoute, bucket_count: i32) -> bool {
    &&& 0 <= route.bucket < bucket_count
    &&& route.key@ == route_key_spec(route.partition@, route.bucket)
}

/// Two well-formed routes (with partitions of at most `u32::MAX` bytes)
/// have the same key exactly when they have the same partition and the
/// same bucket: the key identifies the writer lane.
pub proof fn lemma_route_key_identifies_lane(a: PaimonWriteRoute, b: PaimonWriteRoute, bucket_count: i32)
    requires
        is_well_formed_route(a, bucket_count),
        is_well_formed_route(b, bucket_count),
        a.partition@.len() <= u32::MAX,
        b.partition@.len() <= u32::MAX,
    ensures
        (a.key@ == b.key@) <==> (a.partition@ == b.partition@ && a.bucket == b.bucket),
{
    if a.key@ == b.key@ {
        lemma_route_key_injective(a.partition@, a.bucket, b.partition@, b.bucket);
    }
}

/// `r` is what building a router gives for the given fields, field names,
/// partition keys, bucket keys, primary keys and bucket option. The checks
/// run in this order: a primary key is required, then a fixed bucket count
/// of at least one, then at least one bucket key, then every partition key
/// and then every bucket key must name a field (the first that names none is
/// reported). A router that comes back has the fields, the bucket count, and
/// the first position of every partition and bucket key among the names.
pub open spec fn is_router_outcome(
    r: Result<PaimonWriteRouter, PaimonError>,
    fields: Seq<paimon::spec::DataField>,
    field_names: Seq<Seq<char>>,
    partition_keys: Seq<Seq<char>>,
    bucket_keys: Seq<Seq<char>>,
    primary_keys: Seq<Seq<char>>,
    bucket_count: i32,
) -> bool {
    if primary_keys.len() == 0 {
        r matches Err(PaimonError::NotPrimaryKeyTable)
    } else if bucket_count < 1 {
        r matches Err(PaimonError::InvalidBucketCount { bucket_count: b }) && b == bucket_count
    } else if bucket_keys.len() == 0 {
        r matches Err(PaimonError::EmptyBucketKeys)
    } else if !all_resolvable(field_names, partition_keys) {
        r matches Err(PaimonError::MissingField { kind, name }) && kind == FieldKind::Partition
            && exists|i: int| first_unresolvable(field_names, partition_keys, i) && name@ == partition_keys[i]
    } else if !all_resolvable(field_names, bucket_keys) {
        r matches Err(PaimonError::MissingField { kind, name }) && kind == FieldKind::BucketKey
            && exists|i: int| first_unresolvable(field_names, bucket_keys, i) && name@ == bucket_keys[i]
    } else {
        r matches Ok(router) && router.spec_fields() == fields && router.spec_bucket_count() == bucket_count
            && resolves_to(field_names, partition_keys, router.spec_partition_indices())
            && resolves_to(field_names, bucket_keys, router.spec_bucket_key_indices())
    }
}

/// `indices` are the positions a router reads for the keys `wanted`: one per
/// key, in the keys' order, each the first position of that key among the
/// field names.
pub open spec fn reads_key_columns(field_names: Seq<Seq<char>>, wanted: Seq<Seq<char>>, indices: Seq<usize>) -> bool {
    &&& indices.len() == wanted.len()
    &&& forall|i: int| 0 <= i < wanted.len() ==> {
        let p = #[trigger] indices[i] as int;
        &&& 0 <= p < field_names.len()
        &&& field_names[p] == wanted[i]
        &&& forall|q: int| 0 <= q < p ==> field_names[q] != wanted[i]
    }
}

/// Building a router succeeds exactly when the table has a primary key, a
/// bucket count of at least one, at least one bucket key, and every
/// partition key and bucket key names a field. A router reads exactly the
/// bucket-key columns for the hash and the partition-key columns for the
/// partition: the first position of each key among the field names, in the
/// keys' order, whatever the primary key is.
pub proof fn lemma_router_reads_key_columns(
    r: Result<PaimonWriteRouter, PaimonError>,
    fields: Seq<paimon::spec::DataField>,
    field_names: Seq<Seq<char>>,
    partition_keys: Seq<Seq<char>>,
    bucket_keys: Seq<Seq<char>>,
    primary_keys: Seq<Seq<char>>,
    bucket_count: i32,
)
    requires
        is_router_outcome(r, fields, field_names, partition_keys, bucket_keys, primary_keys, bucket_count),
    ensures
        r is Ok <==> (primary_keys.len() > 0 && bucket_count >= 1 && bucket_keys.len() > 0
            && (forall|i: int| 0 <= i < partition_keys.len() ==> field_names.contains(#[trigger] partition_keys[i]))
            && (forall|i: int| 0 <= i < bucket_keys.len() ==> field_names.contains(#[trigger] bucket_keys[i]))),
        r matches Ok(router) ==> reads_key_columns(field_names, bucket_keys, router.spec_bucket_key_indices())
            && reads_key_columns(field_names, partition_keys, router.spec_partition_indices()),
{
}

/// Routers built over the same field names and bucket keys hash the same
/// columns, whatever their primary keys and partition keys: rows that agree
/// on the bucket-key columns get the same bucket-key hash input.
pub proof fn lemma_bucket_columns_depend_only_on_bucket_keys(
    r1: Result<PaimonWriteRouter, PaimonError>,
    r2: Result<PaimonWriteRouter, PaimonError>,
    fields: Seq<paimon::spec::DataField>,
    field_names: Seq<Seq<char>>,
    partition_keys1: Seq<Seq<char>>,
    partition_keys2: Seq<Seq<char>>,
    bucket_keys: Seq<Seq<char>>,
    primary_keys1: Seq<Seq<char>>,
    primary_keys2: Seq<Seq<char>>,
    bucket_count: i32,
)
    requires
        is_router_outcome(r1, fields, field_names, partition_keys1, bucket_keys, primary_keys1, bucket_count),
        is_router_outcome(r2, fields, field_names, partition_keys2, bucket_keys, primary_keys2, bucket_count),
        r1 is Ok,
        r2 is Ok,
    ensures
        r1->Ok_0.spec_bucket_key_indices() == r2->Ok_0.spec_bucket_key_indices(),
{
    let a = r1->Ok_0.spec_bucket_key_indices();
    let b = r2->Ok_0.spec_bucket_key_indices();
    assert forall|i: int| 0 <= i < a.len() implies a[i] == b[i] by {
        let x = a[i] as int;
        let y = b[i] as int;
        assert(is_first_position(field_names, bucket_keys[i], x));
        assert(is_first_position(field_names, bucket_keys[i], y));
        if x < y {
            assert(field_names[x] != bucket_keys[i]);
        } else if y < x {
            assert(field_names[y] != bucket_keys[i]);
        }
    }
    assert(a =~= b);
}

/// The names of a schema's fields, as Paimon reports them.
pub open spec fn schema_field_names(schema: paimon::spec::TableSchema) -> Seq<Seq<char>> {
    schema_fields_of(schema).map_values(|f: paimon::spec::DataField| data_field_name_of(f))
}

/// `r` is what routing `batch` gives: when Paimon fails to serialize the
/// partition fields, that error; otherwise when it fails to hash the
/// bucket-key fields, that error; otherwise one route per row, each formed
/// from the row's serialized partition and bucket-key hash.
pub open spec fn is_batch_routing(
    router: PaimonWriteRouter,
    batch: RowBatch,
    r: Result<Vec<PaimonWriteRoute>, PaimonError>,
) -> bool {
    let partitions = batch_partition_rows(batch, router.spec_partition_indices(), router.spec_fields());
    let hashes = batch_hash_codes_of(batch, router.spec_bucket_key_indices(), router.spec_fields());
    match partitions {
        Err(e) => r matches Err(PaimonError::Storage(x)) && x == e,
        Ok(p) => match hashes {
            Err(e) => r matches Err(PaimonError::Storage(x)) && x == e,
            Ok(h) => r matches Ok(routes) && routes@.len() == row_batch_row_count(batch)
                && p.len() == routes@.len() && h.len() == routes@.len()
                && forall|i: int| 0 <= i < routes@.len() ==> is_route_of(#[trigger] routes@[i], p[i], h[i], router.spec_bucket_count()),
        },
    }
}

/// Rows whose serialized partitions and bucket-key hashes agree get the
/// same route: same partition bytes, same bucket, same key.
pub proof fn lemma_equal_rows_same_route(a: PaimonWriteRoute, b: PaimonWriteRoute, partition: Seq<u8>, hash: i32, bucket_count: i32)
    requires
        is_route_of(a, partition, hash, bucket_count),
        is_route_of(b, partition, hash, bucket_count),
    ensures
        a.partition@ == b.partition@,
        a.bucket == b.bucket,
        a.key@ == b.key@,
{
}

/// Where one written row goes: its serialized partition, its bucket, and the
/// route key that combines both.
#[derive(Clone, Debug, PartialEq, Eq)]
pub struct PaimonWriteRoute {
    pub partition: Vec<u8>,
    pub bucket: i32,
    pub key: Vec<u8>,
}

/// Computes write routes for a fixed-bucket primary-key table.
pub struct PaimonWriteRouter {
    fields: Vec<paimon::spec::DataField>,
    partition_indices: Vec<usize>,
    bucket_key_indices: Vec<usize>,
    bucket_count: i32,
}

impl PaimonWriteRouter {
    #[verifier::type_invariant]
    closed spec fn inv(self) -> bool {
        &&& self.bucket_count >= 1
        &&& forall|i: int| 0 <= i < self.partition_indices@.len() ==> #[trigger] self.partition_indices@[i] < self.fields@.len()
        &&& forall|i: int| 0 <= i < self.bucket_key_indices@.len() ==> #[trigger] self.bucket_key_indices@[i] < self.fields@.len()
    }

    /// The schema fields the router reads rows with.
    pub closed spec fn spec_fields(self) -> Seq<paimon::spec::DataField> {
        self.fields@
    }

    /// The positions of the partition fields.
    pub closed spec fn spec_partition_indices(self) -> Seq<usize> {
        self.partition_indices@
    }

    /// The positions of the bucket-key fields.
    pub closed spec fn spec_bucket_key_indices(self) -> Seq<usize> {
        self.bucket_key_indices@
    }

    /// The table's fixed number of buckets.
    pub closed spec fn spec_bucket_count(self) -> i32 {
        self.bucket_count
    }

    /// Every field position the router reads is a column of the batch.
    pub open spec fn reads_columns_of(self, batch: RowBatch) -> bool {
        &&& forall|i: int|
            0 <= i < self.spec_partition_indices().len() ==> #[trigger] self.spec_partition_indices()[i]
                < row_batch_column_count(batch)
        &&& forall|i: int|
            0 <= i < self.spec_bucket_key_indices().len() ==> #[trigger] self.spec_bucket_key_indices()[i]
                < row_batch_column_count(batch)
    }

    /// Builds a router for a table from its schema: its fields and their
    /// names, partition keys, bucket keys, primary keys and bucket option, as
    /// Paimon reports them, are checked as `from_parts` does.
    pub fn try_create(schema: &paimon::spec::TableSchema) -> (r: Result<Self, PaimonError>)
        ensures
            is_router_outcome(
                r,
                schema_fields_of(*schema),
                schema_field_names(*schema),
                schema_partition_keys_of(*schema),
                schema_bucket_keys_of(*schema),
                schema_primary_keys_of(*schema),
                core_options_bucket(schema_options_of(*schema)),
            ),
            r matches Ok(router) ==> router.spec_bucket_count() >= 1,
            r matches Ok(router) ==> reads_key_columns(schema_field_names(*schema), schema_bucket_keys_of(*schema), router.spec_bucket_key_indices())
                && reads_key_columns(schema_field_names(*schema), schema_partition_keys_of(*schema), router.spec_partition_indices()),
            r matches Err(e) ==> !(e is Storage),
    {
        let options = schema_options(schema);
        let bucket_count = core_bucket(&options);
        let partition_keys = schema_partition_keys(schema);
        let bucket_keys = schema_bucket_keys(schema);
        let primary_keys = schema_primary_keys(schema);
        let fields = schema_fields(schema);
        let mut field_names: Vec<String> = Vec::new();
        let n = fields.len();
        for i in 0..n
            invariant
                n == fields@.len(),
                fields@ == schema_fields_of(*schema),
                str_views(field_names@) == schema_field_names(*schema).take(i as int),
        {
            let name = data_field_name(&fields[i]);
            assert(name@ == schema_field_names(*schema)[i as int]);
            let ghost before = field_names@;
            assert(schema_field_names(*schema).len() == n);
            assert(str_views(before).len() == i);
            assert(before.len() == i);
            field_names.push(name);
            assert(field_names@ == before.push(name));
            assert forall|k: int| 0 <= k < i + 1 implies #[trigger] str_views(field_names@)[k]
                == schema_field_names(*schema).take(i + 1)[k] by {
                if k < i {
                    assert(str_views(before)[k] == schema_field_names(*schema).take(i as int)[k]);
                    assert(str_views(field_names@)[k] == field_names@[k]@);
                    assert(field_names@[k] == before[k]);
                } else {
                    assert(str_views(field_names@)[k] == field_names@[k]@);
                }
            }
            assert(str_views(field_names@) =~= schema_field_names(*schema).take(i + 1));
        }
        assert(schema_field_names(*schema).take(n as int) =~= schema_field_names(*schema));
        Self::from_parts(fields, &field_names, &partition_keys, &bucket_keys, &primary_keys, bucket_count)
    }

    /// Builds a router from a schema's fields (with their names), its
    /// partition keys, bucket keys and primary keys, and its bucket option;
    /// see `is_router_outcome` for the checks and their order.
    pub fn from_parts(
        fields: Vec<paimon::spec::DataField>,
        field_names: &Vec<String>,
        partition_keys: &Vec<String>,
        bucket_keys: &Vec<String>,
        primary_keys: &Vec<String>,
        bucket_count: i32,
    ) -> (r: Result<Self, PaimonError>)
        requires
            field_names@.len() == fields@.len(),
        ensures
            is_router_outcome(
                r,
                fields@,
                str_views(field_names@),
                str_views(partition_keys@),
                str_views(bucket_keys@),
                str_views(primary_keys@),
                bucket_count,
            ),
            r matches Ok(router) ==> reads_key_columns(str_views(field_names@), str_views(bucket_keys@), router.spec_bucket_key_indices())
                && reads_key_columns(str_views(field_names@), str_views(partition_keys@), router.spec_partition_indices()),
    {
        if primary_keys.len() == 0 {
            return Err(PaimonError::NotPrimaryKeyTable);
        }
        if bucket_count < 1 {
            return Err(PaimonError::InvalidBucketCount { bucket_count });
        }
        if bucket_keys.len() == 0 {
            return Err(PaimonError::EmptyBucketKeys);
        }
        let partition_indices = match resolve_field_indices(field_names, partition_keys, FieldKind::Partition) {
            Ok(indices) => indices,
            Err(e) => return Err(e),
        };
        let bucket_key_indices = match resolve_field_indices(field_names, bucket_keys, FieldKind::BucketKey) {
            Ok(indices) => indices,
            Err(e) => return Err(e),
        };
        Ok(PaimonWriteRouter { fields, partition_indices, bucket_key_indices, bucket_count })
    }

    /// Routes every row of a batch: Paimon serializes each row's partition
    /// fields and hashes its bucket-key fields, and each row's route is
    /// formed from the two (see `is_batch_routing` and `routes_from_rows`).
    /// There is one route per row of the batch, every route has a bucket in
    /// `0..bucket_count` and a key that encodes its partition and bucket; a
    /// Paimon error comes back as `Storage`, the partition call's first.
    pub fn route_batch(&self, batch: &RowBatch) -> (r: Result<Vec<PaimonWriteRoute>, PaimonError>)
        requires
            self.reads_columns_of(*batch),
        ensures
            is_batch_routing(*self, *batch, r),
            r matches Ok(routes) ==> routes@.len() == row_batch_row_count(*batch),
            r matches Ok(routes) ==> forall|i: int|
                0 <= i < routes@.len() ==> is_well_formed_route(#[trigger] routes@[i], self.spec_bucket_count()),
            r matches Err(e) ==> e is Storage,
    {
        proof {
            use_type_invariant(self);
            assert forall|i: int| 0 <= i < self.partition_indices@.len() implies #[trigger] self.partition_indices@[i]
                < self.fields@.len() && self.partition_indices@[i] < row_batch_column_count(*batch) by {
                assert(self.spec_partition_indices()[i] == self.partition_indices@[i]);
            }
            assert forall|i: int| 0 <= i < self.bucket_key_indices@.len() implies #[trigger] self.bucket_key_indices@[i]
                < self.fields@.len() && self.bucket_key_indices@[i] < row_batch_column_count(*batch) by {
                assert(self.spec_bucket_key_indices()[i] == self.bucket_key_indices@[i]);
            }
        }
        let partitions = match batch_partition_bytes(batch, &self.partition_indices, &self.fields) {
            Ok(p) => p,
            Err(e) => return Err(PaimonError::Storage(e)),
        };
        let hashes = match batch_bucket_hashes(batch, &self.bucket_key_indices, &self.fields) {
            Ok(h) => h,
            Err(e) => return Err(PaimonError::Storage(e)),
        };
        let routes = routes_from_rows(&partitions, &hashes, self.bucket_count);
        proof {
            assert forall|i: int| 0 <= i < routes@.len() implies is_well_formed_route(#[trigger] routes@[i], self.bucket_count) by {
                assert(is_route_of(routes@[i], partitions@[i]@, hashes@[i], self.bucket_count));
            }
        }
        Ok(routes)
    }
}

impl PaimonWriteRouter {
    /// Routes a batch when it has every column the router reads (see
    /// `route_batch`); a batch that lacks one gets nothing.
    pub fn try_route_batch(&self, batch: &RowBatch) -> (r: Option<Result<Vec<PaimonWriteRoute>, PaimonError>>)
        ensures
            r is None <==> !self.reads_columns_of(*batch),
            r matches Some(res) ==> is_batch_routing(*self, *batch, res),
            r matches Some(Ok(routes)) ==> routes@.len() == row_batch_row_count(*batch),
            r matches Some(Ok(routes)) ==> forall|i: int|
                0 <= i < routes@.len() ==> is_well_formed_route(#[trigger] routes@[i], self.spec_bucket_count()),
            r matches Some(Err(e)) ==> e is Storage,
    {
        let columns = batch_column_count(batch);
        let n = self.partition_indices.len();
        for i in 0..n
            invariant
                n == self.partition_indices@.len(),
                columns == row_batch_column_count(*batch),
                forall|k: int| 0 <= k < i ==> #[trigger] self.partition_indices@[k] < columns,
        {
            if self.partition_indices[i] >= columns {
                assert(self.spec_partition_indices()[i as int] >= row_batch_column_count(*batch));
                return None;
            }
        }
        let m = self.bucket_key_indices.len();
        for i in 0..m
            invariant
                m == self.bucket_key_indices@.len(),
                columns == row_batch_column_count(*batch),
                forall|k: int| 0 <= k < i ==> #[trigger] self.bucket_key_indices@[k] < columns,
        {
            if self.bucket_key_indices[i] >= columns {
                assert(self.spec_bucket_key_indices()[i as int] >= row_batch_column_count(*batch));
                return None;
            }
        }
        Some(self.route_batch(batch))
    }
}

/// The bucket of a row whose bucket-key hash is `hash`.
pub fn bucket_for_hash(hash: i32, bucket_count: i32) -> (bucket: i32)
    requires
        bucket_count >= 1,
    ensures
        bucket as int == bucket_of(hash, bucket_count),
        0 <= bucket < bucket_count,
{
    let m = hash % bucket_count;
    if m < 0 { -m } else { m }
}

/// Pairs each row's serialized partition with its bucket-key hash, as far
/// as both lists reach, and forms the row's route.
pub fn routes_from_rows(partitions: &Vec<Vec<u8>>, hashes: &Vec<i32>, bucket_count: i32) -> (routes: Vec<PaimonWriteRoute>)
    requires
        bucket_count >= 1,
    ensures
        routes@.len() == if partitions@.len() <= hashes@.len() { partitions@.len() } else { hashes@.len() },
        forall|i: int| 0 <= i < routes@.len() ==> is_route_of(#[trigger] routes@[i], partitions@[i]@, hashes@[i], bucket_count),
{
    let n = if partitions.len() <= hashes.len() { partitions.len() } else { hashes.len() };
    let mut routes: Vec<PaimonWriteRoute> = Vec::new();
    for i in 0..n
        invariant
            n <= partitions@.len(),
            n <= hashes@.len(),
            bucket_count >= 1,
            routes@.len() == i,
            forall|k: int| 0 <= k < i ==> is_route_of(#[trigger] routes@[k], partitions@[k]@, hashes@[k], bucket_count),
    {
        let partition = partitions[i].clone();
        assert(partition@ =~= partitions@[i as int]@);
        let bucket = bucket_for_hash(hashes[i], bucket_count);
        let key = encode_route_key(partition.as_slice(), bucket);
        routes.push(PaimonWriteRoute { partition, bucket, key });
    }
    routes
}

/// The first position of `name` among `field_names`, if any.
fn position_of(field_names: &Vec<String>, name: &String) -> (r: Option<usize>)
    ensures
        r matches Some(j) ==> is_first_position(str_views(field_names@), name@, j as int),
        r is None ==> !str_views(field_names@).contains(name@),
{
    let n = field_names.len();
    for j in 0..n
        invariant
            n == field_names@.len(),
            forall|k: int| 0 <= k < j ==> field_names@[k]@ != name@,
    {
        if field_names[j] == *name {
            return Some(j);
        }
    }
    proof {
        if str_views(field_names@).contains(name@) {
            let k = choose|k: int| 0 <= k < str_views(field_names@).len() && str_views(field_names@)[k] == name@;
            assert(field_names@[k]@ == name@);
        }
    }
    None
}

/// The position of every name among the field names, or the first name
/// that names no field.
pub fn resolve_field_indices(field_names: &Vec<String>, names: &Vec<String>, kind: FieldKind) -> (r: Result<Vec<usize>, PaimonError>)
    ensures
        r is Ok <==> all_resolvable(str_views(field_names@), str_views(names@)),
        r matches Ok(indices) ==> resolves_to(str_views(field_names@), str_views(names@), indices@),
        r matches Err(e) ==> (e matches PaimonError::MissingField { kind: k, name } && k == kind && exists|i: int|
            first_unresolvable(str_views(field_names@), str_views(names@), i) && name@ == names@[i]@),
{
    let ghost fnames = str_views(field_names@);
    let ghost wanted = str_views(names@);
    let mut indices: Vec<usize> = Vec::new();
    let n = names.len();
    for i in 0..n
        invariant
            n == names@.len(),
            fnames == str_views(field_names@),
            wanted == str_views(names@),
            indices@.len() == i,
            forall|k: int| 0 <= k < i ==> is_first_position(fnames, wanted[k], #[trigger] indices@[k] as int),
    {
        match position_of(field_names, &names[i]) {
            Some(j) => indices.push(j),
            None => {
                proof {
                    assert forall|k: int| 0 <= k < i implies fnames.contains(#[trigger] wanted[k]) by {
                        assert(fnames[indices@[k] as int] == wanted[k]);
                    }
                    assert(first_unresolvable(fnames, wanted, i as int));
                }
                return Err(PaimonError::MissingField { kind, name: names[i].clone() });
            },
        }
    }
    proof {
        assert forall|k: int| 0 <= k < wanted.len() implies fnames.contains(#[trigger] wanted[k]) by {
            assert(fnames[indices@[k] as int] == wanted[k]);
        }
    }
    Ok(indices)
}

} // verus!

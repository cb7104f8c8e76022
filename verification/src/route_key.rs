use vstd::prelude::*;

verus! {

/// The four bytes of `x`, most significant first.
pub open spec fn be_bytes_u32(x: u32) -> Seq<u8> {
    seq![(x >> 24u32) as u8, (x >> 16u32) as u8, (x >> 8u32) as u8, x as u8]
}

/// The four bytes of the two's-complement form of `x`, most significant first.
pub open spec fn be_bytes_i32(x: i32) -> Seq<u8> {
    be_bytes_u32(x as u32)
}

/// The route key of a row: the partition length as a big-endian `u32`
/// (truncated to 32 bits), the partition bytes, then the bucket id as a
/// big-endian `i32`.
pub open spec fn route_key_spec(partition: Seq<u8>, bucket: i32) -> Seq<u8> {
    be_bytes_u32(partition.len() as u32) + partition + be_bytes_i32(bucket)
}

proof fn lemma_be_bytes_u32_injective(a: u32, b: u32)
    requires
        be_bytes_u32(a) == be_bytes_u32(b),
    ensures
        a == b,
{
    assert(be_bytes_u32(a)[0] == be_bytes_u32(b)[0]);
    assert(be_bytes_u32(a)[1] == be_bytes_u32(b)[1]);
    assert(be_bytes_u32(a)[2] == be_bytes_u32(b)[2]);
    assert(be_bytes_u32(a)[3] == be_bytes_u32(b)[3]);
    assert(((a >> 24u32) as u8 == (b >> 24u32) as u8 && (a >> 16u32) as u8 == (b >> 16u32) as u8
        && (a >> 8u32) as u8 == (b >> 8u32) as u8 && a as u8 == b as u8) ==> a == b)
        by (bit_vector);
}

proof fn lemma_i32_as_u32_injective(a: i32, b: i32)
    requires
        a as u32 == b as u32,
    ensures
        a == b,
{
    assert(a as u32 == b as u32 ==> a == b) by (bit_vector);
}

/// Route keys keep the partition/bucket boundary unambiguous: two keys are
/// equal only when both the partition bytes and the bucket are equal, so
/// an exchange can hash the opaque key without decoding the partition.
/// (Partitions longer than `u32::MAX` bytes have a truncated length prefix
/// and are left out.)
pub proof fn lemma_route_key_injective(p1: Seq<u8>, b1: i32, p2: Seq<u8>, b2: i32)
    requires
        p1.len() <= u32::MAX,
        p2.len() <= u32::MAX,
        route_key_spec(p1, b1) == route_key_spec(p2, b2),
    ensures
        p1 == p2,
        b1 == b2,
{
    let k1 = route_key_spec(p1, b1);
    let k2 = route_key_spec(p2, b2);
    assert(be_bytes_u32(p1.len() as u32) == k1.subrange(0, 4));
    assert(be_bytes_u32(p2.len() as u32) == k2.subrange(0, 4));
    lemma_be_bytes_u32_injective(p1.len() as u32, p2.len() as u32);
    assert(p1.len() == p2.len());
    assert(p1 == k1.subrange(4, 4 + p1.len() as int));
    assert(p2 == k2.subrange(4, 4 + p2.len() as int));
    assert(be_bytes_i32(b1) == k1.subrange(4 + p1.len() as int, k1.len() as int));
    assert(be_bytes_i32(b2) == k2.subrange(4 + p2.len() as int, k2.len() as int));
    lemma_be_bytes_u32_injective(b1 as u32, b2 as u32);
    lemma_i32_as_u32_injective(b1, b2);
}

fn push_be_u32(out: &mut Vec<u8>, x: u32)
    ensures
        final(out)@ == old(out)@ + be_bytes_u32(x),
{
    out.push((x >> 24u32) as u8);
    out.push((x >> 16u32) as u8);
    out.push((x >> 8u32) as u8);
    out.push(x as u8);
    assert(final(out)@ =~= old(out)@ + be_bytes_u32(x));
}

/// Length-prefixed partition bytes followed by the big-endian bucket id.
pub fn encode_route_key(partition: &[u8], bucket: i32) -> (key: Vec<u8>)
    ensures
        key@ == route_key_spec(partition@, bucket),
{
    let mut key: Vec<u8> = Vec::new();
    push_be_u32(&mut key, partition.len() as u32);
    let ghost prefix = key@;
    let n = partition.len();
    for i in 0..n
        invariant
            n == partition@.len(),
            key@ == prefix + partition@.subrange(0, i as int),
    {
        key.push(partition[i]);
        assert(partition@.subrange(0, i + 1) =~= partition@.subrange(0, i as int).push(partition@[i as int]));
    }
    assert(partition@.subrange(0, n as int) =~= partition@);
    push_be_u32(&mut key, bucket as u32);
    assert(key@ =~= route_key_spec(partition@, bucket));
    key
}

} // verus!

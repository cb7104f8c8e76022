use paimon_route::encode_route_key;

#[test]
fn route_key_of_empty_partition() {
    assert_eq!(encode_route_key(&[], 0), vec![0, 0, 0, 0, 0, 0, 0, 0]);
}

#[test]
fn route_key_prefixes_length_and_appends_bucket() {
    assert_eq!(
        encode_route_key(&[0xaa, 0xbb, 0xcc], 258),
        vec![0, 0, 0, 3, 0xaa, 0xbb, 0xcc, 0, 0, 1, 2]
    );
}

#[test]
fn route_key_of_negative_bucket_is_twos_complement() {
    assert_eq!(encode_route_key(&[7], -1), vec![0, 0, 0, 1, 7, 0xff, 0xff, 0xff, 0xff]);
}

#[test]
fn route_key_boundary_is_unambiguous() {
    // Moving a byte between partition and bucket changes the key.
    let a = encode_route_key(&[1, 2], 3);
    let b = encode_route_key(&[1, 2, 0], 3);
    assert_ne!(a, b);
    assert_ne!(encode_route_key(&[1], 2), encode_route_key(&[1], 3));
}

#[test]
fn route_key_long_partition_length_prefix() {
    let partition = vec![9u8; 300];
    let key = encode_route_key(&partition, 5);
    assert_eq!(&key[0..4], &[0, 0, 1, 44]);
    assert_eq!(key.len(), 308);
    assert_eq!(&key[304..], &[0, 0, 0, 5]);
}

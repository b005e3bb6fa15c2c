use filecanopy::analysis::hasher::{fingerprint, hex_encode, hex_u128, prefix_fingerprint, HashAlgo};

#[test]
fn identical_content_blake3_matches() {
    let ha = fingerprint(b"hello, filecanopy", HashAlgo::Blake3);
    let hb = fingerprint(b"hello, filecanopy", HashAlgo::Blake3);
    assert_eq!(ha, hb);
    assert_eq!(ha.len(), 64); // 256-bit hex
}

#[test]
fn different_content_blake3_differs() {
    let ha = fingerprint(b"aaaaaaaaaa", HashAlgo::Blake3);
    let hb = fingerprint(b"bbbbbbbbbb", HashAlgo::Blake3);
    assert_ne!(ha, hb);
}

#[test]
fn xxh3_distinguishes_content_and_matches_identical() {
    let ha = fingerprint(b"payload-1", HashAlgo::Xxh3);
    let hb = fingerprint(b"payload-1", HashAlgo::Xxh3);
    let hc = fingerprint(b"payload-2", HashAlgo::Xxh3);
    assert_eq!(ha, hb);
    assert_ne!(ha, hc);
    assert_eq!(ha.len(), 32); // 128-bit hex
}

#[test]
fn empty_file_hashes_to_nonempty_string() {
    let h = fingerprint(b"", HashAlgo::Blake3);
    assert!(!h.is_empty(), "blake3 of empty input must be a real digest");
}

#[test]
fn prefix_matches_when_first_bytes_match_but_full_differs() {
    let mut common = vec![0u8; 4096];
    for (i, b) in common.iter_mut().enumerate() {
        *b = (i % 251) as u8;
    }
    let mut a_data = common.clone();
    a_data.extend_from_slice(&[1u8; 1024]);
    let mut b_data = common.clone();
    b_data.extend_from_slice(&[2u8; 1024]);

    let pa = prefix_fingerprint(&a_data, HashAlgo::Blake3, 4096);
    let pb = prefix_fingerprint(&b_data, HashAlgo::Blake3, 4096);
    assert_eq!(pa, pb, "prefix hashes should match for identical first 4KiB");

    let fa = fingerprint(&a_data, HashAlgo::Blake3);
    let fb = fingerprint(&b_data, HashAlgo::Blake3);
    assert_ne!(fa, fb, "full hashes must differ when tails differ");
}

#[test]
fn prefix_short_file_is_consistent() {
    let pa = prefix_fingerprint(b"short", HashAlgo::Blake3, 4096);
    let pb = prefix_fingerprint(b"short", HashAlgo::Blake3, 4096);
    assert_eq!(pa, pb);
    assert_eq!(pa, fingerprint(b"short", HashAlgo::Blake3));
}

#[test]
fn blake3_fingerprint_of_empty_input_is_known_digest() {
    assert_eq!(
        fingerprint(b"", HashAlgo::Blake3),
        "af1349b9f5f9a1a6a0404dea36dcc9499bcb25c9adc112b7cc9a93cae41f3262"
    );
}

#[test]
fn xxh3_fingerprint_of_empty_input_is_known_digest() {
    assert_eq!(
        fingerprint(b"", HashAlgo::Xxh3),
        format!("{:032x}", xxhash_rust::xxh3::xxh3_128(b""))
    );
    assert_ne!(fingerprint(b"", HashAlgo::Xxh3), "0".repeat(32));
}

#[test]
fn hex_encoding_is_lowercase_high_nibble_first() {
    assert_eq!(hex_encode(&[0x00, 0x0f, 0xa5, 0xff]), "000fa5ff");
    assert_eq!(hex_u128(0x1234abcd), "0000000000000000000000001234abcd");
    assert_eq!(hex_u128(u128::MAX), "ffffffffffffffffffffffffffffffff");
}

#[test]
fn default_algorithm_is_blake3() {
    assert_eq!(HashAlgo::default(), HashAlgo::Blake3);
}

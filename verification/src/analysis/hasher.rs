//! Content fingerprints: lowercase hexadecimal digests of file content.
//!
//! The digests come from `blake3` (256-bit) and `xxhash-rust`'s xxh3
//! (128-bit); this module renders them as text. Comparisons are only
//! meaningful between fingerprints made with the same algorithm.
use vstd::prelude::*;

verus! {

broadcast use vstd::array::group_array_axioms;

/// A content fingerprint, lowercase hex-encoded.
pub type Fingerprint = String;

/// The digest used for fingerprints.
#[derive(Debug, Clone, Copy, PartialEq, Eq, Structural)]
pub enum HashAlgo {
    Blake3,
    Xxh3,
}

impl Default for HashAlgo {
    fn default() -> (r: Self)
        ensures
            r == HashAlgo::Blake3,
    {
        HashAlgo::Blake3
    }
}

/// The 32-byte BLAKE3 hash of `data`.
pub uninterp spec fn blake3_digest(data: Seq<u8>) -> Seq<u8>;

/// The 128-bit XXH3 hash of `data`.
pub uninterp spec fn xxh3_digest(data: Seq<u8>) -> u128;

/// Calls `blake3::hash` and takes the raw bytes of the result
/// (`Hash::as_bytes`). The contract only names the result: it is the BLAKE3
/// hash of exactly the given bytes, 32 bytes long; its value is not stated.
#[verifier::external_body]
fn blake3_hash(data: &[u8]) -> (r: [u8; 32])
    ensures
        r@ == blake3_digest(data@),
{
    *blake3::hash(data).as_bytes()
}

/// Calls `xxhash_rust::xxh3::xxh3_128`. The contract only names the result:
/// the XXH3 128-bit hash of exactly the given bytes; its value is not stated.
#[verifier::external_body]
fn xxh3_hash(data: &[u8]) -> (r: u128)
    ensures
        r == xxh3_digest(data@),
{
    xxhash_rust::xxh3::xxh3_128(data)
}

/// The lowercase hexadecimal digit for a value below 16.
pub open spec fn hex_digit(n: int) -> char {
    if n < 10 {
        (48 + n) as char
    } else {
        (87 + n) as char
    }
}

/// Two lowercase hex digits per byte, high nibble first.
pub open spec fn hex_of_bytes(b: Seq<u8>) -> Seq<char>
    decreases b.len(),
{
    if b.len() == 0 {
        Seq::empty()
    } else {
        hex_of_bytes(b.drop_last()).push(hex_digit(b.last() as int / 16)).push(
            hex_digit(b.last() as int % 16),
        )
    }
}

/// The 32 lowercase hex digits of a 128-bit value, most significant first,
/// zero-padded.
pub open spec fn hex_of_u128(v: u128) -> Seq<char> {
    Seq::new(32, |i: int| hex_digit(((v >> ((4 * (31 - i)) as u128)) & 15u128) as int))
}

/// The fingerprint of `data` under `algo`.
pub open spec fn fingerprint_of(data: Seq<u8>, algo: HashAlgo) -> Seq<char> {
    match algo {
        HashAlgo::Blake3 => hex_of_bytes(blake3_digest(data)),
        HashAlgo::Xxh3 => hex_of_u128(xxh3_digest(data)),
    }
}

/// The first `prefix_bytes` bytes of `data` (all of it when shorter).
pub open spec fn prefix_of(data: Seq<u8>, prefix_bytes: u64) -> Seq<u8> {
    if prefix_bytes < data.len() {
        data.subrange(0, prefix_bytes as int)
    } else {
        data
    }
}

fn hex_char(n: u8) -> (r: char)
    requires
        n < 16,
    ensures
        r == hex_digit(n as int),
{
    if n < 10 {
        (48u8 + n) as char
    } else {
        (87u8 + n) as char
    }
}

proof fn lemma_hex_len(b: Seq<u8>)
    ensures
        hex_of_bytes(b).len() == 2 * b.len(),
    decreases b.len(),
{
    if b.len() > 0 {
        lemma_hex_len(b.drop_last());
    }
}

proof fn lemma_hex_digit_injective(a: int, b: int)
    requires
        0 <= a < 16,
        0 <= b < 16,
        hex_digit(a) == hex_digit(b),
    ensures
        a == b,
{
    let ca = hex_digit(a);
    let cb = hex_digit(b);
    if a < 10 {
        assert(ca as int == 48 + a);
    } else {
        assert(ca as int == 87 + a);
    }
    if b < 10 {
        assert(cb as int == 48 + b);
    } else {
        assert(cb as int == 87 + b);
    }
}

/// Different byte strings have different hex texts.
pub proof fn lemma_hex_of_bytes_injective(a: Seq<u8>, b: Seq<u8>)
    requires
        hex_of_bytes(a) == hex_of_bytes(b),
    ensures
        a == b,
    decreases a.len(),
{
    lemma_hex_len(a);
    lemma_hex_len(b);
    if a.len() > 0 {
        let ha = hex_of_bytes(a);
        let x = a.last() as int;
        let y = b.last() as int;
        assert(ha[ha.len() - 1] == hex_digit(x % 16));
        assert(ha[ha.len() - 2] == hex_digit(x / 16));
        assert(hex_of_bytes(b)[ha.len() - 1] == hex_digit(y % 16));
        assert(hex_of_bytes(b)[ha.len() - 2] == hex_digit(y / 16));
        lemma_hex_digit_injective(x % 16, y % 16);
        lemma_hex_digit_injective(x / 16, y / 16);
        assert(x == y);
        assert(hex_of_bytes(a.drop_last()) =~= ha.drop_last().drop_last());
        assert(hex_of_bytes(b.drop_last()) =~= hex_of_bytes(b).drop_last().drop_last());
        lemma_hex_of_bytes_injective(a.drop_last(), b.drop_last());
        assert(a.len() == b.len());
        assert forall|i: int| 0 <= i < a.len() implies a[i] == b[i] by {
            if i < a.len() - 1 {
                assert(a[i] == a.drop_last()[i]);
                assert(b[i] == b.drop_last()[i]);
            }
        }
        assert(a =~= b);
    } else {
        assert(a =~= b);
    }
}

proof fn lemma_nibble_eq(v: u128, w: u128, i: int)
    requires
        0 <= i < 32,
        hex_of_u128(v) == hex_of_u128(w),
    ensures
        ((v >> ((4 * (31 - i)) as u128)) & 15u128) == ((w >> ((4 * (31 - i)) as u128)) & 15u128),
{
    let sh = (4 * (31 - i)) as u128;
    let nv = (v >> sh) & 15u128;
    let nw = (w >> sh) & 15u128;
    assert(nv < 16) by (bit_vector)
        requires
            nv == (v >> sh) & 15u128,
    ;
    assert(nw < 16) by (bit_vector)
        requires
            nw == (w >> sh) & 15u128,
    ;
    assert(hex_of_u128(v)[i] == hex_digit(nv as int));
    assert(hex_of_u128(w)[i] == hex_digit(nw as int));
    lemma_hex_digit_injective(nv as int, nw as int);
}

/// Different 128-bit values have different hex texts.
pub proof fn lemma_hex_of_u128_injective(v: u128, w: u128)
    requires
        hex_of_u128(v) == hex_of_u128(w),
    ensures
        v == w,
{
    assert(((v >> 124u128) & 15u128) == ((w >> 124u128) & 15u128)) by { lemma_nibble_eq(v, w, 0); }
    assert(((v >> 120u128) & 15u128) == ((w >> 120u128) & 15u128)) by { lemma_nibble_eq(v, w, 1); }
    assert(((v >> 116u128) & 15u128) == ((w >> 116u128) & 15u128)) by { lemma_nibble_eq(v, w, 2); }
    assert(((v >> 112u128) & 15u128) == ((w >> 112u128) & 15u128)) by { lemma_nibble_eq(v, w, 3); }
    assert(((v >> 108u128) & 15u128) == ((w >> 108u128) & 15u128)) by { lemma_nibble_eq(v, w, 4); }
    assert(((v >> 104u128) & 15u128) == ((w >> 104u128) & 15u128)) by { lemma_nibble_eq(v, w, 5); }
    assert(((v >> 100u128) & 15u128) == ((w >> 100u128) & 15u128)) by { lemma_nibble_eq(v, w, 6); }
    assert(((v >> 96u128) & 15u128) == ((w >> 96u128) & 15u128)) by { lemma_nibble_eq(v, w, 7); }
    assert(((v >> 92u128) & 15u128) == ((w >> 92u128) & 15u128)) by { lemma_nibble_eq(v, w, 8); }
    assert(((v >> 88u128) & 15u128) == ((w >> 88u128) & 15u128)) by { lemma_nibble_eq(v, w, 9); }
    assert(((v >> 84u128) & 15u128) == ((w >> 84u128) & 15u128)) by { lemma_nibble_eq(v, w, 10); }
    assert(((v >> 80u128) & 15u128) == ((w >> 80u128) & 15u128)) by { lemma_nibble_eq(v, w, 11); }
    assert(((v >> 76u128) & 15u128) == ((w >> 76u128) & 15u128)) by { lemma_nibble_eq(v, w, 12); }
    assert(((v >> 72u128) & 15u128) == ((w >> 72u128) & 15u128)) by { lemma_nibble_eq(v, w, 13); }
    assert(((v >> 68u128) & 15u128) == ((w >> 68u128) & 15u128)) by { lemma_nibble_eq(v, w, 14); }
    assert(((v >> 64u128) & 15u128) == ((w >> 64u128) & 15u128)) by { lemma_nibble_eq(v, w, 15); }
    assert(((v >> 60u128) & 15u128) == ((w >> 60u128) & 15u128)) by { lemma_nibble_eq(v, w, 16); }
    assert(((v >> 56u128) & 15u128) == ((w >> 56u128) & 15u128)) by { lemma_nibble_eq(v, w, 17); }
    assert(((v >> 52u128) & 15u128) == ((w >> 52u128) & 15u128)) by { lemma_nibble_eq(v, w, 18); }
    assert(((v >> 48u128) & 15u128) == ((w >> 48u128) & 15u128)) by { lemma_nibble_eq(v, w, 19); }
    assert(((v >> 44u128) & 15u128) == ((w >> 44u128) & 15u128)) by { lemma_nibble_eq(v, w, 20); }
    assert(((v >> 40u128) & 15u128) == ((w >> 40u128) & 15u128)) by { lemma_nibble_eq(v, w, 21); }
    assert(((v >> 36u128) & 15u128) == ((w >> 36u128) & 15u128)) by { lemma_nibble_eq(v, w, 22); }
    assert(((v >> 32u128) & 15u128) == ((w >> 32u128) & 15u128)) by { lemma_nibble_eq(v, w, 23); }
    assert(((v >> 28u128) & 15u128) == ((w >> 28u128) & 15u128)) by { lemma_nibble_eq(v, w, 24); }
    assert(((v >> 24u128) & 15u128) == ((w >> 24u128) & 15u128)) by { lemma_nibble_eq(v, w, 25); }
    assert(((v >> 20u128) & 15u128) == ((w >> 20u128) & 15u128)) by { lemma_nibble_eq(v, w, 26); }
    assert(((v >> 16u128) & 15u128) == ((w >> 16u128) & 15u128)) by { lemma_nibble_eq(v, w, 27); }
    assert(((v >> 12u128) & 15u128) == ((w >> 12u128) & 15u128)) by { lemma_nibble_eq(v, w, 28); }
    assert(((v >> 8u128) & 15u128) == ((w >> 8u128) & 15u128)) by { lemma_nibble_eq(v, w, 29); }
    assert(((v >> 4u128) & 15u128) == ((w >> 4u128) & 15u128)) by { lemma_nibble_eq(v, w, 30); }
    assert(((v >> 0u128) & 15u128) == ((w >> 0u128) & 15u128)) by { lemma_nibble_eq(v, w, 31); }
    assert((v >> 0u128) & 15u128 == (w >> 0u128) & 15u128 && (v >> 4u128) & 15u128 == (w >> 4u128) & 15u128 && (v >> 8u128) & 15u128 == (w >> 8u128) & 15u128 && (v >> 12u128) & 15u128 == (w >> 12u128) & 15u128 && (v >> 16u128) & 15u128 == (w >> 16u128) & 15u128 && (v >> 20u128) & 15u128 == (w >> 20u128) & 15u128 && (v >> 24u128) & 15u128 == (w >> 24u128) & 15u128 && (v >> 28u128) & 15u128 == (w >> 28u128) & 15u128 && (v >> 32u128) & 15u128 == (w >> 32u128) & 15u128 && (v >> 36u128) & 15u128 == (w >> 36u128) & 15u128 && (v >> 40u128) & 15u128 == (w >> 40u128) & 15u128 && (v >> 44u128) & 15u128 == (w >> 44u128) & 15u128 && (v >> 48u128) & 15u128 == (w >> 48u128) & 15u128 && (v >> 52u128) & 15u128 == (w >> 52u128) & 15u128 && (v >> 56u128) & 15u128 == (w >> 56u128) & 15u128 && (v >> 60u128) & 15u128 == (w >> 60u128) & 15u128 && (v >> 64u128) & 15u128 == (w >> 64u128) & 15u128 && (v >> 68u128) & 15u128 == (w >> 68u128) & 15u128 && (v >> 72u128) & 15u128 == (w >> 72u128) & 15u128 && (v >> 76u128) & 15u128 == (w >> 76u128) & 15u128 && (v >> 80u128) & 15u128 == (w >> 80u128) & 15u128 && (v >> 84u128) & 15u128 == (w >> 84u128) & 15u128 && (v >> 88u128) & 15u128 == (w >> 88u128) & 15u128 && (v >> 92u128) & 15u128 == (w >> 92u128) & 15u128 && (v >> 96u128) & 15u128 == (w >> 96u128) & 15u128 && (v >> 100u128) & 15u128 == (w >> 100u128) & 15u128 && (v >> 104u128) & 15u128 == (w >> 104u128) & 15u128 && (v >> 108u128) & 15u128 == (w >> 108u128) & 15u128 && (v >> 112u128) & 15u128 == (w >> 112u128) & 15u128 && (v >> 116u128) & 15u128 == (w >> 116u128) & 15u128 && (v >> 120u128) & 15u128 == (w >> 120u128) & 15u128 && (v >> 124u128) & 15u128 == (w >> 124u128) & 15u128 ==> v == w) by (bit_vector);
}

/// Different digests give different fingerprints, for either algorithm.
pub proof fn lemma_fingerprint_of_digests(a: Seq<u8>, b: Seq<u8>, v: u128, w: u128)
    ensures
        hex_of_bytes(a) == hex_of_bytes(b) ==> a == b,
        hex_of_u128(v) == hex_of_u128(w) ==> v == w,
{
    if hex_of_bytes(a) == hex_of_bytes(b) {
        lemma_hex_of_bytes_injective(a, b);
    }
    if hex_of_u128(v) == hex_of_u128(w) {
        lemma_hex_of_u128_injective(v, w);
    }
}

/// Lowercase hexadecimal text of `bytes`.
pub fn hex_encode(bytes: &[u8]) -> (r: String)
    ensures
        r@ == hex_of_bytes(bytes@),
        r@.len() == 2 * bytes@.len(),
{
    let mut s = String::new();
    let mut i: usize = 0;
    assert(bytes@.subrange(0, 0) =~= Seq::<u8>::empty());
    while i < bytes.len()
        invariant
            i <= bytes@.len(),
            s@ == hex_of_bytes(bytes@.subrange(0, i as int)),
        decreases bytes.len() - i,
    {
        let b = bytes[i];
        s.push(hex_char(b / 16));
        s.push(hex_char(b % 16));
        assert(bytes@.subrange(0, i + 1).drop_last() =~= bytes@.subrange(0, i as int));
        i += 1;
    }
    assert(bytes@.subrange(0, bytes@.len() as int) =~= bytes@);
    proof { lemma_hex_len(bytes@); }
    s
}

/// The 32 lowercase hex digits of `v`, zero-padded.
pub fn hex_u128(v: u128) -> (r: String)
    ensures
        r@ == hex_of_u128(v),
        r@.len() == 32,
{
    let mut s = String::new();
    let mut i: u32 = 0;
    while i < 32
        invariant
            i <= 32,
            s@ =~= hex_of_u128(v).subrange(0, i as int),
        decreases 32 - i,
    {
        let shift: u128 = (4 * (31 - i)) as u128;
        let nib = (v >> shift) & 15u128;
        assert(nib < 16) by (bit_vector)
            requires
                nib == (v >> shift) & 15u128,
        ;
        s.push(hex_char(nib as u8));
        i += 1;
    }
    s
}

/// The fingerprint of `data`: the hex digest under `algo` (64 digits for
/// BLAKE3, 32 for XXH3).
pub fn fingerprint(data: &[u8], algo: HashAlgo) -> (r: Fingerprint)
    ensures
        r@ == fingerprint_of(data@, algo),
        algo == HashAlgo::Blake3 ==> r@.len() == 64,
        algo == HashAlgo::Xxh3 ==> r@.len() == 32,
{
    match algo {
        HashAlgo::Blake3 => {
            let digest = blake3_hash(data);
            let bytes: &[u8] = vstd::array::array_as_slice(&digest);
            hex_encode(bytes)
        },
        HashAlgo::Xxh3 => hex_u128(xxh3_hash(data)),
    }
}

/// The fingerprint of the first `prefix_bytes` bytes of `data`: a cheap
/// pre-filter for grouping likely duplicates before full-content hashing.
pub fn prefix_fingerprint(data: &[u8], algo: HashAlgo, prefix_bytes: u64) -> (r: Fingerprint)
    ensures
        r@ == fingerprint_of(prefix_of(data@, prefix_bytes), algo),
        algo == HashAlgo::Blake3 ==> r@.len() == 64,
        algo == HashAlgo::Xxh3 ==> r@.len() == 32,
{
    if prefix_bytes < data.len() as u64 {
        let end = prefix_bytes as usize;
        fingerprint(&data[0..end], algo)
    } else {
        fingerprint(data, algo)
    }
}

/// Data whose first `prefix_bytes` bytes agree (and that both have at least
/// that many) get the same prefix fingerprint, whatever follows.
pub proof fn lemma_prefix_fingerprint_agrees(a: Seq<u8>, b: Seq<u8>, algo: HashAlgo, prefix_bytes: u64)
    requires
        a.len() >= prefix_bytes,
        b.len() >= prefix_bytes,
        a.subrange(0, prefix_bytes as int) == b.subrange(0, prefix_bytes as int),
    ensures
        fingerprint_of(prefix_of(a, prefix_bytes), algo) == fingerprint_of(prefix_of(b, prefix_bytes), algo),
{
    if prefix_bytes as int == a.len() {
        assert(a.subrange(0, prefix_bytes as int) =~= a);
    }
    if prefix_bytes as int == b.len() {
        assert(b.subrange(0, prefix_bytes as int) =~= b);
    }
}

/// Data no longer than the prefix has the same prefix fingerprint as full
/// fingerprint.
pub proof fn lemma_short_prefix_is_whole(data: Seq<u8>, algo: HashAlgo, prefix_bytes: u64)
    requires
        data.len() <= prefix_bytes,
    ensures
        fingerprint_of(prefix_of(data, prefix_bytes), algo) == fingerprint_of(data, algo),
{
}

} // verus!

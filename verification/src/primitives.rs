//! Plain-value types shared by both finality engines, and the few calls into
//! `sp-core` and `parity-scale-codec` that the consensus logic needs
//! (hashing, signature checking, SCALE encoding of primitive values).
use vstd::prelude::*;

verus! {

broadcast use vstd::array::group_array_axioms;

/// A 32-byte block (or message digest) hash.
pub type H256 = [u8; 32];

/// The ed25519 public key that identifies an authority.
pub type AuthorityId = [u8; 32];

/// An ed25519 signature of an authority.
pub type AuthoritySignature = [u8; 64];

/// Height of a block.
pub type BlockNumber = u64;

/// The `n` least significant base-256 digits of `v`, least significant first.
pub open spec fn le_bytes(v: nat, n: nat) -> Seq<u8>
    decreases n,
{
    if n == 0 {
        Seq::empty()
    } else {
        seq![(v % 256) as u8] + le_bytes(v / 256, (n - 1) as nat)
    }
}

/// The SCALE compact encoding of a length `v` (at most `u32::MAX`: the
/// codec refuses longer lengths).
pub open spec fn compact_len(v: nat) -> Seq<u8> {
    if v < 64 {
        le_bytes(v * 4, 1)
    } else if v < 0x4000 {
        le_bytes(v * 4 + 1, 2)
    } else if v < 0x4000_0000 {
        le_bytes(v * 4 + 2, 4)
    } else {
        le_bytes(3, 1) + le_bytes(v, 4)
    }
}

/// `le_bytes(v, n)` has `n` bytes.
proof fn lemma_le_bytes_len(v: nat, n: nat)
    ensures
        le_bytes(v, n).len() == n,
    decreases n,
{
    if n > 0 {
        lemma_le_bytes_len(v / 256, (n - 1) as nat);
    }
}

/// SCALE encoding of a `u64` through `parity_scale_codec::Encode::encode`:
/// its eight bytes, least significant first (fixed-width little endian).
#[verifier::external_body]
fn scale_encode_u64(v: u64) -> (r: Vec<u8>)
    ensures
        r@ == le_bytes(v as nat, 8),
{
    parity_scale_codec::Encode::encode(&v)
}

/// SCALE encoding of a 32-byte array through `parity_scale_codec::Encode::encode`:
/// fixed-size arrays are encoded as their bytes, without a length prefix.
#[verifier::external_body]
fn scale_encode_bytes32(a: &[u8; 32]) -> (r: Vec<u8>)
    ensures
        r@ == a@,
{
    parity_scale_codec::Encode::encode(a)
}

/// SCALE encoding of a byte vector through `parity_scale_codec::Encode::encode`:
/// the compact encoding of its length followed by its bytes. The codec
/// panics on a length above `u32::MAX`, which is left out.
#[verifier::external_body]
fn scale_encode_byte_vec(data: &Vec<u8>) -> (r: Vec<u8>)
    requires
        data@.len() <= u32::MAX,
    ensures
        r@ == compact_len(data@.len()) + data@,
{
    parity_scale_codec::Encode::encode(data)
}

/// What `sp_core::Blake2Hasher` (blake2b with a 256-bit output) gives for `data`.
pub uninterp spec fn blake2_256_of(data: Seq<u8>) -> Seq<u8>;

/// Hashes `data` with `<sp_core::Blake2Hasher as sp_core::Hasher>::hash`. The result
/// is the blake2b-256 digest of `data`, which this crate refers to by name.
#[verifier::external_body]
fn blake2_256(data: &[u8]) -> (r: H256)
    ensures
        r@ == blake2_256_of(data@),
{
    <sp_core::Blake2Hasher as sp_core::Hasher>::hash(data).0
}

/// Whether `sig` is a valid ed25519 signature of `msg` under the public key `public`,
/// as `sp_core::ed25519::Pair::verify` decides it.
pub uninterp spec fn ed25519_verify_of(sig: Seq<u8>, msg: Seq<u8>, public: Seq<u8>) -> bool;

/// Checks an ed25519 signature with `<sp_core::ed25519::Pair as sp_core::Pair>::verify`.
/// The answer is a function of the three byte strings, named `ed25519_verify_of`.
#[verifier::external_body]
fn ed25519_verify(sig: &AuthoritySignature, msg: &[u8], public: &AuthorityId) -> (r: bool)
    ensures
        r == ed25519_verify_of(sig@, msg@, public@),
{
    <sp_core::ed25519::Pair as sp_core::Pair>::verify(
        &sp_core::ed25519::Signature::from_raw(*sig),
        msg,
        &sp_core::ed25519::Public::from_raw(*public),
    )
}

/// Byte-wise equality of two 32-byte values (hashes or authority ids).
pub fn bytes32_eq(a: &[u8; 32], b: &[u8; 32]) -> (r: bool)
    ensures
        r == (*a == *b),
{
    let mut i: usize = 0;
    while i < 32
        invariant
            0 <= i <= 32,
            forall|j: int| 0 <= j < i ==> a@[j] == b@[j],
        decreases 32 - i,
    {
        if a[i] != b[i] {
            assert(a@[i as int] != b@[i as int]);
            return false;
        }
        i += 1;
    }
    assert(forall|j: int| 0 <= j < 32 ==> a[j] == b[j]);
    assert(*a =~= *b);
    true
}

/// Appends `src` to `dst`.
fn append_bytes(dst: &mut Vec<u8>, src: &Vec<u8>)
    ensures
        final(dst)@ == old(dst)@ + src@,
{
    let mut i: usize = 0;
    while i < src.len()
        invariant
            0 <= i <= src@.len(),
            dst@ == old(dst)@ + src@.subrange(0, i as int),
        decreases src@.len() - i,
    {
        dst.push(src[i]);
        i += 1;
        assert(src@.subrange(0, i as int) =~= src@.subrange(0, i - 1) + seq![src@[i - 1]]);
    }
    assert(src@.subrange(0, src@.len() as int) =~= src@);
}

/// What `Hashing::hash_of(data)` gives: the blake2-256 hash of the SCALE
/// encoding of the byte vector `data`.
pub open spec fn hash_of_bytes(data: Seq<u8>) -> Seq<u8> {
    blake2_256_of(compact_len(data.len()) + data)
}

/// Hashes the SCALE encoding of a byte vector.
pub fn hash_of_bytes_exec(data: &Vec<u8>) -> (r: H256)
    requires
        data@.len() <= u32::MAX,
    ensures
        r@ == hash_of_bytes(data@),
{
    let encoded = scale_encode_byte_vec(data);
    blake2_256(encoded.as_slice())
}

/// Hashes raw bytes (no length prefix), as `Hashing::hash` does.
pub fn hash_raw(data: &[u8]) -> (r: H256)
    ensures
        r@ == blake2_256_of(data@),
{
    blake2_256(data)
}

/// Checks an ed25519 signature.
pub fn verify_signature(sig: &AuthoritySignature, msg: &[u8], public: &AuthorityId) -> (r: bool)
    ensures
        r == ed25519_verify_of(sig@, msg@, public@),
{
    ed25519_verify(sig, msg, public)
}

/// Whether all bytes of a hash are zero.
pub open spec fn is_zero_hash(h: H256) -> bool {
    forall|i: int| 0 <= i < 32 ==> h[i] == 0
}

/// The all-zero hash.
pub fn zero_hash() -> (r: H256)
    ensures
        is_zero_hash(r),
{
    let r: H256 = [0u8; 32];
    r
}

/// Whether all bytes of a hash are zero.
pub fn is_zero_hash_exec(h: &H256) -> (r: bool)
    ensures
        r == is_zero_hash(*h),
{
    let mut i: usize = 0;
    while i < 32
        invariant
            0 <= i <= 32,
            forall|j: int| 0 <= j < i ==> h[j] == 0,
        decreases 32 - i,
    {
        if h[i] != 0 {
            return false;
        }
        i += 1;
    }
    true
}

/// Appends the SCALE encoding of a `u64`.
pub fn push_u64(dst: &mut Vec<u8>, v: u64)
    ensures
        final(dst)@ == old(dst)@ + le_bytes(v as nat, 8),
        final(dst)@.len() == old(dst)@.len() + 8,
{
    proof {
        lemma_le_bytes_len(v as nat, 8);
    }
    let e = scale_encode_u64(v);
    append_bytes(dst, &e);
}

/// Appends the SCALE encoding of a 32-byte value.
pub fn push_bytes32(dst: &mut Vec<u8>, a: &[u8; 32])
    ensures
        final(dst)@ == old(dst)@ + a@,
{
    let e = scale_encode_bytes32(a);
    append_bytes(dst, &e);
}

} // verus!

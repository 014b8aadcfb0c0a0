use secret_toolkit_crypto::{sha_256, ContractPrng};
use vstd::prelude::*;

verus! {

/// The SHA-256 digest of `data`.
pub uninterp spec fn sha256_of(data: Seq<u8>) -> Seq<u8>;

/// The first 32 bytes of the ChaCha stream that is seeded with the SHA-256
/// digest of `seed` followed by `entropy`.
pub uninterp spec fn prng_output_of(seed: Seq<u8>, entropy: Seq<u8>) -> Seq<u8>;

/// The base64 text (standard alphabet, padded) of `data`.
pub uninterp spec fn base64_of(data: Seq<u8>) -> Seq<char>;

/// Relies on `secret_toolkit_crypto::sha_256`: the 32-byte SHA-256 digest of its input.
#[verifier::external_body]
pub(crate) fn sha256(data: &[u8]) -> (r: [u8; 32])
    ensures
        r@ == sha256_of(data@),
{
    sha_256(data)
}

/// Relies on `secret_toolkit_crypto::ContractPrng::new` and its first
/// `rand_bytes` call: a generator seeded from SHA-256(seed ++ entropy) whose
/// first output depends on those two inputs alone.
#[verifier::external_body]
pub(crate) fn prng_first_bytes(seed: &[u8], entropy: &[u8]) -> (r: [u8; 32])
    ensures
        r@ == prng_output_of(seed@, entropy@),
{
    let mut rng = ContractPrng::new(seed, entropy);
    rng.rand_bytes()
}

/// Relies on `base64::encode`: the padded standard-alphabet text of its input.
#[verifier::external_body]
pub(crate) fn base64_encode(data: &[u8]) -> (r: String)
    ensures
        r@ == base64_of(data@),
{
    base64::encode(data)
}

/// The eight big-endian bytes of `x`.
pub open spec fn be_bytes(x: u64) -> Seq<u8> {
    seq![
        ((x >> 56u64) & 0xffu64) as u8,
        ((x >> 48u64) & 0xffu64) as u8,
        ((x >> 40u64) & 0xffu64) as u8,
        ((x >> 32u64) & 0xffu64) as u8,
        ((x >> 24u64) & 0xffu64) as u8,
        ((x >> 16u64) & 0xffu64) as u8,
        ((x >> 8u64) & 0xffu64) as u8,
        (x & 0xffu64) as u8,
    ]
}

/// Appends the big-endian bytes of `x` to `out`.
pub fn push_be_bytes(out: &mut Vec<u8>, x: u64)
    ensures
        final(out)@ == old(out)@ + be_bytes(x),
{
    out.push(((x >> 56u64) & 0xffu64) as u8);
    out.push(((x >> 48u64) & 0xffu64) as u8);
    out.push(((x >> 40u64) & 0xffu64) as u8);
    out.push(((x >> 32u64) & 0xffu64) as u8);
    out.push(((x >> 24u64) & 0xffu64) as u8);
    out.push(((x >> 16u64) & 0xffu64) as u8);
    out.push(((x >> 8u64) & 0xffu64) as u8);
    out.push((x & 0xffu64) as u8);
    assert(out@ =~= old(out)@ + be_bytes(x));
}

/// Appends every byte of `bytes` to `out`.
pub fn push_bytes(out: &mut Vec<u8>, bytes: &[u8])
    ensures
        final(out)@ == old(out)@ + bytes@,
{
    let ghost start = out@;
    let mut i: usize = 0;
    while i < bytes.len()
        invariant
            i <= bytes@.len(),
            out@ == start + bytes@.subrange(0, i as int),
        decreases bytes@.len() - i,
    {
        out.push(bytes[i]);
        i += 1;
        assert(out@ =~= start + bytes@.subrange(0, i as int));
    }
    assert(bytes@.subrange(0, i as int) =~= bytes@);
}

/// Compares two 32-byte values without stopping at the first difference:
/// every byte pair is read whatever the earlier ones held.
pub fn ct_eq(a: &[u8; 32], b: &[u8; 32]) -> (r: bool)
    ensures
        r == (a@ == b@),
{
    let mut diff: u8 = 0;
    let mut i: usize = 0;
    while i < 32
        invariant
            i <= 32,
            a@.len() == 32,
            b@.len() == 32,
            (diff == 0) == (forall|j: int| 0 <= j < i ==> a@[j] == b@[j]),
        decreases 32 - i,
    {
        let x: u8 = a[i] ^ b[i];
        let ai: u8 = a[i];
        let bi: u8 = b[i];
        assert((x == 0) == (ai == bi)) by (bit_vector)
            requires
                x == ai ^ bi,
        ;
        let d: u8 = diff | x;
        assert((d == 0) == (diff == 0 && x == 0)) by (bit_vector)
            requires
                d == diff | x,
        ;
        diff = d;
        i += 1;
    }
    if diff == 0 {
        assert(a@ =~= b@);
    }
    diff == 0
}

} // verus!

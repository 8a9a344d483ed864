//! Hashes, keys and signatures, and the cryptographic capabilities the ledger
//! relies on: Blake2b-256 hashing, and Ed25519 signing and verification.
use vstd::prelude::*;

verus! {

/// A 32-byte Blake2b-256 digest.
pub type Digest = [u8; 32];

/// An Ed25519 public key.
pub type PublicKey = [u8; 32];

/// An Ed25519 signature.
pub type Signature = [u8; 64];

/// What Blake2b-256 yields on the given bytes.
pub uninterp spec fn blake2b_of(data: Seq<u8>) -> Seq<u8>;

/// Whether `sig` is a valid Ed25519 signature of `msg` under `key`.
pub uninterp spec fn ed25519_accepts(msg: Seq<u8>, key: Seq<u8>, sig: Seq<u8>) -> bool;

pub open spec fn is_zero_digest(d: Digest) -> bool {
    forall|i: int| 0 <= i < 32 ==> d[i] == 0u8
}

/// The all-zero digest.
pub open spec fn zero_digest() -> Digest {
    choose|d: Digest| is_zero_digest(d)
}

/// A digest of zero bytes only is the all-zero digest.
pub proof fn lemma_zero_digest(d: Digest)
    requires
        forall|i: int| 0 <= i < 32 ==> d[i] == 0u8,
    ensures
        zero_digest() == d,
{
    broadcast use vstd::array::group_array_axioms;
    assert(is_zero_digest(d));
    let z = zero_digest();
    assert(z =~= d);
}

/// The digest whose bytes Blake2b-256 yields on `data`.
pub open spec fn digest_of(data: Seq<u8>) -> Digest {
    choose|d: Digest| d@ == blake2b_of(data)
}

/// A digest computed from `data` is the one `digest_of` names.
pub proof fn lemma_digest_of(d: Digest, data: Seq<u8>)
    requires
        d@ == blake2b_of(data),
    ensures
        digest_of(data) == d,
{
    broadcast use vstd::array::group_array_axioms;
    assert(exists|x: Digest| x@ == blake2b_of(data));
    let c = digest_of(data);
    assert(c =~= d);
}

/// Relies on `cryptoxide::hashing::blake2b_256`: the digest depends on the
/// input bytes alone.
#[verifier::external_body]
pub(crate) fn blake2b_256(data: &Vec<u8>) -> (r: Digest)
    ensures
        r@ == blake2b_of(data@),
{
    cryptoxide::hashing::blake2b_256(data.as_slice())
}

/// Relies on `cryptoxide::ed25519::verify`: whether the signature verifies
/// depends on the message, the key and the signature alone.
#[verifier::external_body]
pub(crate) fn ed25519_verify(msg: &Vec<u8>, key: &PublicKey, sig: &Signature) -> (r: bool)
    ensures
        r == ed25519_accepts(msg@, key@, sig@),
{
    cryptoxide::ed25519::verify(msg.as_slice(), key, sig)
}

/// The Ed25519 signature of `msg` under the key pair `keypair` (secret key,
/// then public key).
pub uninterp spec fn ed25519_signature_of(msg: Seq<u8>, keypair: Seq<u8>) -> Seq<u8>;

/// Relies on `cryptoxide::ed25519::signature`: Ed25519 signing is
/// deterministic, so the signature depends on the message and key pair alone.
#[verifier::external_body]
pub(crate) fn ed25519_sign(msg: &Vec<u8>, keypair: &[u8; 64]) -> (r: Signature)
    ensures
        r@ == ed25519_signature_of(msg@, keypair@),
{
    cryptoxide::ed25519::signature(msg.as_slice(), keypair)
}

/// Appends `bytes` to the end of `out`.
pub fn push_bytes(out: &mut Vec<u8>, bytes: &[u8])
    ensures
        final(out)@ == old(out)@ + bytes@,
{
    let mut i: usize = 0;
    while i < bytes.len()
        invariant
            0 <= i <= bytes@.len(),
            out@ == old(out)@ + bytes@.subrange(0, i as int),
        decreases bytes@.len() - i,
    {
        proof {
            assert(bytes@.subrange(0, i + 1) == bytes@.subrange(0, i as int).push(bytes@[i as int]));
        }
        out.push(bytes[i]);
        i += 1;
    }
    proof {
        assert(bytes@.subrange(0, bytes@.len() as int) == bytes@);
    }
}

/// The big-endian bytes of a 32-bit integer.
pub open spec fn be_u32(n: u32) -> Seq<u8> {
    seq![(n / 0x100_0000) as u8, (n / 0x1_0000 % 0x100) as u8, (n / 0x100 % 0x100) as u8, (n % 0x100) as u8]
}

/// The big-endian bytes of a 64-bit integer.
pub open spec fn be_u64(n: u64) -> Seq<u8> {
    be_u32((n / 0x1_0000_0000) as u32) + be_u32((n % 0x1_0000_0000) as u32)
}

/// Appends the big-endian bytes of `n` to `out`.
pub fn push_u32(out: &mut Vec<u8>, n: u32)
    ensures
        final(out)@ == old(out)@ + be_u32(n),
{
    out.push((n / 0x100_0000) as u8);
    out.push((n / 0x1_0000 % 0x100) as u8);
    out.push((n / 0x100 % 0x100) as u8);
    out.push((n % 0x100) as u8);
    proof {
        assert(final(out)@ =~= old(out)@ + be_u32(n));
    }
}

/// Appends the big-endian bytes of `n` to `out`.
pub fn push_u64(out: &mut Vec<u8>, n: u64)
    ensures
        final(out)@ == old(out)@ + be_u64(n),
{
    push_u32(out, (n / 0x1_0000_0000) as u32);
    push_u32(out, (n % 0x1_0000_0000) as u32);
    proof {
        assert(final(out)@ =~= old(out)@ + be_u64(n));
    }
}

} // verus!

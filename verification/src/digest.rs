//! Fingerprints of raw messages.

use vstd::prelude::*;

verus! {

/// The MD5 digest of a byte string, as its sixteen bytes.
pub uninterp spec fn md5_digest(data: Seq<u8>) -> Seq<u8>;

/// Computes the MD5 digest of `data`.
///
/// Trusted: calls `md5::compute`, which is a total function of the bytes it
/// is given, and hands back the digest's sixteen bytes. The contract gives
/// that result its name and claims nothing more of it.
#[verifier::external_body]
pub(crate) fn md5_of(data: &[u8]) -> (digest: [u8; 16])
    ensures
        digest@ == md5_digest(data@),
{
    md5::compute(data).0
}

/// The integer that `bytes` form when read most significant byte first.
pub open spec fn be_value(bytes: Seq<u8>) -> nat
    decreases bytes.len(),
{
    if bytes.len() == 0 {
        0
    } else {
        be_value(bytes.drop_last()) * 256 + bytes.last() as nat
    }
}

/// `256^n`.
pub open spec fn pow256(n: nat) -> nat
    decreases n,
{
    if n == 0 {
        1
    } else {
        256 * pow256((n - 1) as nat)
    }
}

/// The fingerprint under which a message is filed: its MD5 digest read as
/// one 128-bit integer, most significant byte first.
pub open spec fn fingerprint(message: Seq<u8>) -> u128 {
    be_value(md5_digest(message)) as u128
}

/// Computes the fingerprint of `message`.
pub fn fingerprint_of(message: &[u8]) -> (key: u128)
    ensures
        key == fingerprint(message@),
{
    let digest = md5_of(message);
    let mut key: u128 = 0;
    let mut i: usize = 0;
    while i < 16
        invariant
            i <= 16,
            digest@.len() == 16,
            key == be_value(digest@.take(i as int)),
            key < pow256(i as nat),
        decreases 16 - i,
    {
        proof {
            let next = digest@.take(i + 1);
            assert(next.drop_last() == digest@.take(i as int));
            assert(next.last() == digest@[i as int]);
            lemma_pow256_values();
        }
        key = key * 256 + digest[i] as u128;
        i = i + 1;
    }
    proof {
        assert(digest@.take(16) == digest@);
    }
    key
}

/// The powers of 256 up to the sixteenth, which is `2^128`.
proof fn lemma_pow256_values()
    ensures
        pow256(0) == 1,
        forall|n: nat|
            n < 16 ==> #[trigger] pow256(n) * 256 <= 0x1_0000_0000_0000_0000_0000_0000_0000_0000,
        pow256(16) == 0x1_0000_0000_0000_0000_0000_0000_0000_0000,
        forall|n: nat| #[trigger] pow256(n + 1) == 256 * pow256(n),
{
    reveal_with_fuel(pow256, 17);
}

} // verus!

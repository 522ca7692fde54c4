//! The 64-bit XXH3 digest of a sequence of bytes.
use vstd::prelude::*;
use xxhash_rust::xxh3::Xxh3Default;

verus! {

/// The digest that `xxhash_rust`'s `Xxh3Default` computes of `bytes`, with its default seed and
/// secret.
pub uninterp spec fn xxh3_digest(bytes: Seq<u8>) -> u64;

/// Hashes `bytes` with a fresh `xxhash_rust::xxh3::Xxh3Default`.
///
/// Trusted: the hasher starts from constants and reads nothing but its input, so the digest is a
/// function of the bytes alone.
#[verifier::external_body]
pub(crate) fn xxh3(bytes: &[u8]) -> (res: u64)
    ensures
        res == xxh3_digest(bytes@),
{
    let mut hasher = Xxh3Default::new();
    hasher.update(bytes);
    hasher.digest()
}

} // verus!

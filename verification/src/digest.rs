//! Digests and checksums of byte strings.
use sha1::{Digest, Sha1};
use sha2::Sha256;
use vstd::prelude::*;

verus! {

/// The SHA-1 digest of a byte string.
pub uninterp spec fn sha1_of(data: Seq<u8>) -> Seq<u8>;

/// `sha1::Sha1` digests a byte string into twenty bytes.
#[verifier::external_body]
pub(crate) fn sha1(data: &[u8]) -> (r: Vec<u8>)
    ensures
        r@ == sha1_of(data@),
        r@.len() == 20,
{
    Sha1::digest(data).to_vec()
}

/// The SHA-256 digest of a byte string.
pub uninterp spec fn sha256_of(data: Seq<u8>) -> Seq<u8>;

/// `sha2::Sha256` digests two byte strings, one after the other, into thirty-two bytes:
/// those of the digest of the two put together.
#[verifier::external_body]
pub(crate) fn sha256(first: &[u8], second: &[u8]) -> (r: Vec<u8>)
    ensures
        r@ == sha256_of(first@ + second@),
        r@.len() == 32,
{
    Sha256::new().chain_update(first).chain_update(second).finalize().to_vec()
}

/// The CRC-32 checksum of a byte string.
pub uninterp spec fn crc32_of(data: Seq<u8>) -> u32;

/// A fresh `crc32fast::Hasher` gives the checksum of no bytes.
#[verifier::external_body]
pub(crate) fn crc32_start() -> (r: u32)
    ensures
        r == crc32_of(Seq::empty()),
{
    crc32fast::Hasher::new().finalize()
}

/// `crc32fast::Hasher` carries a checksum on: from the checksum of some bytes it
/// gives the checksum of these bytes followed by others.
#[verifier::external_body]
pub(crate) fn crc32_extend(crc: u32, data: &[u8]) -> (r: u32)
    ensures
        forall|before: Seq<u8>|
            crc == crc32_of(before) ==> r == #[trigger] crc32_of(before + data@),
{
    let mut hasher = crc32fast::Hasher::new_with_initial(crc);
    hasher.update(data);
    hasher.finalize()
}

/// The CRC-32 checksum of a byte string.
pub fn crc32(data: &[u8]) -> (r: u32)
    ensures
        r == crc32_of(data@),
{
    let start: u32 = crc32_start();
    let r: u32 = crc32_extend(start, data);
    assert(Seq::<u8>::empty() + data@ =~= data@);
    r
}

} // verus!

//! Checksums and tag hashes.

use std::collections::hash_map::DefaultHasher;
use std::hash::Hasher;
use vstd::prelude::*;
use vstd::std_specs::hash::DefaultHasherAdditionalSpecFns;

verus! {

/// The CRC-32/CKSUM checksum of a byte sequence.
pub uninterp spec fn crc32_of(b: Seq<u8>) -> u32;

/// Relies on crc's `Crc::<u32>::checksum` under the `CRC_32_CKSUM` algorithm:
/// the checksum depends on the bytes alone.
#[verifier::external_body]
fn cksum(bytes: &[u8]) -> (r: u32)
    ensures
        r == crc32_of(bytes@),
{
    crc::Crc::<u32>::new(&crc::CRC_32_CKSUM).checksum(bytes)
}

/// Outcome of comparing a stored checksum with the one of the data.
#[derive(Debug, Clone, Copy, PartialEq, Eq, Structural)]
pub enum CrcError {
    /// The stored checksum differs from the computed one.
    Mismatch { computed: u32, stored: u32 },
}

/// Checksum of `bytes`.
pub fn crc32(bytes: &[u8]) -> (r: u32)
    ensures
        r == crc32_of(bytes@),
{
    cksum(bytes)
}

/// Checks `data` against the checksum stored with it.
pub fn crc_check(save_crc: u32, data: &[u8]) -> (r: Result<(), CrcError>)
    ensures
        r is Ok <==> crc32_of(data@) == save_crc,
        r is Err ==> r == Err::<(), CrcError>(
            CrcError::Mismatch { computed: crc32_of(data@), stored: save_crc },
        ),
{
    let ck_sum = cksum(data);
    if ck_sum != save_crc {
        Err(CrcError::Mismatch { computed: ck_sum, stored: save_crc })
    } else {
        Ok(())
    }
}

/// The hash of a tag: what `Hash for str` feeds a fresh `DefaultHasher`
/// (the bytes, then the terminator `0xff`), finished.
pub open spec fn tag_hash(tag: Seq<u8>) -> u64 {
    DefaultHasher::spec_finish(seq![tag, seq![0xffu8]])
}

/// Hash code of a tag, as `Hash` for `str` computes it with the default
/// hasher; the same bytes give the same code in every process.
pub fn hashcode(tag: &[u8]) -> (r: u64)
    ensures
        r == tag_hash(tag@),
{
    let mut s = DefaultHasher::new();
    s.write(tag);
    let end: [u8; 1] = [0xffu8];
    s.write(&end);
    proof {
        assert(end@ =~= seq![0xffu8]);
        assert(s@ =~= seq![tag@, seq![0xffu8]]);
    }
    s.finish()
}

} // verus!

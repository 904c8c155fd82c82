//! The checksum that guards a GPT header and its entry table.

use vstd::prelude::*;

verus! {

/// The CRC-32 of `bytes` in the ISO-HDLC variant (polynomial `0x04C11DB7`,
/// reflected, as used by gzip and PKZIP).
pub uninterp spec fn crc32_iso_hdlc(bytes: Seq<u8>) -> u32;

/// Computes the checksum with `crc::Crc::<u32>::checksum`, on the algorithm
/// `crc::CRC_32_ISO_HDLC`. Nothing is proved of it: the contract only names
/// what the `crc` crate returns, which depends on the bytes alone.
#[verifier::external_body]
pub(crate) fn crc32(bytes: &[u8]) -> (sum: u32)
    ensures
        sum == crc32_iso_hdlc(bytes@),
{
    crc::Crc::<u32>::new(&crc::CRC_32_ISO_HDLC).checksum(bytes)
}

} // verus!

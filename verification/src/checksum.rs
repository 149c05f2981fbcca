//! The 32-bit checksum that guards each chunk's integrity.

use vstd::prelude::*;

verus! {

/// The CRC-32/ISO-HDLC checksum of a byte sequence.
///
/// The checksum is a deterministic function of the bytes alone; its
/// definition lives in the `crc` crate and is not restated here.
pub uninterp spec fn crc32_iso_hdlc(bytes: Seq<u8>) -> u32;

/// Relies on `crc::Crc::<u32>::new(&crc::CRC_32_ISO_HDLC)` and its
/// `checksum` method: the CRC-32/ISO-HDLC checksum of the input, a
/// deterministic function of the input bytes alone.
#[verifier::external_body]
pub(crate) fn crc32_checksum(bytes: &[u8]) -> (r: u32)
    ensures
        r == crc32_iso_hdlc(bytes@),
{
    crc::Crc::<u32>::new(&crc::CRC_32_ISO_HDLC).checksum(bytes)
}

} // verus!

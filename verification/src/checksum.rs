//! CRC-32 (ISO-HDLC) of a byte string.

use vstd::prelude::*;

verus! {

/// The CRC-32/ISO-HDLC checksum of `data`: polynomial `0x04C11DB7`, reflected
/// input and output, initial value and final XOR `0xFFFFFFFF`.
pub uninterp spec fn crc32_iso_hdlc(data: Seq<u8>) -> u32;

/// Trusted: `crc::Crc::<u32>::new(&CRC_32_ISO_HDLC)` followed by `digest`,
/// `update` and `finalize`. The contract only names the value that the `crc`
/// crate computes for these bytes; nothing about the value itself is claimed.
#[verifier::external_body]
fn iso_hdlc_digest(data: &[u8]) -> (sum: u32)
    ensures
        sum == crc32_iso_hdlc(data@),
{
    let crc = crc::Crc::<u32>::new(&crc::CRC_32_ISO_HDLC);
    let mut digest = crc.digest();
    digest.update(data);
    digest.finalize()
}

/// Checksum used both for read-back frames and for the verify step of a write.
pub fn calculate_crc(data: &[u8]) -> (sum: u32)
    ensures
        sum == crc32_iso_hdlc(data@),
{
    iso_hdlc_digest(data)
}

} // verus!

//! The record checksum: CRC-32/ISO-HDLC, computed by the `crc` crate.

use vstd::prelude::*;

verus! {

/// CRC-32/ISO-HDLC of `bytes`, as the `crc` crate computes it.
///
/// The algorithm itself is the crate's, and is not restated here: a record's
/// validity is decided by comparing what was stored against this value.
pub uninterp spec fn crc32_iso_hdlc(bytes: Seq<u8>) -> u32;

/// Calls `crc::Crc::<u32, crc::NoTable>::checksum` with the
/// `CRC_32_ISO_HDLC` parameters.
///
/// Claims only that the result is the (deterministic) checksum of exactly the
/// bytes handed in.
#[verifier::external_body]
pub(crate) fn checksum(bytes: &[u8]) -> (sum: u32)
    ensures
        sum == crc32_iso_hdlc(bytes@),
{
    crc::Crc::<u32, crc::NoTable>::new(&crc::CRC_32_ISO_HDLC).checksum(bytes)
}

/// The four little-endian bytes of a word.
pub open spec fn le32(word: u32) -> Seq<u8> {
    seq![
        (word % 256) as u8,
        ((word / 256) % 256) as u8,
        ((word / 65536) % 256) as u8,
        ((word / 16777216) % 256) as u8,
    ]
}

/// Append the little-endian bytes of `word` to `out`.
pub(crate) fn push_le32(out: &mut Vec<u8>, word: u32)
    ensures
        final(out)@ == old(out)@ + le32(word),
{
    out.push((word % 256) as u8);
    out.push(((word / 256) % 256) as u8);
    out.push(((word / 65536) % 256) as u8);
    out.push(((word / 16777216) % 256) as u8);
    assert(out@ =~= old(out)@ + le32(word));
}

} // verus!

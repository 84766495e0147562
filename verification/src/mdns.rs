//! The mDNS responder's own rules: the schedule of unsolicited announcements
//! and the random bytes its reply jitter is drawn from.

use vstd::prelude::*;

use crate::checksum::le32;

verus! {

/// Sockets the responder opens.
pub const SOCKETS: usize = 1;

/// Record lifetime advertised, in seconds: what RFC 6762 asks of records
/// that name a host, so that a moved lease is forgotten within two minutes.
pub const TTL_SECONDS: u32 = 120;

/// Unsolicited announcements per address: the two RFC 6762 §8.3 requires,
/// and one more against a dropped packet.
pub const ANNOUNCEMENTS: u32 = 3;

/// Gap before the second announcement: the one-second floor of §8.3.
pub const FIRST_ANNOUNCE_GAP_MS: u64 = 1000;

/// Wait before a responder that stopped is started again.
pub const RESTART_DELAY_MS: u64 = 5000;

/// The gap before announcement `n + 2`: one second, doubling each time.
pub open spec fn announce_gap(n: nat) -> nat
    decreases n,
{
    if n == 0 { FIRST_ANNOUNCE_GAP_MS as nat } else { 2 * announce_gap((n - 1) as nat) }
}

/// The waits between announcements. The responder makes the first on its
/// own, so there is one fewer wait than announcements; each is at least a
/// second and at least twice the one before, as §8.3 asks.
pub fn announce_gaps() -> (gaps: Vec<u64>)
    ensures
        gaps@.len() == ANNOUNCEMENTS - 1,
        forall|i: int| 0 <= i < gaps@.len() ==> gaps@[i] == announce_gap(i as nat),
        forall|i: int| 0 <= i < gaps@.len() ==> gaps@[i] >= FIRST_ANNOUNCE_GAP_MS,
        forall|i: int| 0 < i < gaps@.len() ==> #[trigger] gaps@[i] >= 2 * gaps@[i - 1],
{
    let mut gaps: Vec<u64> = Vec::new();
    let mut gap: u64 = FIRST_ANNOUNCE_GAP_MS;
    let mut sent: u32 = 1;
    while sent < ANNOUNCEMENTS
        invariant
            1 <= sent <= ANNOUNCEMENTS,
            gaps@.len() == sent - 1,
            gap == announce_gap((sent - 1) as nat),
            forall|i: int| 0 <= i < gaps@.len() ==> gaps@[i] == announce_gap(i as nat),
        decreases ANNOUNCEMENTS - sent,
    {
        proof {
            reveal_with_fuel(announce_gap, 3);
        }
        gaps.push(gap);
        gap = gap * 2;
        sent += 1;
    }
    proof {
        reveal_with_fuel(announce_gap, 3);
    }
    gaps
}

/// Bytes drawn from 32-bit random words, four to a word, each word's bytes in
/// little-endian order; the last word may be used in part.
pub fn fill_from_words(len: usize, words: &[u32]) -> (bytes: Vec<u8>)
    requires
        len <= 4 * words@.len(),
    ensures
        bytes@.len() == len,
        forall|i: int| 0 <= i < len ==> #[trigger] bytes@[i] == le32(words@[i / 4])[i % 4],
{
    let mut bytes: Vec<u8> = Vec::new();
    let mut index: usize = 0;
    while index < len
        invariant
            index <= len <= 4 * words@.len(),
            bytes@.len() == index,
            forall|i: int| 0 <= i < index ==> #[trigger] bytes@[i] == le32(words@[i / 4])[i % 4],
        decreases len - index,
    {
        let word = words[index / 4];
        let shift = index % 4;
        let byte = if shift == 0 {
            (word % 256) as u8
        } else if shift == 1 {
            ((word / 256) % 256) as u8
        } else if shift == 2 {
            ((word / 65536) % 256) as u8
        } else {
            ((word / 16777216) % 256) as u8
        };
        assert(byte == le32(words@[(index / 4) as int])[(index % 4) as int]);
        bytes.push(byte);
        index += 1;
    }
    bytes
}

/// A 64-bit random value from two 32-bit draws, the first as the high half.
pub fn combine_words(high: u32, low: u32) -> (value: u64)
    ensures
        value == high * 4294967296 + low,
{
    assert(high * 4294967296 + low <= u64::MAX) by (nonlinear_arith)
        requires
            high <= u32::MAX,
            low <= u32::MAX,
    ;
    (high as u64) * 4294967296 + (low as u64)
}

} // verus!

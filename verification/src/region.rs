//! Where a flash ring may live: the checks every ring-backed region makes on
//! the partition it was handed before it reads a byte of it.

use vstd::prelude::*;
use vstd::string::StringSliceAdditionalSpecFns;

use crate::mqtt::bytes_equal;

verus! {

/// The flash erase unit, and therefore the alignment a region must sit on.
pub const SECTOR_BYTES: u32 = 4096;

/// A partition-table entry: its absolute offset and its length in bytes.
#[derive(Clone, Copy, Debug, PartialEq, Eq, Structural)]
pub struct PartitionEntry {
    pub offset: u32,
    pub len: u32,
}

/// How a region's ring is carved up: how many slots, and how long each is.
#[derive(Clone, Copy, Debug, PartialEq, Eq, Structural)]
pub struct RingLayout {
    pub slot_count: usize,
    pub slot_len: usize,
}

/// A partition this build can hold a ring in: inside the flash that is
/// actually fitted, starting on an erase boundary, carved into a ring at all,
/// and into no more slots than a scan can keep a sequence number for.
pub open spec fn region_fits(
    capacity: u64,
    entry: PartitionEntry,
    ring: Option<RingLayout>,
    max_slots: usize,
) -> bool {
    &&& entry.offset + entry.len <= capacity
    &&& entry.offset % SECTOR_BYTES == 0
    &&& ring matches Some(layout) && layout.slot_count <= max_slots
}

/// Whether a partition may be held as a ring.
///
/// The end is compared in 64-bit arithmetic, because what this catches is a
/// partition table written for a larger flash than the one it is read on.
pub fn fits(capacity: u64, entry: PartitionEntry, ring: Option<RingLayout>, max_slots: usize) -> (ok: bool)
    ensures
        ok == region_fits(capacity, entry, ring, max_slots),
{
    if entry.offset as u64 + entry.len as u64 > capacity {
        return false;
    }
    if entry.offset % SECTOR_BYTES != 0 {
        return false;
    }
    match ring {
        Some(layout) => layout.slot_count <= max_slots,
        None => false,
    }
}

/// Whether a partition-table entry is the one a region is looked up by: the
/// label *and* the data type, so that a label match alone cannot hand an
/// application partition somebody named after a region to its writer.
pub fn is_region_entry(label: &str, wanted: &str, is_data: bool) -> (found: bool)
    ensures
        found == (label.spec_bytes() == wanted.spec_bytes() && is_data),
{
    is_data && bytes_equal(label.as_bytes(), wanted.as_bytes())
}

} // verus!

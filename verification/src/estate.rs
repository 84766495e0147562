//! The rooms-and-groups ring: what a scan of its record headers found, which
//! record wins, and which failure is worth naming to an operator.
//!
//! Reading headers and walking a record's rows belong to the flash and the
//! record format; this module decides what their outcomes add up to.

use vstd::prelude::*;

use crate::region::{fits, region_fits, PartitionEntry, RingLayout};

verus! {

/// Largest ring a scan covers: one sequence number is kept per slot.
pub const MAX_SLOTS: usize = 16;

/// What reading one slot's header gave: a header that passed its checks, an
/// erased slot, or a failure and why.
#[derive(Debug)]
pub enum SlotHeader<E> {
    Header { seq: u32 },
    Blank,
    Damaged(E),
}

/// Slots holding a readable header.
pub open spec fn header_count<E>(headers: Seq<SlotHeader<E>>) -> nat
    decreases headers.len(),
{
    if headers.len() == 0 {
        0
    } else {
        header_count(headers.drop_last()) + if headers.last() is Header { 1nat } else { 0nat }
    }
}

/// Erased slots.
pub open spec fn erased_count<E>(headers: Seq<SlotHeader<E>>) -> nat
    decreases headers.len(),
{
    if headers.len() == 0 {
        0
    } else {
        erased_count(headers.drop_last()) + if headers.last() is Blank { 1nat } else { 0nat }
    }
}

/// Slots holding neither.
pub open spec fn failed_count<E>(headers: Seq<SlotHeader<E>>) -> nat
    decreases headers.len(),
{
    if headers.len() == 0 {
        0
    } else {
        failed_count(headers.drop_last()) + if headers.last() is Damaged { 1nat } else { 0nat }
    }
}

/// Why the first slot that failed did so, in slot order.
pub open spec fn first_failure<E>(headers: Seq<SlotHeader<E>>) -> Option<E>
    decreases headers.len(),
{
    if headers.len() == 0 {
        None
    } else {
        match first_failure(headers.drop_last()) {
            Some(error) => Some(error),
            None => match headers.last() {
                SlotHeader::Damaged(error) => Some(error),
                _ => None,
            },
        }
    }
}

/// The sequence number a slot's header carries, if it is readable.
pub open spec fn header_seq<E>(header: SlotHeader<E>) -> Option<u32> {
    match header {
        SlotHeader::Header { seq } => Some(seq),
        _ => None,
    }
}

/// Every slot is exactly one of readable, erased or failed.
pub proof fn lemma_header_counts_cover<E>(headers: Seq<SlotHeader<E>>)
    ensures
        header_count(headers) + erased_count(headers) + failed_count(headers) == headers.len(),
    decreases headers.len(),
{
    if headers.len() > 0 {
        lemma_header_counts_cover(headers.drop_last());
    }
}

/// One pass over the ring's headers.
pub struct EstateScan<E> {
    /// `sequences[i]`: slot `i`'s sequence number, if its header is readable.
    pub sequences: Vec<Option<u32>>,
    pub valid: usize,
    pub blank: usize,
    pub damaged: usize,
    /// Why the first failed slot failed.
    pub first_error: Option<E>,
}

impl<E> EstateScan<E> {
    /// The scan `headers` yields.
    pub open spec fn of(self, headers: Seq<SlotHeader<E>>) -> bool {
        &&& self.sequences@ == headers.map_values(|header: SlotHeader<E>| header_seq(header))
        &&& self.valid == header_count(headers)
        &&& self.blank == erased_count(headers)
        &&& self.damaged == failed_count(headers)
        &&& self.first_error == first_failure(headers)
    }

    /// The winning slot and its sequence number, given the slot the ring's
    /// ordering rule named: nothing unless it names a readable slot.
    pub open spec fn winner(self, named: Option<usize>) -> Option<(usize, u32)> {
        match named {
            Some(slot) => if slot < self.sequences@.len() {
                match self.sequences@[slot as int] {
                    Some(seq) => Some((slot, seq)),
                    None => None,
                }
            } else {
                None
            },
            None => None,
        }
    }
}

/// Why the estate region could not be used.
#[derive(Clone, Copy, Debug, PartialEq, Eq, Structural)]
pub enum EstateStoreError {
    /// The partition table could not be read or parsed.
    PartitionTable,
    /// No data partition carries the region's label: the ordinary state of a
    /// board provisioned before the region existed.
    PartitionMissing,
    /// The partition exists but is the wrong shape for the ring.
    PartitionGeometry { offset: u32, len: u32 },
    /// The flash refused a read.
    Flash,
    /// A slot index outside the ring.
    SlotOutOfRange { slot: usize },
}

/// What a scan of the estate ring found, printed at boot.
#[derive(Debug)]
pub struct EstateSurvey<E> {
    pub slots: usize,
    pub valid: usize,
    pub blank: usize,
    pub damaged: usize,
    pub newest_seq: Option<u32>,
    /// Why the first non-blank slot that failed did so — or, where the
    /// winning record's rows would not place, why they would not.
    pub first_error: Option<E>,
}

/// The mounted estate region: where it starts and how it is carved.
pub struct EstateStore {
    base: u32,
    ring: RingLayout,
}

impl EstateStore {
    pub closed spec fn base_spec(self) -> u32 {
        self.base
    }

    pub closed spec fn ring_spec(self) -> RingLayout {
        self.ring
    }

    /// Take the region the partition table named, if the ring fits in it.
    pub fn mount(capacity: u64, entry: PartitionEntry, ring: Option<RingLayout>) -> (mounted: Result<EstateStore, EstateStoreError>)
        ensures
            mounted is Ok <==> region_fits(capacity, entry, ring, MAX_SLOTS),
            mounted matches Ok(store) ==> store.base_spec() == entry.offset && Some(store.ring_spec()) == ring,
            mounted matches Err(error) ==> error == (EstateStoreError::PartitionGeometry { offset: entry.offset, len: entry.len }),
    {
        if !fits(capacity, entry, ring, MAX_SLOTS) {
            return Err(EstateStoreError::PartitionGeometry { offset: entry.offset, len: entry.len });
        }
        match ring {
            Some(layout) => Ok(EstateStore { base: entry.offset, ring: layout }),
            None => Err(EstateStoreError::PartitionGeometry { offset: entry.offset, len: entry.len }),
        }
    }

    /// Where the ring lives and how it is carved up: offset, slots, slot bytes.
    pub fn geometry(&self) -> (geometry: (u32, usize, usize))
        ensures
            geometry == (self.base_spec(), self.ring_spec().slot_count, self.ring_spec().slot_len),
    {
        (self.base, self.ring.slot_count, self.ring.slot_len)
    }

    /// Tally one pass over the ring's headers, in slot order.
    pub fn scan<E: Copy>(&self, headers: &Vec<SlotHeader<E>>) -> (scan: EstateScan<E>)
        requires
            headers@.len() == self.ring_spec().slot_count,
        ensures
            scan.of(headers@),
    {
        let mut sequences: Vec<Option<u32>> = Vec::new();
        let mut valid: usize = 0;
        let mut blank: usize = 0;
        let mut damaged: usize = 0;
        let mut first_error: Option<E> = None;
        let mut index: usize = 0;
        while index < headers.len()
            invariant
                index <= headers@.len(),
                sequences@ == headers@.subrange(0, index as int).map_values(|header: SlotHeader<E>| header_seq(header)),
                valid == header_count(headers@.subrange(0, index as int)),
                blank == erased_count(headers@.subrange(0, index as int)),
                damaged == failed_count(headers@.subrange(0, index as int)),
                first_error == first_failure(headers@.subrange(0, index as int)),
            decreases headers.len() - index,
        {
            let ghost before = headers@.subrange(0, index as int);
            let ghost after = headers@.subrange(0, index + 1);
            proof {
                assert(after.drop_last() =~= before);
                lemma_header_counts_cover(before);
            }
            match &headers[index] {
                SlotHeader::Header { seq } => {
                    sequences.push(Some(*seq));
                    valid += 1;
                },
                SlotHeader::Blank => {
                    sequences.push(None);
                    blank += 1;
                },
                SlotHeader::Damaged(error) => {
                    sequences.push(None);
                    damaged += 1;
                    if first_error.is_none() {
                        first_error = Some(*error);
                    }
                },
            }
            assert(sequences@ =~= after.map_values(|header: SlotHeader<E>| header_seq(header)));
            index += 1;
        }
        assert(headers@.subrange(0, headers@.len() as int) =~= headers@);
        EstateScan { sequences, valid, blank, damaged, first_error }
    }

    /// What a scan adds up to, given the slot the ring's ordering rule named
    /// and, where a record won, whether its rows placed.
    ///
    /// A winning record whose rows would not place is named as the failure
    /// worth reporting, over whatever an older slot said: it is the estate
    /// that was going to be used.
    pub fn load_with<E: Copy>(&self, scan: &EstateScan<E>, named: Option<usize>, placed: Result<(), E>) -> (survey: EstateSurvey<E>)
        requires
            scan.valid + scan.blank + scan.damaged <= usize::MAX,
        ensures
            survey.slots == scan.valid + scan.blank + scan.damaged,
            survey.valid == scan.valid,
            survey.blank == scan.blank,
            survey.damaged == scan.damaged,
            survey.newest_seq == (match scan.winner(named) { Some(won) => Some(won.1), None => None }),
            survey.first_error == (match (scan.winner(named), placed) {
                (Some(_), Err(error)) => Some(error),
                _ => scan.first_error,
            }),
    {
        let won: Option<(usize, u32)> = match named {
            Some(slot) => if slot < scan.sequences.len() {
                match scan.sequences[slot] {
                    Some(seq) => Some((slot, seq)),
                    None => None,
                }
            } else {
                None
            },
            None => None,
        };
        let first_error = match (won, placed) {
            (Some(_), Err(error)) => Some(error),
            _ => scan.first_error,
        };
        EstateSurvey {
            slots: scan.valid + scan.blank + scan.damaged,
            valid: scan.valid,
            blank: scan.blank,
            damaged: scan.damaged,
            newest_seq: match won { Some(pair) => Some(pair.1), None => None },
            first_error,
        }
    }
}

} // verus!

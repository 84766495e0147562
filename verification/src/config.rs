//! The device-configuration ring: what a scan of it found, which namespace
//! pairs it still remembers publishing under, and when a write to it must be
//! refused.
//!
//! Reading the slots and decoding a record are the flash's and the record
//! format's business; what is decided here is what the per-slot outcomes add
//! up to.

use vstd::prelude::*;

use crate::mqtt::bytes_equal;
use crate::region::{fits, region_fits, PartitionEntry, RingLayout};

verus! {

/// Largest ring a scan covers: one sequence number is kept per slot.
pub const MAX_SLOTS: usize = 64;

/// Distinct namespace pairs a scan keeps. This is the scan's capacity, the
/// pair in use included, so it yields at most one fewer stale pair.
pub const MAX_SUPERSEDED: usize = 3;

/// Where a broker session publishes: its state root and its discovery prefix.
#[derive(Debug)]
pub struct Namespaces {
    pub state_root: Vec<u8>,
    pub discovery_prefix: Vec<u8>,
}

impl Namespaces {
    /// The pair as plain bytes.
    pub open spec fn pair(self) -> (Seq<u8>, Seq<u8>) {
        (self.state_root@, self.discovery_prefix@)
    }

    /// Whether two pairs name the same namespaces.
    pub fn same(&self, other: &Namespaces) -> (same: bool)
        ensures
            same == (self.pair() == other.pair()),
    {
        bytes_equal(self.state_root.as_slice(), other.state_root.as_slice())
            && bytes_equal(self.discovery_prefix.as_slice(), other.discovery_prefix.as_slice())
    }

    fn copy(&self) -> (copy: Namespaces)
        ensures
            copy.pair() == self.pair(),
    {
        let state_root = self.state_root.clone();
        let discovery_prefix = self.discovery_prefix.clone();
        assert(state_root@ =~= self.state_root@);
        assert(discovery_prefix@ =~= self.discovery_prefix@);
        Namespaces { state_root, discovery_prefix }
    }
}

/// The pairs a `heapless::Vec` of at most three namespace pairs holds, in
/// order.
pub uninterp spec fn namespace_pairs(list: heapless::Vec<Namespaces, 3>) -> Seq<(Seq<u8>, Seq<u8>)>;

/// Calls `heapless::Vec::<Namespaces, 3>::new`.
#[verifier::external_body]
fn no_namespaces() -> (list: heapless::Vec<Namespaces, 3>)
    ensures
        namespace_pairs(list) == Seq::<(Seq<u8>, Seq<u8>)>::empty(),
{
    heapless::Vec::new()
}

/// Calls `heapless::Vec::<Namespaces, 3>::push`, which appends while the
/// vector is below its capacity of three and otherwise hands the pair back.
#[verifier::external_body]
fn push_namespaces(list: &mut heapless::Vec<Namespaces, 3>, found: Namespaces) -> (pushed: bool)
    ensures
        namespace_pairs(*old(list)).len() <= 3,
        pushed == (namespace_pairs(*old(list)).len() < 3),
        pushed ==> namespace_pairs(*final(list)) == namespace_pairs(*old(list)).push(found.pair()),
        !pushed ==> namespace_pairs(*final(list)) == namespace_pairs(*old(list)),
{
    list.push(found).is_ok()
}

/// Calls `heapless::Vec::<Namespaces, 3>::as_slice`.
#[verifier::external_body]
pub(crate) fn namespaces_slice(list: &heapless::Vec<Namespaces, 3>) -> (items: &[Namespaces])
    ensures
        items@.map_values(|n: Namespaces| n.pair()) == namespace_pairs(*list),
        items@.len() <= 3,
{
    list.as_slice()
}

/// What reading one slot gave: a record that passed its checksum (its
/// sequence number, and the namespaces its broker settings name, if it has
/// any), an erased slot, or anything else.
#[derive(Debug)]
pub enum SlotRead {
    Record { seq: u32, namespaces: Option<Namespaces> },
    Blank,
    Damaged,
}

/// The pair a slot names, if it holds a record with broker settings.
pub open spec fn named_pair(read: SlotRead) -> Option<(Seq<u8>, Seq<u8>)> {
    match read {
        SlotRead::Record { namespaces: Some(found), .. } => Some(found.pair()),
        _ => None,
    }
}

/// Slots holding a readable record.
pub open spec fn valid_count(reads: Seq<SlotRead>) -> nat
    decreases reads.len(),
{
    if reads.len() == 0 {
        0
    } else {
        valid_count(reads.drop_last()) + if reads.last() is Record { 1nat } else { 0nat }
    }
}

/// Erased slots.
pub open spec fn blank_count(reads: Seq<SlotRead>) -> nat
    decreases reads.len(),
{
    if reads.len() == 0 {
        0
    } else {
        blank_count(reads.drop_last()) + if reads.last() is Blank { 1nat } else { 0nat }
    }
}

/// Slots holding neither.
pub open spec fn damaged_count(reads: Seq<SlotRead>) -> nat
    decreases reads.len(),
{
    if reads.len() == 0 {
        0
    } else {
        damaged_count(reads.drop_last()) + if reads.last() is Damaged { 1nat } else { 0nat }
    }
}

/// The distinct namespace pairs the slots name, first seen first, as many as
/// [`MAX_SUPERSEDED`] keeps — and whether a distinct pair found no room.
pub open spec fn collected(reads: Seq<SlotRead>) -> (Seq<(Seq<u8>, Seq<u8>)>, bool)
    decreases reads.len(),
{
    if reads.len() == 0 {
        (Seq::empty(), false)
    } else {
        let (kept, truncated) = collected(reads.drop_last());
        match named_pair(reads.last()) {
            Some(pair) => if kept.contains(pair) {
                (kept, truncated)
            } else if kept.len() < MAX_SUPERSEDED {
                (kept.push(pair), truncated)
            } else {
                (kept, true)
            },
            None => (kept, truncated),
        }
    }
}

/// The sequence number a slot holds, if it holds a record.
pub open spec fn sequence_of(read: SlotRead) -> Option<u32> {
    match read {
        SlotRead::Record { seq, .. } => Some(seq),
        _ => None,
    }
}

/// One pass over the ring.
pub struct Scan {
    /// `sequences[i]`: slot `i`'s sequence number, if it holds a record.
    pub sequences: Vec<Option<u32>>,
    /// `free[i]`: slot `i` is erased, so it takes a write without an erase.
    pub free: Vec<bool>,
    pub valid: usize,
    pub blank: usize,
    pub damaged: usize,
    /// Every distinct pair any record names, the newest's included.
    pub namespaces: heapless::Vec<Namespaces, 3>,
    /// A distinct pair had to be dropped for lack of room.
    pub namespaces_truncated: bool,
}

impl Scan {
    /// The distinct pairs the scan kept, first seen first.
    pub fn kept_pairs(&self) -> (pairs: &[Namespaces])
        ensures
            pairs@.map_values(|n: Namespaces| n.pair()) == namespace_pairs(self.namespaces),
    {
        namespaces_slice(&self.namespaces)
    }

    /// The scan `reads` yields.
    pub open spec fn of(self, reads: Seq<SlotRead>) -> bool {
        &&& self.sequences@ == reads.map_values(|read: SlotRead| sequence_of(read))
        &&& self.free@ == reads.map_values(|read: SlotRead| read is Blank)
        &&& self.valid == valid_count(reads)
        &&& self.blank == blank_count(reads)
        &&& self.damaged == damaged_count(reads)
        &&& namespace_pairs(self.namespaces) == collected(reads).0
        &&& self.namespaces_truncated == collected(reads).1
    }
}

/// Why the configuration region could not be used.
#[derive(Clone, Copy, Debug, PartialEq, Eq, Structural)]
pub enum ConfigError {
    /// The partition table could not be read or parsed.
    PartitionTable,
    /// No data partition carries the region's label.
    PartitionMissing,
    /// The partition exists but is the wrong shape for the ring.
    PartitionGeometry { offset: u32, len: u32 },
    /// The flash refused a read, write or erase.
    Flash,
    /// The record read back after a write is not the record written.
    NotDurable,
    /// The ring holds readable records but no newest one could be named: two
    /// reads of the same cells disagreed.
    Unstable { valid: usize },
    /// A slot index outside the ring.
    SlotOutOfRange { slot: usize },
}

/// What a scan found, for the boot report — and the stale namespace pairs,
/// which the broker session clears.
pub struct ConfigSurvey {
    pub slots: usize,
    pub valid: usize,
    pub blank: usize,
    pub damaged: usize,
    pub newest_seq: Option<u32>,
    /// Pairs seen in the ring that the newest record does not use.
    pub superseded: heapless::Vec<Namespaces, 3>,
    pub superseded_truncated: bool,
}

impl ConfigSurvey {
    /// The superseded pairs, in the order the scan found them.
    pub fn superseded_pairs(&self) -> (pairs: &[Namespaces])
        ensures
            pairs@.map_values(|n: Namespaces| n.pair()) == namespace_pairs(self.superseded),
    {
        namespaces_slice(&self.superseded)
    }
}

/// The newest record's sequence number and the namespaces it publishes
/// under, as the second read of the winning slot gave them.
pub struct NewestRecord {
    pub seq: u32,
    pub namespaces: Option<Namespaces>,
}

/// The pair the newest record publishes under, if there is one.
pub open spec fn pair_in_use(newest: Option<NewestRecord>) -> Option<(Seq<u8>, Seq<u8>)> {
    match newest {
        Some(record) => match record.namespaces {
            Some(found) => Some(found.pair()),
            None => None,
        },
        None => None,
    }
}

/// `kept` without the pair in use.
pub open spec fn stale_pairs(kept: Seq<(Seq<u8>, Seq<u8>)>, current: Option<(Seq<u8>, Seq<u8>)>) -> Seq<(Seq<u8>, Seq<u8>)> {
    kept.filter(|pair: (Seq<u8>, Seq<u8>)| Some(pair) != current)
}

/// Every slot is exactly one of readable, erased or neither.
pub proof fn lemma_counts_cover(reads: Seq<SlotRead>)
    ensures
        valid_count(reads) + blank_count(reads) + damaged_count(reads) == reads.len(),
    decreases reads.len(),
{
    if reads.len() > 0 {
        lemma_counts_cover(reads.drop_last());
    }
}

/// Whether `list` already holds `pair`.
fn holds_pair(list: &heapless::Vec<Namespaces, 3>, pair: &Namespaces) -> (held: bool)
    ensures
        held == namespace_pairs(*list).contains(pair.pair()),
{
    let items = namespaces_slice(list);
    let ghost pairs = namespace_pairs(*list);
    let mut index: usize = 0;
    while index < items.len()
        invariant
            index <= items@.len(),
            items@.map_values(|n: Namespaces| n.pair()) == pairs,
            pairs == namespace_pairs(*list),
            forall|i: int| 0 <= i < index ==> pairs[i] != pair.pair(),
        decreases items.len() - index,
    {
        if items[index].same(pair) {
            assert(pairs[index as int] == items@[index as int].pair());
            assert(pairs[index as int] == pair.pair());
            assert(index < pairs.len());
            assert(pairs.contains(pair.pair()));
            return true;
        }
        index += 1;
    }
    assert forall|i: int| 0 <= i < pairs.len() implies pairs[i] != pair.pair() by {}
    false
}


/// The pairs a scan keeps are distinct, at most [`MAX_SUPERSEDED`] of them,
/// and each is named by some slot of the ring.
pub proof fn law_kept_pairs_are_distinct_and_found(reads: Seq<SlotRead>)
    ensures
        collected(reads).0.len() <= MAX_SUPERSEDED,
        collected(reads).0.no_duplicates(),
        forall|k: int| #![trigger collected(reads).0[k]] 0 <= k < collected(reads).0.len() ==>
            exists|i: int| 0 <= i < reads.len() && named_pair(#[trigger] reads[i]) == Some(collected(reads).0[k]),
    decreases reads.len(),
{
    if reads.len() > 0 {
        let rest = reads.drop_last();
        law_kept_pairs_are_distinct_and_found(rest);
        let kept = collected(rest).0;
        let now = collected(reads).0;
        assert forall|k: int| #![trigger now[k]] 0 <= k < now.len() implies
            exists|i: int| 0 <= i < reads.len() && named_pair(#[trigger] reads[i]) == Some(now[k]) by {
            if k < kept.len() {
                assert(now[k] == kept[k]);
                let i = choose|i: int| 0 <= i < rest.len() && named_pair(#[trigger] rest[i]) == Some(kept[k]);
                assert(reads[i] == rest[i]);
            } else {
                assert(named_pair(reads[reads.len() - 1]) == Some(now[k]));
            }
        }
    }
}

/// A pair some slot names is kept by the scan, unless the scan reports that
/// it ran out of room: no stale namespace is dropped silently.
pub proof fn law_found_pairs_are_kept_or_reported(reads: Seq<SlotRead>, i: int)
    requires
        0 <= i < reads.len(),
        named_pair(reads[i]) is Some,
    ensures
        collected(reads).0.contains(named_pair(reads[i])->0) || collected(reads).1,
    decreases reads.len(),
{
    let rest = reads.drop_last();
    if i < reads.len() - 1 {
        assert(rest[i] == reads[i]);
        law_found_pairs_are_kept_or_reported(rest, i);
        let kept = collected(rest).0;
        let pair = named_pair(reads[i])->0;
        if kept.contains(pair) {
            let k = choose|k: int| 0 <= k < kept.len() && kept[k] == pair;
            assert(collected(reads).0[k] == pair);
        }
    } else {
        let pair = named_pair(reads[i])->0;
        let kept = collected(rest).0;
        if !kept.contains(pair) && kept.len() < MAX_SUPERSEDED {
            assert(collected(reads).0[kept.len() as int] == pair);
        }
    }
}

/// The superseded pairs are exactly the kept pairs other than the one in
/// use, in the order the scan kept them; so where the pair in use was kept,
/// fewer remain to be cleared than were kept — at most `MAX_SUPERSEDED - 1`.
pub proof fn law_superseded_is_kept_minus_current(
    kept: Seq<(Seq<u8>, Seq<u8>)>,
    current: Option<(Seq<u8>, Seq<u8>)>,
)
    requires
        kept.len() <= MAX_SUPERSEDED,
        kept.no_duplicates(),
    ensures
        forall|k: int| 0 <= k < stale_pairs(kept, current).len() ==>
            Some(#[trigger] stale_pairs(kept, current)[k]) != current
            && kept.contains(stale_pairs(kept, current)[k]),
        forall|k: int| 0 <= k < kept.len() && Some(#[trigger] kept[k]) != current ==>
            stale_pairs(kept, current).contains(kept[k]),
        current matches Some(pair) && kept.contains(pair) ==> stale_pairs(kept, current).len() < kept.len(),
    decreases kept.len(),
{
    reveal(Seq::filter);
    let pred = |pair: (Seq<u8>, Seq<u8>)| Some(pair) != current;
    assert forall|k: int| 0 <= k < stale_pairs(kept, current).len() implies
        Some(#[trigger] stale_pairs(kept, current)[k]) != current
        && kept.contains(stale_pairs(kept, current)[k]) by {
        let item = stale_pairs(kept, current)[k];
        kept.lemma_filter_pred(pred, k);
        assert(stale_pairs(kept, current).contains(item));
        kept.lemma_filter_contains_rev(pred, item);
    }
    assert forall|k: int| 0 <= k < kept.len() && Some(#[trigger] kept[k]) != current implies
        stale_pairs(kept, current).contains(kept[k]) by {
        kept.lemma_filter_contains(pred, k);
    }
    if kept.len() > 0 {
        let rest = kept.drop_last();
        assert(rest.no_duplicates());
        law_superseded_is_kept_minus_current(rest, current);
        rest.lemma_filter_len(pred);
        if let Some(pair) = current {
            if kept.contains(pair) {
                if kept.last() != pair {
                    let k = choose|k: int| 0 <= k < kept.len() && kept[k] == pair;
                    assert(rest[k] == pair);
                    assert(rest.contains(pair));
                }
            }
        }
    }
}

/// The mounted configuration region: where it starts and how it is carved.
pub struct ConfigStore {
    base: u32,
    ring: RingLayout,
}

impl ConfigStore {
    pub closed spec fn base_spec(self) -> u32 {
        self.base
    }

    pub closed spec fn ring_spec(self) -> RingLayout {
        self.ring
    }

    /// Take the region the partition table named, if the ring fits in it.
    ///
    /// `ring` is how the ring layout carves `entry`'s length, or `None` where
    /// it cannot.
    pub fn mount(capacity: u64, entry: PartitionEntry, ring: Option<RingLayout>) -> (mounted: Result<ConfigStore, ConfigError>)
        ensures
            mounted is Ok <==> region_fits(capacity, entry, ring, MAX_SLOTS),
            mounted matches Ok(store) ==> store.base_spec() == entry.offset && Some(store.ring_spec()) == ring,
            mounted matches Err(error) ==> error == (ConfigError::PartitionGeometry { offset: entry.offset, len: entry.len }),
    {
        if !fits(capacity, entry, ring, MAX_SLOTS) {
            return Err(ConfigError::PartitionGeometry { offset: entry.offset, len: entry.len });
        }
        match ring {
            Some(layout) => Ok(ConfigStore { base: entry.offset, ring: layout }),
            None => Err(ConfigError::PartitionGeometry { offset: entry.offset, len: entry.len }),
        }
    }

    /// Where the ring lives and how it is carved up: offset, slots, slot bytes.
    pub fn geometry(&self) -> (geometry: (u32, usize, usize))
        ensures
            geometry == (self.base_spec(), self.ring_spec().slot_count, self.ring_spec().slot_len),
    {
        (self.base, self.ring.slot_count, self.ring.slot_len)
    }

    /// Tally one pass over the ring, slot by slot in slot order.
    pub fn scan(&self, reads: &Vec<SlotRead>) -> (scan: Scan)
        requires
            reads@.len() == self.ring_spec().slot_count,
        ensures
            scan.of(reads@),
    {
        let mut sequences: Vec<Option<u32>> = Vec::new();
        let mut free: Vec<bool> = Vec::new();
        let mut valid: usize = 0;
        let mut blank: usize = 0;
        let mut damaged: usize = 0;
        let mut namespaces = no_namespaces();
        let mut truncated = false;
        let mut index: usize = 0;
        while index < reads.len()
            invariant
                index <= reads@.len(),
                sequences@ == reads@.subrange(0, index as int).map_values(|read: SlotRead| sequence_of(read)),
                free@ == reads@.subrange(0, index as int).map_values(|read: SlotRead| read is Blank),
                valid == valid_count(reads@.subrange(0, index as int)),
                blank == blank_count(reads@.subrange(0, index as int)),
                damaged == damaged_count(reads@.subrange(0, index as int)),
                namespace_pairs(namespaces) == collected(reads@.subrange(0, index as int)).0,
                truncated == collected(reads@.subrange(0, index as int)).1,
            decreases reads.len() - index,
        {
            let ghost before = reads@.subrange(0, index as int);
            let ghost after = reads@.subrange(0, index + 1);
            proof {
                assert(after.drop_last() =~= before);
                lemma_counts_cover(before);
            }
            match &reads[index] {
                SlotRead::Record { seq, namespaces: found } => {
                    sequences.push(Some(*seq));
                    free.push(false);
                    valid += 1;
                    match found {
                        Some(found) => {
                            if !holds_pair(&namespaces, found) {
                                if !push_namespaces(&mut namespaces, found.copy()) {
                                    truncated = true;
                                }
                            }
                        },
                        None => {},
                    }
                },
                SlotRead::Blank => {
                    sequences.push(None);
                    free.push(true);
                    blank += 1;
                },
                SlotRead::Damaged => {
                    sequences.push(None);
                    free.push(false);
                    damaged += 1;
                },
            }
            proof {
                assert(sequences@ =~= after.map_values(|read: SlotRead| sequence_of(read)));
                assert(free@ =~= after.map_values(|read: SlotRead| read is Blank));
            }
            index += 1;
        }
        assert(reads@.subrange(0, reads@.len() as int) =~= reads@);
        Scan { sequences, free, valid, blank, damaged, namespaces, namespaces_truncated: truncated }
    }

    /// What a scan adds up to, once the winning slot has been read again:
    /// every pair the ring names except the one in use is superseded.
    pub fn load(&self, scan: Scan, newest: Option<NewestRecord>) -> (survey: ConfigSurvey)
        requires
            scan.valid + scan.blank + scan.damaged <= usize::MAX,
        ensures
            survey.slots == scan.valid + scan.blank + scan.damaged,
            survey.valid == scan.valid,
            survey.blank == scan.blank,
            survey.damaged == scan.damaged,
            survey.newest_seq == (match newest { Some(record) => Some(record.seq), None => None }),
            namespace_pairs(survey.superseded) == stale_pairs(namespace_pairs(scan.namespaces), pair_in_use(newest)),
            survey.superseded_truncated == scan.namespaces_truncated,
    {
        let ghost current = pair_in_use(newest);
        let items = namespaces_slice(&scan.namespaces);
        let ghost kept = namespace_pairs(scan.namespaces);
        let mut superseded = no_namespaces();
        let mut index: usize = 0;
        while index < items.len()
            invariant
                index <= items@.len(),
                items@.map_values(|n: Namespaces| n.pair()) == kept,
                kept.len() <= 3,
                namespace_pairs(superseded) == stale_pairs(kept.subrange(0, index as int), current),
                current == pair_in_use(newest),
            decreases items.len() - index,
        {
            proof {
                assert(kept.subrange(0, index + 1).drop_last() =~= kept.subrange(0, index as int));
                kept.subrange(0, index as int).lemma_filter_len(|pair: (Seq<u8>, Seq<u8>)| Some(pair) != current);
            }
            let in_use = match &newest {
                Some(record) => match &record.namespaces {
                    Some(current_pair) => items[index].same(current_pair),
                    None => false,
                },
                None => false,
            };
            let ghost before = namespace_pairs(superseded);
            assert(kept[index as int] == items@[index as int].pair());
            assert(in_use == (Some(kept[index as int]) == current));
            if !in_use {
                push_namespaces(&mut superseded, items[index].copy());
            }
            proof {
                reveal(Seq::filter);
                let next = kept.subrange(0, index + 1);
                assert(next.last() == kept[index as int]);
                assert(stale_pairs(next, current) == (if Some(next.last()) != current {
                    stale_pairs(next.drop_last(), current).push(next.last())
                } else {
                    stale_pairs(next.drop_last(), current)
                }));
            }
            index += 1;
        }
        assert(kept.subrange(0, kept.len() as int) =~= kept);
        ConfigSurvey {
            slots: scan.valid + scan.blank + scan.damaged,
            valid: scan.valid,
            blank: scan.blank,
            damaged: scan.damaged,
            newest_seq: match &newest { Some(record) => Some(record.seq), None => None },
            superseded,
            superseded_truncated: scan.namespaces_truncated,
        }
    }

    /// Whether a record may be appended after `scan`.
    ///
    /// Refused when the ring holds readable records and no newest one could be
    /// named: aiming the write at the start of the ring with the counter
    /// restarted would erase readable records and write one that every later
    /// scan ranks as the oldest.
    pub fn check_writable(&self, scan: &Scan, newest_named: bool) -> (verdict: Result<(), ConfigError>)
        ensures
            verdict is Err <==> (!newest_named && scan.valid > 0),
            verdict matches Err(error) ==> error == (ConfigError::Unstable { valid: scan.valid }),
    {
        if !newest_named && scan.valid > 0 {
            return Err(ConfigError::Unstable { valid: scan.valid });
        }
        Ok(())
    }
}

} // verus!

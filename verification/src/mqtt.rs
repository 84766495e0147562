//! The broker session's own logic: which commands an inbound message means,
//! which shades own a pairing button, what has been observed of each shade
//! and what of it may be published, and when a repeated failure is worth a
//! log line.

use vstd::prelude::*;
use vstd::string::StringSliceAdditionalSpecFns;

use crate::api::ApiErrorCode;
use crate::bounded::decimal;
use crate::inventory::distinct_ids;
use crate::inventory::{holds, slot_of, Inventory, Row};
use crate::shade::{ControlCommand, Direction, Pairing, ShadeCommand, ShadeId, MAX_SHADES};

verus! {

/// Log a repeated condition on its first occurrence and then once in this many.
pub const RETRY_LOG_INTERVAL: u32 = 10;

/// The shortest wait between broker connection attempts, in milliseconds.
pub const SESSION_RETRY_MIN_MS: u32 = 1000;

/// The longest wait between broker connection attempts, in milliseconds.
pub const SESSION_RETRY_MAX_MS: u32 = 60000;

/// How long a session must last, in milliseconds, to count as working and
/// reset the backoff: a broker that accepts and then drops every session
/// would otherwise be retried at full rate forever.
pub const STABLE_SESSION_MS: u32 = 30000;

/// The keepalive interval asked of the broker, in seconds.
pub const KEEPALIVE_S: u16 = 60;

// ---------------------------------------------------------------------------
// Pairing buttons, as a bitmap
// ---------------------------------------------------------------------------

/// The bit for one registry slot, or none for an id past the registry.
pub open spec fn slot_bit_spec(id: u8) -> u32 {
    if id < MAX_SHADES {
        (1u32 << id) as u32
    } else {
        0
    }
}

/// One bit per registry slot.
pub fn slot_bit(id: ShadeId) -> (bit: u32)
    ensures
        bit == slot_bit_spec(id.0),
{
    if (id.0 as usize) < MAX_SHADES {
        1u32 << id.0
    } else {
        0
    }
}

/// Whether a shade owns a pairing button, according to a bitmap.
pub fn pairing_of(bits: u32, id: ShadeId) -> (pairing: Pairing)
    ensures
        pairing == if bits & slot_bit_spec(id.0) != 0 { Pairing::Offered } else { Pairing::Withheld },
{
    if bits & slot_bit(id) != 0 {
        Pairing::Offered
    } else {
        Pairing::Withheld
    }
}

proof fn lemma_bit_or(bits: u32, k: u8, j: u8)
    requires
        k < 32,
        j < 32,
    ensures
        (bits | (1u32 << k)) & (1u32 << j) != 0 <==> (bits & (1u32 << j) != 0 || j == k),
        (1u32 << j) != 0,
{
    assert((bits | (1u32 << k)) & (1u32 << j) != 0 <==> (bits & (1u32 << j) != 0 || j == k))
        by (bit_vector)
        requires
            k < 32,
            j < 32,
    ;
    assert((1u32 << j) != 0) by (bit_vector)
        requires
            j < 32,
    ;
}

/// Whether the shade in slot `j` is among the first `n` rows and owns a
/// pairing button.
pub open spec fn offered_within(rows: Seq<Row>, n: int, j: u8) -> bool {
    exists|k: int| 0 <= k < n && rows[k].0 == j && rows[k].2
}

/// Which held shades own a pairing button, as one bit per registry slot.
pub fn pairable_bits(inventory: &Inventory) -> (bits: u32)
    requires
        inventory.well_formed(),
    ensures
        forall|j: u8|
            j < MAX_SHADES ==> (#[trigger] (bits & slot_bit_spec(j)) != 0 <==> offered_within(
                inventory.rows(),
                inventory.rows().len() as int,
                j,
            )),
{
    let ids = inventory.ids();
    let ghost rows = inventory.rows();
    proof {
        assert(ids@.map_values(|i: ShadeId| i.0).len() == ids@.len());
        assert(rows.map_values(|row: Row| row.0).len() == rows.len());
    }
    let mut bits: u32 = 0;
    let mut index: usize = 0;
    proof {
        inventory.lemma_well_formed();
        assert forall|j: u8| j < MAX_SHADES implies (#[trigger] (bits & slot_bit_spec(j))) == 0 by {
            let bit = slot_bit_spec(j);
            assert(0u32 & bit == 0) by (bit_vector);
        }
    }
    while index < ids.len()
        invariant
            index <= ids@.len(),
            ids@.len() == rows.len(),
            rows == inventory.rows(),
            inventory.well_formed(),
            ids@.map_values(|i: ShadeId| i.0) == rows.map_values(|row: Row| row.0),
            forall|j: u8|
                j < MAX_SHADES ==> (#[trigger] (bits & slot_bit_spec(j)) != 0 <==> offered_within(
                    rows,
                    index as int,
                    j,
                )),
        decreases ids.len() - index,
    {
        let id = ids[index];
        assert(ids@.map_values(|i: ShadeId| i.0)[index as int] == rows.map_values(
            |row: Row| row.0,
        )[index as int]);
        let offered = inventory.pairing(id) == Pairing::Offered;
        proof {
            inventory.lemma_well_formed();
            crate::inventory::lemma_slot_is_index(rows, index as int);
        }
        let ghost old_bits = bits;
        if offered {
            bits = bits | slot_bit(id);
        }
        proof {
            assert(offered == rows[index as int].2);
            assert(rows[index as int].0 == id.0);
            assert forall|j: u8| j < MAX_SHADES implies (#[trigger] (bits & slot_bit_spec(j)) != 0
                <==> offered_within(rows, index + 1, j)) by {
                let bit = slot_bit_spec(j);
                if offered && id.0 < 32 {
                    lemma_bit_or(old_bits, id.0, j);
                } else if offered {
                    assert(slot_bit_spec(id.0) == 0);
                    assert(old_bits | 0u32 == old_bits) by (bit_vector);
                }
                if offered_within(rows, index + 1, j) && !offered_within(rows, index as int, j) {
                    let k = choose|k: int| 0 <= k < index + 1 && rows[k].0 == j && rows[k].2;
                    assert(k == index);
                }
                if offered && id.0 == j {
                    assert(offered_within(rows, index + 1, j));
                }
                if offered_within(rows, index as int, j) {
                    let k = choose|k: int| 0 <= k < index && rows[k].0 == j && rows[k].2;
                    assert(offered_within(rows, index + 1, j));
                }
            }
        }
        index += 1;
    }
    bits
}

// ---------------------------------------------------------------------------
// What has been observed of each shade
// ---------------------------------------------------------------------------

/// A position, in percent closed: 0 is open, 100 is closed.
#[derive(Clone, Copy, Debug, PartialEq, Eq, Structural)]
pub struct Pos(pub u8);

/// The fully closed position.
pub const POS_FULL: u8 = 100;

/// What the state task reported about one shade.
#[derive(Clone, Copy, Debug, PartialEq, Eq, Structural)]
pub struct StateDelta {
    pub id: ShadeId,
    pub pos: Pos,
    pub direction: Direction,
}

/// One tracked shade.
#[derive(Clone, Copy, Debug, PartialEq, Eq, Structural)]
pub struct Observed {
    pub id: ShadeId,
    pub pos: Pos,
    pub direction: Direction,
    /// Whether a delta has actually reported this shade. Nothing is
    /// published until one has.
    pub seen: bool,
}

/// The last state observed for each shade, so a fresh broker session can be
/// given it without waiting for the next change.
pub struct Known {
    /// `None` means no shade in that slot.
    pub shades: [Option<Observed>; 32],
}

/// A shade that is tracked and has not been reported yet.
pub open spec fn unseen(id: ShadeId) -> Observed {
    Observed { id, pos: Pos(0), direction: Direction::Idle, seen: false }
}

/// Whether slot `i` tracks `id`.
pub open spec fn tracks_at(slots: Seq<Option<Observed>>, i: int, id: u8) -> bool {
    slots[i] matches Some(held) && held.id.0 == id
}

/// Whether any slot tracks `id`.
pub open spec fn is_tracked(slots: Seq<Option<Observed>>, id: u8) -> bool {
    exists|i: int| 0 <= i < slots.len() && tracks_at(slots, i, id)
}

/// The first slot that tracks `id`, or the slot count when none does.
pub open spec fn first_tracking(slots: Seq<Option<Observed>>, id: u8, from: int) -> int
    decreases slots.len() - from,
{
    if from >= slots.len() || from < 0 {
        slots.len() as int
    } else if tracks_at(slots, from, id) {
        from
    } else {
        first_tracking(slots, id, from + 1)
    }
}

/// The first free slot, or the slot count when none is.
pub open spec fn first_free(slots: Seq<Option<Observed>>, from: int) -> int
    decreases slots.len() - from,
{
    if from >= slots.len() || from < 0 {
        slots.len() as int
    } else if slots[from] is None {
        from
    } else {
        first_free(slots, from + 1)
    }
}

/// The ids the first `n` slots track, in slot order.
pub open spec fn tracked_in_order(slots: Seq<Option<Observed>>, n: int) -> Seq<ShadeId>
    decreases n,
{
    if n <= 0 {
        Seq::empty()
    } else {
        let before = tracked_in_order(slots, n - 1);
        match slots[n - 1] {
            Some(held) => before.push(held.id),
            None => before,
        }
    }
}

/// Which topic a state value is published on.
#[derive(Clone, Copy, Debug, PartialEq, Eq, Structural)]
pub enum StateTopic {
    Position,
    State,
}

/// One state value that still has to be addressed.
pub struct StateValue {
    pub id: ShadeId,
    pub topic: StateTopic,
    pub value: Vec<u8>,
}

/// Home Assistant's own cover state word for a shade.
pub open spec fn direction_text(observed: Observed) -> Seq<u8> {
    match observed.direction {
        Direction::Up => seq![111u8, 112, 101, 110, 105, 110, 103],
        Direction::Down => seq![99u8, 108, 111, 115, 105, 110, 103],
        Direction::Idle => if observed.pos.0 == POS_FULL {
            seq![99u8, 108, 111, 115, 101, 100]
        } else {
            seq![111u8, 112, 101, 110]
        },
    }
}

/// What is published about a reported shade is its own id, its position in
/// decimal, and Home Assistant's cover word for its state: `opening` and
/// `closing` while it moves, and at rest `closed` exactly when it is fully
/// closed (position 100) and `open` at every other position.
pub proof fn law_state_words(observed: Observed)
    ensures
        values_of(observed).len() == 2,
        values_of(observed)[0] == (observed.id.0, StateTopic::Position, decimal(observed.pos.0)),
        values_of(observed)[1].0 == observed.id.0,
        values_of(observed)[1].1 == StateTopic::State,
        observed.direction == Direction::Up ==> values_of(observed)[1].2 == seq![111u8, 112, 101, 110, 105, 110, 103],
        observed.direction == Direction::Down ==> values_of(observed)[1].2 == seq![99u8, 108, 111, 115, 105, 110, 103],
        observed.direction == Direction::Idle ==> (values_of(observed)[1].2 == seq![99u8, 108, 111, 115, 101, 100]
            <==> observed.pos.0 == 100),
        observed.direction == Direction::Idle && observed.pos.0 != 100 ==> values_of(observed)[1].2
            == seq![111u8, 112, 101, 110],
{
    assert(seq![111u8, 112, 101, 110] != seq![99u8, 108, 111, 115, 101, 100]);
}

/// The values published for one observation: its position, then its state.
pub open spec fn values_of(observed: Observed) -> Seq<(u8, StateTopic, Seq<u8>)> {
    seq![
        (observed.id.0, StateTopic::Position, decimal(observed.pos.0)),
        (observed.id.0, StateTopic::State, direction_text(observed)),
    ]
}

/// Everything publishable about `id` in the first `n` slots: nothing for a
/// slot that does not track it or that no delta has reported.
pub open spec fn publishable(slots: Seq<Option<Observed>>, id: u8, n: int) -> Seq<(u8, StateTopic, Seq<u8>)>
    decreases n,
{
    if n <= 0 {
        Seq::empty()
    } else {
        let before = publishable(slots, id, n - 1);
        match slots[n - 1] {
            Some(held) => if held.id.0 == id && held.seen {
                before + values_of(held)
            } else {
                before
            },
            None => before,
        }
    }
}

/// A value as plain values.
pub open spec fn value_row(value: StateValue) -> (u8, StateTopic, Seq<u8>) {
    (value.id.0, value.topic, value.value@)
}

/// The decimal digits of a byte value.
pub fn decimal_digits(value: u8) -> (digits: Vec<u8>)
    ensures
        digits@ == decimal(value),
{
    let mut digits: Vec<u8> = Vec::new();
    if value < 10 {
        digits.push(48 + value);
    } else if value < 100 {
        digits.push(48 + value / 10);
        digits.push(48 + value % 10);
    } else {
        digits.push(48 + value / 100);
        digits.push(48 + (value / 10) % 10);
        digits.push(48 + value % 10);
    }
    assert(digits@ =~= decimal(value));
    digits
}

impl StateValue {
    /// A shade's position, as its percentage.
    pub fn position(observed: Observed) -> (value: StateValue)
        ensures
            value_row(value) == values_of(observed)[0],
    {
        StateValue { id: observed.id, topic: StateTopic::Position, value: decimal_digits(observed.pos.0) }
    }

    /// A shade's state, in Home Assistant's own cover vocabulary.
    pub fn direction(observed: Observed) -> (value: StateValue)
        ensures
            value_row(value) == values_of(observed)[1],
    {
        let mut text: Vec<u8> = Vec::new();
        match observed.direction {
            Direction::Up => {
                text.push(111); text.push(112); text.push(101); text.push(110);
                text.push(105); text.push(110); text.push(103);
            },
            Direction::Down => {
                text.push(99); text.push(108); text.push(111); text.push(115);
                text.push(105); text.push(110); text.push(103);
            },
            Direction::Idle => {
                if observed.pos.0 == POS_FULL {
                    text.push(99); text.push(108); text.push(111); text.push(115);
                    text.push(101); text.push(100);
                } else {
                    text.push(111); text.push(112); text.push(101); text.push(110);
                }
            },
        }
        assert(text@ =~= direction_text(observed));
        StateValue { id: observed.id, topic: StateTopic::State, value: text }
    }
}

impl Known {
    /// The slots, as a sequence.
    pub open spec fn slots(&self) -> Seq<Option<Observed>> {
        self.shades@
    }

    /// Track every shade the inventory announces, none of them reported yet.
    pub fn new(inventory: &Inventory) -> (known: Known)
        requires
            inventory.well_formed(),
        ensures
            forall|i: int|
                0 <= i < MAX_SHADES ==> #[trigger] known.slots()[i] == if i < inventory.rows().len() {
                    Some(unseen(ShadeId(inventory.rows()[i].0)))
                } else {
                    None::<Observed>
                },
    {
        let ids = inventory.ids();
        let ghost rows = inventory.rows();
        proof {
            assert(ids@.map_values(|i: ShadeId| i.0).len() == ids@.len());
            assert(rows.map_values(|row: Row| row.0).len() == rows.len());
        }
        proof {
            inventory.lemma_well_formed();
        }
        let mut shades: [Option<Observed>; 32] = [None; 32];
        let mut index: usize = 0;
        while index < ids.len()
            invariant
                index <= ids@.len(),
                ids@.len() == rows.len(),
                rows.len() <= MAX_SHADES,
                ids@.map_values(|i: ShadeId| i.0) == rows.map_values(|row: Row| row.0),
                forall|i: int|
                    0 <= i < MAX_SHADES ==> #[trigger] shades@[i] == if i < index {
                        Some(unseen(ShadeId(rows[i].0)))
                    } else {
                        None::<Observed>
                    },
            decreases ids.len() - index,
        {
            assert(ids@.map_values(|i: ShadeId| i.0)[index as int] == rows.map_values(
                |row: Row| row.0,
            )[index as int]);
            if index < 32 {
                shades[index] = Some(
                    Observed { id: ids[index], pos: Pos(0), direction: Direction::Idle, seen: false },
                );
            }
            index += 1;
        }
        Known { shades }
    }

    /// Start tracking a shade that has just been added: nothing is known of
    /// it yet, so nothing will be published for it until a delta reports it.
    pub fn track(&mut self, id: ShadeId)
        ensures
            ({
                let before = old(self).slots();
                let free = first_free(before, 0);
                &&& is_tracked(before, id.0) ==> final(self).slots() == before
                &&& !is_tracked(before, id.0) && free < MAX_SHADES ==> final(self).slots()
                    == before.update(free, Some(unseen(id)))
                &&& !is_tracked(before, id.0) && free >= MAX_SHADES ==> final(self).slots() == before
            }),
    {
        let mut index: usize = 0;
        while index < 32
            invariant
                index <= 32,
                self.slots() == old(self).slots(),
                forall|i: int| 0 <= i < index ==> !tracks_at(self.slots(), i, id.0),
            decreases 32 - index,
        {
            if let Some(held) = self.shades[index] {
                if held.id.0 == id.0 {
                    assert(tracks_at(self.slots(), index as int, id.0));
                    return;
                }
            }
            index += 1;
        }
        let mut free: usize = 0;
        while free < 32
            invariant
                free <= 32,
                self.slots() == old(self).slots(),
                !is_tracked(self.slots(), id.0),
                forall|i: int| 0 <= i < free ==> self.slots()[i] is Some,
                first_free(self.slots(), 0) == first_free(self.slots(), free as int),
            decreases 32 - free,
        {
            if self.shades[free].is_none() {
                self.shades[free] = Some(Observed { id, pos: Pos(0), direction: Direction::Idle, seen: false });
                return;
            }
            free += 1;
        }
    }

    /// Stop tracking a shade that has been removed, so its last position is
    /// not republished to a topic that has just been cleared.
    pub fn forget(&mut self, id: ShadeId)
        ensures
            forall|i: int|
                0 <= i < MAX_SHADES ==> #[trigger] final(self).slots()[i] == if tracks_at(
                    old(self).slots(),
                    i,
                    id.0,
                ) {
                    None::<Observed>
                } else {
                    old(self).slots()[i]
                },
    {
        let mut index: usize = 0;
        while index < 32
            invariant
                index <= 32,
                forall|i: int|
                    0 <= i < MAX_SHADES ==> #[trigger] self.slots()[i] == if i < index && tracks_at(
                        old(self).slots(),
                        i,
                        id.0,
                    ) {
                        None::<Observed>
                    } else {
                        old(self).slots()[i]
                    },
            decreases 32 - index,
        {
            let ghost before = self.slots();
            assert(before[index as int] == old(self).slots()[index as int]);
            if let Some(held) = self.shades[index] {
                if held.id.0 == id.0 {
                    self.shades[index] = None;
                }
            }
            assert forall|i: int| 0 <= i < MAX_SHADES implies #[trigger] self.slots()[i] == if i
                < index + 1 && tracks_at(old(self).slots(), i, id.0) {
                None::<Observed>
            } else {
                old(self).slots()[i]
            } by {
                if i != index {
                    assert(self.slots()[i] == before[i]);
                }
            }
            index += 1;
        }
    }

    /// Note what a delta said, in the first slot that tracks its shade.
    pub fn record(&mut self, delta: &StateDelta)
        ensures
            first_tracking(old(self).slots(), delta.id.0, 0) < MAX_SHADES ==> final(self).slots()
                == old(self).slots().update(
                first_tracking(old(self).slots(), delta.id.0, 0),
                Some(Observed { id: delta.id, pos: delta.pos, direction: delta.direction, seen: true }),
            ),
            first_tracking(old(self).slots(), delta.id.0, 0) >= MAX_SHADES ==> final(self).slots()
                == old(self).slots(),
    {
        let mut index: usize = 0;
        while index < 32
            invariant
                index <= 32,
                self.slots() == old(self).slots(),
                first_tracking(self.slots(), delta.id.0, 0) == first_tracking(
                    self.slots(),
                    delta.id.0,
                    index as int,
                ),
            decreases 32 - index,
        {
            if let Some(held) = self.shades[index] {
                if held.id.0 == delta.id.0 {
                    self.shades[index] = Some(
                        Observed { id: held.id, pos: delta.pos, direction: delta.direction, seen: true },
                    );
                    return;
                }
            }
            index += 1;
        }
    }

    /// This shade's current state, as values that still have to be
    /// addressed: position then state, and nothing at all for a shade no
    /// delta has reported.
    pub fn of(&self, id: ShadeId) -> (values: Vec<StateValue>)
        ensures
            values@.map_values(|v: StateValue| value_row(v)) == publishable(self.slots(), id.0, 32),
    {
        let mut out: Vec<StateValue> = Vec::new();
        let mut index: usize = 0;
        while index < 32
            invariant
                index <= 32,
                out@.map_values(|v: StateValue| value_row(v)) == publishable(
                    self.slots(),
                    id.0,
                    index as int,
                ),
            decreases 32 - index,
        {
            let ghost before = out@.map_values(|v: StateValue| value_row(v));
            if let Some(slot) = self.shades[index] {
                if slot.id.0 == id.0 && slot.seen {
                    out.push(StateValue::position(slot));
                    out.push(StateValue::direction(slot));
                    assert(out@.map_values(|v: StateValue| value_row(v)) =~= before + values_of(
                        slot,
                    ));
                }
            }
            index += 1;
        }
        out
    }

    /// Every shade this device tracks, for a fresh broker session, in slot
    /// order.
    pub fn ids(&self) -> (ids: Vec<ShadeId>)
        ensures
            ids@ == tracked_in_order(self.slots(), MAX_SHADES as int),
            forall|k: int| 0 <= k < ids@.len() ==> is_tracked(self.slots(), #[trigger] ids@[k].0),
            forall|i: int|
                0 <= i < MAX_SHADES && #[trigger] self.slots()[i] is Some ==> ids@.contains(
                    self.slots()[i]->Some_0.id,
                ),
    {
        let mut out: Vec<ShadeId> = Vec::new();
        let mut index: usize = 0;
        while index < 32
            invariant
                index <= 32,
                out@ == tracked_in_order(self.slots(), index as int),
                forall|k: int| 0 <= k < out@.len() ==> is_tracked(self.slots(), #[trigger] out@[k].0),
                forall|i: int|
                    0 <= i < index && #[trigger] self.slots()[i] is Some ==> out@.contains(
                        self.slots()[i]->Some_0.id,
                    ),
            decreases 32 - index,
        {
            let ghost before = out@;
            if let Some(slot) = self.shades[index] {
                out.push(slot.id);
                proof {
                    assert(tracks_at(self.slots(), index as int, slot.id.0));
                    assert(out@[before.len() as int] == slot.id);
                    assert forall|i: int|
                        0 <= i < index + 1 && #[trigger] self.slots()[i] is Some implies out@.contains(
                            self.slots()[i]->Some_0.id,
                        ) by {
                        if i < index {
                            let k = before.index_of(self.slots()[i]->Some_0.id);
                            assert(out@[k] == before[k]);
                        } else {
                            assert(out@[before.len() as int] == self.slots()[i]->Some_0.id);
                        }
                    }
                }
            }
            index += 1;
        }
        out
    }
}

/// The bitmap and the inventory agree: for every registry slot, the bit is
/// set exactly when the inventory offers that shade a pairing button.
pub proof fn law_bitmap_matches_pairing(rows: Seq<Row>, j: u8)
    requires
        distinct_ids(rows),
    ensures
        offered_within(rows, rows.len() as int, j) <==> (holds(rows, j) && rows[slot_of(rows, j)].2),
{
    if offered_within(rows, rows.len() as int, j) {
        let k = choose|k: int| 0 <= k < rows.len() && rows[k].0 == j && rows[k].2;
        crate::inventory::lemma_slot_is_index(rows, k);
    }
    if holds(rows, j) && rows[slot_of(rows, j)].2 {
        let k = slot_of(rows, j);
        assert(rows[k].0 == j);
    }
}

/// Nothing is publishable about a shade no delta has reported: a position
/// this device does not know is never handed to a broker as if it did.
pub proof fn law_unreported_publishes_nothing(slots: Seq<Option<Observed>>, id: u8, n: int)
    requires
        0 <= n <= slots.len(),
        forall|i: int| 0 <= i < n && #[trigger] tracks_at(slots, i, id) ==> !slots[i]->Some_0.seen,
    ensures
        publishable(slots, id, n) == Seq::<(u8, StateTopic, Seq<u8>)>::empty(),
    decreases n,
{
    if n > 0 {
        law_unreported_publishes_nothing(slots, id, n - 1);
        if slots[n - 1] is Some {
            assert(tracks_at(slots, n - 1, id) ==> !slots[n - 1]->Some_0.seen);
        }
    }
}

/// A shade that has been forgotten has nothing left to publish.
pub proof fn law_forgotten_publishes_nothing(
    before: Seq<Option<Observed>>,
    after: Seq<Option<Observed>>,
    id: u8,
)
    requires
        before.len() == MAX_SHADES,
        after.len() == MAX_SHADES,
        forall|i: int|
            0 <= i < MAX_SHADES ==> #[trigger] after[i] == if tracks_at(before, i, id) {
                None::<Observed>
            } else {
                before[i]
            },
    ensures
        publishable(after, id, MAX_SHADES as int) == Seq::<(u8, StateTopic, Seq<u8>)>::empty(),
{
    assert forall|i: int| 0 <= i < MAX_SHADES && #[trigger] tracks_at(after, i, id) implies !after[i]->Some_0.seen by {
        assert(after[i] == if tracks_at(before, i, id) { None::<Observed> } else { before[i] });
    }
    law_unreported_publishes_nothing(after, id, MAX_SHADES as int);
}

/// No two slots track the same shade.
pub open spec fn tracked_once(slots: Seq<Option<Observed>>, id: u8) -> bool {
    forall|i: int, j: int|
        0 <= i < slots.len() && 0 <= j < slots.len() && tracks_at(slots, i, id) && tracks_at(
            slots,
            j,
            id,
        ) ==> i == j
}

pub(crate) proof fn lemma_first_tracking(slots: Seq<Option<Observed>>, id: u8, from: int)
    requires
        0 <= from <= slots.len(),
    ensures
        from <= first_tracking(slots, id, from) <= slots.len(),
        first_tracking(slots, id, from) < slots.len() ==> tracks_at(
            slots,
            first_tracking(slots, id, from),
            id,
        ),
        forall|i: int| from <= i < first_tracking(slots, id, from) ==> !tracks_at(slots, i, id),
    decreases slots.len() - from,
{
    if from < slots.len() && !tracks_at(slots, from, id) {
        lemma_first_tracking(slots, id, from + 1);
    }
}

pub(crate) proof fn lemma_first_free(slots: Seq<Option<Observed>>, from: int)
    requires
        0 <= from <= slots.len(),
    ensures
        from <= first_free(slots, from) <= slots.len(),
        first_free(slots, from) < slots.len() ==> slots[first_free(slots, from)] is None,
    decreases slots.len() - from,
{
    if from < slots.len() && slots[from] is Some {
        lemma_first_free(slots, from + 1);
    }
}

proof fn lemma_publishable_after_record(
    slots: Seq<Option<Observed>>,
    id: u8,
    k: int,
    report: Observed,
    n: int,
)
    requires
        0 <= k < slots.len(),
        0 <= n <= slots.len(),
        report.id.0 == id,
        report.seen,
        tracks_at(slots, k, id),
        forall|i: int| 0 <= i < slots.len() && i != k ==> !tracks_at(slots, i, id),
    ensures
        publishable(slots.update(k, Some(report)), id, n) == if n <= k {
            Seq::<(u8, StateTopic, Seq<u8>)>::empty()
        } else {
            values_of(report)
        },
    decreases n,
{
    let updated = slots.update(k, Some(report));
    if n > 0 {
        lemma_publishable_after_record(slots, id, k, report, n - 1);
        if n - 1 != k {
            assert(updated[n - 1] == slots[n - 1]);
            assert(!tracks_at(slots, n - 1, id));
        } else {
            assert(Seq::<(u8, StateTopic, Seq<u8>)>::empty() + values_of(report) =~= values_of(report));
        }
    }
}

/// What a delta reports about a shade tracked once is exactly what is
/// publishable about it afterwards: its position, then its state.
pub proof fn law_record_publishes_report(slots: Seq<Option<Observed>>, delta: StateDelta)
    requires
        slots.len() == MAX_SHADES,
        is_tracked(slots, delta.id.0),
        tracked_once(slots, delta.id.0),
    ensures
        ({
            let k = first_tracking(slots, delta.id.0, 0);
            let report = Observed { id: delta.id, pos: delta.pos, direction: delta.direction, seen: true };
            &&& k < MAX_SHADES
            &&& publishable(slots.update(k, Some(report)), delta.id.0, MAX_SHADES as int) == values_of(report)
        }),
{
    lemma_first_tracking(slots, delta.id.0, 0);
    let k = first_tracking(slots, delta.id.0, 0);
    let i = choose|i: int| 0 <= i < slots.len() && tracks_at(slots, i, delta.id.0);
    assert(k <= i);
    let report = Observed { id: delta.id, pos: delta.pos, direction: delta.direction, seen: true };
    lemma_publishable_after_record(slots, delta.id.0, k, report, MAX_SHADES as int);
}

/// Tracking a shade never makes two slots track it.
pub proof fn law_track_keeps_once(slots: Seq<Option<Observed>>, id: ShadeId)
    requires
        slots.len() == MAX_SHADES,
        tracked_once(slots, id.0),
    ensures
        ({
            let free = first_free(slots, 0);
            let after = if is_tracked(slots, id.0) || free >= MAX_SHADES {
                slots
            } else {
                slots.update(free, Some(unseen(id)))
            };
            tracked_once(after, id.0)
        }),
{
    lemma_first_free(slots, 0);
    let free = first_free(slots, 0);
    if !is_tracked(slots, id.0) && free < MAX_SHADES {
        let after = slots.update(free, Some(unseen(id)));
        assert forall|i: int, j: int|
            0 <= i < after.len() && 0 <= j < after.len() && tracks_at(after, i, id.0) && tracks_at(
                after,
                j,
                id.0,
            ) implies i == j by {
            if i != free {
                assert(after[i] == slots[i]);
                assert(!tracks_at(slots, i, id.0));
            }
            if j != free {
                assert(after[j] == slots[j]);
                assert(!tracks_at(slots, j, id.0));
            }
        }
    }
}

// ---------------------------------------------------------------------------
// Inbound commands
// ---------------------------------------------------------------------------

/// A shade this session subscribed to, with the three topics a command for it
/// can arrive on.
pub struct AnnouncedShade {
    pub id: ShadeId,
    pub command_topic: Vec<u8>,
    pub set_position_topic: Vec<u8>,
    pub pair_topic: Vec<u8>,
}

/// The value of a run of decimal digits.
pub open spec fn digits_value(digits: Seq<u8>) -> int
    decreases digits.len(),
{
    if digits.len() == 0 {
        0
    } else {
        digits_value(digits.drop_last()) * 10 + (digits.last() - 48)
    }
}

/// Whether every byte is an ASCII digit.
pub open spec fn all_digits(digits: Seq<u8>) -> bool {
    forall|i: int| 0 <= i < digits.len() ==> 48 <= #[trigger] digits[i] <= 57
}

/// What `str::parse::<u8>` makes of the text: an optional `+`, then at least
/// one digit and nothing else, with a value that fits a byte.
pub open spec fn parse_u8(text: Seq<u8>) -> Option<u8> {
    let digits = if text.len() > 0 && text[0] == 43 { text.skip(1) } else { text };
    if digits.len() > 0 && all_digits(digits) && digits_value(digits) <= 255 {
        Some(digits_value(digits) as u8)
    } else {
        None
    }
}

/// The cover command a payload names: Home Assistant's three defaults, and
/// `VENT`, which is this project's own.
pub open spec fn command_word(text: Seq<u8>) -> Option<ShadeCommand> {
    if text == seq![79u8, 80, 69, 78] {
        Some(ShadeCommand::Up)
    } else if text == seq![67u8, 76, 79, 83, 69] {
        Some(ShadeCommand::Down)
    } else if text == seq![83u8, 84, 79, 80] {
        Some(ShadeCommand::My)
    } else if text == seq![86u8, 69, 78, 84] {
        Some(ShadeCommand::Vent)
    } else {
        None
    }
}

/// `PRESS`, Home Assistant's default button payload.
pub open spec fn press_word() -> Seq<u8> {
    seq![80u8, 82, 69, 83, 83]
}

/// An announced shade as plain values: id and its three topics.
pub open spec fn announced_row(shade: AnnouncedShade) -> (u8, Seq<u8>, Seq<u8>, Seq<u8>) {
    (shade.id.0, shade.command_topic@, shade.set_position_topic@, shade.pair_topic@)
}

/// The command a message means, looking at the shades from `from` on, in
/// order; the first topic that matches decides, and a payload it does not
/// accept is refused rather than passed on.
pub open spec fn decode_from(
    shades: Seq<(u8, Seq<u8>, Seq<u8>, Seq<u8>)>,
    from: int,
    topic: Seq<u8>,
    payload: Seq<u8>,
) -> Option<ControlCommand>
    decreases shades.len() - from,
{
    if from < 0 || from >= shades.len() {
        None
    } else {
        let shade = shades[from];
        let id = ShadeId(shade.0);
        if topic == shade.1 {
            match command_word(payload) {
                Some(command) => Some(ControlCommand::Shade { id, command }),
                None => None,
            }
        } else if topic == shade.2 {
            match parse_u8(payload) {
                Some(percent) => Some(ControlCommand::Shade { id, command: ShadeCommand::GoTo(percent) }),
                None => None,
            }
        } else if topic == shade.3 {
            if payload == press_word() {
                Some(ControlCommand::Shade { id, command: ShadeCommand::Pair })
            } else {
                None
            }
        } else {
            decode_from(shades, from + 1, topic, payload)
        }
    }
}

/// One of a shade's three topics: its command topic (`kind` 0), its
/// set-position topic (1) or its pairing topic (2).
pub open spec fn topic_at(shades: Seq<(u8, Seq<u8>, Seq<u8>, Seq<u8>)>, i: int, kind: int) -> Seq<u8> {
    if kind == 0 {
        shades[i].1
    } else if kind == 1 {
        shades[i].2
    } else {
        shades[i].3
    }
}

/// Whether no two topics of the announced shades are the same, within a
/// shade or across shades.
pub open spec fn topics_distinct(shades: Seq<(u8, Seq<u8>, Seq<u8>, Seq<u8>)>) -> bool {
    forall|i: int, a: int, j: int, b: int|
        0 <= i < shades.len() && 0 <= j < shades.len() && 0 <= a < 3 && 0 <= b < 3 && (i != j || a != b)
            ==> #[trigger] topic_at(shades, i, a) != #[trigger] topic_at(shades, j, b)
}

proof fn lemma_skip_to(shades: Seq<(u8, Seq<u8>, Seq<u8>, Seq<u8>)>, from: int, k: int, kind: int, payload: Seq<u8>)
    requires
        topics_distinct(shades),
        0 <= from <= k < shades.len(),
        0 <= kind < 3,
    ensures
        decode_from(shades, from, topic_at(shades, k, kind), payload) == decode_from(
            shades,
            k,
            topic_at(shades, k, kind),
            payload,
        ),
    decreases k - from,
{
    if from < k {
        let topic = topic_at(shades, k, kind);
        assert(topic_at(shades, from, 0) != topic);
        assert(topic_at(shades, from, 1) != topic);
        assert(topic_at(shades, from, 2) != topic);
        lemma_skip_to(shades, from + 1, k, kind, payload);
    }
}

/// A message on an announced shade's set-position topic commands that shade
/// and no other: with every topic distinct, a payload that parses as `p` on
/// the `k`-th shade's set-position topic moves the `k`-th shade to `p`, and a
/// payload that does not parse is refused.
pub proof fn law_position_commands_its_own_shade(
    shades: Seq<(u8, Seq<u8>, Seq<u8>, Seq<u8>)>,
    k: int,
    payload: Seq<u8>,
)
    requires
        topics_distinct(shades),
        0 <= k < shades.len(),
    ensures
        decode_from(shades, 0, shades[k].2, payload) == (match parse_u8(payload) {
            Some(p) => Some(ControlCommand::Shade { id: ShadeId(shades[k].0), command: ShadeCommand::GoTo(p) }),
            None => None::<ControlCommand>,
        }),
{
    lemma_skip_to(shades, 0, k, 1, payload);
    assert(topic_at(shades, k, 0) != topic_at(shades, k, 1));
}

/// A decoded command is always for the shade whose topic the message came
/// on: some shade at or after `from` has the command's id and one of its
/// three topics is the message's topic.
pub proof fn law_decoded_id_is_the_matched_shade(
    shades: Seq<(u8, Seq<u8>, Seq<u8>, Seq<u8>)>,
    from: int,
    topic: Seq<u8>,
    payload: Seq<u8>,
)
    requires
        from >= 0,
    ensures
        decode_from(shades, from, topic, payload) matches Some(ControlCommand::Shade { id, .. }) ==> exists|k: int|
            from <= k < shades.len() && #[trigger] shades[k].0 == id.0 && (topic == shades[k].1 || topic
                == shades[k].2 || topic == shades[k].3),
    decreases shades.len() - from,
{
    if from < shades.len() {
        let shade = shades[from];
        if topic != shade.1 && topic != shade.2 && topic != shade.3 {
            law_decoded_id_is_the_matched_shade(shades, from + 1, topic, payload);
        }
    }
}

/// Whether two byte strings are equal.
pub(crate) fn bytes_equal(left: &[u8], right: &[u8]) -> (equal: bool)
    ensures
        equal == (left@ == right@),
{
    if left.len() != right.len() {
        return false;
    }
    let mut index: usize = 0;
    while index < left.len()
        invariant
            index <= left@.len(),
            left@.len() == right@.len(),
            forall|i: int| 0 <= i < index ==> left@[i] == right@[i],
        decreases left.len() - index,
    {
        if left[index] != right[index] {
            return false;
        }
        index += 1;
    }
    assert(left@ =~= right@);
    true
}

/// Parse a percentage the way `str::parse::<u8>` does.
pub fn parse_percent(text: &[u8]) -> (percent: Option<u8>)
    ensures
        percent == parse_u8(text@),
{
    let start: usize = if text.len() > 0 && text[0] == 43 { 1 } else { 0 };
    let ghost digits = if text@.len() > 0 && text@[0] == 43 { text@.skip(1) } else { text@ };
    if start >= text.len() {
        proof {
            assert(digits.len() == 0);
        }
        return None;
    }
    let mut value: u32 = 0;
    let mut index: usize = start;
    while index < text.len()
        invariant
            start <= index <= text@.len(),
            start == 0 || start == 1,
            digits == text@.skip(start as int),
            digits == (if text@.len() > 0 && text@[0] == 43 { text@.skip(1) } else { text@ }),
            value <= 255,
            all_digits(digits.subrange(0, index - start)),
            value == digits_value(digits.subrange(0, index - start)),
        decreases text.len() - index,
    {
        let byte = text[index];
        let ghost prefix = digits.subrange(0, index - start);
        let ghost next = digits.subrange(0, index - start + 1);
        proof {
            assert(next.drop_last() =~= prefix);
            assert(next.last() == byte);
        }
        if byte < 48 || byte > 57 {
            proof {
                assert(digits[index - start] == byte);
                assert(!all_digits(digits));
                assert(parse_u8(text@) is None);
            }
            return None;
        }
        let grown = value * 10 + (byte - 48) as u32;
        if grown > 255 {
            proof {
                assert(all_digits(next)) by {
                    assert forall|i: int| 0 <= i < next.len() implies 48 <= #[trigger] next[i] <= 57 by {
                        if i < next.len() - 1 {
                            assert(next[i] == prefix[i]);
                        }
                    }
                }
                assert(digits_value(next) == grown);
                if all_digits(digits) {
                    lemma_digits_value_grows(digits, index - start + 1);
                }
                assert(parse_u8(text@) is None);
            }
            return None;
        }
        value = grown;
        index += 1;
        proof {
            assert forall|i: int| 0 <= i < next.len() implies 48 <= #[trigger] next[i] <= 57 by {
                if i < next.len() - 1 {
                    assert(next[i] == prefix[i]);
                }
            }
        }
    }
    proof {
        assert(digits.subrange(0, digits.len() as int) =~= digits);
    }
    Some(value as u8)
}

/// A longer run of digits is worth at least as much as any prefix of it.
proof fn lemma_digits_value_grows(digits: Seq<u8>, n: int)
    requires
        0 <= n <= digits.len(),
        all_digits(digits),
    ensures
        digits_value(digits) >= digits_value(digits.subrange(0, n)),
    decreases digits.len() - n,
{
    if n < digits.len() {
        lemma_digits_value_grows(digits, n + 1);
        let longer = digits.subrange(0, n + 1);
        assert(longer.drop_last() =~= digits.subrange(0, n));
        assert(digits_value(longer) >= digits_value(digits.subrange(0, n)) * 10);
        lemma_digits_value_nonnegative(digits.subrange(0, n));
    } else {
        assert(digits.subrange(0, n) =~= digits);
    }
}

proof fn lemma_digits_value_nonnegative(digits: Seq<u8>)
    requires
        all_digits(digits),
    ensures
        digits_value(digits) >= 0,
    decreases digits.len(),
{
    if digits.len() > 0 {
        assert(all_digits(digits.drop_last()));
        lemma_digits_value_nonnegative(digits.drop_last());
    }
}

/// The cover command a payload names.
fn command_of(text: &[u8]) -> (command: Option<ShadeCommand>)
    ensures
        command == command_word(text@),
{
    let open: [u8; 4] = [79, 80, 69, 78];
    let close: [u8; 5] = [67, 76, 79, 83, 69];
    let stop: [u8; 4] = [83, 84, 79, 80];
    let vent: [u8; 4] = [86, 69, 78, 84];
    assert(open@ =~= seq![79u8, 80, 69, 78]);
    assert(close@ =~= seq![67u8, 76, 79, 83, 69]);
    assert(stop@ =~= seq![83u8, 84, 79, 80]);
    assert(vent@ =~= seq![86u8, 69, 78, 84]);
    if bytes_equal(text, open.as_slice()) {
        Some(ShadeCommand::Up)
    } else if bytes_equal(text, close.as_slice()) {
        Some(ShadeCommand::Down)
    } else if bytes_equal(text, stop.as_slice()) {
        Some(ShadeCommand::My)
    } else if bytes_equal(text, vent.as_slice()) {
        Some(ShadeCommand::Vent)
    } else {
        None
    }
}

/// The command an inbound message means, over the shades this session
/// announced, or `None` when it is not one.
///
/// `PRESS` on a pairing topic is matched exactly and anything else there is
/// ignored: this is the one command that puts `Prog` on the air.
pub fn decode_command(shades: &[AnnouncedShade], topic: &str, payload: &[u8]) -> (command: Option<ControlCommand>)
    ensures
        command == decode_from(
            shades@.map_values(|s: AnnouncedShade| announced_row(s)),
            0,
            topic.spec_bytes(),
            payload@,
        ),
{
    let ghost rows = shades@.map_values(|s: AnnouncedShade| announced_row(s));
    let topic_bytes = topic.as_bytes();
    let press: [u8; 5] = [80, 82, 69, 83, 83];
    assert(press@ =~= press_word());
    let mut index: usize = 0;
    while index < shades.len()
        invariant
            index <= shades@.len(),
            rows == shades@.map_values(|s: AnnouncedShade| announced_row(s)),
            press@ == press_word(),
            topic_bytes@ == topic.spec_bytes(),
            decode_from(rows, 0, topic_bytes@, payload@) == decode_from(rows, index as int, topic_bytes@, payload@),
        decreases shades.len() - index,
    {
        let shade = &shades[index];
        assert(rows[index as int] == announced_row(*shade));
        if bytes_equal(topic_bytes, shade.command_topic.as_slice()) {
            return match command_of(payload) {
                Some(command) => Some(ControlCommand::Shade { id: ShadeId(shade.id.0), command }),
                None => None,
            };
        }
        if bytes_equal(topic_bytes, shade.set_position_topic.as_slice()) {
            return match parse_percent(payload) {
                Some(percent) => Some(
                    ControlCommand::Shade { id: ShadeId(shade.id.0), command: ShadeCommand::GoTo(percent) },
                ),
                None => None,
            };
        }
        if bytes_equal(topic_bytes, shade.pair_topic.as_slice()) {
            if !bytes_equal(payload, press.as_slice()) {
                return None;
            }
            return Some(ControlCommand::Shade { id: ShadeId(shade.id.0), command: ShadeCommand::Pair });
        }
        index += 1;
    }
    None
}

// ---------------------------------------------------------------------------
// Refusals and rare events
// ---------------------------------------------------------------------------

/// What the add-a-shade form's `Next step` says after a refusal.
#[derive(Clone, Copy, Debug, PartialEq, Eq, Structural)]
pub enum SetupMessage {
    RegistryFull,
    NeedsName,
    NeedsTimes,
    Refused,
}

/// What the form says of a refusal: what to fix where there is something to
/// fix, and that it was refused otherwise.
pub open spec fn refusal_for(code: ApiErrorCode) -> SetupMessage {
    match code {
        ApiErrorCode::RegistryFull => SetupMessage::RegistryFull,
        ApiErrorCode::NameTooLong | ApiErrorCode::NameEmpty => SetupMessage::NeedsName,
        ApiErrorCode::TravelTimeZero => SetupMessage::NeedsTimes,
        _ => SetupMessage::Refused,
    }
}

/// The form message for a refusal from the shade table.
pub fn refusal_message(code: ApiErrorCode) -> (message: SetupMessage)
    ensures
        message == refusal_for(code),
{
    match code {
        ApiErrorCode::RegistryFull => SetupMessage::RegistryFull,
        ApiErrorCode::NameTooLong | ApiErrorCode::NameEmpty => SetupMessage::NeedsName,
        ApiErrorCode::TravelTimeZero => SetupMessage::NeedsTimes,
        _ => SetupMessage::Refused,
    }
}

/// Count one more occurrence of a broker-driven event, and say whether it is
/// one worth a log line: the first, and then one in [`RETRY_LOG_INTERVAL`].
pub fn report_rare(counter: &mut u32) -> (log: bool)
    ensures
        *final(counter) == crate::diag::sat_inc(*old(counter)),
        log == (*final(counter) == 1 || *final(counter) % RETRY_LOG_INTERVAL == 0),
{
    *counter = counter.saturating_add(1);
    *counter == 1 || *counter % RETRY_LOG_INTERVAL == 0
}

/// Whether a session that just ended is worth a log line: the first in a row,
/// any change of backoff step, and otherwise one in [`RETRY_LOG_INTERVAL`].
pub fn session_end_line_due(consecutive: u32, delay_ms: u32, previous_delay_ms: u32) -> (due: bool)
    ensures
        due == (consecutive <= 1 || delay_ms != previous_delay_ms || consecutive % RETRY_LOG_INTERVAL
            == 0),
{
    consecutive <= 1 || delay_ms != previous_delay_ms || consecutive % RETRY_LOG_INTERVAL == 0
}

} // verus!

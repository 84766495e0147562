//! A broker session's own bookkeeping, apart from the wire: which shades it
//! announces and tracks, which removed shades still have entities to clear,
//! whether superseded namespaces remain to be cleared, and what a connection
//! event or a state-task event does to all of that.

use vstd::prelude::*;
use vstd::string::StringSliceAdditionalSpecFns;

use crate::bounded::{empty_ids, id_list, ids_slice, name_str, name_text, push_id};
use crate::edits::{ack_for, plan_for, EventPlan, ShadeAck, ShadeEvent};
use crate::inventory::{distinct_ids, holds, insert_rows, lemma_remove_unholds, remove_rows, Inventory, Row};
use crate::mqtt::{
    first_free, first_tracking, is_tracked, law_forgotten_publishes_nothing, publishable, tracked_once, unseen, Known,
    Observed, StateDelta, StateTopic, StateValue,
};
use crate::shade::{Pairing, ShadeId, MAX_SHADES};

verus! {

/// How the broker answered a CONNECT.
#[derive(Clone, Copy, Debug, PartialEq, Eq, Structural)]
pub enum ConnectEvent {
    /// A fresh session: the broker holds nothing of this device.
    Connected,
    /// The broker resumed an earlier session.
    Reconnected,
}

/// What a new connection has to publish.
#[derive(Clone, Copy, Debug, PartialEq, Eq, Structural)]
pub enum ConnectPlan {
    /// Every announcement, every known state and every diagnostic.
    Resync,
    /// Only that the device is online again.
    OnlineOnly,
}

/// `ids` without `id`.
pub open spec fn without(ids: Seq<u8>, id: u8) -> Seq<u8> {
    ids.filter(|held: u8| held != id)
}

/// An insert keeps every shade already held.
proof fn lemma_insert_keeps(rows: Seq<Row>, id: u8, name: Seq<u8>, offered: bool, x: u8)
    requires
        holds(rows, x),
    ensures
        holds(insert_rows(rows, id, name, offered), x),
{
    let k = choose|k: int| 0 <= k < rows.len() && rows[k].0 == x;
    let after = insert_rows(rows, id, name, offered);
    if holds(rows, id) {
        let j = crate::inventory::slot_of(rows, id);
        if k == j {
            assert(after[k].0 == id);
            assert(rows[j].0 == id);
        } else {
            assert(after[k] == rows[k]);
        }
    } else if rows.len() < MAX_SHADES {
        assert(after[k] == rows[k]);
    }
}

/// A removal keeps every other shade held.
proof fn lemma_remove_keeps(rows: Seq<Row>, id: u8, x: u8)
    requires
        holds(rows, x),
        x != id,
    ensures
        holds(remove_rows(rows, id), x),
{
    let k = choose|k: int| 0 <= k < rows.len() && rows[k].0 == x;
    if holds(rows, id) {
        let j = crate::inventory::slot_of(rows, id);
        let after = rows.remove(j);
        if k < j {
            assert(after[k] == rows[k]);
        } else {
            assert(k != j);
            assert(after[k - 1] == rows[k]);
        }
    }
}

/// Something is publishable about a shade only where some slot tracks it.
pub proof fn lemma_publishable_needs_tracking(slots: Seq<Option<Observed>>, id: u8, n: int)
    requires
        0 <= n <= slots.len(),
        publishable(slots, id, n).len() > 0,
    ensures
        is_tracked(slots, id),
    decreases n,
{
    if n > 0 {
        match slots[n - 1] {
            Some(held) => if held.id.0 == id && held.seen {
                assert(crate::mqtt::tracks_at(slots, n - 1, id));
            } else {
                lemma_publishable_needs_tracking(slots, id, n - 1);
            },
            None => lemma_publishable_needs_tracking(slots, id, n - 1),
        }
    }
}

/// A session's tracked shades are exactly its announced shades: state is
/// only ever published for a shade the session announces, and every
/// announced shade has a slot for its state.
pub proof fn law_tracked_is_announced(rows: Seq<Row>, slots: Seq<Option<Observed>>, id: u8)
    requires
        in_step(rows, slots),
    ensures
        publishable(slots, id, MAX_SHADES as int).len() > 0 ==> holds(rows, id),
        holds(rows, id) <==> is_tracked(slots, id),
{
    if publishable(slots, id, MAX_SHADES as int).len() > 0 {
        lemma_publishable_needs_tracking(slots, id, MAX_SHADES as int);
    }
}

/// The slots a fresh session starts from: the announced shades in order, none
/// of them reported yet.
proof fn lemma_fresh_in_step(rows: Seq<Row>, slots: Seq<Option<Observed>>)
    requires
        distinct_ids(rows),
        rows.len() <= MAX_SHADES,
        slots.len() == MAX_SHADES,
        forall|i: int| 0 <= i < MAX_SHADES ==> #[trigger] slots[i] == if i < rows.len() {
            Some(unseen(ShadeId(rows[i].0)))
        } else {
            None::<Observed>
        },
    ensures
        in_step(rows, slots),
{
    lemma_fresh_occupied(rows, slots, MAX_SHADES as int);
    assert forall|x: u8| #[trigger] is_tracked(slots, x) <==> holds(rows, x) by {
        if is_tracked(slots, x) {
            let i = choose|i: int| 0 <= i < slots.len() && crate::mqtt::tracks_at(slots, i, x);
            assert(slots[i] == if i < rows.len() { Some(unseen(ShadeId(rows[i].0))) } else { None::<Observed> });
            assert(rows[i].0 == x);
        }
        if holds(rows, x) {
            let k = choose|k: int| 0 <= k < rows.len() && rows[k].0 == x;
            assert(slots[k] == Some(unseen(ShadeId(rows[k].0))));
            assert(crate::mqtt::tracks_at(slots, k, x));
        }
    }
    assert forall|x: u8| #[trigger] tracked_once(slots, x) by {
        assert forall|i: int, j: int| 0 <= i < slots.len() && 0 <= j < slots.len()
            && crate::mqtt::tracks_at(slots, i, x) && crate::mqtt::tracks_at(slots, j, x) implies i == j by {
            assert(slots[i] == if i < rows.len() { Some(unseen(ShadeId(rows[i].0))) } else { None::<Observed> });
            assert(slots[j] == if j < rows.len() { Some(unseen(ShadeId(rows[j].0))) } else { None::<Observed> });
            if i != j {
                if i < j {
                    assert(rows[i].0 != rows[j].0);
                } else {
                    assert(rows[j].0 != rows[i].0);
                }
            }
        }
    }
}

proof fn lemma_fresh_occupied(rows: Seq<Row>, slots: Seq<Option<Observed>>, n: int)
    requires
        rows.len() <= MAX_SHADES,
        slots.len() == MAX_SHADES,
        0 <= n <= MAX_SHADES,
        forall|i: int| 0 <= i < MAX_SHADES ==> #[trigger] slots[i] == if i < rows.len() {
            Some(unseen(ShadeId(rows[i].0)))
        } else {
            None::<Observed>
        },
    ensures
        occupied(slots, n) == if n < rows.len() { n } else { rows.len() as int },
    decreases n,
{
    if n > 0 {
        lemma_fresh_occupied(rows, slots, n - 1);
        assert(slots[n - 1] == if n - 1 < rows.len() { Some(unseen(ShadeId(rows[n - 1].0))) } else { None::<Observed> });
    }
}

/// Adding a shade keeps the session in step, whether it was new, already
/// announced, or refused for want of room.
proof fn lemma_add_in_step(
    rows: Seq<Row>,
    slots: Seq<Option<Observed>>,
    id: ShadeId,
    name: Seq<u8>,
    offered: bool,
    after: Seq<Option<Observed>>,
)
    requires
        in_step(rows, slots),
        ({
            let free = first_free(slots, 0);
            &&& is_tracked(slots, id.0) ==> after == slots
            &&& !is_tracked(slots, id.0) && free < MAX_SHADES ==> after == slots.update(free, Some(unseen(id)))
            &&& !is_tracked(slots, id.0) && free >= MAX_SHADES ==> after == slots
        }),
    ensures
        in_step(insert_rows(rows, id.0, name, offered), after),
{
    let grown = insert_rows(rows, id.0, name, offered);
    crate::inventory::lemma_insert_then_lookup(rows, id.0, name, offered);
    crate::mqtt::lemma_first_free(slots, 0);
    lemma_occupied_bound(slots, MAX_SHADES as int);
    assert forall|x: u8| holds(grown, x) <==> (holds(rows, x) || (x == id.0 && (holds(rows, id.0) || rows.len() < MAX_SHADES))) by {
        lemma_insert_holds(rows, id.0, name, offered, x);
    }
    if holds(rows, id.0) {
        assert(is_tracked(slots, id.0));
        let j = crate::inventory::slot_of(rows, id.0);
        assert(grown.len() == rows.len());
    } else if rows.len() < MAX_SHADES {
        assert(!is_tracked(slots, id.0));
        lemma_first_free_finds(slots, 0);
        let free = first_free(slots, 0);
        assert(free < MAX_SHADES);
        assert(slots[free] is None);
        lemma_occupied_update(slots, free, Some(unseen(id)), MAX_SHADES as int);
        assert(grown.len() == rows.len() + 1);
        assert forall|i: int, x: u8| 0 <= i < MAX_SHADES implies
            (#[trigger] crate::mqtt::tracks_at(after, i, x) <==> ((i == free && x == id.0) || (i != free && crate::mqtt::tracks_at(slots, i, x)))) by {
            if i != free {
                assert(after[i] == slots[i]);
            }
        }
        assert forall|x: u8| #[trigger] is_tracked(after, x) <==> holds(grown, x) by {
            if is_tracked(after, x) {
                let i = choose|i: int| 0 <= i < after.len() && crate::mqtt::tracks_at(after, i, x);
                if i != free {
                    assert(crate::mqtt::tracks_at(slots, i, x));
                    assert(is_tracked(slots, x));
                }
            }
            if holds(grown, x) {
                if x == id.0 {
                    assert(crate::mqtt::tracks_at(after, free, x));
                } else {
                    assert(holds(rows, x));
                    assert(is_tracked(slots, x));
                    let i = choose|i: int| 0 <= i < slots.len() && crate::mqtt::tracks_at(slots, i, x);
                    assert(i != free);
                    assert(crate::mqtt::tracks_at(after, i, x));
                }
            }
        }
        crate::mqtt::law_track_keeps_once(slots, id);
        assert forall|x: u8| #[trigger] tracked_once(after, x) by {
            if x != id.0 {
                assert(tracked_once(slots, x));
                assert forall|i: int, j: int| 0 <= i < after.len() && 0 <= j < after.len()
                    && crate::mqtt::tracks_at(after, i, x) && crate::mqtt::tracks_at(after, j, x) implies i == j by {
                    assert(crate::mqtt::tracks_at(slots, i, x));
                    assert(crate::mqtt::tracks_at(slots, j, x));
                }
            }
        }
    } else {
        assert(!is_tracked(slots, id.0));
        assert(occupied(slots, MAX_SHADES as int) == MAX_SHADES);
        lemma_first_free_finds(slots, 0);
        assert(grown == rows);
    }
}

/// Removing a shade keeps the session in step.
proof fn lemma_remove_in_step(rows: Seq<Row>, slots: Seq<Option<Observed>>, id: u8, after: Seq<Option<Observed>>)
    requires
        in_step(rows, slots),
        after.len() == MAX_SHADES,
        forall|i: int| 0 <= i < MAX_SHADES ==> #[trigger] after[i] == if crate::mqtt::tracks_at(slots, i, id) {
            None::<Observed>
        } else {
            slots[i]
        },
    ensures
        in_step(remove_rows(rows, id), after),
{
    let shrunk = remove_rows(rows, id);
    lemma_remove_unholds(rows, id);
    assert forall|x: u8| holds(shrunk, x) <==> (holds(rows, x) && x != id) by {
        lemma_remove_holds(rows, id, x);
    }
    lemma_remove_holds(rows, id, id);
    assert forall|i: int, x: u8| 0 <= i < MAX_SHADES implies
        (#[trigger] crate::mqtt::tracks_at(after, i, x) <==> (x != id && crate::mqtt::tracks_at(slots, i, x))) by {
        assert(after[i] == if crate::mqtt::tracks_at(slots, i, id) { None::<Observed> } else { slots[i] });
    }
    assert forall|x: u8| #[trigger] is_tracked(after, x) <==> holds(shrunk, x) by {
        if is_tracked(after, x) {
            let i = choose|i: int| 0 <= i < after.len() && crate::mqtt::tracks_at(after, i, x);
            assert(crate::mqtt::tracks_at(slots, i, x));
            assert(is_tracked(slots, x));
        }
        if holds(shrunk, x) {
            assert(is_tracked(slots, x));
            let i = choose|i: int| 0 <= i < slots.len() && crate::mqtt::tracks_at(slots, i, x);
            assert(crate::mqtt::tracks_at(after, i, x));
        }
    }
    assert forall|x: u8| #[trigger] tracked_once(after, x) by {
        assert(tracked_once(slots, x));
        assert forall|i: int, j: int| 0 <= i < after.len() && 0 <= j < after.len()
            && crate::mqtt::tracks_at(after, i, x) && crate::mqtt::tracks_at(after, j, x) implies i == j by {
            assert(crate::mqtt::tracks_at(slots, i, x));
            assert(crate::mqtt::tracks_at(slots, j, x));
        }
    }
    if holds(rows, id) {
        assert(is_tracked(slots, id));
        let k = choose|k: int| 0 <= k < slots.len() && crate::mqtt::tracks_at(slots, k, id);
        assert(tracked_once(slots, id));
        assert forall|i: int| 0 <= i < MAX_SHADES implies #[trigger] after[i] == slots.update(k, None::<Observed>)[i] by {
            assert(after[i] == if crate::mqtt::tracks_at(slots, i, id) { None::<Observed> } else { slots[i] });
            if i != k && crate::mqtt::tracks_at(slots, i, id) {
                assert(false);
            }
        }
        assert(after =~= slots.update(k, None::<Observed>));
        lemma_occupied_update(slots, k, None::<Observed>, MAX_SHADES as int);
    } else {
        assert(!is_tracked(slots, id));
        assert forall|i: int| 0 <= i < MAX_SHADES implies #[trigger] after[i] == slots[i] by {
            assert(after[i] == if crate::mqtt::tracks_at(slots, i, id) { None::<Observed> } else { slots[i] });
            if crate::mqtt::tracks_at(slots, i, id) {
                assert(is_tracked(slots, id));
            }
        }
        assert(after =~= slots);
    }
}

/// Recording a delta keeps the session in step: it only rewrites the slot
/// that already tracks the shade.
proof fn lemma_record_in_step(rows: Seq<Row>, slots: Seq<Option<Observed>>, delta: StateDelta, after: Seq<Option<Observed>>)
    requires
        in_step(rows, slots),
        first_tracking(slots, delta.id.0, 0) < MAX_SHADES ==> after == slots.update(
            first_tracking(slots, delta.id.0, 0),
            Some(Observed { id: delta.id, pos: delta.pos, direction: delta.direction, seen: true }),
        ),
        first_tracking(slots, delta.id.0, 0) >= MAX_SHADES ==> after == slots,
    ensures
        in_step(rows, after),
{
    let at = first_tracking(slots, delta.id.0, 0);
    crate::mqtt::lemma_first_tracking(slots, delta.id.0, 0);
    if at < MAX_SHADES {
        assert forall|i: int| 0 <= i < slots.len() implies (#[trigger] after[i] is Some <==> slots[i] is Some) by {
            if i != at {
                assert(after[i] == slots[i]);
            }
        }
        assert forall|i: int, x: u8| 0 <= i < slots.len() implies (#[trigger] crate::mqtt::tracks_at(after, i, x) <==> crate::mqtt::tracks_at(slots, i, x)) by {
            if i != at {
                assert(after[i] == slots[i]);
            }
        }
        lemma_same_tracking(slots, after, MAX_SHADES as int);
    }
}

/// Occupied slots among the first `n`.
pub open spec fn occupied(slots: Seq<Option<Observed>>, n: int) -> nat
    decreases n,
{
    if n <= 0 {
        0
    } else {
        occupied(slots, n - 1) + if slots[n - 1] is Some { 1nat } else { 0nat }
    }
}

/// The tracked shades and the announced shades are the same shades, each
/// tracked in exactly one slot, and no slot is occupied by anything else.
pub open spec fn in_step(rows: Seq<Row>, slots: Seq<Option<Observed>>) -> bool {
    &&& slots.len() == MAX_SHADES
    &&& distinct_ids(rows)
    &&& rows.len() <= MAX_SHADES
    &&& forall|x: u8| #[trigger] is_tracked(slots, x) <==> holds(rows, x)
    &&& forall|x: u8| #[trigger] tracked_once(slots, x)
    &&& occupied(slots, MAX_SHADES as int) == rows.len()
}

proof fn lemma_occupied_bound(slots: Seq<Option<Observed>>, n: int)
    requires
        0 <= n <= slots.len(),
    ensures
        occupied(slots, n) <= n,
        occupied(slots, n) < n ==> exists|i: int| 0 <= i < n && #[trigger] slots[i] is None,
        occupied(slots, n) == n ==> forall|i: int| 0 <= i < n ==> #[trigger] slots[i] is Some,
    decreases n,
{
    if n > 0 {
        lemma_occupied_bound(slots, n - 1);
        if occupied(slots, n) < n && slots[n - 1] is Some {
            let i = choose|i: int| 0 <= i < n - 1 && #[trigger] slots[i] is None;
        }
    }
}

proof fn lemma_first_free_finds(slots: Seq<Option<Observed>>, from: int)
    requires
        0 <= from <= slots.len(),
    ensures
        (exists|i: int| from <= i < slots.len() && #[trigger] slots[i] is None) ==> first_free(slots, from) < slots.len(),
        (forall|i: int| from <= i < slots.len() ==> #[trigger] slots[i] is Some) ==> first_free(slots, from) == slots.len(),
    decreases slots.len() - from,
{
    if from < slots.len() {
        lemma_first_free_finds(slots, from + 1);
        if slots[from] is Some {
            if exists|i: int| from <= i < slots.len() && #[trigger] slots[i] is None {
                let i = choose|i: int| from <= i < slots.len() && #[trigger] slots[i] is None;
                assert(i != from);
                assert(from + 1 <= i);
            }
        }
    }
}

proof fn lemma_occupied_update(slots: Seq<Option<Observed>>, k: int, value: Option<Observed>, n: int)
    requires
        0 <= k < slots.len(),
        0 <= n <= slots.len(),
    ensures
        occupied(slots.update(k, value), n) + (if k < n && slots[k] is Some { 1int } else { 0int })
            == occupied(slots, n) + (if k < n && value is Some { 1int } else { 0int }),
    decreases n,
{
    if n > 0 {
        lemma_occupied_update(slots, k, value, n - 1);
        if n - 1 != k {
            assert(slots.update(k, value)[n - 1] == slots[n - 1]);
        }
    }
}

/// Two slot tables that track the same shades in the same slots.
proof fn lemma_same_tracking(before: Seq<Option<Observed>>, after: Seq<Option<Observed>>, n: int)
    requires
        before.len() == after.len(),
        0 <= n <= before.len(),
        forall|i: int| 0 <= i < before.len() ==> (#[trigger] after[i] is Some <==> before[i] is Some),
        forall|i: int, x: u8| 0 <= i < before.len() ==> (#[trigger] crate::mqtt::tracks_at(after, i, x) <==> crate::mqtt::tracks_at(before, i, x)),
    ensures
        occupied(after, n) == occupied(before, n),
        forall|x: u8| #[trigger] is_tracked(after, x) <==> is_tracked(before, x),
        forall|x: u8| #[trigger] tracked_once(after, x) <==> tracked_once(before, x),
    decreases n,
{
    if n > 0 {
        lemma_same_tracking(before, after, n - 1);
        assert(after[n - 1] is Some <==> before[n - 1] is Some);
    }
    assert forall|x: u8| #[trigger] is_tracked(after, x) implies is_tracked(before, x) by {
        let i = choose|i: int| 0 <= i < after.len() && crate::mqtt::tracks_at(after, i, x);
        assert(crate::mqtt::tracks_at(before, i, x));
    }
    assert forall|x: u8| #[trigger] is_tracked(before, x) implies is_tracked(after, x) by {
        let i = choose|i: int| 0 <= i < before.len() && crate::mqtt::tracks_at(before, i, x);
        assert(crate::mqtt::tracks_at(after, i, x));
    }
    assert forall|x: u8| #[trigger] tracked_once(after, x) <==> tracked_once(before, x) by {
        if tracked_once(before, x) {
            assert forall|i: int, j: int| 0 <= i < after.len() && 0 <= j < after.len()
                && crate::mqtt::tracks_at(after, i, x) && crate::mqtt::tracks_at(after, j, x) implies i == j by {
                assert(crate::mqtt::tracks_at(before, i, x));
                assert(crate::mqtt::tracks_at(before, j, x));
            }
        }
        if tracked_once(after, x) {
            assert forall|i: int, j: int| 0 <= i < before.len() && 0 <= j < before.len()
                && crate::mqtt::tracks_at(before, i, x) && crate::mqtt::tracks_at(before, j, x) implies i == j by {
                assert(crate::mqtt::tracks_at(after, i, x));
                assert(crate::mqtt::tracks_at(after, j, x));
            }
        }
    }
}

/// What an insert does to which shades are held.
proof fn lemma_insert_holds(rows: Seq<Row>, id: u8, name: Seq<u8>, offered: bool, x: u8)
    requires
        distinct_ids(rows),
        rows.len() <= MAX_SHADES,
    ensures
        holds(insert_rows(rows, id, name, offered), x) <==> (holds(rows, x) || (x == id && (holds(rows, id)
            || rows.len() < MAX_SHADES))),
{
    crate::inventory::lemma_insert_then_lookup(rows, id, name, offered);
    if holds(rows, x) {
        lemma_insert_keeps(rows, id, name, offered, x);
    }
    let after = insert_rows(rows, id, name, offered);
    if holds(after, x) && x != id {
        let k = choose|k: int| 0 <= k < after.len() && after[k].0 == x;
        if holds(rows, id) {
            let j = crate::inventory::slot_of(rows, id);
            if k == j {
                assert(after[k].0 == id);
            } else {
                assert(rows[k] == after[k]);
            }
        } else if rows.len() < MAX_SHADES {
            if k < rows.len() {
                assert(rows[k] == after[k]);
            } else {
                assert(after[k].0 == id);
            }
        }
    }
}

/// What a removal does to which shades are held.
proof fn lemma_remove_holds(rows: Seq<Row>, id: u8, x: u8)
    requires
        distinct_ids(rows),
    ensures
        holds(remove_rows(rows, id), x) <==> (holds(rows, x) && x != id),
        remove_rows(rows, id).len() == if holds(rows, id) { rows.len() - 1 } else { rows.len() as int },
{
    lemma_remove_unholds(rows, id);
    if holds(rows, x) && x != id {
        lemma_remove_keeps(rows, id, x);
    }
    let after = remove_rows(rows, id);
    if holds(after, x) && holds(rows, id) {
        let j = crate::inventory::slot_of(rows, id);
        let k = choose|k: int| 0 <= k < after.len() && after[k].0 == x;
        if k < j {
            assert(after[k] == rows[k]);
        } else {
            assert(after[k] == rows[k + 1]);
        }
    }
}

/// What one broker session remembers between connections.
pub struct Broker {
    inventory: Inventory,
    known: Known,
    orphans: heapless::Vec<ShadeId, 32>,
    stale: usize,
    version_logged: bool,
    form_dirty: bool,
    awaiting_setup: u8,
}

impl Broker {
    /// The shades announced, in announcement order.
    pub closed spec fn rows(&self) -> Seq<Row> {
        self.inventory.rows()
    }

    /// The state tracked per shade.
    pub closed spec fn slots(&self) -> Seq<Option<Observed>> {
        self.known.slots()
    }

    /// Removed shades whose entities are still to be cleared.
    pub closed spec fn orphan_ids(&self) -> Seq<u8> {
        id_list(self.orphans)
    }

    /// Superseded configurations still to be cleared.
    pub closed spec fn stale_count(&self) -> nat {
        self.stale as nat
    }

    /// Whether the broker's acceptance has been logged yet.
    pub closed spec fn version_seen(&self) -> bool {
        self.version_logged
    }

    /// Whether the add-a-shade form has to be restated.
    pub closed spec fn form_pending(&self) -> bool {
        self.form_dirty
    }

    /// The live count of shades awaiting setup.
    pub closed spec fn awaiting(&self) -> u8 {
        self.awaiting_setup
    }

    /// The inventory's own invariant, which every operation keeps.
    pub closed spec fn well_formed(&self) -> bool {
        &&& self.inventory.well_formed()
        &&& in_step(self.inventory.rows(), self.known.slots())
    }

    /// What being well formed means to a caller: the tracked shades are the
    /// announced shades.
    pub proof fn lemma_in_step(&self)
        requires
            self.well_formed(),
        ensures
            in_step(self.rows(), self.slots()),
    {
    }

    /// A session over the shades boot found, the removed shades still to be
    /// cleared and the superseded configurations still to be retired.
    pub fn new(inventory: Inventory, orphans: heapless::Vec<ShadeId, 32>, stale: usize) -> (broker: Broker)
        requires
            inventory.well_formed(),
        ensures
            broker.well_formed(),
            broker.rows() == inventory.rows(),
            forall|i: int| 0 <= i < MAX_SHADES ==> #[trigger] broker.slots()[i] == if i < inventory.rows().len() {
                Some(unseen(ShadeId(inventory.rows()[i].0)))
            } else {
                None::<Observed>
            },
            broker.orphan_ids() == id_list(orphans),
            broker.stale_count() == stale,
            !broker.version_seen(),
            broker.form_pending(),
            broker.awaiting() == inventory.awaiting(),
    {
        let known = Known::new(&inventory);
        let awaiting_setup = inventory.awaiting_setup();
        proof {
            inventory.lemma_well_formed();
            lemma_fresh_in_step(inventory.rows(), known.slots());
        }
        Broker { inventory, known, orphans, stale, version_logged: false, form_dirty: true, awaiting_setup }
    }

    /// The shades announced.
    pub fn inventory(&self) -> (inventory: &Inventory)
        ensures
            inventory.rows() == self.rows(),
            self.well_formed() ==> inventory.well_formed(),
    {
        &self.inventory
    }

    /// The state tracked per shade.
    pub fn known(&self) -> (known: &Known)
        ensures
            known.slots() == self.slots(),
    {
        &self.known
    }

    /// Removed shades whose entities are still to be cleared.
    pub fn orphans(&self) -> (orphans: &[ShadeId])
        ensures
            orphans@.map_values(|id: ShadeId| id.0) == self.orphan_ids(),
    {
        ids_slice(&self.orphans)
    }

    /// The live count of shades awaiting setup.
    pub fn awaiting_setup(&self) -> (count: u8)
        ensures
            count == self.awaiting(),
    {
        self.awaiting_setup
    }

    /// What a new connection publishes, and whether to log the broker's
    /// acceptance — once per boot. A fresh session starts from nothing; a
    /// resumed one still holds everything, unless superseded namespaces remain
    /// to be cleared, which only the full announcement does.
    pub fn on_connect(&mut self, event: ConnectEvent) -> (answer: (bool, ConnectPlan))
        ensures
            answer.0 == !old(self).version_seen(),
            final(self).version_seen(),
            answer.1 == (if event == ConnectEvent::Connected || old(self).stale_count() > 0 {
                ConnectPlan::Resync
            } else {
                ConnectPlan::OnlineOnly
            }),
            final(self).rows() == old(self).rows(),
            final(self).slots() == old(self).slots(),
            final(self).orphan_ids() == old(self).orphan_ids(),
            final(self).stale_count() == old(self).stale_count(),
            final(self).form_pending() == old(self).form_pending(),
            final(self).awaiting() == old(self).awaiting(),
            old(self).well_formed() ==> final(self).well_formed(),
    {
        let log = !self.version_logged;
        self.version_logged = true;
        let plan = match event {
            ConnectEvent::Connected => ConnectPlan::Resync,
            ConnectEvent::Reconnected => if self.stale > 0 {
                ConnectPlan::Resync
            } else {
                ConnectPlan::OnlineOnly
            },
        };
        (log, plan)
    }

    /// A full announcement went out: the superseded configurations are
    /// cleared and the form has been restated.
    pub fn announced(&mut self)
        ensures
            final(self).stale_count() == 0,
            !final(self).form_pending(),
            final(self).rows() == old(self).rows(),
            final(self).slots() == old(self).slots(),
            final(self).orphan_ids() == old(self).orphan_ids(),
            final(self).version_seen() == old(self).version_seen(),
            final(self).awaiting() == old(self).awaiting(),
            old(self).well_formed() ==> final(self).well_formed(),
    {
        self.stale = 0;
        self.form_dirty = false;
    }

    /// A shade is no longer owed a retirement.
    fn drop_orphan(&mut self, id: ShadeId)
        ensures
            final(self).orphan_ids() == without(old(self).orphan_ids(), id.0),
            final(self).rows() == old(self).rows(),
            final(self).slots() == old(self).slots(),
            final(self).stale_count() == old(self).stale_count(),
            final(self).version_seen() == old(self).version_seen(),
            final(self).form_pending() == old(self).form_pending(),
            final(self).awaiting() == old(self).awaiting(),
            old(self).well_formed() ==> final(self).well_formed(),
    {
        let held = ids_slice(&self.orphans);
        let ghost before = id_list(self.orphans);
        let mut kept = empty_ids();
        let mut index: usize = 0;
        while index < held.len()
            invariant
                index <= held@.len(),
                held@.map_values(|x: ShadeId| x.0) == before,
                held@.len() <= 32,
                id_list(kept) == without(before.subrange(0, index as int), id.0),
            decreases held.len() - index,
        {
            proof {
                reveal(Seq::filter);
                assert(before.subrange(0, index + 1).drop_last() =~= before.subrange(0, index as int));
                before.subrange(0, index as int).lemma_filter_len(|x: u8| x != id.0);
                assert(before[index as int] == held@[index as int].0);
            }
            if held[index].0 != id.0 {
                push_id(&mut kept, held[index]);
            }
            index += 1;
        }
        assert(before.subrange(0, before.len() as int) =~= before);
        self.orphans = kept;
    }

    /// The state task added a shade: it is announced, and tracked with
    /// nothing known of it yet.
    fn shade_added(&mut self, id: ShadeId, name: &str, pairable: bool)
        requires
            old(self).well_formed(),
        ensures
            final(self).well_formed(),
            final(self).rows() == insert_rows(old(self).rows(), id.0, name.spec_bytes(), pairable),
            ({
                let before = old(self).slots();
                let free = first_free(before, 0);
                &&& is_tracked(before, id.0) ==> final(self).slots() == before
                &&& !is_tracked(before, id.0) && free < MAX_SHADES ==> final(self).slots()
                    == before.update(free, Some(unseen(id)))
                &&& !is_tracked(before, id.0) && free >= MAX_SHADES ==> final(self).slots() == before
            }),
            final(self).orphan_ids() == old(self).orphan_ids(),
            final(self).stale_count() == old(self).stale_count(),
            final(self).awaiting() == old(self).awaiting(),
    {
        let pairing = if pairable { Pairing::Offered } else { Pairing::Withheld };
        proof {
            self.inventory.lemma_well_formed();
            crate::inventory::lemma_insert_then_lookup(self.inventory.rows(), id.0, name.spec_bytes(), pairable);
        }
        self.inventory.insert(id, name, pairing);
        self.known.track(id);
        proof {
            lemma_add_in_step(old(self).rows(), old(self).slots(), id, name.spec_bytes(), pairable, self.known.slots());
        }
    }

    /// The state task removed a shade: it is retired, forgotten and no
    /// longer announced, and nothing more is published about it.
    fn shade_removed(&mut self, id: ShadeId)
        requires
            old(self).well_formed(),
        ensures
            final(self).well_formed(),
            final(self).rows() == remove_rows(old(self).rows(), id.0),
            !holds(final(self).rows(), id.0),
            !is_tracked(final(self).slots(), id.0),
            publishable(final(self).slots(), id.0, MAX_SHADES as int)
                == Seq::<(u8, StateTopic, Seq<u8>)>::empty(),
            final(self).orphan_ids() == without(old(self).orphan_ids(), id.0),
            !final(self).orphan_ids().contains(id.0),
            final(self).stale_count() == old(self).stale_count(),
            final(self).awaiting() == old(self).awaiting(),
    {
        self.drop_orphan(id);
        let ghost before = self.known.slots();
        let ghost before_rows = self.inventory.rows();
        proof {
            self.inventory.lemma_well_formed();
            lemma_remove_unholds(self.inventory.rows(), id.0);
        }
        self.inventory.remove(id);
        self.known.forget(id);
        proof {
            let after = self.known.slots();
            law_forgotten_publishes_nothing(before, after, id.0);
            assert forall|i: int| 0 <= i < after.len() implies !crate::mqtt::tracks_at(after, i, id.0) by {
                assert(after[i] == if crate::mqtt::tracks_at(before, i, id.0) { None::<Observed> } else { before[i] });
            }
            lemma_remove_in_step(before_rows, before, id.0, after);
            let orphans = without(old(self).orphan_ids(), id.0);
            if orphans.contains(id.0) {
                let k = choose|k: int| 0 <= k < orphans.len() && orphans[k] == id.0;
                old(self).orphan_ids().lemma_filter_pred(|held: u8| held != id.0, k);
            }
        }
    }

    /// A removed shade's retirement was attempted. `settled` says whether
    /// every tombstone was acknowledged by the broker: only then is the shade
    /// no longer owed a retirement and the state task told so. Otherwise the
    /// session ends with nothing acknowledged and the shade still owed.
    pub fn retired(&mut self, id: ShadeId, settled: bool) -> (ack: Option<ShadeAck>)
        ensures
            settled ==> ack == Some(ShadeAck::Retired { id }),
            settled ==> final(self).orphan_ids() == without(old(self).orphan_ids(), id.0),
            !settled ==> ack is None,
            !settled ==> final(self).orphan_ids() == old(self).orphan_ids(),
            final(self).rows() == old(self).rows(),
            final(self).slots() == old(self).slots(),
            final(self).stale_count() == old(self).stale_count(),
            final(self).version_seen() == old(self).version_seen(),
            final(self).form_pending() == old(self).form_pending(),
            final(self).awaiting() == old(self).awaiting(),
            old(self).well_formed() ==> final(self).well_formed(),
    {
        if settled {
            self.drop_orphan(id);
            Some(ShadeAck::Retired { id })
        } else {
            None
        }
    }

    /// A state-task event arrived: what the session holds is brought up to
    /// date where that has to come first, and the answer is what to publish.
    ///
    /// An added shade is inserted and tracked here, before anything is
    /// published, because its entities are published from what the session
    /// holds; the plan is to announce it. A removed shade is left exactly as it
    /// is: its entities have to be cleared first, and the plan is to retire
    /// it. [`Broker::event_settled`] finishes the step once the plan's publishes
    /// have been attempted.
    pub fn on_event(&mut self, event: &ShadeEvent) -> (plan: EventPlan)
        requires
            old(self).well_formed(),
        ensures
            final(self).well_formed(),
            plan == plan_for(*event),
            match *event {
                ShadeEvent::Added { id, name, pairable } => {
                    let before = old(self).slots();
                    let free = first_free(before, 0);
                    &&& final(self).rows() == insert_rows(old(self).rows(), id.0, name_text(name), pairable)
                    &&& is_tracked(before, id.0) ==> final(self).slots() == before
                    &&& !is_tracked(before, id.0) && free < MAX_SHADES ==> final(self).slots()
                        == before.update(free, Some(unseen(id)))
                    &&& !is_tracked(before, id.0) && free >= MAX_SHADES ==> final(self).slots() == before
                },
                ShadeEvent::Removed { .. } => {
                    &&& final(self).rows() == old(self).rows()
                    &&& final(self).slots() == old(self).slots()
                },
            },
            final(self).orphan_ids() == old(self).orphan_ids(),
            final(self).stale_count() == old(self).stale_count(),
            final(self).awaiting() == old(self).awaiting(),
    {
        match event {
            ShadeEvent::Added { id, name, pairable } => {
                self.shade_added(*id, name_str(name), *pairable);
                EventPlan::Announce(*id)
            },
            ShadeEvent::Removed { id } => EventPlan::Retire(*id),
        }
    }

    /// The publishes [`Broker::on_event`] planned were attempted; `settled`
    /// says whether the broker acknowledged every one of them.
    ///
    /// An added shade is acknowledged only when its entities settled, and is
    /// held either way. A removed shade is retired, forgotten and
    /// acknowledged only when its tombstones settled; otherwise nothing
    /// changes, the session ends, and the next one retires it again.
    pub fn event_settled(&mut self, event: &ShadeEvent, settled: bool) -> (ack: Option<ShadeAck>)
        requires
            old(self).well_formed(),
        ensures
            final(self).well_formed(),
            ack == (if settled { Some(ack_for(*event)) } else { None::<ShadeAck> }),
            match *event {
                ShadeEvent::Removed { id } => if settled {
                    &&& final(self).rows() == remove_rows(old(self).rows(), id.0)
                    &&& !is_tracked(final(self).slots(), id.0)
                    &&& publishable(final(self).slots(), id.0, MAX_SHADES as int)
                        == Seq::<(u8, StateTopic, Seq<u8>)>::empty()
                    &&& final(self).orphan_ids() == without(old(self).orphan_ids(), id.0)
                } else {
                    &&& final(self).rows() == old(self).rows()
                    &&& final(self).slots() == old(self).slots()
                    &&& final(self).orphan_ids() == old(self).orphan_ids()
                },
                ShadeEvent::Added { .. } => {
                    &&& final(self).rows() == old(self).rows()
                    &&& final(self).slots() == old(self).slots()
                    &&& final(self).orphan_ids() == old(self).orphan_ids()
                },
            },
            final(self).stale_count() == old(self).stale_count(),
            final(self).awaiting() == old(self).awaiting(),
    {
        match event {
            ShadeEvent::Added { id, .. } => {
                if settled { Some(ShadeAck::Announced { id: *id }) } else { None }
            },
            ShadeEvent::Removed { id } => {
                if settled {
                    self.shade_removed(*id);
                    Some(ShadeAck::Retired { id: *id })
                } else {
                    None
                }
            },
        }
    }

    /// The state task restated how many shades await setup.
    pub fn set_awaiting(&mut self, count: u8)
        ensures
            final(self).awaiting() == count,
            final(self).rows() == old(self).rows(),
            final(self).slots() == old(self).slots(),
            final(self).orphan_ids() == old(self).orphan_ids(),
            final(self).stale_count() == old(self).stale_count(),
            old(self).well_formed() ==> final(self).well_formed(),
    {
        self.awaiting_setup = count;
    }

    /// A state delta arrived: it is recorded, and what is now publishable
    /// about that shade is handed back to be published.
    pub fn delta(&mut self, delta: &StateDelta) -> (values: Vec<StateValue>)
        requires
            old(self).well_formed(),
        ensures
            final(self).well_formed(),
            first_tracking(old(self).slots(), delta.id.0, 0) < MAX_SHADES ==> final(self).slots()
                == old(self).slots().update(
                first_tracking(old(self).slots(), delta.id.0, 0),
                Some(Observed { id: delta.id, pos: delta.pos, direction: delta.direction, seen: true }),
            ),
            first_tracking(old(self).slots(), delta.id.0, 0) >= MAX_SHADES ==> final(self).slots()
                == old(self).slots(),
            values@.map_values(|v: StateValue| crate::mqtt::value_row(v))
                == publishable(final(self).slots(), delta.id.0, MAX_SHADES as int),
            final(self).rows() == old(self).rows(),
            final(self).orphan_ids() == old(self).orphan_ids(),
    {
        self.known.record(delta);
        proof {
            let before = old(self).slots();
            let at = first_tracking(before, delta.id.0, 0);
            if at < MAX_SHADES {
                assert(self.known.slots().len() == MAX_SHADES);
                crate::mqtt::lemma_first_tracking(before, delta.id.0, 0);
            }
            lemma_record_in_step(old(self).rows(), before, *delta, self.known.slots());
        }
        self.known.of(delta.id)
    }
}

} // verus!

//! The shades a broker session announces: a snapshot of the confirmed shades
//! taken at boot, kept current by message.
//!
//! Only shades an operator has reported working are held. The ids and the
//! entries are two parallel vectors, so that the ids can be handed out as a
//! slice; they stay the same length, in the same order, and no id is held
//! twice.

use vstd::prelude::*;
use vstd::string::StringSliceAdditionalSpecFns;

use crate::bounded::{
    empty_entries, empty_ids, empty_name, entries_slice, entry_rows, id_list, ids_slice,
    name_str, name_text, push_entry, push_id, push_name, remove_entry, remove_id, row_of,
    set_entry, shade_label, push_name_byte, Entry,
};
use crate::mqtt::decimal_digits;
use crate::shade::{Pairing, ShadeId, MAX_NAME_LEN, MAX_SHADES};

verus! {

/// One held shade as plain values: id, name bytes, whether it owns a pairing
/// button.
pub type Row = (u8, Seq<u8>, bool);

/// One boot's view of which shades exist, what they are called, which of them
/// this controller can pair, and how many are still being set up.
pub struct Inventory {
    ids: heapless::Vec<ShadeId, 32>,
    entries: heapless::Vec<Entry, 32>,
    awaiting_setup: u8,
}

/// A shade the registry holds as confirmed, as boot hands it over.
pub struct ConfirmedShade {
    pub id: ShadeId,
    pub name: heapless::String<32>,
    /// Whether this controller allocated the shade's address.
    pub allocated: bool,
}

/// Write `Shade {id}` into an empty name, one byte at a time.
fn write_label(name: &mut heapless::String<32>, id: u8)
    requires
        name_text(*old(name)).len() == 0,
    ensures
        name_text(*final(name)) == shade_label(id),
{
    let mut label: Vec<u8> = Vec::new();
    label.push(83u8);
    label.push(104u8);
    label.push(97u8);
    label.push(100u8);
    label.push(101u8);
    label.push(32u8);
    let mut digits = decimal_digits(id);
    label.append(&mut digits);
    proof {
        assert(label@ =~= shade_label(id));
    }
    let mut index: usize = 0;
    while index < label.len()
        invariant
            label@ == shade_label(id),
            label@.len() <= 9,
            index <= label@.len(),
            name_text(*name) == label@.subrange(0, index as int),
        decreases label.len() - index,
    {
        let byte = label[index];
        proof {
            assert(byte < 128);
        }
        let pushed = push_name_byte(name, byte);
        proof {
            assert(pushed);
            assert(label@.subrange(0, index + 1) =~= label@.subrange(0, index as int).push(byte));
        }
        index += 1;
    }
    proof {
        assert(label@.subrange(0, label@.len() as int) =~= label@);
    }
}

/// Whether `rows` holds `id`.
pub open spec fn holds(rows: Seq<Row>, id: u8) -> bool {
    exists|k: int| 0 <= k < rows.len() && rows[k].0 == id
}

/// Where `rows` holds `id`, when it does.
pub open spec fn slot_of(rows: Seq<Row>, id: u8) -> int {
    choose|k: int| 0 <= k < rows.len() && rows[k].0 == id
}

/// No id is held twice.
pub open spec fn distinct_ids(rows: Seq<Row>) -> bool {
    forall|a: int, b: int| 0 <= a < b < rows.len() ==> rows[a].0 != rows[b].0
}

/// The name an insert keeps: the one given when it fits, and `Shade {id}`
/// otherwise — never an empty or a truncated one.
pub open spec fn stored_name(id: u8, name: Seq<u8>) -> Seq<u8> {
    if name.len() <= MAX_NAME_LEN {
        name
    } else {
        shade_label(id)
    }
}

/// The rows after an insert: an id already held is replaced in place, a new
/// one is appended when there is room, and a full table is left alone.
pub open spec fn insert_rows(rows: Seq<Row>, id: u8, name: Seq<u8>, offered: bool) -> Seq<Row> {
    let row = (id, stored_name(id, name), offered);
    if holds(rows, id) {
        rows.update(slot_of(rows, id), row)
    } else if rows.len() < MAX_SHADES {
        rows.push(row)
    } else {
        rows
    }
}

/// The rows after a removal.
pub open spec fn remove_rows(rows: Seq<Row>, id: u8) -> Seq<Row> {
    if holds(rows, id) {
        rows.remove(slot_of(rows, id))
    } else {
        rows
    }
}

/// The rows a snapshot of `confirmed` holds: each confirmed shade inserted in
/// registry order.
pub open spec fn snapshot_rows(confirmed: Seq<Row>) -> Seq<Row>
    decreases confirmed.len(),
{
    if confirmed.len() == 0 {
        Seq::empty()
    } else {
        let last = confirmed.last();
        insert_rows(snapshot_rows(confirmed.drop_last()), last.0, last.1, last.2)
    }
}

/// A confirmed shade as plain values.
pub open spec fn confirmed_row(shade: ConfirmedShade) -> Row {
    (shade.id.0, name_text(shade.name), shade.allocated)
}

impl Inventory {
    /// The held shades, in announcement order.
    pub closed spec fn rows(&self) -> Seq<Row> {
        entry_rows(self.entries)
    }

    /// The seed for the live count of shades awaiting setup.
    pub closed spec fn awaiting(&self) -> u8 {
        self.awaiting_setup
    }

    /// The ids and the entries agree, no id is held twice, and the table is
    /// within the registry's size.
    pub closed spec fn well_formed(&self) -> bool {
        &&& id_list(self.ids) == entry_rows(self.entries).map_values(|row: Row| row.0)
        &&& distinct_ids(entry_rows(self.entries))
        &&& entry_rows(self.entries).len() <= MAX_SHADES
    }

    /// What being well formed means to a caller: no id is held twice, and
    /// no more shades are held than the registry has slots.
    pub proof fn lemma_well_formed(&self)
        requires
            self.well_formed(),
        ensures
            distinct_ids(self.rows()),
            self.rows().len() <= MAX_SHADES,
    {
    }

    /// An inventory holding nothing.
    pub fn new(awaiting_setup: u8) -> (inventory: Inventory)
        ensures
            inventory.well_formed(),
            inventory.rows() == Seq::<Row>::empty(),
            inventory.awaiting() == awaiting_setup,
    {
        let inventory = Inventory { ids: empty_ids(), entries: empty_entries(), awaiting_setup };
        assert(id_list(inventory.ids) =~= entry_rows(inventory.entries).map_values(
            |row: Row| row.0,
        ));
        inventory
    }

    /// Copy the shades an operator has reported working. The pairing button
    /// is offered only for an address this controller allocated.
    pub fn snapshot(confirmed: &[ConfirmedShade], awaiting_setup: u8) -> (inventory: Inventory)
        ensures
            inventory.well_formed(),
            inventory.rows() == snapshot_rows(confirmed@.map_values(|s: ConfirmedShade| confirmed_row(s))),
            inventory.awaiting() == awaiting_setup,
    {
        let ghost view = confirmed@.map_values(|s: ConfirmedShade| confirmed_row(s));
        let mut inventory = Inventory::new(awaiting_setup);
        let mut index: usize = 0;
        while index < confirmed.len()
            invariant
                index <= confirmed@.len(),
                inventory.well_formed(),
                inventory.awaiting() == awaiting_setup,
                view == confirmed@.map_values(|s: ConfirmedShade| confirmed_row(s)),
                inventory.rows() == snapshot_rows(view.subrange(0, index as int)),
            decreases confirmed.len() - index,
        {
            let shade = &confirmed[index];
            let pairing = if shade.allocated { Pairing::Offered } else { Pairing::Withheld };
            let name = name_str(&shade.name);
            inventory.insert(shade.id, name, pairing);
            proof {
                let next = view.subrange(0, index + 1);
                assert(next.drop_last() =~= view.subrange(0, index as int));
                assert(next.last() == confirmed_row(confirmed@[index as int]));
            }
            index += 1;
        }
        assert(view.subrange(0, confirmed@.len() as int) =~= view);
        inventory
    }

    /// Where `id` is held, searching the ids in order.
    fn position(&self, id: ShadeId) -> (found: Option<usize>)
        requires
            self.well_formed(),
        ensures
            found is None <==> !holds(self.rows(), id.0),
            found matches Some(k) ==> k == slot_of(self.rows(), id.0) && k < self.rows().len(),
    {
        let ids = ids_slice(&self.ids);
        let ghost rows = self.rows();
        proof {
            assert(ids@.map_values(|i: ShadeId| i.0).len() == ids@.len());
            assert(rows.map_values(|row: Row| row.0).len() == rows.len());
        }
        let mut index: usize = 0;
        while index < ids.len()
            invariant
                index <= ids@.len(),
                ids@.map_values(|id: ShadeId| id.0) == rows.map_values(|row: Row| row.0),
                ids@.len() == rows.len(),
                distinct_ids(rows),
                rows == self.rows(),
                forall|k: int| 0 <= k < index ==> rows[k].0 != id.0,
            decreases ids.len() - index,
        {
            assert(ids@.map_values(|i: ShadeId| i.0)[index as int] == rows.map_values(
                |row: Row| row.0,
            )[index as int]);
            if ids[index].0 == id.0 {
                proof {
                    assert(rows[index as int].0 == id.0);
                    assert(holds(rows, id.0));
                    let k = slot_of(rows, id.0);
                    assert(rows[k].0 == id.0);
                    if k < index {
                        assert(rows[k].0 != rows[index as int].0);
                    } else if k > index {
                        assert(rows[index as int].0 != rows[k].0);
                    }
                }
                return Some(index);
            }
            index += 1;
        }
        None
    }

    /// Add or replace one shade.
    ///
    /// Idempotent on the id: a second insert for an id already held replaces
    /// its name and pairing rather than growing a second row. A name that
    /// does not fit is kept as `Shade {id}` rather than empty or truncated.
    /// A full table is left as it is.
    pub fn insert(&mut self, id: ShadeId, name: &str, pairing: Pairing)
        requires
            old(self).well_formed(),
        ensures
            final(self).well_formed(),
            final(self).rows() == insert_rows(
                old(self).rows(),
                id.0,
                name.spec_bytes(),
                pairing == Pairing::Offered,
            ),
            final(self).awaiting() == old(self).awaiting(),
    {
        let mut held = empty_name();
        if !push_name(&mut held, name) {
            write_label(&mut held, id.0);
        }
        assert(name_text(held) == stored_name(id.0, name.spec_bytes()));
        let entry = Entry { id, name: held, pairing };
        let ghost row = row_of(entry);
        let ghost rows = self.rows();
        match self.position(id) {
            Some(index) => {
                set_entry(&mut self.entries, index, entry);
                proof {
                    let updated = rows.update(index as int, row);
                    assert(updated.map_values(|r: Row| r.0) =~= rows.map_values(|r: Row| r.0));
                    assert forall|a: int, b: int| 0 <= a < b < updated.len() implies updated[a].0
                        != updated[b].0 by {
                        assert(rows[a].0 != rows[b].0);
                    }
                }
            },
            None => {
                let ghost ids_before = id_list(self.ids);
                if push_id(&mut self.ids, id) {
                    let pushed = push_entry(&mut self.entries, entry);
                    proof {
                        assert(pushed);
                        let grown = rows.push(row);
                        assert(grown.map_values(|r: Row| r.0) =~= rows.map_values(
                            |r: Row| r.0,
                        ).push(id.0));
                        assert forall|a: int, b: int| 0 <= a < b < grown.len() implies grown[a].0
                            != grown[b].0 by {
                            if b == rows.len() {
                                assert(!holds(rows, id.0));
                                assert(rows[a].0 != id.0);
                            } else {
                                assert(rows[a].0 != rows[b].0);
                            }
                        }
                    }
                } else {
                    proof {
                        assert(rows.map_values(|r: Row| r.0).len() == rows.len());
                    }
                }
            },
        }
    }

    /// Forget one shade. Returns whether it was there.
    pub fn remove(&mut self, id: ShadeId) -> (was_held: bool)
        requires
            old(self).well_formed(),
        ensures
            final(self).well_formed(),
            was_held == holds(old(self).rows(), id.0),
            final(self).rows() == remove_rows(old(self).rows(), id.0),
            final(self).awaiting() == old(self).awaiting(),
    {
        let ghost rows = self.rows();
        let Some(index) = self.position(id) else {
            return false;
        };
        remove_id(&mut self.ids, index);
        remove_entry(&mut self.entries, index);
        proof {
            let shrunk = rows.remove(index as int);
            assert(shrunk.map_values(|r: Row| r.0) =~= rows.map_values(|r: Row| r.0).remove(
                index as int,
            ));
            assert forall|a: int, b: int| 0 <= a < b < shrunk.len() implies shrunk[a].0
                != shrunk[b].0 by {
                let a0 = if a < index { a } else { a + 1 };
                let b0 = if b < index { b } else { b + 1 };
                assert(shrunk[a] == rows[a0]);
                assert(shrunk[b] == rows[b0]);
            }
        }
        true
    }

    /// The shades to announce, in registry order.
    pub fn ids(&self) -> (ids: &[ShadeId])
        requires
            self.well_formed(),
        ensures
            ids@.map_values(|id: ShadeId| id.0) == self.rows().map_values(|row: Row| row.0),
    {
        ids_slice(&self.ids)
    }

    /// One shade's display name, as Home Assistant will show it.
    pub fn name(&self, id: ShadeId) -> (name: Option<&str>)
        requires
            self.well_formed(),
        ensures
            name is Some <==> holds(self.rows(), id.0),
            name matches Some(text) ==> text.spec_bytes() == self.rows()[slot_of(
                self.rows(),
                id.0,
            )].1,
    {
        match self.position(id) {
            Some(index) => {
                let entries = entries_slice(&self.entries);
                proof {
                    assert(entries@.map_values(|e: Entry| row_of(e))[index as int] == self.rows()[index as int]);
                }
                Some(name_str(&entries[index].name))
            },
            None => None,
        }
    }

    /// Whether a shade owns a pairing button. `Withheld` for an id this
    /// inventory does not hold, which is the safe answer.
    pub fn pairing(&self, id: ShadeId) -> (pairing: Pairing)
        requires
            self.well_formed(),
        ensures
            pairing == Pairing::Offered <==> holds(self.rows(), id.0) && self.rows()[slot_of(
                self.rows(),
                id.0,
            )].2,
    {
        match self.position(id) {
            Some(index) => {
                let entries = entries_slice(&self.entries);
                proof {
                    assert(entries@.map_values(|e: Entry| row_of(e))[index as int] == self.rows()[index as int]);
                }
                entries[index].pairing
            },
            None => Pairing::Withheld,
        }
    }

    /// How many shades this session is announcing.
    pub fn len(&self) -> (count: usize)
        requires
            self.well_formed(),
        ensures
            count == self.rows().len(),
    {
        let ids = ids_slice(&self.ids);
        proof {
            assert(ids@.map_values(|i: ShadeId| i.0).len() == ids@.len());
            assert(self.rows().map_values(|row: Row| row.0).len() == self.rows().len());
        }
        ids.len()
    }

    /// How many shades existed at boot that nobody had reported working.
    pub fn awaiting_setup(&self) -> (count: u8)
        ensures
            count == self.awaiting(),
    {
        self.awaiting_setup
    }
}

/// Inserting the same shade twice is inserting it once: a repeated event
/// cannot make the inventory name a shade twice or change it a second time.
pub proof fn law_insert_idempotent(rows: Seq<Row>, id: u8, name: Seq<u8>, offered: bool)
    requires
        distinct_ids(rows),
        rows.len() <= MAX_SHADES,
    ensures
        insert_rows(insert_rows(rows, id, name, offered), id, name, offered) == insert_rows(
            rows,
            id,
            name,
            offered,
        ),
{
    let once = insert_rows(rows, id, name, offered);
    let row = (id, stored_name(id, name), offered);
    lemma_insert_then_lookup(rows, id, name, offered);
    if holds(once, id) {
        let k = slot_of(once, id);
        assert(once.update(k, row) =~= once);
    }
}

/// After an insert that was not refused for lack of room, the shade is held
/// exactly once, under the name an insert keeps and with the pairing given.
pub proof fn lemma_insert_then_lookup(rows: Seq<Row>, id: u8, name: Seq<u8>, offered: bool)
    requires
        distinct_ids(rows),
        rows.len() <= MAX_SHADES,
    ensures
        distinct_ids(insert_rows(rows, id, name, offered)),
        insert_rows(rows, id, name, offered).len() <= MAX_SHADES,
        holds(rows, id) || rows.len() < MAX_SHADES ==> {
            let after = insert_rows(rows, id, name, offered);
            &&& holds(after, id)
            &&& after[slot_of(after, id)] == (id, stored_name(id, name), offered)
        },
        !holds(rows, id) && rows.len() >= MAX_SHADES ==> insert_rows(rows, id, name, offered)
            == rows,
{
    let row = (id, stored_name(id, name), offered);
    let after = insert_rows(rows, id, name, offered);
    if holds(rows, id) {
        let k = slot_of(rows, id);
        assert(after[k].0 == id);
        assert forall|a: int, b: int| 0 <= a < b < after.len() implies after[a].0 != after[b].0 by {
            assert(rows[a].0 != rows[b].0);
        }
        let j = slot_of(after, id);
        if j != k {
            if j < k {
                assert(after[j].0 != after[k].0);
            } else {
                assert(after[k].0 != after[j].0);
            }
        }
    } else if rows.len() < MAX_SHADES {
        let k = rows.len() as int;
        assert(after[k].0 == id);
        assert forall|a: int, b: int| 0 <= a < b < after.len() implies after[a].0 != after[b].0 by {
            if b == k {
                assert(rows[a].0 != id);
            } else {
                assert(rows[a].0 != rows[b].0);
            }
        }
        let j = slot_of(after, id);
        if j != k {
            assert(after[j] == rows[j]);
        }
    }
}

/// Removing a shade that was just inserted leaves it unheld.
pub proof fn law_remove_after_insert(rows: Seq<Row>, id: u8, name: Seq<u8>, offered: bool)
    requires
        distinct_ids(rows),
        rows.len() <= MAX_SHADES,
    ensures
        !holds(remove_rows(insert_rows(rows, id, name, offered), id), id),
{
    lemma_insert_then_lookup(rows, id, name, offered);
    lemma_remove_unholds(insert_rows(rows, id, name, offered), id);
}

/// A removed shade is no longer held, and nothing else changes order.
pub proof fn lemma_remove_unholds(rows: Seq<Row>, id: u8)
    requires
        distinct_ids(rows),
    ensures
        !holds(remove_rows(rows, id), id),
        distinct_ids(remove_rows(rows, id)),
{
    if holds(rows, id) {
        let k = slot_of(rows, id);
        let after = rows.remove(k);
        assert forall|j: int| 0 <= j < after.len() implies after[j].0 != id by {
            if j < k {
                assert(rows[j].0 != rows[k].0);
            } else {
                assert(after[j] == rows[j + 1]);
                assert(rows[k].0 != rows[j + 1].0);
            }
        }
        assert forall|a: int, b: int| 0 <= a < b < after.len() implies after[a].0 != after[b].0 by {
            let a0 = if a < k { a } else { a + 1 };
            let b0 = if b < k { b } else { b + 1 };
            assert(after[a] == rows[a0]);
            assert(after[b] == rows[b0]);
        }
    }
}

/// In a table with no id held twice, the slot of the id at `index` is
/// `index`.
pub proof fn lemma_slot_is_index(rows: Seq<Row>, index: int)
    requires
        distinct_ids(rows),
        0 <= index < rows.len(),
    ensures
        holds(rows, rows[index].0),
        slot_of(rows, rows[index].0) == index,
{
    let id = rows[index].0;
    assert(holds(rows, id));
    let k = slot_of(rows, id);
    if k < index {
        assert(rows[k].0 != rows[index].0);
    } else if k > index {
        assert(rows[index].0 != rows[k].0);
    }
}


/// Only what boot reported confirmed is announced, and a pairing button is
/// offered only for an address this controller allocated: every shade a
/// snapshot holds is a confirmed shade, under the pairing of its last
/// confirmation.
pub proof fn law_snapshot_announces_only_confirmed(confirmed: Seq<Row>, id: u8)
    ensures
        distinct_ids(snapshot_rows(confirmed)),
        snapshot_rows(confirmed).len() <= MAX_SHADES,
        holds(snapshot_rows(confirmed), id) ==> exists|i: int| 0 <= i < confirmed.len() && #[trigger] confirmed[i].0 == id,
        holds(snapshot_rows(confirmed), id) && snapshot_rows(confirmed)[slot_of(snapshot_rows(confirmed), id)].2
            ==> exists|i: int| 0 <= i < confirmed.len() && #[trigger] confirmed[i].0 == id && confirmed[i].2,
    decreases confirmed.len(),
{
    if confirmed.len() > 0 {
        let rest = confirmed.drop_last();
        let last = confirmed.last();
        law_snapshot_announces_only_confirmed(rest, id);
        let before = snapshot_rows(rest);
        let after = snapshot_rows(confirmed);
        lemma_insert_then_lookup(before, last.0, last.1, last.2);
        if holds(after, id) {
            if id == last.0 {
                assert(confirmed[confirmed.len() - 1].0 == id);
            } else {
                // The row for `id` was already there, untouched by the insert.
                let k = slot_of(after, id);
                assert(after[k].0 == id);
                if holds(before, last.0) {
                    let j = slot_of(before, last.0);
                    assert(after == before.update(j, (last.0, stored_name(last.0, last.1), last.2)));
                    assert(k != j);
                    assert(before[k] == after[k]);
                } else if before.len() < MAX_SHADES {
                    assert(after == before.push((last.0, stored_name(last.0, last.1), last.2)));
                    assert(k < before.len());
                    assert(before[k] == after[k]);
                } else {
                    assert(after == before);
                }
                assert(holds(before, id));
                lemma_slot_is_index(before, k);
                let i = choose|i: int| 0 <= i < rest.len() && #[trigger] rest[i].0 == id;
                assert(confirmed[i] == rest[i]);
                if after[k].2 {
                    assert(before[slot_of(before, id)].2);
                    let i2 = choose|i: int| 0 <= i < rest.len() && #[trigger] rest[i].0 == id && rest[i].2;
                    assert(confirmed[i2] == rest[i2]);
                }
            }
        }
    }
}

} // verus!

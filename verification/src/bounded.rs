//! The fixed-capacity collections of the `heapless` crate, as the shade
//! inventory uses them: a vector that refuses a push when full, and a string
//! whose `push_str` is all-or-nothing.


use vstd::prelude::*;
use vstd::string::StringSliceAdditionalSpecFns;

use crate::shade::{Pairing, ShadeId};

verus! {

#[verifier::external_type_specification]
#[verifier::external_body]
#[verifier::reject_recursive_types(T)]
pub struct ExHeaplessVec<T, const N: usize>(heapless::Vec<T, N>);

#[verifier::external_type_specification]
#[verifier::external_body]
pub struct ExHeaplessString<const N: usize>(heapless::String<N>);

/// One shade as the broker session sees it.
pub struct Entry {
    pub id: ShadeId,
    pub name: heapless::String<32>,
    pub pairing: Pairing,
}

/// An entry as plain values: id, name bytes, and whether a pairing button is
/// offered.
pub open spec fn row_of(entry: Entry) -> (u8, Seq<u8>, bool) {
    (entry.id.0, name_text(entry.name), entry.pairing == Pairing::Offered)
}

/// The bytes a 32-byte `heapless::String` holds.
pub uninterp spec fn name_text(name: heapless::String<32>) -> Seq<u8>;

/// The ids a 32-slot `heapless::Vec` of shade ids holds, in order.
pub uninterp spec fn id_list(ids: heapless::Vec<ShadeId, 32>) -> Seq<u8>;

/// The entries a 32-slot `heapless::Vec` holds, in order, as plain values.
pub uninterp spec fn entry_rows(entries: heapless::Vec<Entry, 32>) -> Seq<(u8, Seq<u8>, bool)>;

/// `b"Shade "` followed by the decimal digits of `id`.
pub open spec fn shade_label(id: u8) -> Seq<u8> {
    seq![83u8, 104u8, 97u8, 100u8, 101u8, 32u8] + decimal(id)
}

/// The decimal digits of `value`, without leading zeros.
pub open spec fn decimal(value: u8) -> Seq<u8> {
    if value < 10 {
        seq![(48 + value) as u8]
    } else if value < 100 {
        seq![(48 + value / 10) as u8, (48 + value % 10) as u8]
    } else {
        seq![(48 + value / 100) as u8, (48 + (value / 10) % 10) as u8, (48 + value % 10) as u8]
    }
}

/// Calls `heapless::String::<32>::new`: an empty string.
#[verifier::external_body]
pub(crate) fn empty_name() -> (name: heapless::String<32>)
    ensures
        name_text(name) == Seq::<u8>::empty(),
{
    heapless::String::new()
}

/// Calls `heapless::String::<32>::push_str`, which appends the whole of
/// `text` when it fits the remaining capacity and otherwise leaves the string
/// as it was.
#[verifier::external_body]
pub(crate) fn push_name(name: &mut heapless::String<32>, text: &str) -> (pushed: bool)
    ensures
        name_text(*old(name)).len() <= 32,
        pushed == (name_text(*old(name)).len() + text.spec_bytes().len() <= 32),
        pushed ==> name_text(*final(name)) == name_text(*old(name)) + text.spec_bytes(),
        !pushed ==> name_text(*final(name)) == name_text(*old(name)),
{
    name.push_str(text).is_ok()
}

/// Calls `heapless::String::<32>::as_str`.
#[verifier::external_body]
pub(crate) fn name_str(name: &heapless::String<32>) -> (text: &str)
    ensures
        text.spec_bytes() == name_text(*name),
        text.spec_bytes().len() <= 32,
{
    name.as_str()
}

/// Calls `heapless::String::<32>::push` with an ASCII byte as a `char`: one
/// byte is appended when there is room, and otherwise the string is left as
/// it was.
#[verifier::external_body]
pub(crate) fn push_name_byte(name: &mut heapless::String<32>, byte: u8) -> (pushed: bool)
    requires
        byte < 128,
    ensures
        pushed == (name_text(*old(name)).len() < 32),
        pushed ==> name_text(*final(name)) == name_text(*old(name)).push(byte),
        !pushed ==> name_text(*final(name)) == name_text(*old(name)),
{
    name.push(byte as char).is_ok()
}

/// Calls `heapless::Vec::<ShadeId, 32>::new`.
#[verifier::external_body]
pub(crate) fn empty_ids() -> (ids: heapless::Vec<ShadeId, 32>)
    ensures
        id_list(ids) == Seq::<u8>::empty(),
{
    heapless::Vec::new()
}

/// Calls `heapless::Vec::<ShadeId, 32>::push`, which appends when there is
/// room and refuses otherwise.
#[verifier::external_body]
pub(crate) fn push_id(ids: &mut heapless::Vec<ShadeId, 32>, id: ShadeId) -> (pushed: bool)
    ensures
        id_list(*old(ids)).len() <= 32,
        pushed == (id_list(*old(ids)).len() < 32),
        pushed ==> id_list(*final(ids)) == id_list(*old(ids)).push(id.0),
        !pushed ==> id_list(*final(ids)) == id_list(*old(ids)),
{
    ids.push(id).is_ok()
}

/// Calls `heapless::Vec::<ShadeId, 32>::remove`, which shifts the later ids
/// down by one.
#[verifier::external_body]
pub(crate) fn remove_id(ids: &mut heapless::Vec<ShadeId, 32>, index: usize)
    requires
        index < id_list(*old(ids)).len(),
    ensures
        id_list(*final(ids)) == id_list(*old(ids)).remove(index as int),
{
    ids.remove(index);
}

/// Calls `heapless::Vec::<ShadeId, 32>::as_slice`.
#[verifier::external_body]
pub(crate) fn ids_slice(ids: &heapless::Vec<ShadeId, 32>) -> (slice: &[ShadeId])
    ensures
        slice@.map_values(|id: ShadeId| id.0) == id_list(*ids),
        slice@.len() <= 32,
{
    ids.as_slice()
}

/// Calls `heapless::Vec::<Entry, 32>::new`.
#[verifier::external_body]
pub(crate) fn empty_entries() -> (entries: heapless::Vec<Entry, 32>)
    ensures
        entry_rows(entries) == Seq::<(u8, Seq<u8>, bool)>::empty(),
{
    heapless::Vec::new()
}

/// Calls `heapless::Vec::<Entry, 32>::push`.
#[verifier::external_body]
pub(crate) fn push_entry(entries: &mut heapless::Vec<Entry, 32>, entry: Entry) -> (pushed: bool)
    ensures
        entry_rows(*old(entries)).len() <= 32,
        pushed == (entry_rows(*old(entries)).len() < 32),
        pushed ==> entry_rows(*final(entries)) == entry_rows(*old(entries)).push(row_of(entry)),
        !pushed ==> entry_rows(*final(entries)) == entry_rows(*old(entries)),
{
    entries.push(entry).is_ok()
}

/// Calls `heapless::Vec::<Entry, 32>::remove`.
#[verifier::external_body]
pub(crate) fn remove_entry(entries: &mut heapless::Vec<Entry, 32>, index: usize)
    requires
        index < entry_rows(*old(entries)).len(),
    ensures
        entry_rows(*final(entries)) == entry_rows(*old(entries)).remove(index as int),
{
    entries.remove(index);
}

/// Replaces one entry through the vector's `IndexMut`.
#[verifier::external_body]
pub(crate) fn set_entry(entries: &mut heapless::Vec<Entry, 32>, index: usize, entry: Entry)
    requires
        index < entry_rows(*old(entries)).len(),
    ensures
        entry_rows(*final(entries)) == entry_rows(*old(entries)).update(index as int, row_of(entry)),
{
    entries[index] = entry;
}

/// Calls `heapless::Vec::<Entry, 32>::as_slice`.
#[verifier::external_body]
pub(crate) fn entries_slice(entries: &heapless::Vec<Entry, 32>) -> (slice: &[Entry])
    ensures
        slice@.map_values(|entry: Entry| row_of(entry)) == entry_rows(*entries),
        slice@.len() <= 32,
{
    entries.as_slice()
}

} // verus!

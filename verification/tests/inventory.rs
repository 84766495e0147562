use firmware::inventory::{ConfirmedShade, Inventory};
use firmware::mqtt::{pairable_bits, pairing_of, slot_bit};
use firmware::shade::{Pairing, ShadeId};

fn named(text: &str) -> heapless::String<32> {
    let mut name = heapless::String::new();
    name.push_str(text).unwrap();
    name
}

#[test]
fn a_snapshot_holds_each_confirmed_shade_once() {
    let confirmed = [
        ConfirmedShade { id: ShadeId(0), name: named("Kitchen"), allocated: true },
        ConfirmedShade { id: ShadeId(3), name: named("Study"), allocated: false },
        ConfirmedShade { id: ShadeId(0), name: named("Kitchen left"), allocated: false },
    ];
    let inventory = Inventory::snapshot(&confirmed, 2);
    assert_eq!(inventory.len(), 2);
    assert_eq!(inventory.ids(), &[ShadeId(0), ShadeId(3)]);
    assert_eq!(inventory.name(ShadeId(0)), Some("Kitchen left"));
    assert_eq!(inventory.pairing(ShadeId(0)), Pairing::Withheld);
    assert_eq!(inventory.pairing(ShadeId(3)), Pairing::Withheld);
    assert_eq!(inventory.awaiting_setup(), 2);
}

#[test]
fn insert_is_idempotent_and_lookup_finds_the_last_write() {
    let mut inventory = Inventory::new(0);
    inventory.insert(ShadeId(5), "Hall", Pairing::Offered);
    inventory.insert(ShadeId(5), "Hall", Pairing::Offered);
    assert_eq!(inventory.len(), 1);
    assert_eq!(inventory.name(ShadeId(5)), Some("Hall"));
    assert_eq!(inventory.pairing(ShadeId(5)), Pairing::Offered);
    inventory.insert(ShadeId(5), "Landing", Pairing::Withheld);
    assert_eq!(inventory.len(), 1);
    assert_eq!(inventory.name(ShadeId(5)), Some("Landing"));
    assert_eq!(inventory.pairing(ShadeId(5)), Pairing::Withheld);
}

#[test]
fn a_name_too_long_is_kept_as_its_label() {
    let mut inventory = Inventory::new(0);
    inventory.insert(ShadeId(17), "a name that is far too long to be a shade's name", Pairing::Withheld);
    assert_eq!(inventory.name(ShadeId(17)), Some("Shade 17"));
}

#[test]
fn remove_after_insert_leaves_nothing() {
    let mut inventory = Inventory::new(0);
    inventory.insert(ShadeId(1), "One", Pairing::Offered);
    inventory.insert(ShadeId(2), "Two", Pairing::Offered);
    assert!(inventory.remove(ShadeId(1)));
    assert!(!inventory.remove(ShadeId(1)));
    assert_eq!(inventory.ids(), &[ShadeId(2)]);
    assert_eq!(inventory.name(ShadeId(1)), None);
    assert_eq!(inventory.pairing(ShadeId(1)), Pairing::Withheld);
}

#[test]
fn a_full_table_refuses_a_new_shade() {
    let mut inventory = Inventory::new(0);
    for id in 0..32u8 {
        inventory.insert(ShadeId(id), "Shade", Pairing::Withheld);
    }
    assert_eq!(inventory.len(), 32);
    inventory.insert(ShadeId(40), "Extra", Pairing::Offered);
    assert_eq!(inventory.len(), 32);
    assert_eq!(inventory.name(ShadeId(40)), None);
}

#[test]
fn the_pairing_bitmap_matches_the_table() {
    let mut inventory = Inventory::new(0);
    inventory.insert(ShadeId(0), "A", Pairing::Offered);
    inventory.insert(ShadeId(4), "B", Pairing::Withheld);
    inventory.insert(ShadeId(31), "C", Pairing::Offered);
    let bits = pairable_bits(&inventory);
    assert_eq!(bits, 1 | (1 << 31));
    for id in 0..32u8 {
        assert_eq!(pairing_of(bits, ShadeId(id)), inventory.pairing(ShadeId(id)));
    }
    assert_eq!(slot_bit(ShadeId(4)), 16);
    assert_eq!(slot_bit(ShadeId(32)), 0);
}

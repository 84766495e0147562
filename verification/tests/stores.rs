use firmware::config::{ConfigError, ConfigStore, Namespaces, NewestRecord, SlotRead, MAX_SLOTS};
use firmware::estate::{EstateStore, EstateStoreError, SlotHeader};
use firmware::region::{fits, is_region_entry, PartitionEntry, RingLayout};

fn ns(root: &str, prefix: &str) -> Namespaces {
    Namespaces { state_root: root.as_bytes().to_vec(), discovery_prefix: prefix.as_bytes().to_vec() }
}

fn record(seq: u32, pair: Option<(&str, &str)>) -> SlotRead {
    SlotRead::Record { seq, namespaces: pair.map(|(root, prefix)| ns(root, prefix)) }
}

fn pairs(list: &[Namespaces]) -> Vec<(Vec<u8>, Vec<u8>)> {
    list.iter()
        .map(|n| (n.state_root.clone(), n.discovery_prefix.clone()))
        .collect()
}

fn pair(root: &str, prefix: &str) -> (Vec<u8>, Vec<u8>) {
    (root.as_bytes().to_vec(), prefix.as_bytes().to_vec())
}

fn config_store(slots: usize) -> ConfigStore {
    ConfigStore::mount(
        4 * 1024 * 1024,
        PartitionEntry { offset: 0x3F_0000, len: 0x2000 },
        Some(RingLayout { slot_count: slots, slot_len: 256 }),
    )
    .unwrap()
}

#[test]
fn a_region_must_fit_the_flash_and_sit_on_a_sector() {
    let ring = Some(RingLayout { slot_count: 32, slot_len: 256 });
    assert!(fits(0x40_0000, PartitionEntry { offset: 0x3F_E000, len: 0x2000 }, ring, 64));
    assert!(!fits(0x40_0000, PartitionEntry { offset: 0x3F_F000, len: 0x2000 }, ring, 64));
    assert!(!fits(0x40_0000, PartitionEntry { offset: 0x3F_E100, len: 0x1000 }, ring, 64));
    assert!(!fits(0x40_0000, PartitionEntry { offset: 0x3F_E000, len: 0x2000 }, None, 64));
    assert!(!fits(0x40_0000, PartitionEntry { offset: 0x3F_E000, len: 0x2000 }, ring, 16));
    // The end is computed in 64 bits, so a partition reaching past 4 GiB
    // neither wraps nor fits a 4 GiB flash.
    assert!(fits(u64::MAX, PartitionEntry { offset: u32::MAX - 4095, len: u32::MAX }, ring, 64));
    assert!(!fits(0x1_0000_0000, PartitionEntry { offset: u32::MAX - 4095, len: 8192 }, ring, 64));
}

#[test]
fn a_region_is_found_by_label_and_type() {
    assert!(is_region_entry("wificfg", "wificfg", true));
    assert!(!is_region_entry("wificfg", "wificfg", false));
    assert!(!is_region_entry("estate", "wificfg", true));
}

#[test]
fn mounting_reports_the_geometry() {
    let store = config_store(32);
    assert_eq!(store.geometry(), (0x3F_0000, 32, 256));
    let refused = ConfigStore::mount(
        0x40_0000,
        PartitionEntry { offset: 0x3F_0100, len: 0x2000 },
        Some(RingLayout { slot_count: 32, slot_len: 256 }),
    );
    assert!(matches!(refused, Err(ConfigError::PartitionGeometry { offset: 0x3F_0100, len: 0x2000 })));
    let too_many = ConfigStore::mount(
        0x40_0000,
        PartitionEntry { offset: 0x3F_0000, len: 0x2000 },
        Some(RingLayout { slot_count: MAX_SLOTS + 1, slot_len: 64 }),
    );
    assert!(too_many.is_err());
}

#[test]
fn a_scan_tallies_every_slot() {
    let store = config_store(5);
    let reads = vec![record(4, None), SlotRead::Blank, SlotRead::Damaged, record(5, None), SlotRead::Blank];
    let scan = store.scan(&reads);
    assert_eq!((scan.valid, scan.blank, scan.damaged), (2, 2, 1));
    assert_eq!(scan.sequences, vec![Some(4), None, None, Some(5), None]);
    assert_eq!(scan.free, vec![false, true, false, false, true]);
    assert!(!scan.namespaces_truncated);
}

#[test]
fn the_pair_in_use_is_not_superseded() {
    let store = config_store(4);
    let reads = vec![
        record(1, Some(("somfy", "homeassistant"))),
        record(2, Some(("blinds", "homeassistant"))),
        record(3, Some(("somfy", "homeassistant"))),
        SlotRead::Blank,
    ];
    let scan = store.scan(&reads);
    assert_eq!(pairs(scan.kept_pairs()), vec![pair("somfy", "homeassistant"), pair("blinds", "homeassistant")]);
    let survey = store.load(scan, Some(NewestRecord { seq: 2, namespaces: Some(ns("blinds", "homeassistant")) }));
    assert_eq!(pairs(survey.superseded_pairs()), vec![pair("somfy", "homeassistant")]);
    assert_eq!(survey.newest_seq, Some(2));
    assert_eq!((survey.slots, survey.valid, survey.blank, survey.damaged), (4, 3, 1, 0));
    assert!(!survey.superseded_truncated);
}

#[test]
fn more_pairs_than_the_scan_keeps_are_reported() {
    let store = config_store(4);
    let reads = vec![
        record(1, Some(("a", "p"))),
        record(2, Some(("b", "p"))),
        record(3, Some(("c", "p"))),
        record(4, Some(("d", "p"))),
    ];
    let scan = store.scan(&reads);
    assert_eq!(pairs(scan.kept_pairs()), vec![pair("a", "p"), pair("b", "p"), pair("c", "p")]);
    assert!(scan.namespaces_truncated);
    let survey = store.load(scan, Some(NewestRecord { seq: 4, namespaces: Some(ns("d", "p")) }));
    assert_eq!(survey.superseded.len(), 3);
    assert!(survey.superseded_truncated);
}

#[test]
fn with_no_newest_record_every_pair_is_stale() {
    let store = config_store(2);
    let reads = vec![record(1, Some(("a", "p"))), SlotRead::Damaged];
    let scan = store.scan(&reads);
    let survey = store.load(scan, None);
    assert_eq!(pairs(survey.superseded_pairs()), vec![pair("a", "p")]);
    assert_eq!(survey.newest_seq, None);
}

#[test]
fn a_write_is_refused_when_readable_records_have_no_newest() {
    let store = config_store(2);
    let scan = store.scan(&vec![record(1, None), SlotRead::Blank]);
    assert_eq!(store.check_writable(&scan, false), Err(ConfigError::Unstable { valid: 1 }));
    assert_eq!(store.check_writable(&scan, true), Ok(()));
    let empty = store.scan(&vec![SlotRead::Blank, SlotRead::Blank]);
    assert_eq!(store.check_writable(&empty, false), Ok(()));
}

#[test]
fn namespaces_compare_by_both_halves() {
    assert!(ns("a", "b").same(&ns("a", "b")));
    assert!(!ns("a", "b").same(&ns("a", "c")));
    assert!(!ns("a", "b").same(&ns("x", "b")));
}

fn estate_store(slots: usize) -> EstateStore {
    EstateStore::mount(
        0x40_0000,
        PartitionEntry { offset: 0x3E_0000, len: 0x8000 },
        Some(RingLayout { slot_count: slots, slot_len: 2048 }),
    )
    .unwrap()
}

#[test]
fn the_estate_names_its_first_failure() {
    let store = estate_store(4);
    let headers = vec![
        SlotHeader::Header { seq: 7 },
        SlotHeader::Damaged("bad magic"),
        SlotHeader::Damaged("bad crc"),
        SlotHeader::Blank,
    ];
    let scan = store.scan(&headers);
    assert_eq!((scan.valid, scan.blank, scan.damaged), (1, 1, 2));
    assert_eq!(scan.first_error, Some("bad magic"));
    let survey = store.load_with(&scan, Some(0), Ok(()));
    assert_eq!(survey.newest_seq, Some(7));
    assert_eq!(survey.first_error, Some("bad magic"));
    assert_eq!(survey.slots, 4);
}

#[test]
fn a_winner_whose_rows_do_not_place_is_the_failure_named() {
    let store = estate_store(2);
    let scan = store.scan(&vec![SlotHeader::Header { seq: 3 }, SlotHeader::Damaged("torn")]);
    let survey = store.load_with(&scan, Some(0), Err("group 1 is at address 0"));
    assert_eq!(survey.first_error, Some("group 1 is at address 0"));
}

#[test]
fn a_named_slot_without_a_header_wins_nothing() {
    let store = estate_store(2);
    let scan = store.scan(&vec![SlotHeader::<&str>::Blank, SlotHeader::Header { seq: 9 }]);
    let survey = store.load_with(&scan, Some(0), Err("unused"));
    assert_eq!(survey.newest_seq, None);
    assert_eq!(survey.first_error, None);
    let survey = store.load_with(&scan, Some(5), Ok(()));
    assert_eq!(survey.newest_seq, None);
    let survey = store.load_with(&scan, Some(1), Ok(()));
    assert_eq!(survey.newest_seq, Some(9));
}

#[test]
fn an_estate_ring_larger_than_a_scan_is_refused() {
    let refused = EstateStore::mount(
        0x40_0000,
        PartitionEntry { offset: 0x3E_0000, len: 0x8000 },
        Some(RingLayout { slot_count: 17, slot_len: 2048 }),
    );
    assert!(matches!(refused, Err(EstateStoreError::PartitionGeometry { offset: 0x3E_0000, len: 0x8000 })));
}

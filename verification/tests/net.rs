use firmware::mdns::{announce_gaps, combine_words, fill_from_words};
use firmware::net::{
    auth_method, first_v4, sockets, AuthMethod, IpAnswer, LinkLog, Services, SignalCell,
};
use firmware::startup::{check_pin_map, check_stack_headroom, Cc1101Pins, StartError, REQUIRED_STACK_BYTES};

#[test]
fn the_socket_set_is_the_sum_of_what_the_image_opens() {
    let none = Services { mqtt: false, http: false, mdns: false, sntp: false };
    let all = Services { mqtt: true, http: true, mdns: true, sntp: true };
    assert_eq!(sockets(none), 1);
    assert_eq!(sockets(all), 9);
    assert_eq!(sockets(Services { http: true, ..none }), 5);
    assert_eq!(sockets(Services { sntp: true, ..none }), 3);
}

#[test]
fn open_networks_need_no_authentication() {
    assert_eq!(auth_method(true), AuthMethod::Open);
    assert_eq!(auth_method(false), AuthMethod::Wpa2Personal);
}

#[test]
fn the_reading_is_the_last_sample() {
    let mut cell = SignalCell::new();
    assert_eq!(cell.signal_dbm(), None);
    cell.record_signal(Some(-61));
    assert_eq!(cell.signal_dbm(), Some(-61));
    cell.record_signal(None);
    assert_eq!(cell.signal_dbm(), None);
}

#[test]
fn association_failures_log_first_steps_and_every_tenth() {
    let mut log = LinkLog::new();
    assert!(log.association_failed(1_000));
    assert!(log.waiting(2_000));
    assert!(!log.association_failed(2_000));
    let mut steady = LinkLog { consecutive: 1, previous_delay_ms: 60_000 };
    let logged: Vec<bool> = (0..19).map(|_| steady.association_failed(60_000)).collect();
    let expected: Vec<bool> = (2..=20u32).map(|n| n % 10 == 0).collect();
    assert_eq!(logged, expected);
    assert!(steady.association_failed(30_000));
}

#[test]
fn only_a_lasting_link_resets_the_count() {
    let mut log = LinkLog { consecutive: 4, previous_delay_ms: 8_000 };
    let mut cell = SignalCell::new();
    cell.record_signal(Some(-70));
    assert!(log.link_ended(false, &mut cell));
    assert_eq!(cell.signal_dbm(), None);
    assert_eq!(log.consecutive, 4);
    cell.record_signal(Some(-65));
    assert!(!log.link_ended(true, &mut cell));
    assert_eq!(cell.signal_dbm(), None);
    assert_eq!(log.consecutive, 0);
    assert!(!log.waiting(8_000));
    assert!(log.waiting(16_000));
    assert_eq!(log.previous_delay_ms, 16_000);
    cell.record_signal(Some(-50));
    log.candidate_applied(&mut cell);
    assert_eq!(cell.signal_dbm(), None);
    assert_eq!((log.consecutive, log.previous_delay_ms), (0, 0));
}

#[test]
fn the_first_ipv4_answer_is_used() {
    assert_eq!(first_v4(&[]), None);
    assert_eq!(first_v4(&[IpAnswer::Other]), None);
    assert_eq!(
        first_v4(&[IpAnswer::Other, IpAnswer::V4(192, 168, 1, 5), IpAnswer::V4(10, 0, 0, 1)]),
        Some((192, 168, 1, 5))
    );
}

#[test]
fn announcements_double_from_a_second() {
    assert_eq!(announce_gaps(), vec![1_000, 2_000]);
}

#[test]
fn random_bytes_are_little_endian_words() {
    assert_eq!(fill_from_words(6, &[0x0403_0201, 0x0807_0605]), vec![1, 2, 3, 4, 5, 6]);
    assert_eq!(fill_from_words(0, &[]), Vec::<u8>::new());
    assert_eq!(combine_words(1, 2), (1u64 << 32) | 2);
    assert_eq!(combine_words(u32::MAX, u32::MAX), u64::MAX);
}

#[test]
fn the_stack_must_hold_the_transmit_path() {
    assert_eq!(check_stack_headroom(0x1000, 0x1000 + REQUIRED_STACK_BYTES), Ok(REQUIRED_STACK_BYTES));
    assert_eq!(
        check_stack_headroom(0x1000, 0x1000 + 100),
        Err(StartError::StackTooSmall { available: 100, required: REQUIRED_STACK_BYTES })
    );
    assert_eq!(
        check_stack_headroom(0x2000, 0x1000),
        Err(StartError::StackTooSmall { available: 0, required: REQUIRED_STACK_BYTES })
    );
}

#[test]
fn the_pin_map_is_checked_in_order() {
    let good = Cc1101Pins { sck: 12, mosi: 11, miso: 13, csn: 10, gdo0_tx: 3, gdo2_rx: 4 };
    assert_eq!(check_pin_map(&good), Ok(()));
    let swapped = Cc1101Pins { gdo0_tx: 4, gdo2_rx: 3, ..good };
    assert_eq!(check_pin_map(&swapped), Err(StartError::PinMap { claimed: 4, documented: 3 }));
    let wrong_clock = Cc1101Pins { sck: 14, miso: 1, ..good };
    assert_eq!(check_pin_map(&wrong_clock), Err(StartError::PinMap { claimed: 14, documented: 12 }));
}

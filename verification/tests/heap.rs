use firmware::heap::{
    free_bytes, install, install_for_radio, install_scheduler_only, larger, radio_heap_bytes,
    required_stack_bytes, warn_if_tight, warn_if_undersized, Features, TightWarning,
    BOOT_CHAIN_BYTES, INTERRUPT_FRAMES_BYTES, SCHEDULER_HEAP_BYTES, STACK_BUDGET_BYTES,
    STACK_MARGIN_FLOOR_BYTES, WIFI_PEAK_BYTES, WIFI_WORKING_SET_BYTES,
};

#[test]
fn the_stack_requirement_is_the_boot_chain_for_every_image() {
    for http in [false, true] {
        for mdns in [false, true] {
            for sntp in [false, true] {
                let required = required_stack_bytes(Features { http, mdns, sntp });
                assert_eq!(required, BOOT_CHAIN_BYTES + INTERRUPT_FRAMES_BYTES);
                assert!(required + STACK_MARGIN_FLOOR_BYTES <= STACK_BUDGET_BYTES);
            }
        }
    }
}

#[test]
fn the_radio_heap_is_what_lies_between() {
    assert_eq!(radio_heap_bytes(0x1000, 0x3000), 0x2000);
    assert_eq!(radio_heap_bytes(0x3000, 0x1000), 0);
    assert_eq!(install_for_radio(0x1000, 0x3000), Some((0x1000, 0x2000)));
    assert_eq!(install_for_radio(0x3000, 0x3000), None);
    assert_eq!(install(5, 0), None);
    assert_eq!(install(5, 7), Some((5, 7)));
}

#[test]
fn the_scheduler_only_heap_is_capped() {
    assert_eq!(install_scheduler_only(0, 100_000), Some((0, SCHEDULER_HEAP_BYTES)));
    assert_eq!(install_scheduler_only(0, 100), Some((0, 100)));
    assert_eq!(install_scheduler_only(100, 0), None);
}

#[test]
fn sizes_and_free_bytes() {
    assert_eq!(larger(3, 9), 9);
    assert_eq!(larger(9, 3), 9);
    assert_eq!(free_bytes(100, 40), 60);
    assert_eq!(free_bytes(40, 100), 0);
}

#[test]
fn an_undersized_heap_gets_the_hard_warning_only() {
    let warnings = warn_if_undersized(WIFI_WORKING_SET_BYTES - 1);
    assert!(warnings.undersized);
    assert_eq!(warnings.tight, None);
}

#[test]
fn a_tight_heap_is_told_by_how_much() {
    let installed = WIFI_WORKING_SET_BYTES + 100;
    assert_eq!(
        warn_if_tight(installed),
        Some(TightWarning::BelowPeak { short_by: WIFI_PEAK_BYTES - installed, above_rest: 100 })
    );
    assert_eq!(warn_if_tight(WIFI_PEAK_BYTES + 10), Some(TightWarning::NearPeak { above_peak: 10 }));
    assert_eq!(warn_if_tight(WIFI_PEAK_BYTES + 5_000), None);
    let warnings = warn_if_undersized(WIFI_PEAK_BYTES + 10);
    assert!(!warnings.undersized);
    assert_eq!(warnings.tight, Some(TightWarning::NearPeak { above_peak: 10 }));
}

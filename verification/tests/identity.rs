use firmware::identity::{hostname, is_hostname_label, mac_hex, HOSTNAME_LEN, MAC_HEX_LEN};

#[test]
fn the_mac_is_lower_case_hex_without_separators() {
    let hex = mac_hex(&[0x24, 0x0A, 0xC4, 0x00, 0xFF, 0x9B]);
    assert_eq!(hex.as_str(), "240ac400ff9b");
    assert_eq!(hex.len(), MAC_HEX_LEN);
}

#[test]
fn the_hostname_is_somfy_and_the_mac() {
    let name = hostname(&[0x24, 0x0A, 0xC4, 0x00, 0xFF, 0x9B]);
    assert_eq!(name.as_str(), "somfy-240ac400ff9b");
    assert_eq!(name.len(), HOSTNAME_LEN);
    assert!(is_hostname_label(name.as_str()));
}

#[test]
fn every_hostname_is_a_label() {
    for seed in [0u8, 0x7F, 0xFF] {
        let name = hostname(&[seed; 6]);
        assert!(is_hostname_label(name.as_str()));
    }
}

#[test]
fn labels_follow_the_letter_digit_hyphen_rule() {
    assert!(is_hostname_label("a"));
    assert!(is_hostname_label("somfy-1"));
    assert!(!is_hostname_label(""));
    assert!(!is_hostname_label("-somfy"));
    assert!(!is_hostname_label("somfy-"));
    assert!(!is_hostname_label("Somfy"));
    assert!(!is_hostname_label("som fy"));
    assert!(!is_hostname_label(&"a".repeat(64)));
    assert!(is_hostname_label(&"a".repeat(63)));
}

use firmware::diag::{
    boot, forget, last_panic, write_str, log_read, log_stats, record, record_panic, reset_reason, ring_crc,
    ring_reset, ring_valid, uptime_s, Panic, ResetReasonDto, Ring, MAX_PANIC_TEXT_LEN,
    PANIC_MAGIC, RING_BYTES, RING_MAGIC,
};

fn zeroed_ring() -> Ring {
    Ring { magic: 0, head: 0, len: 0, lines: 0, dropped: 0, crc: 0, bytes: [0; RING_BYTES] }
}

fn zeroed_panic() -> Panic {
    Panic {
        magic: 0,
        uptime_s: 0,
        boots_since: 0,
        len: 0,
        truncated: 0,
        crc: 0,
        text: [0; MAX_PANIC_TEXT_LEN],
    }
}

fn read_all(ring: &Ring) -> Vec<u8> {
    let mut out = vec![0u8; RING_BYTES];
    let copied = log_read(ring, 0, &mut out);
    out.truncate(copied);
    out
}

fn crc32(bytes: &[u8]) -> u32 {
    crc::Crc::<u32>::new(&crc::CRC_32_ISO_HDLC).checksum(bytes)
}

#[test]
fn garbage_ring_is_reset_before_the_first_line() {
    let mut ring = zeroed_ring();
    ring.head = 9999;
    ring.len = 77;
    assert!(!ring_valid(&ring));
    record(&mut ring, "boot");
    assert!(ring_valid(&ring));
    assert_eq!(read_all(&ring), b"boot\n".to_vec());
    let stats = log_stats(&ring);
    assert_eq!(stats.capacity, 4096);
    assert_eq!(stats.bytes, 5);
    assert_eq!(stats.lines, 1);
    assert_eq!(stats.dropped, 0);
}

#[test]
fn lines_are_kept_in_order() {
    let mut ring = zeroed_ring();
    record(&mut ring, "one");
    record(&mut ring, "two");
    record(&mut ring, "three");
    assert_eq!(read_all(&ring), b"one\ntwo\nthree\n".to_vec());
    assert_eq!(log_stats(&ring).lines, 3);
}

#[test]
fn header_checksum_is_crc32_of_the_five_words() {
    let mut ring = zeroed_ring();
    ring_reset(&mut ring);
    let mut header = Vec::new();
    for word in [RING_MAGIC, 0, 0, 0, 0] {
        header.extend_from_slice(&word.to_le_bytes());
    }
    assert_eq!(ring.crc, crc32(&header));
    assert_eq!(ring_crc(&ring), ring.crc);
}

#[test]
fn a_tampered_header_reads_as_empty() {
    let mut ring = zeroed_ring();
    record(&mut ring, "kept");
    ring.lines = 7;
    assert!(!ring_valid(&ring));
    let stats = log_stats(&ring);
    assert_eq!((stats.bytes, stats.lines, stats.dropped), (0, 0, 0));
    assert_eq!(read_all(&ring), Vec::<u8>::new());
}

#[test]
fn a_full_ring_evicts_whole_lines_only() {
    let mut ring = zeroed_ring();
    let line = "0123456789abcdef0123456789abcdef0123456789abcdef0123456789abcde";
    for _ in 0..70 {
        record(&mut ring, line);
    }
    let text = read_all(&ring);
    assert!(text.len() <= RING_BYTES);
    // Every line that remains is whole: the text is a run of complete lines.
    for chunk in text.split_inclusive(|&b| b == b'\n') {
        assert_eq!(chunk, format!("{line}\n").as_bytes());
    }
    let stats = log_stats(&ring);
    assert_eq!(stats.lines as usize, text.len() / 64);
    assert_eq!(stats.dropped, 70 - stats.lines);
    assert!(stats.dropped > 0);
}

#[test]
fn reading_from_an_offset_copies_what_fits() {
    let mut ring = zeroed_ring();
    record(&mut ring, "abcdef");
    let mut out = [0xAAu8; 4];
    assert_eq!(log_read(&ring, 2, &mut out), 4);
    assert_eq!(&out, b"cdef");
    let mut out = [0xAAu8; 4];
    assert_eq!(log_read(&ring, 5, &mut out), 2);
    assert_eq!(&out, &[b'f', b'\n', 0xAA, 0xAA]);
    assert_eq!(log_read(&ring, 100, &mut out), 0);
}

#[test]
fn no_panic_recorded_means_none() {
    assert!(last_panic(&zeroed_panic()).is_none());
}

#[test]
fn a_panic_message_is_kept_printable() {
    let mut panic = zeroed_panic();
    record_panic(&mut panic, "boom \"at\" x\\y\n", 42);
    let found = last_panic(&panic).expect("a record was just written");
    assert_eq!(found.text, b"boom .at. x.y.".to_vec());
    assert!(!found.truncated);
    assert_eq!(found.uptime_s, 42);
    assert_eq!(found.boots_since, 0);
    assert_eq!(panic.magic, PANIC_MAGIC);
}

#[test]
fn a_long_panic_message_is_cut_and_flagged() {
    let mut panic = zeroed_panic();
    let message = "x".repeat(MAX_PANIC_TEXT_LEN + 20);
    record_panic(&mut panic, &message, 1);
    let found = last_panic(&panic).unwrap();
    assert_eq!(found.text.len(), MAX_PANIC_TEXT_LEN);
    assert!(found.truncated);
}

#[test]
fn a_damaged_panic_record_is_not_reported() {
    let mut panic = zeroed_panic();
    record_panic(&mut panic, "boom", 3);
    panic.text[0] = b'B';
    assert!(last_panic(&panic).is_none());
}

#[test]
fn each_boot_counts_and_keeps_the_record_valid() {
    let mut panic = zeroed_panic();
    let mut ring = zeroed_ring();
    record_panic(&mut panic, "boom", 3);
    assert!(!boot(&mut panic, &ring));
    record(&mut ring, "line");
    assert!(boot(&mut panic, &ring));
    let found = last_panic(&panic).unwrap();
    assert_eq!(found.boots_since, 2);
    assert_eq!(found.text, b"boom".to_vec());
}

#[test]
fn forgetting_clears_both_records() {
    let mut panic = zeroed_panic();
    let mut ring = zeroed_ring();
    record_panic(&mut panic, "boom", 3);
    record(&mut ring, "line");
    forget(&mut panic, &mut ring);
    assert!(last_panic(&panic).is_none());
    assert!(ring_valid(&ring));
    assert_eq!(log_stats(&ring).bytes, 0);
}

#[test]
fn uptime_saturates() {
    assert_eq!(uptime_s(12), 12);
    assert_eq!(uptime_s(u64::from(u32::MAX) + 5), u32::MAX);
}

#[test]
fn reset_reasons_are_grouped() {
    assert_eq!(reset_reason(Some(0x01)), ResetReasonDto::PowerOn);
    assert_eq!(reset_reason(Some(0x0C)), ResetReasonDto::Software);
    assert_eq!(reset_reason(Some(0x07)), ResetReasonDto::Watchdog);
    assert_eq!(reset_reason(Some(0x0F)), ResetReasonDto::Brownout);
    assert_eq!(reset_reason(Some(0x15)), ResetReasonDto::Debugger);
    assert_eq!(reset_reason(Some(0x02)), ResetReasonDto::Other);
    assert_eq!(reset_reason(None), ResetReasonDto::Other);
}

#[test]
fn a_line_longer_than_the_ring_keeps_only_its_tail() {
    let mut ring = zeroed_ring();
    let line = "a".repeat(5000);
    record(&mut ring, &line);
    let mut expected = vec![b'a'; 5000 - RING_BYTES];
    expected.push(b'\n');
    assert_eq!(read_all(&ring), expected);
    let stats = log_stats(&ring);
    assert_eq!(stats.bytes, 905);
    assert_eq!(stats.lines, 1);
    assert_eq!(stats.dropped, 1);
}

#[test]
fn a_damaged_panic_record_stays_unshown_after_a_boot() {
    let mut panic = zeroed_panic();
    let ring = zeroed_ring();
    record_panic(&mut panic, "boom", 3);
    panic.text[0] = b'B';
    boot(&mut panic, &ring);
    assert!(last_panic(&panic).is_none());
    boot(&mut panic, &ring);
    assert!(last_panic(&panic).is_none());
}

#[test]
fn a_line_after_an_unfinished_one_is_cut_when_the_ring_fills() {
    let mut ring = zeroed_ring();
    ring_reset(&mut ring);
    write_str(&mut ring, &"x".repeat(4000));
    ring.crc = ring_crc(&ring);
    assert!(ring_valid(&ring));
    record(&mut ring, &"y".repeat(200));
    let mut expected = vec![b'y'; 104];
    expected.push(b'\n');
    assert_eq!(read_all(&ring), expected);
}

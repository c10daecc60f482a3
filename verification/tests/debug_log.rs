use logos::debug_log::{hex_u64_line, since, LogRing, LOG_BYTES, LOG_EVENTS};

#[test]
fn hex_lines_end_in_sixteen_digits() {
    assert_eq!(hex_u64_line(b"value ", 0x1234), b"value 0000000000001234".to_vec());
    assert_eq!(hex_u64_line(b"", u64::MAX), b"ffffffffffffffff".to_vec());
    let long = [b'p'; 200];
    let line = hex_u64_line(&long, 0xabcdef);
    assert_eq!(line.len(), LOG_BYTES);
    assert_eq!(&line[LOG_BYTES - 16..], b"0000000000abcdef");
    assert!(line[..LOG_BYTES - 16].iter().all(|byte| *byte == b'p'));
}

#[test]
fn written_lines_read_back_by_cursor() {
    let mut ring = LogRing::new();
    ring.record(b"first");
    ring.record(b"second");
    let snapshot = ring.snapshot();
    assert_eq!(snapshot.len, 2);
    assert_eq!(snapshot.first_cursor, 0);
    assert_eq!(snapshot.next_cursor, 2);
    let mut output = [0u8; LOG_BYTES];
    assert_eq!(since(&snapshot, 0, &mut output), (1, 5, false));
    assert_eq!(&output[..5], b"first");
    assert_eq!(since(&snapshot, 1, &mut output), (2, 6, false));
    assert_eq!(&output[..6], b"second");
    assert_eq!(since(&snapshot, 2, &mut output), (2, 0, false));
    assert_eq!(since(&snapshot, 9, &mut output), (2, 0, false));
}

#[test]
fn old_lines_are_overwritten_and_reported_lost() {
    let mut ring = LogRing::new();
    for index in 0..40u8 {
        ring.record(&[b'a' + index % 26; 3]);
    }
    let snapshot = ring.snapshot();
    assert_eq!(snapshot.len, LOG_EVENTS);
    assert_eq!(snapshot.first_cursor, 8);
    assert_eq!(snapshot.next_cursor, 40);
    let mut output = [0u8; LOG_BYTES];
    assert_eq!(since(&snapshot, 0, &mut output), (9, 3, true));
    assert_eq!(&output[..3], &[b'a' + 8; 3]);
    assert_eq!(since(&snapshot, 39, &mut output), (40, 3, false));
    assert_eq!(&output[..3], &[b'a' + 39 % 26; 3]);
}

#[test]
fn long_lines_are_cut_to_the_field() {
    let mut ring = LogRing::new();
    ring.record(&[7u8; 300]);
    let snapshot = ring.snapshot();
    assert_eq!(snapshot.lengths[0] as usize, LOG_BYTES);
    let mut output = [0u8; LOG_BYTES];
    assert_eq!(since(&snapshot, 0, &mut output), (1, LOG_BYTES, false));
    assert!(output.iter().all(|byte| *byte == 7));
}

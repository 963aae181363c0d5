use annex::annexb::{avcc_to_annexb, nal_type, nal_type_name, parameter_sets_to_annexb, scan, START_CODE};

#[test]
fn converts_two_nals() {
    // Two AVCC units: a 3-byte SPS-ish and a 2-byte payload.
    let avcc = [0, 0, 0, 3, 0x67, 0xAA, 0xBB, 0, 0, 0, 2, 0x65, 0xCC];
    let out = avcc_to_annexb(&avcc, 4).expect("valid");
    assert_eq!(
        out,
        vec![0, 0, 0, 1, 0x67, 0xAA, 0xBB, 0, 0, 0, 1, 0x65, 0xCC]
    );
}

#[test]
fn rejects_truncated_input() {
    // Declares 9 bytes but supplies 2.
    assert!(avcc_to_annexb(&[0, 0, 0, 9, 0x67, 0xAA], 4).is_none());
}

#[test]
fn scan_finds_types_and_lengths() {
    let annexb = [0, 0, 0, 1, 0x67, 0xAA, 0xBB, 0, 0, 0, 1, 0x65, 0xCC];
    let nals = scan(&annexb);
    assert_eq!(nals, vec![(7, 3), (5, 2)]);
}

#[test]
fn scan_handles_three_byte_start_codes() {
    let annexb = [0, 0, 1, 0x68, 0x11, 0, 0, 1, 0x65, 0x22];
    assert_eq!(scan(&annexb), vec![(8, 2), (5, 2)]);
}

#[test]
fn round_trip_preserves_payloads() {
    let avcc = [0, 0, 0, 1, 0x67, 0, 0, 0, 4, 0x65, 1, 2, 3];
    let annexb = avcc_to_annexb(&avcc, 4).expect("valid");
    assert_eq!(scan(&annexb), vec![(7, 1), (5, 4)]);
}

#[test]
fn length_fields_of_one_and_two_bytes_are_read() {
    let one = [2, 0x67, 0x01, 1, 0x68];
    assert_eq!(
        avcc_to_annexb(&one, 1),
        Some(vec![0, 0, 0, 1, 0x67, 0x01, 0, 0, 0, 1, 0x68])
    );
    let two = [0, 2, 0x65, 0x10, 0, 1, 0x41];
    let out = avcc_to_annexb(&two, 2).expect("valid");
    assert_eq!(out, vec![0, 0, 0, 1, 0x65, 0x10, 0, 0, 0, 1, 0x41]);
    assert_eq!(scan(&out), vec![(5, 2), (1, 1)]);
    // A declared length of 256 needs 256 bytes.
    assert_eq!(avcc_to_annexb(&[1, 0, 0x41], 2), None);
}

#[test]
fn unsupported_length_sizes_are_refused() {
    assert_eq!(avcc_to_annexb(&[0, 0, 1, 0x65], 0), None);
    // Three-byte length fields are read as well.
    assert_eq!(avcc_to_annexb(&[0, 0, 1, 0x65], 3), Some(vec![0, 0, 0, 1, 0x65]));
    assert_eq!(avcc_to_annexb(&[0, 0, 0, 0, 0, 1, 0x65], 5), None);
}

#[test]
fn zero_length_and_trailing_bytes_are_refused() {
    assert_eq!(avcc_to_annexb(&[0, 0, 0, 0, 0, 0, 0, 1, 0x65], 4), None);
    assert_eq!(avcc_to_annexb(&[0, 0, 0, 1, 0x65, 0, 0], 4), None);
    assert_eq!(avcc_to_annexb(&[], 4), Some(vec![]));
}

#[test]
fn parameter_sets_are_each_framed() {
    let sets = vec![vec![0x67, 0x42], vec![0x68, 0xCE]];
    let out = parameter_sets_to_annexb(&sets);
    assert_eq!(out, vec![0, 0, 0, 1, 0x67, 0x42, 0, 0, 0, 1, 0x68, 0xCE]);
    assert_eq!(scan(&out), vec![(7, 2), (8, 2)]);
    assert_eq!(parameter_sets_to_annexb(&[]), Vec::<u8>::new());
    assert_eq!(START_CODE, [0, 0, 0, 1]);
}

#[test]
fn nal_types_and_names() {
    assert_eq!(nal_type(0x67), 7);
    assert_eq!(nal_type(0x65), 5);
    assert_eq!(nal_type(0xFF), 31);
    assert_eq!(nal_type_name(1), "non-IDR slice");
    assert_eq!(nal_type_name(5), "IDR slice");
    assert_eq!(nal_type_name(6), "SEI");
    assert_eq!(nal_type_name(7), "SPS");
    assert_eq!(nal_type_name(8), "PPS");
    assert_eq!(nal_type_name(9), "access unit delimiter");
    assert_eq!(nal_type_name(2), "other");
}

#[test]
fn scan_skips_empty_units_and_short_buffers() {
    assert_eq!(scan(&[0, 0, 1]), vec![]);
    // Two start codes back to back: the first introduces nothing.
    assert_eq!(scan(&[0, 0, 1, 0, 0, 1, 0x65, 0x01]), vec![(5, 2)]);
}

#[test]
fn payloads_with_zero_runs_but_no_start_code_scan_back() {
    let sets = vec![vec![0x67, 0, 0, 0, 5], vec![0x68, 0, 0], vec![0x65, 0, 0, 0]];
    let framed = parameter_sets_to_annexb(&sets);
    assert_eq!(scan(&framed), vec![(7, 5), (8, 3), (5, 4)]);
}

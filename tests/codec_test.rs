use ifex::codec::{normalize_entries, parse, serialize, ByteOrder, CodecError, IfdEntry};

fn entry(tag: u16, field_type: u16, count: u32, value: &[u8]) -> IfdEntry {
    IfdEntry { tag, field_type, count, value: value.to_vec() }
}

fn ascii(tag: u16, text: &str) -> IfdEntry {
    let mut value = text.as_bytes().to_vec();
    value.push(0);
    entry(tag, 2, value.len() as u32, &value)
}

#[test]
fn single_inline_short_has_exact_layout() {
    let bytes = serialize(&[entry(0x0112, 3, 1, &[1, 0])]).unwrap();
    assert_eq!(
        bytes,
        vec![
            0x49, 0x49, 0x2A, 0x00, 0x08, 0x00, 0x00, 0x00, // header
            0x01, 0x00, // one entry
            0x12, 0x01, 0x03, 0x00, 0x01, 0x00, 0x00, 0x00, 0x01, 0x00, 0x00, 0x00, // record
            0x00, 0x00, 0x00, 0x00, // no next directory
        ]
    );
}

#[test]
fn long_payload_goes_after_the_directory() {
    let bytes = serialize(&[ascii(0x010F, "Leica")]).unwrap();
    assert_eq!(bytes.len(), 8 + 2 + 12 + 4 + 6);
    // The value slot holds the offset 26 = 8 + 2 + 12 + 4.
    assert_eq!(&bytes[10..22], &[0x0F, 0x01, 0x02, 0x00, 0x06, 0x00, 0x00, 0x00, 26, 0, 0, 0]);
    assert_eq!(&bytes[26..], b"Leica\0");
}

#[test]
fn offsets_account_for_every_entry_before() {
    let bytes = serialize(&[ascii(0x0110, "M7 body"), ascii(0x010F, "Leica")]).unwrap();
    // Sorted: Make (0x010F) first, its payload at 8 + 2 + 24 + 4 = 38.
    assert_eq!(&bytes[18..22], &[38, 0, 0, 0]);
    assert_eq!(&bytes[30..34], &[44, 0, 0, 0]);
    assert_eq!(&bytes[38..44], b"Leica\0");
    assert_eq!(&bytes[44..52], b"M7 body\0");
}

#[test]
fn round_trip_is_stable_after_one_normalisation() {
    let entries = vec![
        ascii(0x0110, "M7"),
        entry(0x8827, 3, 1, &[100, 0]),
        ascii(0x010F, "Leica"),
        entry(0x920A, 5, 1, &[0xB8, 0x88, 0, 0, 0xE8, 0x03, 0, 0]),
        ascii(0x0110, "M6"),
    ];
    let first = serialize(&entries).unwrap();
    let parsed = parse(&first).unwrap();
    assert_eq!(parsed.byte_order, ByteOrder::LittleEndian);
    let second = serialize(&parsed.entries).unwrap();
    assert_eq!(first, second);
}

#[test]
fn serialized_tags_are_strictly_ascending() {
    let entries = vec![
        entry(0xA434, 2, 3, b"ab\0"),
        entry(0x0001, 1, 1, &[7]),
        entry(0x8827, 3, 1, &[1, 0]),
        entry(0x0001, 1, 1, &[9]),
        entry(0x0110, 2, 2, b"x\0"),
    ];
    let parsed = parse(&serialize(&entries).unwrap()).unwrap();
    let tags: Vec<u16> = parsed.entries.iter().map(|e| e.tag).collect();
    assert_eq!(tags, vec![0x0001, 0x0110, 0x8827, 0xA434]);
    for pair in tags.windows(2) {
        assert!(pair[0] < pair[1]);
    }
}

#[test]
fn last_duplicate_wins() {
    let sorted = normalize_entries(&[ascii(0x010F, "A"), ascii(0x0110, "B"), ascii(0x010F, "C")]);
    assert_eq!(sorted.len(), 2);
    assert_eq!(sorted[0].tag, 0x010F);
    assert_eq!(sorted[0].value, b"C\0".to_vec());
    assert_eq!(sorted[1].value, b"B\0".to_vec());
}

#[test]
fn empty_entry_list_serialises_to_an_empty_directory() {
    let bytes = serialize(&[]).unwrap();
    assert_eq!(bytes, vec![0x49, 0x49, 0x2A, 0, 8, 0, 0, 0, 0, 0, 0, 0, 0, 0]);
    assert!(parse(&bytes).unwrap().entries.is_empty());
}

#[test]
fn missing_or_wrong_header_is_invalid() {
    assert_eq!(parse(&[0x49, 0x49, 0x2A]).unwrap_err(), CodecError::InvalidHeader);
    assert_eq!(parse(&[0x49, 0x49, 0x2B, 0, 8, 0, 0, 0, 0, 0]).unwrap_err(), CodecError::InvalidHeader);
    assert_eq!(parse(&[0x49, 0x4D, 0x2A, 0, 8, 0, 0, 0, 0, 0]).unwrap_err(), CodecError::InvalidHeader);
}

#[test]
fn directory_beyond_the_buffer_is_truncated() {
    assert_eq!(parse(&[0x49, 0x49, 0x2A, 0, 100, 0, 0, 0]).unwrap_err(), CodecError::TruncatedPayload);
    // Two entries announced, none present.
    assert_eq!(parse(&[0x49, 0x49, 0x2A, 0, 8, 0, 0, 0, 2, 0]).unwrap_err(), CodecError::TruncatedPayload);
}

#[test]
fn payload_beyond_the_buffer_is_truncated() {
    let mut bytes = serialize(&[ascii(0x010F, "Leica")]).unwrap();
    bytes.truncate(bytes.len() - 1);
    assert_eq!(parse(&bytes).unwrap_err(), CodecError::TruncatedPayload);
}

#[test]
fn big_endian_values_are_read_in_order() {
    let bytes = vec![
        0x4D, 0x4D, 0x00, 0x2A, 0x00, 0x00, 0x00, 0x08, // header
        0x00, 0x02, // two entries
        0x88, 0x27, 0x00, 0x03, 0x00, 0x00, 0x00, 0x01, 0x01, 0x90, 0x00, 0x00, // ISO 400
        0x92, 0x0A, 0x00, 0x05, 0x00, 0x00, 0x00, 0x01, 0x00, 0x00, 0x00, 0x26, // focal length
        0x00, 0x00, 0x00, 0x00, // no next directory
        0x00, 0x00, 0x88, 0xB8, 0x00, 0x00, 0x03, 0xE8, // 35000 / 1000
    ];
    let parsed = parse(&bytes).unwrap();
    assert_eq!(parsed.byte_order, ByteOrder::BigEndian);
    assert_eq!(parsed.entries[0].tag, 0x8827);
    assert_eq!(parsed.entries[0].value, vec![0x90, 0x01]);
    assert_eq!(parsed.entries[1].value, vec![0xB8, 0x88, 0, 0, 0xE8, 0x03, 0, 0]);
}

#[test]
fn unknown_types_keep_their_raw_slot() {
    let bytes = vec![
        0x49, 0x49, 0x2A, 0, 8, 0, 0, 0, 1, 0, //
        0x34, 0x12, 99, 0, 5, 0, 0, 0, 0xDE, 0xAD, 0xBE, 0xEF, //
        0, 0, 0, 0,
    ];
    let parsed = parse(&bytes).unwrap();
    assert_eq!(parsed.entries.len(), 1);
    assert_eq!(parsed.entries[0].field_type, 99);
    assert_eq!(parsed.entries[0].count, 5);
    assert_eq!(parsed.entries[0].value, vec![0xDE, 0xAD, 0xBE, 0xEF]);
    assert_eq!(serialize(&parsed.entries).unwrap(), bytes);
}

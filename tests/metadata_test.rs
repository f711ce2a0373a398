use ifex::codec::{normalize_entries, ByteOrder, IfdEntry, ParsedIfd};
use ifex::exif_tags::focal_length_millis;
use ifex::container::{find_app1_segment, ContainerError};
use ifex::exif_manager::{ExifManager, ProcessingResult, ProcessingStats};
use ifex::merge::{merge, Field, FieldValue};
use ifex::processors::{ExifError, JpegProcessor, RawProcessor, TiffProcessor};

const SCAN: [u8; 13] = [0xFF, 0xDA, 0x00, 0x08, 0x01, 0x01, 0x00, 0x00, 0x3F, 0x00, 0xD2, 0xCF, 0x20];

fn minimal_jpeg() -> Vec<u8> {
    let mut d = vec![0xFF, 0xD8];
    d.extend_from_slice(&SCAN);
    d.extend_from_slice(&[0xFF, 0xD9]);
    d
}

fn text(name: &str, value: &str) -> Field {
    Field { name: name.to_string(), value: FieldValue::Text(value.to_string()) }
}

fn lookup<'a>(rows: &'a [(String, String)], name: &str) -> Option<&'a str> {
    rows.iter().find(|(n, _)| n == name).map(|(_, v)| v.as_str())
}

/// Marker codes of the segments before the scan.
fn markers(d: &[u8]) -> Vec<u8> {
    let mut out = Vec::new();
    let mut i = 2;
    while i + 4 <= d.len() && d[i] == 0xFF && d[i + 1] != 0xDA {
        out.push(d[i + 1]);
        let len = ((d[i + 2] as usize) << 8) | d[i + 3] as usize;
        i += 2 + len;
    }
    out
}

#[test]
fn applying_fields_to_a_bare_jpeg_writes_one_segment() {
    let fields = vec![
        text("Make", "Leica"),
        text("Model", "M7"),
        text("Artist", "Daniel"),
        text("Film", "Fujifilm Santacolor 100 (ISO 100)"),
    ];
    let out = JpegProcessor::apply_exif(&minimal_jpeg(), &fields).unwrap();
    assert_eq!(markers(&out), vec![0xE1]);
    assert!(out.ends_with(&[0xD2, 0xCF, 0x20, 0xFF, 0xD9]));
    let rows = JpegProcessor::read_exif(&out).unwrap();
    assert_eq!(lookup(&rows, "Make"), Some("Leica"));
    assert_eq!(lookup(&rows, "Model"), Some("M7"));
    assert_eq!(lookup(&rows, "Artist"), Some("Daniel"));
    assert!(lookup(&rows, "Film").unwrap().contains("Santacolor 100"));
}

#[test]
fn erase_removes_app0_and_app1_and_keeps_the_scan() {
    let with_exif = JpegProcessor::apply_exif(&minimal_jpeg(), &[text("Make", "Leica")]).unwrap();
    let mut d = vec![0xFF, 0xD8, 0xFF, 0xE0, 0x00, 0x10];
    d.extend_from_slice(b"JFIF\0\x01\x01\x01\x00\x48\x00\x48\x00\x00");
    d.extend_from_slice(&with_exif[2..]);
    assert_eq!(markers(&d), vec![0xE0, 0xE1]);
    let out = JpegProcessor::erase_exif(&d).unwrap();
    assert_eq!(out, minimal_jpeg());
    assert!(markers(&out).is_empty());
}

#[test]
fn merge_keeps_unshadowed_tags_and_overrides_win() {
    let ascii = |tag: u16, s: &str| {
        let mut v = s.as_bytes().to_vec();
        v.push(0);
        IfdEntry { tag, field_type: 2, count: v.len() as u32, value: v }
    };
    let existing = ParsedIfd {
        entries: vec![ascii(0x010F, "A"), ascii(0x0110, "B")],
        byte_order: ByteOrder::LittleEndian,
    };
    let merged = normalize_entries(&merge(Some(existing), &[text("Make", "C")]));
    assert_eq!(merged.len(), 2);
    assert_eq!((merged[0].tag, merged[0].value.clone()), (0x010F, b"C\0".to_vec()));
    assert_eq!((merged[1].tag, merged[1].value.clone()), (0x0110, b"B\0".to_vec()));
}

#[test]
fn existing_fields_survive_a_second_apply() {
    let first = JpegProcessor::apply_exif(&minimal_jpeg(), &[text("Make", "A"), text("Model", "B")]).unwrap();
    let second = JpegProcessor::apply_exif(&first, &[text("Make", "C")]).unwrap();
    assert_eq!(markers(&second), vec![0xE1]);
    let rows = JpegProcessor::read_exif(&second).unwrap();
    assert_eq!(lookup(&rows, "Make"), Some("C"));
    assert_eq!(lookup(&rows, "Model"), Some("B"));
}

#[test]
fn iso_saturates_at_the_short_limit() {
    let fields = vec![Field { name: "ISOSpeedRatings".to_string(), value: FieldValue::Short(100000) }];
    let out = JpegProcessor::apply_exif(&minimal_jpeg(), &fields).unwrap();
    let rows = JpegProcessor::read_exif(&out).unwrap();
    assert_eq!(lookup(&rows, "ISO Speed"), Some("65535"));
}

#[test]
fn focal_length_reads_back_exactly() {
    let millis = focal_length_millis("35.0").unwrap();
    assert_eq!(millis, 35000);
    let fields = vec![Field { name: "FocalLength".to_string(), value: FieldValue::Rational(millis, 1000) }];
    let out = JpegProcessor::apply_exif(&minimal_jpeg(), &fields).unwrap();
    let rows = JpegProcessor::read_exif(&out).unwrap();
    let shown = lookup(&rows, "Focal Length").unwrap();
    assert_eq!(shown, "35000/1000");
    let (n, d) = shown.split_once('/').unwrap();
    let value = n.parse::<f64>().unwrap() / d.parse::<f64>().unwrap();
    assert!((value - 35.0).abs() < 0.001);
}

#[test]
fn decimal_focal_lengths_round_to_thousandths() {
    assert_eq!(focal_length_millis("50"), Some(50000));
    assert_eq!(focal_length_millis("28.5"), Some(28500));
    assert_eq!(focal_length_millis("1.23456"), Some(1235));
    assert_eq!(focal_length_millis("24-70"), None);
    assert_eq!(focal_length_millis(".5"), Some(500));
    assert_eq!(focal_length_millis("5."), Some(5000));
    assert_eq!(focal_length_millis("+35"), Some(35000));
    assert_eq!(focal_length_millis("+.25"), Some(250));
    assert_eq!(focal_length_millis("."), None);
    assert_eq!(focal_length_millis("+"), None);
    assert_eq!(focal_length_millis("-5"), None);
    assert_eq!(focal_length_millis(""), None);
    assert_eq!(focal_length_millis("99999999"), None);
}

#[test]
fn set_creation_date_writes_all_three_dates() {
    let base = JpegProcessor::apply_exif(&minimal_jpeg(), &[text("Make", "Leica")]).unwrap();
    let out = JpegProcessor::set_creation_date(&base, "2024:05:01 10:20:30").unwrap();
    let rows = JpegProcessor::read_exif(&out).unwrap();
    assert_eq!(lookup(&rows, "Date/Time"), Some("2024:05:01 10:20:30"));
    assert_eq!(lookup(&rows, "Date/Time Original"), Some("2024:05:01 10:20:30"));
    assert_eq!(lookup(&rows, "Date/Time Digitized"), Some("2024:05:01 10:20:30"));
    assert_eq!(lookup(&rows, "Make"), Some("Leica"));
}

#[test]
fn readout_is_sorted_by_name() {
    let fields = vec![text("Model", "M7"), text("Artist", "Daniel"), text("Make", "Leica")];
    let out = JpegProcessor::apply_exif(&minimal_jpeg(), &fields).unwrap();
    let rows = JpegProcessor::read_exif(&out).unwrap();
    let names: Vec<&str> = rows.iter().map(|(n, _)| n.as_str()).collect();
    assert_eq!(names, vec!["Artist", "Make", "Model"]);
}

#[test]
fn long_values_are_truncated_in_the_readout() {
    let long = "x".repeat(60);
    let out = JpegProcessor::apply_exif(&minimal_jpeg(), &[text("Artist", &long)]).unwrap();
    let rows = JpegProcessor::read_exif(&out).unwrap();
    assert_eq!(lookup(&rows, "Artist"), Some(format!("{}…", "x".repeat(50)).as_str()));
}

#[test]
fn jpeg_without_metadata_reads_empty() {
    assert!(JpegProcessor::read_exif(&minimal_jpeg()).unwrap().is_empty());
    assert_eq!(find_app1_segment(&minimal_jpeg()), None);
}

#[test]
fn non_jpeg_input_is_refused() {
    let png = vec![0x89, b'P', b'N', b'G'];
    assert_eq!(JpegProcessor::apply_exif(&png, &[]).unwrap_err(), ContainerError::NotAContainer);
    assert_eq!(JpegProcessor::erase_exif(&png).unwrap_err(), ContainerError::NotAContainer);
    assert_eq!(
        JpegProcessor::read_exif(&png).unwrap_err(),
        ExifError::Container(ContainerError::NotAContainer)
    );
}

#[test]
fn corrupt_exif_is_replaced_when_applying() {
    let mut d = vec![0xFF, 0xD8, 0xFF, 0xE1, 0x00, 0x0C];
    d.extend_from_slice(b"Exif\0\0II*\0");
    d.extend_from_slice(&SCAN);
    d.extend_from_slice(&[0xFF, 0xD9]);
    assert!(matches!(JpegProcessor::read_exif(&d), Err(ExifError::Codec(_))));
    let out = JpegProcessor::apply_exif(&d, &[text("Make", "Leica")]).unwrap();
    assert_eq!(markers(&out), vec![0xE1]);
    assert_eq!(lookup(&JpegProcessor::read_exif(&out).unwrap(), "Make"), Some("Leica"));
}

#[test]
fn oversized_segment_is_refused() {
    let huge = "z".repeat(70000);
    assert_eq!(
        JpegProcessor::apply_exif(&minimal_jpeg(), &[text("Artist", &huge)]).unwrap_err(),
        ContainerError::SegmentTooLarge
    );
}

#[test]
fn values_render_by_type() {
    let e = |field_type: u16, count: u32, value: &[u8]| IfdEntry { tag: 0x9999, field_type, count, value: value.to_vec() };
    assert_eq!(JpegProcessor::format_exif_value(&e(1, 3, &[1, 2, 3])), "[1, 2, 3]");
    assert_eq!(JpegProcessor::format_exif_value(&e(6, 2, &[0xFF, 2])), "[-1, 2]");
    assert_eq!(JpegProcessor::format_exif_value(&e(3, 2, &[1, 0, 0x90, 0x01])), "1, 400");
    assert_eq!(JpegProcessor::format_exif_value(&e(9, 1, &[0xFB, 0xFF, 0xFF, 0xFF])), "-5");
    assert_eq!(JpegProcessor::format_exif_value(&e(10, 1, &[0xFF, 0xFF, 0xFF, 0xFF, 3, 0, 0, 0])), "-1/3");
    assert_eq!(JpegProcessor::format_exif_value(&e(7, 4, b"0232")), "Undefined(4 bytes)");
    assert_eq!(JpegProcessor::format_exif_value(&e(2, 6, b" a\0b \0")), "a, b");
    assert_eq!(JpegProcessor::format_exif_value(&e(2, 3, &[0x01, 0x80, 0])), "<binary data>");
    assert_eq!(
        JpegProcessor::format_exif_value(&e(99, 7, &[0, 0, 0, 0])),
        "Unknown(tag=39321, type=99, count=7)"
    );
}

#[test]
fn tag_names_fall_back_to_numbers() {
    assert_eq!(JpegProcessor::format_tag_name(0x010F), "Make");
    assert_eq!(JpegProcessor::format_tag_name(0xA434), "Lens Model");
    assert_eq!(JpegProcessor::format_tag_name(0x0289), "Film");
    assert_eq!(JpegProcessor::format_tag_name(0x1234), "Tag 4660");
}

#[test]
fn tiff_files_are_read_directly() {
    let tiff = ifex::codec::serialize(&[IfdEntry { tag: 0x0110, field_type: 2, count: 3, value: b"M7\0".to_vec() }]).unwrap();
    let rows = TiffProcessor::read_exif(&tiff).unwrap();
    assert_eq!(rows, vec![("Model".to_string(), "M7".to_string())]);
    let via_manager = ExifManager::read_exif_data("roll/frame.dng", &tiff).unwrap();
    assert_eq!(via_manager, rows);
}

#[test]
fn manager_dispatches_on_extension() {
    let out = JpegProcessor::apply_exif(&minimal_jpeg(), &[text("Make", "Leica")]).unwrap();
    let rows = ExifManager::read_exif_data("photo.JPG", &out).unwrap();
    assert_eq!(lookup(&rows, "Make"), Some("Leica"));
    assert_eq!(
        ExifManager::read_exif_data("notes.txt", &out).unwrap_err(),
        ExifError::UnsupportedFileType
    );
    let sidecar = ExifManager::read_exif_data("frame.NEF", b"<x:xmpmeta/>").unwrap();
    assert_eq!(sidecar, vec![("XMP Content".to_string(), "<x:xmpmeta/>".to_string())]);
    assert_eq!(RawProcessor::read_exif(&[0xFF, 0xFE]).unwrap_err(), ExifError::InvalidText);
    let _ = ExifManager::new();
}

#[test]
fn batch_results_count_successes_and_failures() {
    let mut stats = ProcessingStats::new();
    stats.record("a.jpg".to_string(), Some("jpeg".to_string()), None);
    stats.record("b.nef".to_string(), Some("raw".to_string()), Some("unreadable".to_string()));
    assert_eq!((stats.processed, stats.failed), (1, 1));
    assert!(stats.files[0].success && !stats.files[1].success);
    let done = ProcessingResult::finish(stats, "No valid files to process");
    assert!(done.success);
    assert_eq!(done.message, "Processing completed");
    let none = ProcessingResult::finish(ProcessingStats::new(), "No valid files to process");
    assert!(!none.success);
    assert_eq!(none.message, "No valid files to process");
}

#[test]
fn every_existing_tag_is_carried() {
    let existing = ParsedIfd {
        entries: vec![
            IfdEntry { tag: 0x8769, field_type: 4, count: 1, value: vec![0x40, 0, 0, 0] },
            IfdEntry { tag: 0x0202, field_type: 4, count: 1, value: vec![9, 0, 0, 0] },
            IfdEntry { tag: 0x0112, field_type: 3, count: 1, value: vec![1, 0] },
        ],
        byte_order: ByteOrder::LittleEndian,
    };
    let merged = merge(Some(existing), &[text("Make", "Leica")]);
    let tags: Vec<u16> = merged.iter().map(|e| e.tag).collect();
    assert_eq!(tags, vec![0x8769, 0x0202, 0x0112, 0x010F]);
}

#[test]
fn a_first_app1_without_exif_is_replaced() {
    let mut d = vec![0xFF, 0xD8, 0xFF, 0xE1, 0x00, 0x08];
    d.extend_from_slice(b"http\0\0");
    d.extend_from_slice(&SCAN);
    d.extend_from_slice(&[0xFF, 0xD9]);
    assert!(JpegProcessor::read_exif(&d).unwrap().is_empty());
    let out = JpegProcessor::apply_exif(&d, &[text("Make", "Leica")]).unwrap();
    assert_eq!(markers(&out), vec![0xE1]);
    assert!(!out.windows(4).any(|w| w == b"http"));
    assert_eq!(lookup(&JpegProcessor::read_exif(&out).unwrap(), "Make"), Some("Leica"));
}

#[test]
fn fill_bytes_go_with_the_segment_they_precede() {
    let mut d = vec![0xFF, 0xD8, 0xFF, 0xFF, 0xE1, 0x00, 0x04, 0xAA, 0xBB];
    d.extend_from_slice(&[0xFF, 0xFF, 0xDB, 0x00, 0x03, 0x01]);
    d.extend_from_slice(&SCAN);
    d.extend_from_slice(&[0xFF, 0xD9]);
    let out = JpegProcessor::erase_exif(&d).unwrap();
    let mut want = vec![0xFF, 0xD8, 0xFF, 0xFF, 0xDB, 0x00, 0x03, 0x01];
    want.extend_from_slice(&SCAN);
    want.extend_from_slice(&[0xFF, 0xD9]);
    assert_eq!(out, want);
}

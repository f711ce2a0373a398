use ifex::iptc::{format_iptc_tag, parse_iptc_records, read_iptc_data};
use ifex::processors::JpegProcessor;

fn app13(caption: &str) -> Vec<u8> {
    let mut block = b"Photoshop 3.0\0".to_vec();
    block.extend_from_slice(&[0x1C, 0x02, 0x78]);
    block.extend_from_slice(&(caption.len() as u16).to_be_bytes());
    block.extend_from_slice(caption.as_bytes());
    let mut seg = vec![0xFF, 0xED];
    seg.extend_from_slice(&((block.len() + 2) as u16).to_be_bytes());
    seg.extend_from_slice(&block);
    seg
}

#[test]
fn iptc_caption_is_read_and_cut_at_a_character_boundary() {
    let caption = "This is a test with emojis: 🎥📷🎬🎞️📸🎪🎨🎭🎪🎨🎭🎪🎨🎭🎪🎨🎭";
    let mut jpeg = vec![0xFF, 0xD8, 0xFF, 0xE0, 0x00, 0x10];
    jpeg.extend_from_slice(b"JFIF\0\x01\x01\x01\x00\x48\x00\x48\x00\x00");
    jpeg.extend_from_slice(&app13(caption));
    jpeg.extend_from_slice(&[0xFF, 0xDA, 0x00, 0x08, 0x01, 0x01, 0x00, 0x00, 0x3F, 0x00, 0xD2, 0xCF, 0x20, 0xFF, 0xD9]);
    let rows = JpegProcessor::read_exif(&jpeg).unwrap();
    assert_eq!(rows.len(), 1);
    assert_eq!(rows[0].0, "IPTC: Caption/Abstract");
    assert!(rows[0].1.ends_with('…'));
    assert!(rows[0].1.len() <= 53);
    assert!(caption.starts_with(rows[0].1.trim_end_matches('…')));
}

#[test]
fn iptc_records_are_named_and_trimmed() {
    let mut data = vec![0x1C, 0x02, 0x19, 0x00, 0x06];
    data.extend_from_slice(b" film ");
    data.extend_from_slice(&[0x1C, 0x03, 0x07, 0x00, 0x03]);
    data.extend_from_slice(b"abc");
    data.extend_from_slice(&[0, 0, 0, 0, 0, 0, 0, 0]);
    let rows = parse_iptc_records(&data);
    assert_eq!(
        rows,
        vec![
            ("IPTC: Keywords".to_string(), "film".to_string()),
            ("IPTC: Record 3 Dataset 7".to_string(), "abc".to_string()),
        ]
    );
    assert_eq!(format_iptc_tag(2, 80), "Byline");
    assert_eq!(format_iptc_tag(2, 81), "Record 2 Dataset 81");
}

#[test]
fn segments_without_a_photoshop_block_are_ignored() {
    let mut seg = vec![0xFF, 0xED, 0x00, 0x12];
    seg.extend_from_slice(b"Not Photoshop\0\0\0");
    assert!(read_iptc_data(&seg).is_empty());
    assert!(read_iptc_data(&[]).is_empty());
    assert_eq!(read_iptc_data(&app13("Leica")), vec![("IPTC: Caption/Abstract".to_string(), "Leica".to_string())]);
}

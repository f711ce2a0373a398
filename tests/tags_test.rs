use ifex::exif_tags::ExifTags;
use ifex::merge::FieldValue;
use ifex::models::{Camera, Film, Lens, Photographer, Selection, Setup};
use ifex::prompts::{find_common_prefix, PromptUtils};
use ifex::tags::{name_to_tag, type_byte_size, FieldType};

fn selection(lens: Option<Lens>) -> Selection {
    let camera = Camera::new("Leica".to_string(), "M7".to_string());
    let setup = Setup::new("Street".to_string(), camera.id, lens.as_ref().map(|l| l.id));
    Selection {
        setup,
        camera,
        lens,
        film: Film::new("Fujifilm".to_string(), "Santacolor 100".to_string(), 100),
        photographer: Photographer::new("Daniel Filho".to_string(), None),
    }
}

fn summicron() -> Lens {
    Lens::new(
        "Leica".to_string(),
        "Summicron Asph. V5".to_string(),
        "35".to_string(),
        "2".to_string(),
        "M".to_string(),
    )
}

#[test]
fn keys_resolve_to_tags() {
    assert_eq!(name_to_tag("Make"), Some(0x010F));
    assert_eq!(name_to_tag("IsoSpeedRatings"), Some(0x8827));
    assert_eq!(name_to_tag("Film"), Some(0x0289));
    assert_eq!(name_to_tag("Colour"), None);
    assert_eq!(type_byte_size(FieldType::Rational), 8);
    assert_eq!(type_byte_size(FieldType::Short), 2);
    assert_eq!(FieldType::from_code(12), Some(FieldType::Double));
    assert_eq!(FieldType::from_code(13), None);
}

#[test]
fn selection_becomes_a_field_set() {
    let fields = ExifTags::create_exif_object_with_iso(&selection(Some(summicron())), Some(400));
    let names: Vec<&str> = fields.iter().map(|f| f.name.as_str()).collect();
    assert_eq!(
        names,
        vec!["Make", "Model", "Artist", "Film", "ExifVersion", "ISOSpeedRatings", "ISOSpeed", "LensMake", "LensModel", "FocalLength"]
    );
    assert!(matches!(&fields[3].value, FieldValue::Text(t) if t == "Fujifilm Santacolor 100 (ISO 100)"));
    assert!(matches!(fields[5].value, FieldValue::Short(100)));
    assert!(matches!(fields[6].value, FieldValue::Short(400)));
    assert!(matches!(&fields[8].value, FieldValue::Text(t) if t == "Summicron Asph. V5 35mm f/2"));
    assert!(matches!(fields[9].value, FieldValue::Rational(35000, 1000)));
    let plain = ExifTags::create_exif_object(&selection(None));
    assert_eq!(plain.len(), 7);
    assert!(matches!(plain[5].value, FieldValue::Short(100)));
    assert!(matches!(plain[6].value, FieldValue::Short(100)));
}

#[test]
fn film_information_is_embedded() {
    let fields = ExifTags::create_exif_object_with_iso(&selection(Some(summicron())), None);
    let jpeg = vec![0xFF, 0xD8, 0xFF, 0xDA, 0x00, 0x08, 0x01, 0x01, 0x00, 0x00, 0x3F, 0x00, 0xD2, 0xFF, 0xD9];
    let out = ifex::processors::JpegProcessor::apply_exif(&jpeg, &fields).unwrap();
    let rows = ifex::processors::JpegProcessor::read_exif(&out).unwrap();
    let film = rows.iter().find(|(n, _)| n == "Film").unwrap();
    assert!(film.1.contains("Santacolor 100"));
    assert!(rows.iter().any(|(n, v)| n == "Lens Model" && v.contains("Summicron")));
    assert!(rows.iter().any(|(n, v)| n == "EXIF Version" && v == "Undefined(4 bytes)"));
}

#[test]
fn sidecar_carries_the_selection() {
    let xmp = ExifTags::create_xmp_metadata_with_iso(&selection(Some(summicron())), Some(800));
    assert!(xmp.starts_with("<?xml version=\"1.0\" encoding=\"UTF-8\"?>\n<x:xmpmeta"));
    assert!(xmp.contains("<tiff:Make>Leica</tiff:Make>"));
    assert!(xmp.contains("<aux:LensModel>Summicron Asph. V5 f/2</aux:LensModel>"));
    assert!(xmp.contains("<rdf:li>800</rdf:li>"));
    assert!(xmp.contains("<rdf:li>Daniel Filho</rdf:li>"));
    assert!(xmp.ends_with("</x:xmpmeta>"));
    let without_lens = ExifTags::create_xmp_metadata(&selection(None));
    assert!(!without_lens.contains("LensModel"));
    assert!(without_lens.contains("<rdf:li>100</rdf:li>"));
}

#[test]
fn table_cells_are_padded() {
    assert_eq!(PromptUtils::format_table_row("Make", "Leica", 6, 7), " Make   │ Leica   ");
    assert_eq!(PromptUtils::format_table_row("Lens Model", "x", 4, 1), " Lens Model │ x ");
    assert_eq!(
        PromptUtils::format_table_header(8, 5),
        format!(" EXIF Tag │ Value \n{}", "─".repeat(16))
    );
    assert_eq!(PromptUtils::format_table_footer(8, 5), "");
}

#[test]
fn common_prefix_of_completions() {
    let s = |v: &[&str]| v.iter().map(|x| x.to_string()).collect::<Vec<String>>();
    assert_eq!(find_common_prefix(&s(&["photos/", "photon", "phot"])), "phot");
    assert_eq!(find_common_prefix(&s(&["abc"])), "abc");
    assert_eq!(find_common_prefix(&s(&["x", "y"])), "");
    assert_eq!(find_common_prefix(&[]), "");
}

#[test]
fn selection_summary_lists_each_item() {
    let text = PromptUtils::display_selection(&selection(Some(summicron())));
    assert!(text.starts_with("Selected Configuration:\n  Setup: Street\n  Camera: Leica M7\n"));
    assert!(text.contains("  Lens: Leica Summicron Asph. V5 35mm f/2\n"));
    assert!(text.ends_with("  Film: Fujifilm Santacolor 100 (ISO 100)\n  Photographer: Daniel Filho"));
    assert!(PromptUtils::display_selection(&selection(None)).contains("  Lens: None (camera only)\n"));
}

#[test]
fn tag_values_come_from_the_selection() {
    let sel = selection(Some(summicron()));
    assert_eq!(ExifTags::get_tag_value("Make", &sel), Some("Leica".to_string()));
    assert_eq!(ExifTags::get_tag_value("LensModel", &sel), Some("Summicron Asph. V5 35mm f/2".to_string()));
    assert_eq!(ExifTags::get_tag_value("Film", &sel), Some("Fujifilm Santacolor 100 (ISO 100)".to_string()));
    assert_eq!(ExifTags::get_tag_value("ExifVersion", &sel), Some("0232".to_string()));
    assert_eq!(ExifTags::get_tag_value("ISOSpeed", &sel), Some("100".to_string()));
    assert_eq!(ExifTags::get_tag_value_with_iso("ISOSpeedRatings", &sel, Some(400)), Some("100".to_string()));
    assert_eq!(ExifTags::get_tag_value_with_iso("ISOSpeed", &sel, Some(400)), Some("400".to_string()));
    assert_eq!(ExifTags::get_tag_value("Colour", &sel), None);
    assert_eq!(ExifTags::get_tag_value("FNumber", &selection(None)), None);
}

#[test]
fn date_sidecar_records_both_dates() {
    let xmp = ExifTags::create_xmp_date("2024:05:01 10:20:30");
    assert!(xmp.contains("<exif:DateTimeOriginal>2024:05:01 10:20:30</exif:DateTimeOriginal>"));
    assert!(xmp.contains("<exif:DateTimeDigitized>2024:05:01 10:20:30</exif:DateTimeDigitized>"));
    assert!(xmp.ends_with("</x:xmpmeta>"));
}

#[test]
fn sidecar_values_are_escaped() {
    let mut sel = selection(None);
    sel.camera.maker = "A&B <Cameras>".to_string();
    sel.photographer.name = "O'Neil \"Q\"".to_string();
    let xmp = ExifTags::create_xmp_metadata(&sel);
    assert!(xmp.contains("<tiff:Make>A&amp;B &lt;Cameras&gt;</tiff:Make>"));
    assert!(xmp.contains("<rdf:li>O&apos;Neil &quot;Q&quot;</rdf:li>"));
    assert!(!xmp.contains("A&B"));
    assert!(ExifTags::create_xmp_date("a<b").contains("a&lt;b"));
}

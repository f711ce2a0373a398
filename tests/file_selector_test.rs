use ifex::file_selector::FileSelector;

#[test]
fn test_format_file_for_display() {
    let base_path = "/Users/test";
    let file_path = "/Users/test/images/photo.jpg";

    let display = FileSelector::format_file_for_display(file_path, base_path);
    assert_eq!(display, "images/photo.jpg");

    // Test with direct child
    let direct_child = "/Users/test/photo.jpg";
    let display2 = FileSelector::format_file_for_display(direct_child, base_path);
    assert_eq!(display2, "photo.jpg");
}

#[test]
fn file_outside_the_base_shows_its_name() {
    let display = FileSelector::format_file_for_display("/elsewhere/roll/frame01.jpg", "/Users/test");
    assert_eq!(display, "frame01.jpg");
    let _ = FileSelector::new();
}

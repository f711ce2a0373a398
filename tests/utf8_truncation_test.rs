use ifex::readout::truncate_for_display;

#[test]
fn test_utf8_safe_string_truncation() {
    // Create a string that contains multi-byte UTF-8 characters around position 50
    let test_string = "This is a test string with unicode chars: 🎥📷🎬🎞️📸🎪🎨🎭🎪🎨🎭🎪🎨🎭🎪🎨🎭";

    let truncated = truncate_for_display(test_string);

    // The ellipsis character '…' is 3 bytes in UTF-8, so we need to account for that
    assert!(truncated.len() <= 53); // up to 50 bytes + 3-byte ellipsis
    assert!(truncated.ends_with('…'));
    assert!(!truncated.is_empty());
}

#[test]
fn fifty_two_ascii_characters_keep_fifty() {
    let value = "abcdefghijklmnopqrstuvwxyzABCDEFGHIJKLMNOPQRSTUVWXYZ";
    assert_eq!(value.len(), 52);
    let shown = truncate_for_display(value);
    assert_eq!(shown, format!("{}…", &value[..50]));
    assert_eq!(shown.chars().count(), 51);
}

#[test]
fn cut_inside_a_character_moves_back_to_its_start() {
    // 49 ASCII bytes, then 'é' occupying bytes 49 and 50.
    let value = format!("{}é and more text", "x".repeat(49));
    let shown = truncate_for_display(&value);
    assert_eq!(shown, format!("{}…", "x".repeat(49)));
}

#[test]
fn fifty_bytes_are_shown_whole() {
    let value = "y".repeat(50);
    assert_eq!(truncate_for_display(&value), value);
    assert_eq!(truncate_for_display(""), "");
}

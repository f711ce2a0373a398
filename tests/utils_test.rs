use ifex::utils::{clean_path, get_file_type, is_supported_image_format};

#[test]
fn test_clean_path_removes_double_quotes() {
    let input = r#""/path/to/file.jpg""#;
    assert_eq!(clean_path(input), "/path/to/file.jpg");
}

#[test]
fn test_clean_path_removes_single_quotes() {
    let input = "'/path/to/file.jpg'";
    assert_eq!(clean_path(input), "/path/to/file.jpg");
}

#[test]
fn test_clean_path_handles_escaped_spaces() {
    let input = r"/path/with\ spaces/file.jpg";
    assert_eq!(clean_path(input), "/path/with spaces/file.jpg");
}

#[test]
fn test_clean_path_no_quotes() {
    let input = "/path/to/file.jpg";
    assert_eq!(clean_path(input), "/path/to/file.jpg");
}

#[test]
fn test_clean_path_trims_whitespace() {
    let input = "  /path/to/file.jpg  ";
    assert_eq!(clean_path(input), "/path/to/file.jpg");
}

#[test]
fn test_is_supported_image_format_jpeg() {
    assert!(is_supported_image_format("test.jpg"));
    assert!(is_supported_image_format("test.jpeg"));
    assert!(is_supported_image_format("test.JPG"));
    assert!(is_supported_image_format("test.JPEG"));
}

#[test]
fn test_is_supported_image_format_tiff() {
    assert!(is_supported_image_format("test.tif"));
    assert!(is_supported_image_format("test.tiff"));
    assert!(is_supported_image_format("test.TIF"));
    assert!(is_supported_image_format("test.TIFF"));
}

#[test]
fn test_is_supported_image_format_dng() {
    assert!(is_supported_image_format("test.dng"));
    assert!(is_supported_image_format("test.DNG"));
}

#[test]
fn test_is_supported_image_format_raw_formats() {
    assert!(is_supported_image_format("test.cr2"));
    assert!(is_supported_image_format("test.nef"));
    assert!(is_supported_image_format("test.arw"));
    assert!(is_supported_image_format("test.orf"));
    assert!(is_supported_image_format("test.rw2"));
    assert!(is_supported_image_format("test.raf"));
}

#[test]
fn test_is_supported_image_format_unsupported() {
    assert!(!is_supported_image_format("test.png"));
    assert!(!is_supported_image_format("test.txt"));
    assert!(!is_supported_image_format("test"));
}

#[test]
fn test_get_file_type_jpeg() {
    assert_eq!(get_file_type("test.jpg"), Some("jpeg".to_string()));
    assert_eq!(get_file_type("test.jpeg"), Some("jpeg".to_string()));
    assert_eq!(get_file_type("test.JPG"), Some("jpeg".to_string()));
}

#[test]
fn test_get_file_type_tiff() {
    assert_eq!(get_file_type("test.tif"), Some("tiff".to_string()));
    assert_eq!(get_file_type("test.tiff"), Some("tiff".to_string()));
    assert_eq!(get_file_type("test.TIF"), Some("tiff".to_string()));
}

#[test]
fn test_get_file_type_dng() {
    assert_eq!(get_file_type("test.dng"), Some("dng".to_string()));
    assert_eq!(get_file_type("test.DNG"), Some("dng".to_string()));
}

#[test]
fn test_get_file_type_raw() {
    assert_eq!(get_file_type("test.cr2"), Some("raw".to_string()));
    assert_eq!(get_file_type("test.nef"), Some("raw".to_string()));
    assert_eq!(get_file_type("test.arw"), Some("raw".to_string()));
}

#[test]
fn test_get_file_type_no_extension() {
    assert_eq!(get_file_type("test"), None);
}

#[test]
fn test_get_file_type_unsupported() {
    assert_eq!(get_file_type("test.png"), Some("raw".to_string()));
    assert_eq!(get_file_type("test.txt"), Some("raw".to_string()));
}
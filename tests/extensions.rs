use photocat::extensions::{default_extensions, is_allowed_extension};

#[test]
fn default_extensions_are_the_photo_and_video_formats() {
    assert_eq!(
        default_extensions(),
        vec!["jpg", "heic", "mov", "png", "raw", "tiff", "arw", "nef", "dng"]
    );
}

#[test]
fn extensions_are_compared_in_lower_case() {
    let allowed = default_extensions();
    assert!(is_allowed_extension("JPG", &allowed));
    assert!(is_allowed_extension("Heic", &allowed));
    assert!(is_allowed_extension("dng", &allowed));
    assert!(!is_allowed_extension("txt", &allowed));
    assert!(!is_allowed_extension("", &allowed));
}

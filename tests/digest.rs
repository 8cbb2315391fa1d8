use photocat::digest::{file_digest, file_url};

#[test]
fn digest_covers_content_then_url() {
    let abc = "ba7816bf8f01cfea414140de5dae2223b00361a396177a9cb410ff61f20015ad";
    assert_eq!(file_digest(&b"ab".to_vec(), "c"), abc);
    assert_eq!(file_digest(&b"abc".to_vec(), ""), abc);
    assert_eq!(file_digest(&Vec::new(), "abc"), abc);
    assert_eq!(
        file_digest(&Vec::new(), ""),
        "e3b0c44298fc1c149afbf4c8996fb92427ae41e4649b934ca495991b7852b855"
    );
}

#[test]
fn file_urls_of_absolute_paths() {
    assert_eq!(file_url("/photos/a b.jpg"), Some(String::from("file:///photos/a%20b.jpg")));
    assert_eq!(file_url("relative/a.jpg"), None);
}

//! File extensions that the indexer picks up unless told otherwise.

use vstd::prelude::*;
use vstd::string::*;
use crate::mapping::{contains_text, holds_text};

verus! {

/// The extensions of photo and video files, in lower case.
pub open spec fn default_extension_texts() -> Seq<Seq<char>> {
    seq![
        "jpg"@,
        "heic"@,
        "mov"@,
        "png"@,
        "raw"@,
        "tiff"@,
        "arw"@,
        "nef"@,
        "dng"@,
    ]
}

pub fn default_extensions() -> (r: Vec<String>)
    ensures
        r@.len() == default_extension_texts().len(),
        forall|i: int| 0 <= i < r@.len() ==> (#[trigger] r@[i])@ == default_extension_texts()[i],
{
    let r = vec![
        String::from_str("jpg"),
        String::from_str("heic"),
        String::from_str("mov"),
        String::from_str("png"),
        String::from_str("raw"),
        String::from_str("tiff"),
        String::from_str("arw"),
        String::from_str("nef"),
        String::from_str("dng"),
    ];
    assert(r@.len() == 9);
    r
}

/// The text that `str::to_lowercase` makes of `s`.
pub uninterp spec fn lowercase_of(s: Seq<char>) -> Seq<char>;

/// Relies on `str::to_lowercase`: the lowercase mapping of each character,
/// which depends on the text alone.
#[verifier::external_body]
fn lowercase(s: &str) -> (r: String)
    ensures
        r@ == lowercase_of(s@),
{
    s.to_lowercase()
}

/// Whether a file with extension `ext` is picked up: the extension in lower
/// case is one of `allowed`.
pub fn is_allowed_extension(ext: &str, allowed: &Vec<String>) -> (r: bool)
    ensures
        r == holds_text(allowed@, lowercase_of(ext@)),
{
    let lower = lowercase(ext);
    contains_text(allowed, &lower)
}

} // verus!

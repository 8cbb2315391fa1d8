//! What identifies an indexed file: its URL and its digest.

use vstd::prelude::*;
use vstd::string::*;
use crate::query::opt_view;

verus! {

/// The SHA-256 digest of `data`, written as 64 lowercase hexadecimal digits.
pub uninterp spec fn sha256_hex_of(data: Seq<u8>) -> Seq<char>;

/// Whether `c` is a digit of lowercase hexadecimal.
pub open spec fn is_hex_digit(c: char) -> bool {
    ('0' <= c && c <= '9') || ('a' <= c && c <= 'f')
}

/// Relies on sha2's `Digest::digest` for `Sha256`, whose output is 32 bytes
/// and depends on `data` alone, and on the `LowerHex` formatting of that
/// output, two lowercase hexadecimal digits per byte.
#[verifier::external_body]
fn sha256_hex(data: &[u8]) -> (r: String)
    ensures
        r@ == sha256_hex_of(data@),
        r@.len() == 64,
        forall|i: int| 0 <= i < 64 ==> is_hex_digit(#[trigger] r@[i]),
{
    format!("{:x}", <sha2::Sha256 as sha2::Digest>::digest(data))
}

/// The digest of a file: SHA-256 of its content followed by the bytes of
/// its URL.
pub fn file_digest(content: &Vec<u8>, url: &str) -> (r: String)
    ensures
        r@ == sha256_hex_of(content@ + url.spec_bytes()),
        r@.len() == 64,
        forall|i: int| 0 <= i < 64 ==> is_hex_digit(#[trigger] r@[i]),
{
    let mut data: Vec<u8> = content.clone();
    data.extend_from_slice(url.as_bytes());
    assert(data@ =~= content@ + url.spec_bytes());
    sha256_hex(data.as_slice())
}

/// The `file:` URL that the url crate makes of the path `path`, or `None`
/// when it makes none (a relative path).
pub uninterp spec fn file_url_of(path: Seq<char>) -> Option<Seq<char>>;

/// Relies on url's `Url::from_file_path` and the URL's text; the result
/// depends on the path alone.
#[verifier::external_body]
fn url_of_path(path: &str) -> (r: Option<String>)
    ensures
        opt_view(r) == file_url_of(path@),
{
    match url::Url::from_file_path(path) {
        Ok(u) => Some(u.to_string()),
        Err(()) => None,
    }
}

/// The `file:` URL of an indexed file's absolute path, which identifies it
/// beside its digest.
pub fn file_url(path: &str) -> (r: Option<String>)
    ensures
        opt_view(r) == file_url_of(path@),
{
    url_of_path(path)
}

} // verus!

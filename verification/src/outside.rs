//! The trusted boundary: the few calls into outside crates and the one
//! std conversion that vstd gives no specification for.  Everything the
//! library proves about these calls rests on the contracts written here.

use vstd::prelude::*;

verus! {

use vstd::utf8::{encode_utf8, valid_utf8};

/// Relies on rand::random_range: a value drawn from the half-open
/// range, which panics only on an empty range.  Nothing is promised of
/// which value comes back.
#[verifier::external_body]
pub fn random_in(lo: u32, hi: u32) -> (r: u32)
    requires
        lo < hi,
    ensures
        lo <= r < hi,
{
    rand::random_range(lo..hi)
}

/// Relies on String::from_utf8: it accepts exactly the byte sequences
/// that are valid UTF-8, and the accepted string's UTF-8 bytes are the
/// input.
#[verifier::external_body]
pub fn string_from_utf8(b: Vec<u8>) -> (r: Option<String>)
    ensures
        (match r {
            Some(s) => valid_utf8(b@) && encode_utf8(s@) == b@,
            None => !valid_utf8(b@),
        }),
{
    String::from_utf8(b).ok()
}

/// The filesystem path a file URI names, if it parses and names one,
/// as `url` computes it: a function of the URI bytes alone.
pub uninterp spec fn path_of(uri: Seq<u8>) -> Option<Seq<u8>>;

/// The file URI naming an absolute filesystem path, if the path is
/// absolute, as `url` computes it: a function of the path bytes alone.
pub uninterp spec fn uri_of(path: Seq<u8>) -> Option<Seq<u8>>;

/// Relies on url::Url::parse and Url::to_file_path: the filesystem path
/// a file URI names, where the URI parses and names one.  The result
/// depends on the URI alone.
#[verifier::external_body]
pub fn file_uri_to_path(uri: &str) -> (r: Option<String>)
    ensures
        (match r {
            Some(p) => path_of(encode_utf8(uri@)) == Some(encode_utf8(p@)),
            None => path_of(encode_utf8(uri@)) is None,
        }),
{
    let parsed = match url::Url::parse(uri) {
        Ok(u) => u,
        Err(_) => return None,
    };
    let path = match parsed.to_file_path() {
        Ok(p) => p,
        Err(()) => return None,
    };
    path.to_str().map(|s| s.to_owned())
}

/// Relies on url::Url::from_file_path: the file URI naming an absolute
/// filesystem path.  The result depends on the path alone.
#[verifier::external_body]
pub fn path_to_file_uri(path: &str) -> (r: Option<String>)
    ensures
        (match r {
            Some(u) => uri_of(encode_utf8(path@)) == Some(encode_utf8(u@)),
            None => uri_of(encode_utf8(path@)) is None,
        }),
{
    match url::Url::from_file_path(path) {
        Ok(u) => Some(u.as_str().to_owned()),
        Err(()) => None,
    }
}

} // verus!

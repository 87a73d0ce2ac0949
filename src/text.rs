//! Text decoding helpers backed by std and the `regex` crate.
use vstd::prelude::*;
use vstd::utf8::{decode_utf8, valid_utf8};

verus! {

/// The text that `String::from_utf8_lossy` makes of a byte sequence.
pub uninterp spec fn utf8_lossy(b: Seq<u8>) -> Seq<char>;

/// Relies on `String::from_utf8_lossy`: the decoded text depends on the bytes
/// alone, and bytes that are valid UTF-8 decode to their plain decoding.
#[verifier::external_body]
pub(crate) fn lossy_string(b: &[u8]) -> (r: String)
    ensures
        r@ == utf8_lossy(b@),
        valid_utf8(b@) ==> r@ == decode_utf8(b@),
{
    String::from_utf8_lossy(b).into_owned()
}

/// A character that may stand in the leading part of a version string.
pub open spec fn is_version_char(c: char) -> bool {
    ('0' <= c && c <= '9') || c == '.'
}

/// Text that begins with at least three digits or dots.
pub open spec fn has_version_prefix(s: Seq<char>) -> bool {
    s.len() >= 3 && forall|i: int| 0 <= i < 3 ==> is_version_char(#[trigger] s[i])
}

/// The pattern that recognises the start of a server version string.
pub open spec fn version_pattern() -> Seq<char> {
    "^[0-9\\.]{3,}"@
}

/// Relies on `regex::Regex::new` and `regex::Regex::is_match`: the pattern
/// `^[0-9\.]{3,}` compiles, and it matches exactly the text whose first
/// three characters are digits or dots.
#[verifier::external_body]
pub(crate) fn regex_is_match(pattern: &str, text: &str) -> (r: bool)
    requires
        pattern@ == version_pattern(),
    ensures
        r == has_version_prefix(text@),
{
    regex::Regex::new(pattern).unwrap().is_match(text)
}

} // verus!

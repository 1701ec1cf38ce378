//! The calls this library makes into other crates. Verus does not read these
//! bodies: each contract here is taken on trust from the other crate's source
//! and documentation.

use vstd::prelude::*;
use crate::text::{opt_text, texts};

verus! {

/// The path segments that the `url` crate finds in an address: what
/// `Url::path_segments` yields for the URL that `Url::parse` reads from the
/// text, or `None` where the text is no absolute URL or the URL has no
/// hierarchical path.
pub uninterp spec fn url_path_segments(address: Seq<char>) -> Option<Seq<Seq<char>>>;

/// What `urlencoding::decode` makes of a text: every `%` followed by two
/// hexadecimal digits replaced by the byte they spell and the bytes read as
/// UTF-8, or `None` where they are not valid UTF-8.
pub uninterp spec fn percent_decoded(text: Seq<char>) -> Option<Seq<char>>;

/// The lower-case form of a text, as `str::to_lowercase` of the standard
/// library gives it by the Unicode tables.
pub uninterp spec fn lowercased(text: Seq<char>) -> Seq<char>;

/// Whether a character is a letter or a number, as `char::is_alphanumeric`
/// of the standard library tells by the Unicode tables.
pub uninterp spec fn alphanumeric(c: char) -> bool;

/// A lower-case hexadecimal digit.
pub open spec fn lower_hex(c: char) -> bool {
    ('0' <= c && c <= '9') || ('a' <= c && c <= 'f')
}

/// The shape of an identifier in hyphenated lower-case form.
pub open spec fn uuid_text(text: Seq<char>) -> bool {
    &&& text.len() == 36
    &&& forall|i: int|
        0 <= i < 36 ==> if i == 8 || i == 13 || i == 18 || i == 23 {
            #[trigger] text[i] == '-'
        } else {
            lower_hex(text[i])
        }
}

/// Calls `str::to_lowercase`. Trusted: the result is the named function of
/// the text.
#[verifier::external_body]
pub(crate) fn to_lowercase(text: &str) -> (out: String)
    ensures
        out@ == lowercased(text@),
{
    text.to_lowercase()
}

/// Calls `char::is_alphanumeric`. Trusted: the result is the named function
/// of the character.
#[verifier::external_body]
pub(crate) fn is_alphanumeric(c: char) -> (out: bool)
    ensures
        out == alphanumeric(c),
{
    c.is_alphanumeric()
}

/// Calls `url::Url::parse` and, on the parsed URL, `Url::path_segments`,
/// and copies the segments out. Trusted: the result is the named function
/// of the text, which says only that the same text always splits the same
/// way.
#[verifier::external_body]
pub(crate) fn path_segments_of(address: &str) -> (out: Option<Vec<String>>)
    ensures
        match out {
            Some(parts) => url_path_segments(address@) == Some(texts(parts@)),
            None => url_path_segments(address@) is None,
        },
{
    match url::Url::parse(address) {
        Ok(parsed) => match parsed.path_segments() {
            Some(parts) => Some(parts.map(|part| part.to_string()).collect()),
            None => None,
        },
        Err(_) => None,
    }
}

/// Calls `urlencoding::decode`. Trusted: the result is the named function of
/// the text, and a text without `%` comes back as it is (the crate hands
/// such an input back borrowed).
#[verifier::external_body]
pub(crate) fn percent_decode(text: &str) -> (out: Option<String>)
    ensures
        opt_text(out) == percent_decoded(text@),
        !text@.contains('%') ==> opt_text(out) == Some(text@),
{
    match urlencoding::decode(text) {
        Ok(decoded) => Some(decoded.into_owned()),
        Err(_) => None,
    }
}

/// Calls `uuid::Uuid::new_v4` and writes the identifier as text. The value
/// is random. Trusted: its shape, as the crate's hyphenated lower-case form
/// gives it: 36 characters, a hyphen at the places 8, 13, 18 and 23 and a
/// lower-case hexadecimal digit at every other. The crate ends the process
/// where the operating system yields no random bytes.
#[verifier::external_body]
pub(crate) fn fresh_uuid() -> (out: String)
    ensures
        uuid_text(out@),
{
    uuid::Uuid::new_v4().to_string()
}

} // verus!

//! How a download gets its file name: from the caller, from the server's
//! content-disposition header, from the address, or made up.

use vstd::prelude::*;
use vstd::string::*;
use crate::outside::{
    fresh_uuid, lower_hex, path_segments_of, percent_decode, percent_decoded, url_path_segments,
    uuid_text,
};
use crate::text::{
    chars_of, find_in, first_occurrence, opt_text, str_eq, texts, trim_bounds, trim_matches,
};

verus! {

/// The text of an optional string slice.
pub open spec fn opt_str(s: Option<&str>) -> Option<Seq<char>> {
    match s {
        Some(t) => Some(t@),
        None => None,
    }
}

/// The name that a content-disposition header gives: what follows the first
/// `filename=` up to the next `;`, without the quotes around it; none where
/// the header has no such parameter or the name is empty.
pub open spec fn header_filename_spec(header: Seq<char>) -> Option<Seq<char>> {
    match first_occurrence(header, "filename="@) {
        None => None,
        Some(at) => {
            let rest = header.subrange(at + "filename="@.len(), header.len() as int);
            let value = match first_occurrence(rest, seq![';']) {
                Some(end) => rest.subrange(0, end),
                None => rest,
            };
            let name = trim_matches(trim_matches(value, '"'), '\'');
            if name.len() == 0 {
                None
            } else {
                Some(name)
            }
        },
    }
}

/// The name that one path segment gives: its percent-decoded form, or the
/// segment itself where that cannot be decoded; none where the name is empty
/// or a lone slash.
pub open spec fn segment_filename_spec(raw: Seq<char>, decoded: Option<Seq<char>>) -> Option<
    Seq<char>,
> {
    let name = match decoded {
        Some(d) => d,
        None => raw,
    };
    if name.len() == 0 || name == "/"@ {
        None
    } else {
        Some(name)
    }
}

/// The name that an address gives: that of its last path segment.
pub open spec fn url_filename_spec(address: Seq<char>) -> Option<Seq<char>> {
    match url_path_segments(address) {
        Some(parts) => if parts.len() == 0 {
            None
        } else {
            segment_filename_spec(parts.last(), percent_decoded(parts.last()))
        },
        None => None,
    }
}

/// The name found without making one up: the header's, else the address's.
pub open spec fn hinted_filename_spec(address: Seq<char>, header: Option<Seq<char>>) -> Option<
    Seq<char>,
> {
    let from_header = match header {
        Some(h) => header_filename_spec(h),
        None => None,
    };
    match from_header {
        Some(name) => Some(name),
        None => url_filename_spec(address),
    }
}

/// The made-up name that carries `token`.
pub open spec fn fallback_name(token: Seq<char>) -> Seq<char> {
    "download_"@ + token
}

/// A name of the made-up kind: `download_` and, behind it, an identifier in
/// hyphenated lower-case form.
pub open spec fn is_generated_name(name: Seq<char>) -> bool {
    exists|token: Seq<char>| uuid_text(token) && name == #[trigger] fallback_name(token)
}

/// A made-up name holds no slash, and is therefore one file's name and no
/// path.
pub proof fn lemma_generated_name_has_no_slash(name: Seq<char>)
    requires
        is_generated_name(name),
    ensures
        !name.contains('/'),
        name.len() == 45,
{
    let token = choose|token: Seq<char>| uuid_text(token) && name == #[trigger] fallback_name(token);
    let prefix = "download_"@;
    reveal_strlit("download_");
    assert(prefix.len() == 9);
    assert forall|i: int| 0 <= i < name.len() implies name[i] != '/' by {
        if i < 9 {
            assert(name[i] == prefix[i]);
        } else {
            assert(name[i] == token[i - 9]);
            assert(token[i - 9] == '-' || lower_hex(token[i - 9]));
        }
    }
}

/// Reads the file name out of a content-disposition header.
pub fn header_filename(header: &str) -> (out: Option<String>)
    ensures
        opt_text(out) == header_filename_spec(header@),
{
    let chars = chars_of(header);
    let key = chars_of("filename=");
    let semicolon: Vec<char> = vec![';'];
    proof {
        reveal_strlit("filename=");
        assert(semicolon@ =~= seq![';']);
        assert(chars@.subrange(0, chars@.len() as int) =~= chars@);
    }
    match find_in(&chars, 0, chars.len(), &key) {
        None => None,
        Some(at) => {
            let from = at + key.len();
            let end = match find_in(&chars, from, chars.len(), &semicolon) {
                Some(stop) => stop,
                None => chars.len(),
            };
            proof {
                let rest = chars@.subrange(from as int, chars@.len() as int);
                assert(rest.subrange(0, end - from) =~= chars@.subrange(from as int, end as int));
                assert(rest.subrange(0, rest.len() as int) =~= rest);
            }
            let (a, b) = trim_bounds(&chars, from, end, '"');
            let (c, d) = trim_bounds(&chars, a, b, '\'');
            if c == d {
                None
            } else {
                Some(header.substring_char(c, d).to_owned())
            }
        },
    }
}

/// Picks the file name that a path segment gives, from the segment and what
/// percent-decoding made of it.
pub fn segment_filename(raw: String, decoded: Option<String>) -> (out: Option<String>)
    ensures
        opt_text(out) == segment_filename_spec(raw@, opt_text(decoded)),
{
    let name = match decoded {
        Some(d) => d,
        None => raw,
    };
    if name.as_str().unicode_len() == 0 || str_eq(name.as_str(), "/") {
        None
    } else {
        Some(name)
    }
}

/// Reads the file name out of an address: the last segment of its path,
/// percent-decoded.
pub fn url_filename(address: &str) -> (out: Option<String>)
    ensures
        opt_text(out) == url_filename_spec(address@),
{
    match path_segments_of(address) {
        Some(mut parts) => {
            let ghost all = texts(parts@);
            match parts.pop() {
                Some(last) => {
                    assert(all.last() == last@);
                    let decoded = percent_decode(last.as_str());
                    segment_filename(last, decoded)
                },
                None => None,
            }
        },
        None => None,
    }
}

/// The file name that header and address give, if they give one.
pub fn hinted_filename(address: &str, content_disposition: Option<&str>) -> (out: Option<String>)
    ensures
        opt_text(out) == hinted_filename_spec(address@, opt_str(content_disposition)),
{
    let from_header = match content_disposition {
        Some(header) => header_filename(header),
        None => None,
    };
    match from_header {
        Some(name) => Some(name),
        None => url_filename(address),
    }
}

/// Makes up a file name around a token.
pub fn fallback_filename(token: &str) -> (name: String)
    ensures
        name@ == fallback_name(token@),
{
    String::from_str("download_").concat(token)
}

/// The file name for a download of `address`: the header's, else the
/// address's, else a made-up name around a fresh random identifier.
pub fn extract_filename(address: &str, content_disposition: Option<&str>) -> (name: String)
    ensures
        match hinted_filename_spec(address@, opt_str(content_disposition)) {
            Some(found) => name@ == found,
            None => is_generated_name(name@) && !name@.contains('/'),
        },
{
    match hinted_filename(address, content_disposition) {
        Some(name) => name,
        None => {
            let token = fresh_uuid();
            let name = fallback_filename(token.as_str());
            proof {
                lemma_generated_name_has_no_slash(name@);
            }
            name
        },
    }
}

/// The file name of a new download: the one the caller asked for, else the
/// one that `extract_filename` finds.
pub fn resolve_filename(
    requested: Option<String>,
    address: &str,
    content_disposition: Option<&str>,
) -> (name: String)
    ensures
        match requested {
            Some(asked) => name == asked,
            None => match hinted_filename_spec(address@, opt_str(content_disposition)) {
                Some(found) => name@ == found,
                None => is_generated_name(name@) && !name@.contains('/'),
            },
        },
{
    match requested {
        Some(asked) => asked,
        None => extract_filename(address, content_disposition),
    }
}

/// Made-up names around different tokens differ.
pub proof fn lemma_fallback_names_differ(a: Seq<char>, b: Seq<char>)
    requires
        a != b,
    ensures
        fallback_name(a) != fallback_name(b),
{
    let prefix = "download_"@;
    if fallback_name(a) == fallback_name(b) {
        assert(fallback_name(a).subrange(prefix.len() as int, fallback_name(a).len() as int)
            =~= a);
        assert(fallback_name(b).subrange(prefix.len() as int, fallback_name(b).len() as int)
            =~= b);
    }
}

} // verus!

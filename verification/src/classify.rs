use vstd::prelude::*;

use crate::response::{find_header, headers_view, spec_find_header, Header, HeaderSpec};
use crate::strutil::{has_sub, str_contains};

verus! {

/// How the caller should treat a body: structured data passed through
/// verbatim, or markup handed to text extraction.
#[derive(Clone, Copy, PartialEq, Eq, Structural, Debug)]
pub enum ContentKind {
    Markup,
    Json,
}

/// The characters of `"Content-Type"`, matched exactly as received.
pub open spec fn content_type_chars() -> Seq<char> {
    seq!['C', 'o', 'n', 't', 'e', 'n', 't', '-', 'T', 'y', 'p', 'e']
}

/// The characters of `"application/json"`.
pub open spec fn json_marker_chars() -> Seq<char> {
    seq!['a', 'p', 'p', 'l', 'i', 'c', 'a', 't', 'i', 'o', 'n', '/', 'j', 's', 'o', 'n']
}

/// `Json` exactly when the first `Content-Type` header (case-sensitive name
/// match) has `application/json` somewhere in its value; `Markup` otherwise,
/// in particular when the header is absent.
pub open spec fn spec_classify(hs: Seq<HeaderSpec>) -> ContentKind {
    match spec_find_header(hs, content_type_chars()) {
        None => ContentKind::Markup,
        Some(v) => if has_sub(v, json_marker_chars()) {
            ContentKind::Json
        } else {
            ContentKind::Markup
        },
    }
}

/// Decides from the decoded headers whether the body is JSON or markup.
pub fn classify(headers: &Vec<Header>) -> (r: ContentKind)
    ensures
        r == spec_classify(headers_view(headers@)),
{
    proof {
        reveal_strlit("Content-Type");
        reveal_strlit("application/json");
        assert("Content-Type"@ =~= content_type_chars());
        assert("application/json"@ =~= json_marker_chars());
    }
    match find_header(headers, "Content-Type") {
        None => ContentKind::Markup,
        Some(v) => {
            if str_contains(v.as_str(), "application/json") {
                ContentKind::Json
            } else {
                ContentKind::Markup
            }
        },
    }
}

} // verus!

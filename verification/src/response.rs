use vstd::prelude::*;
use vstd::string::StrSliceExecFns;
use vstd::string::StringExecFns;

use crate::errors::FetchError;
use crate::strutil::{
    begins_with, digit_val, find_sub, has_sub, is_digit, lemma_find_sub, lemma_scan_until_is,
    match_at, opt_str_view, scan_until, str_eq, str_index_of, str_starts_with,
};

verus! {

/// The most header slots one response may fill; lines past this many are
/// ignored, never inspected.
pub const MAX_HEADERS: usize = 64;

/// One header as received, name and value, names kept exactly as sent.
#[derive(Clone, PartialEq, Eq, Debug)]
pub struct Header {
    pub name: String,
    pub value: String,
}

/// The mathematical shape of a `Header`.
pub ghost struct HeaderSpec {
    pub name: Seq<char>,
    pub value: Seq<char>,
}

impl View for Header {
    type V = HeaderSpec;

    open spec fn view(&self) -> HeaderSpec {
        HeaderSpec { name: self.name@, value: self.value@ }
    }
}

/// The header list as its mathematical shape, in received order.
pub open spec fn headers_view(hs: Seq<Header>) -> Seq<HeaderSpec> {
    hs.map_values(|h: Header| h@)
}

/// Everything read off the wire for one request, already split: status code,
/// reason phrase, the ordered header list, and the body after the blank line.
#[derive(Clone, PartialEq, Eq, Debug)]
pub struct RawResponse {
    pub code: u16,
    pub reason: Option<String>,
    pub headers: Vec<Header>,
    pub body: String,
}

/// The mathematical shape of a `RawResponse`.
pub ghost struct RawResponseSpec {
    pub code: u16,
    pub reason: Option<Seq<char>>,
    pub headers: Seq<HeaderSpec>,
    pub body: Seq<char>,
}

impl View for RawResponse {
    type V = RawResponseSpec;

    open spec fn view(&self) -> RawResponseSpec {
        RawResponseSpec {
            code: self.code,
            reason: opt_str_view(self.reason),
            headers: headers_view(self.headers@),
            body: self.body@,
        }
    }
}

/// The CRLF line ending.
pub open spec fn crlf() -> Seq<char> {
    seq!['\r', '\n']
}

/// The blank line between the head and the body.
pub open spec fn head_delim() -> Seq<char> {
    seq!['\r', '\n', '\r', '\n']
}

/// A status line: `HTTP/1.0` or `HTTP/1.1`, a space, three digits, and
/// optionally a space and the reason phrase.
pub open spec fn spec_parse_status(line: Seq<char>) -> Option<(u16, Option<Seq<char>>)> {
    if line.len() < 12 {
        None
    } else if !begins_with(line, seq!['H', 'T', 'T', 'P', '/', '1', '.']) {
        None
    } else if line[7] != '0' && line[7] != '1' {
        None
    } else if line[8] != ' ' {
        None
    } else if !(is_digit(line[9]) && is_digit(line[10]) && is_digit(line[11])) {
        None
    } else {
        let code = (100 * digit_val(line[9]) + 10 * digit_val(line[10]) + digit_val(
            line[11],
        )) as u16;
        if line.len() == 12 {
            Some((code, None))
        } else if line[12] == ' ' {
            Some((code, Some(line.skip(13))))
        } else {
            None
        }
    }
}

/// A character that is not a plain space.
pub open spec fn not_space(c: char) -> bool {
    c != ' '
}

/// The value with its leading spaces dropped.
pub open spec fn trim_leading_spaces(s: Seq<char>) -> Seq<char> {
    s.skip(scan_until(s, |c: char| not_space(c)))
}

/// One header line: a non-empty name before the first colon, then the value
/// with leading spaces dropped.
pub open spec fn spec_parse_header_line(line: Seq<char>) -> Option<HeaderSpec> {
    match find_sub(line, seq![':']) {
        None => None,
        Some(ci) => if ci > 0 {
            Some(HeaderSpec { name: line.take(ci), value: trim_leading_spaces(line.skip(ci + 1)) })
        } else {
            None
        },
    }
}

/// The header lines after the status line, split at CRLF, each parsed in
/// order; only the first `slots` lines are read, the rest are ignored.
pub open spec fn spec_parse_headers(rest: Seq<char>, slots: nat) -> Option<Seq<HeaderSpec>>
    decreases rest.len(),
{
    if rest.len() == 0 || slots == 0 {
        Some(Seq::empty())
    } else {
        match find_sub(rest, crlf()) {
            None => match spec_parse_header_line(rest) {
                None => None,
                Some(h) => Some(seq![h]),
            },
            // The range guard keeps the recursion visibly well-founded; an
            // index `find_sub` returns always lies in range.
            Some(i) => if 0 <= i && i + 2 <= rest.len() {
                match spec_parse_header_line(rest.take(i)) {
                    None => None,
                    Some(h) => match spec_parse_headers(rest.skip(i + 2), (slots - 1) as nat) {
                        None => None,
                        Some(hs) => Some(seq![h] + hs),
                    },
                }
            } else {
                None
            },
        }
    }
}

/// The head before the blank line: a status line, then header lines.
pub open spec fn spec_parse_head(head: Seq<char>) -> Option<(u16, Option<Seq<char>>, Seq<
    HeaderSpec,
>)> {
    match find_sub(head, crlf()) {
        None => match spec_parse_status(head) {
            None => None,
            Some((code, reason)) => Some((code, reason, Seq::empty())),
        },
        Some(i) => match spec_parse_status(head.take(i)) {
            None => None,
            Some((code, reason)) => match spec_parse_headers(
                head.skip(i + 2),
                MAX_HEADERS as nat,
            ) {
                None => None,
                Some(hs) => Some((code, reason, hs)),
            },
        },
    }
}

/// A whole response: everything before the first blank line is the head,
/// everything after it is the body. Without the blank line nothing is
/// returned.
pub open spec fn spec_decode(text: Seq<char>) -> Option<RawResponseSpec> {
    match find_sub(text, head_delim()) {
        None => None,
        Some(d) => match spec_parse_head(text.take(d)) {
            None => None,
            Some((code, reason, headers)) => Some(
                RawResponseSpec { code, reason, headers, body: text.skip(d + 4) },
            ),
        },
    }
}

/// Reads a status line, or nothing exactly when it is malformed.
fn parse_status_line(line: &str) -> (r: Option<(u16, Option<String>)>)
    ensures
        match r {
            Some((code, reason)) => spec_parse_status(line@) == Some(
                (code, opt_str_view(reason)),
            ),
            None => spec_parse_status(line@) is None,
        },
{
    proof {
        reveal_strlit("HTTP/1.");
        assert("HTTP/1."@ =~= seq!['H', 'T', 'T', 'P', '/', '1', '.']);
    }
    let n = line.unicode_len();
    if n < 12 {
        return None;
    }
    if !str_starts_with(line, "HTTP/1.") {
        return None;
    }
    let v = line.get_char(7);
    if v != '0' && v != '1' {
        return None;
    }
    if line.get_char(8) != ' ' {
        return None;
    }
    let d1 = line.get_char(9) as u32;
    let d2 = line.get_char(10) as u32;
    let d3 = line.get_char(11) as u32;
    if d1 < 48 || d1 > 57 || d2 < 48 || d2 > 57 || d3 < 48 || d3 > 57 {
        return None;
    }
    let code: u16 = (100 * (d1 - 48) + 10 * (d2 - 48) + (d3 - 48)) as u16;
    if n == 12 {
        return Some((code, None));
    }
    if line.get_char(12) != ' ' {
        return None;
    }
    let reason = String::from_str(line.substring_char(13, n));
    proof {
        assert(reason@ =~= line@.skip(13));
    }
    Some((code, Some(reason)))
}

/// Reads one header line, or nothing exactly when it is malformed.
fn parse_header_line(line: &str) -> (r: Option<Header>)
    ensures
        match r {
            Some(h) => spec_parse_header_line(line@) == Some(h@),
            None => spec_parse_header_line(line@) is None,
        },
{
    proof {
        reveal_strlit(":");
        assert(":"@ =~= seq![':']);
    }
    let n = line.unicode_len();
    let ci = match str_index_of(line, ":") {
        None => {
            return None;
        },
        Some(ci) => ci,
    };
    proof {
        lemma_find_sub(line@, seq![':']);
    }
    if ci == 0 {
        return None;
    }
    let name = String::from_str(line.substring_char(0, ci));
    proof {
        assert(name@ =~= line@.take(ci as int));
    }
    // Skip the spaces that follow the colon.
    let mut k: usize = ci + 1;
    loop
        invariant
            n == line@.len(),
            ci + 1 <= k <= n,
            forall|j: int| ci + 1 <= j < k ==> line@[j] == ' ',
        ensures
            ci + 1 <= k <= n,
            forall|j: int| ci + 1 <= j < k ==> line@[j] == ' ',
            k < n ==> line@[k as int] != ' ',
        decreases n - k,
    {
        if k == n {
            break;
        }
        if line.get_char(k) != ' ' {
            break;
        }
        k += 1;
    }
    let ghost after = line@.skip(ci + 1);
    proof {
        assert forall|j: int| 0 <= j < k - ci - 1 implies !((|c: char| not_space(c))(after[j])) by {
            assert(after[j] == line@[ci + 1 + j]);
        }
        if k < n {
            assert(after[k - ci - 1] == line@[k as int]);
        }
        lemma_scan_until_is(after, |c: char| not_space(c), k - ci - 1);
    }
    let value = String::from_str(line.substring_char(k, n));
    proof {
        assert(value@ =~= after.skip(k - ci - 1));
    }
    Some(Header { name, value })
}

/// Reads at most `slots` header lines from `rest`, or nothing exactly when a
/// read line is malformed.
fn parse_headers_from(rest: &str, slots: usize) -> (r: Option<Vec<Header>>)
    ensures
        match r {
            Some(hs) => spec_parse_headers(rest@, slots as nat) == Some(headers_view(hs@)),
            None => spec_parse_headers(rest@, slots as nat) is None,
        },
    decreases rest@.len(),
{
    proof {
        reveal_strlit("\r\n");
        assert("\r\n"@ =~= crlf());
    }
    let n = rest.unicode_len();
    if n == 0 || slots == 0 {
        let hs: Vec<Header> = Vec::new();
        proof {
            assert(headers_view(hs@) =~= Seq::<HeaderSpec>::empty());
        }
        return Some(hs);
    }
    match str_index_of(rest, "\r\n") {
        None => {
            match parse_header_line(rest) {
                None => None,
                Some(h) => {
                    let ghost gh = h;
                    let mut hs: Vec<Header> = Vec::new();
                    hs.push(h);
                    proof {
                        assert(headers_view(hs@) =~= seq![gh@]);
                    }
                    Some(hs)
                },
            }
        },
        Some(i) => {
            proof {
                lemma_find_sub(rest@, crlf());
            }
            let line = rest.substring_char(0, i);
            proof {
                assert(line@ =~= rest@.take(i as int));
            }
            match parse_header_line(line) {
                None => None,
                Some(h) => {
                    let tail = rest.substring_char(i + 2, n);
                    proof {
                        assert(tail@ =~= rest@.skip(i + 2));
                    }
                    match parse_headers_from(tail, slots - 1) {
                        None => None,
                        Some(more) => {
                            let ghost gh = h;
                            let ghost gmore = more@;
                            let mut hs: Vec<Header> = Vec::new();
                            hs.push(h);
                            let mut rest_vec = more;
                            hs.append(&mut rest_vec);
                            proof {
                                assert(hs@ =~= seq![gh] + gmore);
                                assert(headers_view(hs@) =~= seq![gh@] + headers_view(gmore));
                            }
                            Some(hs)
                        },
                    }
                },
            }
        },
    }
}

/// Splits raw response text into status code, reason, headers and body, or
/// fails with `ParseError` exactly when the blank line is missing, the status
/// line is malformed, or a read header line is malformed.
pub fn decode_response(text: &str) -> (r: Result<RawResponse, FetchError>)
    ensures
        match r {
            Ok(resp) => spec_decode(text@) == Some(resp@),
            Err(e) => spec_decode(text@) is None && e == FetchError::ParseError,
        },
{
    proof {
        reveal_strlit("\r\n\r\n");
        reveal_strlit("\r\n");
        assert("\r\n\r\n"@ =~= head_delim());
        assert("\r\n"@ =~= crlf());
    }
    let n = text.unicode_len();
    let d = match str_index_of(text, "\r\n\r\n") {
        None => {
            return Err(FetchError::ParseError);
        },
        Some(d) => d,
    };
    proof {
        lemma_find_sub(text@, head_delim());
    }
    let head = text.substring_char(0, d);
    let body = String::from_str(text.substring_char(d + 4, n));
    proof {
        assert(head@ =~= text@.take(d as int));
        assert(body@ =~= text@.skip(d + 4));
    }
    let hn = head.unicode_len();
    match str_index_of(head, "\r\n") {
        None => {
            match parse_status_line(head) {
                None => Err(FetchError::ParseError),
                Some((code, reason)) => {
                    let resp = RawResponse { code, reason, headers: Vec::new(), body };
                    proof {
                        assert(headers_view(resp.headers@) =~= Seq::<HeaderSpec>::empty());
                    }
                    Ok(resp)
                },
            }
        },
        Some(si) => {
            proof {
                lemma_find_sub(head@, crlf());
            }
            let status_line = head.substring_char(0, si);
            proof {
                assert(status_line@ =~= head@.take(si as int));
            }
            match parse_status_line(status_line) {
                None => Err(FetchError::ParseError),
                Some((code, reason)) => {
                    let header_text = head.substring_char(si + 2, hn);
                    proof {
                        assert(header_text@ =~= head@.skip(si + 2));
                    }
                    match parse_headers_from(header_text, MAX_HEADERS) {
                        None => Err(FetchError::ParseError),
                        Some(headers) => Ok(RawResponse { code, reason, headers, body }),
                    }
                },
            }
        },
    }
}

/// Response text without the blank header/body delimiter decodes to nothing
/// at all — `decode_response` then fails with `ParseError` — rather than
/// quietly coming back with an empty body.
pub proof fn lemma_missing_delimiter(text: Seq<char>)
    requires
        !has_sub(text, head_delim()),
    ensures
        spec_decode(text) is None,
{
    lemma_find_sub(text, head_delim());
    match find_sub(text, head_delim()) {
        Some(d) => {
            assert(match_at(text, head_delim(), d));
            assert(has_sub(text, head_delim()));
        },
        None => {},
    }
}

/// First header whose name is exactly `name` (case-sensitively), in received
/// order.
pub open spec fn spec_find_header(hs: Seq<HeaderSpec>, name: Seq<char>) -> Option<Seq<char>>
    decreases hs.len(),
{
    if hs.len() == 0 {
        None
    } else if hs[0].name == name {
        Some(hs[0].value)
    } else {
        spec_find_header(hs.drop_first(), name)
    }
}

/// Looks a header up by its exact name, returning the first match's value.
pub fn find_header(headers: &Vec<Header>, name: &str) -> (r: Option<String>)
    ensures
        match r {
            Some(v) => spec_find_header(headers_view(headers@), name@) == Some(v@),
            None => spec_find_header(headers_view(headers@), name@) is None,
        },
{
    let ghost hv = headers_view(headers@);
    proof {
        assert(hv.skip(0) =~= hv);
    }
    let n = headers.len();
    let mut i: usize = 0;
    while i < n
        invariant
            n == headers@.len(),
            i <= n,
            hv == headers_view(headers@),
            spec_find_header(hv, name@) == spec_find_header(hv.skip(i as int), name@),
        decreases n - i,
    {
        if str_eq(headers[i].name.as_str(), name) {
            proof {
                assert(hv.skip(i as int)[0] == hv[i as int]);
            }
            return Some(headers[i].value.clone());
        }
        proof {
            assert(hv.skip(i as int)[0] == hv[i as int]);
            assert(hv.skip(i as int).drop_first() =~= hv.skip(i + 1));
        }
        i += 1;
    }
    proof {
        assert(hv.skip(n as int).len() == 0);
    }
    None
}

} // verus!

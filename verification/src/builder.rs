use vstd::prelude::*;
use vstd::string::StrSliceExecFns;
use vstd::string::StringExecFns;

use crate::strutil::{begins_with, has_sub, str_contains, str_starts_with};
use crate::target::http_chars;

verus! {

/// How a link found in a page is made absolute: scheme-relative links get
/// `https:`, links that do not begin with `http` are put after the page's
/// URL, anything else is kept as it stands.
pub open spec fn spec_validate_link(url: Seq<char>, link: Seq<char>) -> Seq<char> {
    if begins_with(link, seq!['/', '/']) {
        seq!['h', 't', 't', 'p', 's', ':'] + link
    } else if !begins_with(link, http_chars()) {
        url + link
    } else {
        link
    }
}

/// Makes a link found in a page absolute against the page's URL.
pub fn validate_link(url: &String, link: &str) -> (r: String)
    ensures
        r@ == spec_validate_link(url@, link@),
{
    proof {
        reveal_strlit("//");
        reveal_strlit("https:");
        reveal_strlit("http");
        assert("//"@ =~= seq!['/', '/']);
        assert("https:"@ =~= seq!['h', 't', 't', 'p', 's', ':']);
        assert("http"@ =~= http_chars());
    }
    if str_starts_with(link, "//") {
        String::from_str("https:").concat(link)
    } else if !str_starts_with(link, "http") {
        url.clone().concat(link)
    } else {
        String::from_str(link)
    }
}

/// Accumulates the flattened text of a page: each line only if not seen
/// before, non-empty lines followed by a newline, and at most one extra
/// blank line between runs of text.
pub struct StringBuilder {
    pub literal: String,
    pub new_line_allowed: bool,
}

/// What one `append_line` call does to the accumulated text and the
/// blank-line switch.
pub open spec fn spec_append_line(lit: Seq<char>, allowed: bool, line: Seq<char>) -> (
    Seq<char>,
    bool,
) {
    if has_sub(lit, line) {
        (lit, allowed)
    } else {
        let lit1 = if line.len() != 0 {
            lit + line + seq!['\n']
        } else {
            lit
        };
        if allowed {
            (lit1 + seq!['\n'], false)
        } else if line.len() != 0 {
            (lit1, true)
        } else {
            (lit1, allowed)
        }
    }
}

impl StringBuilder {
    /// An empty accumulator that may still open with a blank line.
    pub fn new() -> (b: StringBuilder)
        ensures
            b.literal@ == Seq::<char>::empty(),
            b.new_line_allowed == true,
    {
        StringBuilder { literal: String::new(), new_line_allowed: true }
    }

    /// Appends one line as `spec_append_line` says: skipped entirely when the
    /// accumulated text already contains it.
    pub fn append_line(&mut self, line: &str)
        ensures
            final(self).literal@ == spec_append_line(
                old(self).literal@,
                old(self).new_line_allowed,
                line@,
            ).0,
            final(self).new_line_allowed == spec_append_line(
                old(self).literal@,
                old(self).new_line_allowed,
                line@,
            ).1,
    {
        proof {
            reveal_strlit("\n");
            assert("\n"@ =~= seq!['\n']);
        }
        if !str_contains(self.literal.as_str(), line) {
            if line.unicode_len() != 0 {
                self.literal.append(line);
                self.literal.append("\n");
            }
            if self.new_line_allowed {
                self.literal.append("\n");
                self.new_line_allowed = false;
            } else if line.unicode_len() != 0 {
                self.new_line_allowed = true;
            }
        }
    }

    /// Hands the accumulated text out.
    pub fn get_string(self) -> (r: String)
        ensures
            r@ == self.literal@,
    {
        self.literal
    }
}

} // verus!

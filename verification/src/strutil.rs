use vstd::prelude::*;
use vstd::string::StrSliceExecFns;

verus! {

/// True when `needle` occurs in `hay` starting at character index `i`.
pub open spec fn match_at(hay: Seq<char>, needle: Seq<char>, i: int) -> bool {
    0 <= i && i + needle.len() <= hay.len() && hay.subrange(i, i + needle.len()) == needle
}

/// True when `needle` occurs somewhere in `hay`.
pub open spec fn has_sub(hay: Seq<char>, needle: Seq<char>) -> bool {
    exists|i: int| match_at(hay, needle, i)
}

/// True when `hay` begins with `needle`.
pub open spec fn begins_with(hay: Seq<char>, needle: Seq<char>) -> bool {
    needle.len() <= hay.len() && hay.subrange(0, needle.len() as int) == needle
}

/// Index of the first occurrence of `needle` in `hay`, if any.
pub closed spec fn find_sub(hay: Seq<char>, needle: Seq<char>) -> Option<int>
    decreases hay.len(),
{
    if match_at(hay, needle, 0) {
        Some(0)
    } else if hay.len() == 0 {
        None
    } else {
        match find_sub(hay.drop_first(), needle) {
            Some(i) => Some(i + 1),
            None => None,
        }
    }
}

/// Occurrences of `needle` one position further into `hay` are occurrences in
/// `hay` with its first character dropped, and conversely.
proof fn lemma_match_at_shift(hay: Seq<char>, needle: Seq<char>, j: int)
    requires
        hay.len() > 0,
        0 <= j,
    ensures
        match_at(hay, needle, j + 1) <==> match_at(hay.drop_first(), needle, j),
{
    if 0 <= j && j + needle.len() <= hay.drop_first().len() {
        assert(hay.subrange(j + 1, j + 1 + needle.len()) =~= hay.drop_first().subrange(
            j,
            j + needle.len(),
        ));
    }
}

/// `find_sub` returns the first occurrence: a match at the returned index and
/// none before it, or no occurrence at all.
pub proof fn lemma_find_sub(hay: Seq<char>, needle: Seq<char>)
    ensures
        match find_sub(hay, needle) {
            Some(i) => match_at(hay, needle, i) && (forall|j: int|
                0 <= j < i ==> !match_at(hay, needle, j)),
            None => forall|j: int| !match_at(hay, needle, j),
        },
    decreases hay.len(),
{
    if match_at(hay, needle, 0) {
    } else if hay.len() == 0 {
        assert forall|j: int| !match_at(hay, needle, j) by {
            if match_at(hay, needle, j) {
                assert(j == 0);
            }
        }
    } else {
        lemma_find_sub(hay.drop_first(), needle);
        match find_sub(hay.drop_first(), needle) {
            Some(i) => {
                lemma_match_at_shift(hay, needle, i);
                assert forall|j: int| 0 <= j < i + 1 implies !match_at(hay, needle, j) by {
                    if j > 0 {
                        lemma_match_at_shift(hay, needle, j - 1);
                    }
                }
            },
            None => {
                assert forall|j: int| !match_at(hay, needle, j) by {
                    if j > 0 {
                        lemma_match_at_shift(hay, needle, j - 1);
                    }
                }
            },
        }
    }
}

/// Does `needle` occur in `hay` starting at character position `i`?
pub fn str_match_at(hay: &str, needle: &str, i: usize) -> (r: bool)
    ensures
        r == match_at(hay@, needle@, i as int),
{
    let hn = hay.unicode_len();
    let nn = needle.unicode_len();
    if i > hn || nn > hn - i {
        return false;
    }
    let mut k: usize = 0;
    while k < nn
        invariant
            hn == hay@.len(),
            nn == needle@.len(),
            i + nn <= hn,
            k <= nn,
            forall|j: int| 0 <= j < k ==> hay@[i + j] == needle@[j],
        decreases nn - k,
    {
        if hay.get_char(i + k) != needle.get_char(k) {
            proof {
                if match_at(hay@, needle@, i as int) {
                    assert(hay@.subrange(i as int, i + nn)[k as int] == needle@[k as int]);
                }
            }
            return false;
        }
        k += 1;
    }
    proof {
        assert(hay@.subrange(i as int, i + nn as int) =~= needle@);
    }
    true
}

/// Character index of the first occurrence of `needle` in `hay`, if any.
pub fn str_index_of(hay: &str, needle: &str) -> (r: Option<usize>)
    ensures
        r matches Some(i) ==> find_sub(hay@, needle@) == Some(i as int),
        r is None ==> find_sub(hay@, needle@) is None,
{
    let hn = hay.unicode_len();
    let nn = needle.unicode_len();
    if nn == 0 {
        proof {
            assert(hay@.subrange(0, 0) =~= needle@);
            assert(match_at(hay@, needle@, 0));
        }
        return Some(0);
    }
    if nn > hn {
        proof {
            lemma_find_sub(hay@, needle@);
            match find_sub(hay@, needle@) {
                Some(w) => {
                    assert(match_at(hay@, needle@, w));
                },
                None => {},
            }
        }
        return None;
    }
    let mut i: usize = 0;
    while i <= hn - nn
        invariant
            hn == hay@.len(),
            nn == needle@.len(),
            1 <= nn <= hn,
            i <= hn - nn + 1,
            forall|j: int| 0 <= j < i ==> !match_at(hay@, needle@, j),
        decreases hn - nn - i + 1,
    {
        if str_match_at(hay, needle, i) {
            proof {
                lemma_find_sub(hay@, needle@);
                match find_sub(hay@, needle@) {
                    Some(w) => {
                        assert(!(w < i)) by {
                            if w < i {
                                assert(!match_at(hay@, needle@, w));
                            }
                        }
                        assert(!(i < w));
                    },
                    None => {
                        assert(!match_at(hay@, needle@, i as int));
                    },
                }
            }
            return Some(i);
        }
        i += 1;
    }
    proof {
        lemma_find_sub(hay@, needle@);
        match find_sub(hay@, needle@) {
            Some(w) => {
                assert(match_at(hay@, needle@, w));
                assert(w >= i);
                assert(w + nn <= hn);
            },
            None => {},
        }
    }
    None
}

/// Does `needle` occur anywhere in `hay`?
pub fn str_contains(hay: &str, needle: &str) -> (r: bool)
    ensures
        r == has_sub(hay@, needle@),
{
    proof {
        lemma_find_sub(hay@, needle@);
    }
    match str_index_of(hay, needle) {
        Some(i) => {
            proof {
                assert(match_at(hay@, needle@, i as int));
            }
            true
        },
        None => {
            proof {
                assert forall|j: int| !match_at(hay@, needle@, j) by {
                    lemma_find_sub(hay@, needle@);
                }
            }
            false
        },
    }
}

/// Does `hay` begin with `needle`?
pub fn str_starts_with(hay: &str, needle: &str) -> (r: bool)
    ensures
        r == begins_with(hay@, needle@),
{
    str_match_at(hay, needle, 0)
}

/// Are the two strings the same sequence of characters?
pub fn str_eq(a: &str, b: &str) -> (r: bool)
    ensures
        r == (a@ == b@),
{
    let an = a.unicode_len();
    let bn = b.unicode_len();
    if an != bn {
        return false;
    }
    let mut i: usize = 0;
    while i < an
        invariant
            an == a@.len(),
            an == b@.len(),
            i <= an,
            forall|j: int| 0 <= j < i ==> a@[j] == b@[j],
        decreases an - i,
    {
        if a.get_char(i) != b.get_char(i) {
            return false;
        }
        i += 1;
    }
    proof {
        assert(a@ =~= b@);
    }
    true
}

/// Index of the first character of `s` satisfying `stop`, or `s.len()` when
/// none does.
pub closed spec fn scan_until(s: Seq<char>, stop: spec_fn(char) -> bool) -> int
    decreases s.len(),
{
    if s.len() == 0 {
        0
    } else if stop(s[0]) {
        0
    } else {
        1 + scan_until(s.drop_first(), stop)
    }
}

/// `scan_until` points at the first stop character: nothing before it stops,
/// and the character there (if any) does.
pub proof fn lemma_scan_until(s: Seq<char>, stop: spec_fn(char) -> bool)
    ensures
        0 <= scan_until(s, stop) <= s.len(),
        forall|j: int| 0 <= j < scan_until(s, stop) ==> !stop(s[j]),
        scan_until(s, stop) < s.len() ==> stop(s[scan_until(s, stop)]),
    decreases s.len(),
{
    if s.len() > 0 && !stop(s[0]) {
        lemma_scan_until(s.drop_first(), stop);
        let k = scan_until(s.drop_first(), stop);
        assert forall|j: int| 0 <= j < 1 + k implies !stop(s[j]) by {
            if j > 0 {
                assert(s.drop_first()[j - 1] == s[j]);
            }
        }
        if 1 + k < s.len() {
            assert(s.drop_first()[k] == s[1 + k]);
        }
    }
}

/// Any index with the first-stop property is `scan_until`'s answer.
pub proof fn lemma_scan_until_is(s: Seq<char>, stop: spec_fn(char) -> bool, i: int)
    requires
        0 <= i <= s.len(),
        forall|j: int| 0 <= j < i ==> !stop(s[j]),
        i < s.len() ==> stop(s[i]),
    ensures
        scan_until(s, stop) == i,
{
    lemma_scan_until(s, stop);
    let k = scan_until(s, stop);
    if k < i {
        assert(!stop(s[k]));
    }
    if i < k {
        assert(!stop(s[i]));
    }
}

/// An optional string as its mathematical shape.
pub open spec fn opt_str_view(o: Option<String>) -> Option<Seq<char>> {
    match o {
        None => None,
        Some(s) => Some(s@),
    }
}

/// A character that ends the host part of a URL: the port or path begins.
pub open spec fn host_stop(c: char) -> bool {
    c == ':' || c == '/'
}

/// The character that ends the port part of a URL: the path begins.
pub open spec fn slash_stop(c: char) -> bool {
    c == '/'
}

/// A decimal digit.
pub open spec fn is_digit(c: char) -> bool {
    48 <= c as u32 <= 57
}

/// The value of one decimal digit.
pub open spec fn digit_val(c: char) -> int {
    c as u32 - 48
}

/// Every character of `s` is a decimal digit.
pub open spec fn all_digits(s: Seq<char>) -> bool {
    forall|i: int| 0 <= i < s.len() ==> is_digit(s[i])
}

/// The number written in decimal by `s` (0 when `s` is empty).
pub open spec fn dec_val(s: Seq<char>) -> int
    decreases s.len(),
{
    if s.len() == 0 {
        0
    } else {
        10 * dec_val(s.drop_last()) + digit_val(s.last())
    }
}

/// A digit string names a non-negative number.
pub proof fn lemma_dec_val_nonneg(s: Seq<char>)
    requires
        all_digits(s),
    ensures
        dec_val(s) >= 0,
    decreases s.len(),
{
    if s.len() > 0 {
        lemma_dec_val_nonneg(s.drop_last());
    }
}

/// Extending a digit string by one digit multiplies its value by ten and adds
/// that digit.
pub proof fn lemma_dec_val_step(s: Seq<char>, i: int)
    requires
        0 <= i < s.len(),
    ensures
        dec_val(s.take(i + 1)) == 10 * dec_val(s.take(i)) + digit_val(s[i]),
{
    assert(s.take(i + 1).drop_last() =~= s.take(i));
    assert(s.take(i + 1).last() == s[i]);
}

/// The value of a digit string is at least the value of any of its prefixes.
pub proof fn lemma_dec_val_prefix(s: Seq<char>, i: int)
    requires
        all_digits(s),
        0 <= i <= s.len(),
    ensures
        dec_val(s.take(i)) <= dec_val(s),
    decreases s.len() - i,
{
    if i == s.len() {
        assert(s.take(i) =~= s);
    } else {
        lemma_dec_val_step(s, i);
        lemma_dec_val_nonneg(s.take(i));
        lemma_dec_val_prefix(s, i + 1);
    }
}

/// Reads `s` as a decimal number that fits in 16 bits. Succeeds exactly on a
/// non-empty all-digit string whose value is at most 65535, returning that
/// value.
pub fn parse_u16(s: &str) -> (r: Option<u16>)
    ensures
        r matches Some(v) ==> s@.len() > 0 && all_digits(s@) && dec_val(s@) == v as int,
        r is None ==> !(s@.len() > 0 && all_digits(s@) && dec_val(s@) <= 65535),
{
    let n = s.unicode_len();
    if n == 0 {
        return None;
    }
    let mut val: u32 = 0;
    let mut i: usize = 0;
    while i < n
        invariant
            n == s@.len(),
            0 < n,
            i <= n,
            all_digits(s@.take(i as int)),
            val == dec_val(s@.take(i as int)),
            val <= 65535,
        decreases n - i,
    {
        let c = s.get_char(i);
        let code = c as u32;
        if code < 48 || code > 57 {
            return None;
        }
        let d = code - 48;
        proof {
            lemma_dec_val_step(s@, i as int);
        }
        let next = val * 10 + d;
        if next > 65535 {
            proof {
                if all_digits(s@) {
                    lemma_dec_val_prefix(s@, i + 1);
                }
            }
            return None;
        }
        proof {
            assert forall|j: int| 0 <= j < i + 1 implies is_digit(#[trigger] s@.take(i + 1)[j]) by {
                if j < i {
                    assert(is_digit(s@.take(i as int)[j]));
                }
            }
        }
        val = next;
        i += 1;
    }
    proof {
        assert(s@.take(n as int) =~= s@);
        assert forall|j: int| 0 <= j < s@.len() implies is_digit(s@[j]) by {
            assert(is_digit(s@.take(n as int)[j]));
        }
    }
    Some(val as u16)
}

} // verus!

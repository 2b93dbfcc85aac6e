use vstd::prelude::*;
use vstd::string::StrSliceExecFns;
use vstd::string::StringExecFns;

use crate::errors::FetchError;
use crate::strutil::{
    all_digits, begins_with, dec_val, host_stop, lemma_scan_until_is, parse_u16, scan_until,
    slash_stop, str_starts_with,
};

verus! {

/// The two transport schemes the client speaks.
#[derive(Clone, Copy, PartialEq, Eq, Structural, Debug)]
pub enum Scheme {
    Http,
    Https,
}

/// The port used when the URL names none: 80 for `http`, 443 for `https`.
pub open spec fn spec_default_port(s: Scheme) -> u16 {
    match s {
        Scheme::Http => 80,
        Scheme::Https => 443,
    }
}

impl Scheme {
    /// The port used when the URL names none: 80 for `http`, 443 for `https`.
    pub fn default_port(&self) -> (p: u16)
        ensures
            p == spec_default_port(*self),
    {
        match self {
            Scheme::Http => 80,
            Scheme::Https => 443,
        }
    }
}

/// The characters of `"http"`.
pub open spec fn http_chars() -> Seq<char> {
    seq!['h', 't', 't', 'p']
}

/// The characters of `"https"`.
pub open spec fn https_chars() -> Seq<char> {
    seq!['h', 't', 't', 'p', 's']
}

/// The characters of `"www"`.
pub open spec fn www_chars() -> Seq<char> {
    seq!['w', 'w', 'w']
}

/// The scheme's name in a URL, followed by `"://"`.
pub open spec fn scheme_prefix(s: Scheme) -> Seq<char> {
    match s {
        Scheme::Http => seq!['h', 't', 't', 'p', ':', '/', '/'],
        Scheme::Https => seq!['h', 't', 't', 'p', 's', ':', '/', '/'],
    }
}

/// A normalized absolute URL, derived once per redirect hop: scheme, host,
/// port (defaulted per scheme when absent) and path (defaulted to `/` when
/// absent).
#[derive(Clone, PartialEq, Eq, Debug)]
pub struct Target {
    pub scheme: Scheme,
    pub host: String,
    pub port: u16,
    pub path: String,
}

/// The mathematical shape of a `Target`.
pub ghost struct TargetSpec {
    pub scheme: Scheme,
    pub host: Seq<char>,
    pub port: u16,
    pub path: Seq<char>,
}

impl View for Target {
    type V = TargetSpec;

    open spec fn view(&self) -> TargetSpec {
        TargetSpec {
            scheme: self.scheme,
            host: self.host@,
            port: self.port,
            path: self.path@,
        }
    }
}

/// Parses what follows `scheme://`: a non-empty host running to the first
/// `:` or `/`, an optional decimal port after `:`, and the rest as the path
/// (`/` when absent).
pub open spec fn spec_parse_rest(scheme: Scheme, r: Seq<char>) -> Option<TargetSpec> {
    let he = scan_until(r, |c: char| host_stop(c));
    if he <= 0 {
        None
    } else {
        let host = r.take(he);
        let after = r.skip(he);
        if after.len() == 0 {
            Some(
                TargetSpec {
                    scheme,
                    host,
                    port: spec_default_port(scheme),
                    path: seq!['/'],
                },
            )
        } else if after[0] == '/' {
            Some(TargetSpec { scheme, host, port: spec_default_port(scheme), path: after })
        } else {
            let pd = after.skip(1);
            let pe = scan_until(pd, |c: char| slash_stop(c));
            let digits = pd.take(pe);
            if digits.len() > 0 && all_digits(digits) && dec_val(digits) <= 65535 {
                let tail = pd.skip(pe);
                Some(
                    TargetSpec {
                        scheme,
                        host,
                        port: dec_val(digits) as u16,
                        path: if tail.len() == 0 {
                            seq!['/']
                        } else {
                            tail
                        },
                    },
                )
            } else {
                None
            }
        }
    }
}

/// The URL grammar this client accepts: `http://` or `https://`, then host,
/// optional port, optional path. Anything else is rejected.
pub open spec fn spec_parse_target(s: Seq<char>) -> Option<TargetSpec> {
    if begins_with(s, scheme_prefix(Scheme::Https)) {
        spec_parse_rest(Scheme::Https, s.skip(8))
    } else if begins_with(s, scheme_prefix(Scheme::Http)) {
        spec_parse_rest(Scheme::Http, s.skip(7))
    } else {
        None
    }
}

/// How the URL given on the command line is rewritten before the first hop:
/// a URL
/// not beginning with `https` gets `https://` put in front, and `www.` too
/// unless it already begins with `www`.
pub open spec fn spec_normalize_url(s: Seq<char>) -> Seq<char> {
    if begins_with(s, https_chars()) {
        s
    } else if begins_with(s, www_chars()) {
        scheme_prefix(Scheme::Https) + s
    } else {
        scheme_prefix(Scheme::Https) + seq!['w', 'w', 'w', '.'] + s
    }
}

/// A valid absolute URL that names no port gets the scheme's default: 80
/// for `http`, 443 for `https`; its host and path come through as written,
/// the path defaulting to `/` when absent.
pub proof fn lemma_default_port(scheme: Scheme, host: Seq<char>, path: Seq<char>)
    requires
        host.len() > 0,
        forall|i: int| 0 <= i < host.len() ==> !host_stop(host[i]),
        path.len() == 0 || path[0] == '/',
    ensures
        spec_parse_target(scheme_prefix(scheme) + host + path) == Some(
            TargetSpec {
                scheme,
                host,
                port: spec_default_port(scheme),
                path: if path.len() == 0 {
                    seq!['/']
                } else {
                    path
                },
            },
        ),
{
    let s = scheme_prefix(scheme) + host + path;
    let plen = scheme_prefix(scheme).len() as int;
    assert(begins_with(s, scheme_prefix(scheme))) by {
        assert(s.subrange(0, plen) =~= scheme_prefix(scheme));
    }
    if scheme is Http {
        assert(!begins_with(s, scheme_prefix(Scheme::Https))) by {
            if begins_with(s, scheme_prefix(Scheme::Https)) {
                assert(s.subrange(0, 8)[4] == s[4]);
                assert(s[4] == ':');
            }
        }
    }
    let r = s.skip(plen);
    assert(r =~= host + path);
    assert forall|j: int| 0 <= j < host.len() implies !((|c: char| host_stop(c))(r[j])) by {
        assert(r[j] == host[j]);
    }
    if host.len() < r.len() {
        assert(r[host.len() as int] == path[0]);
    }
    lemma_scan_until_is(r, |c: char| host_stop(c), host.len() as int);
    assert(r.take(host.len() as int) =~= host);
    assert(r.skip(host.len() as int) =~= path);
}

/// Rewrites a command-line URL into the absolute form the first hop uses.
pub fn normalize_url(url: &str) -> (r: String)
    ensures
        r@ == spec_normalize_url(url@),
{
    proof {
        reveal_strlit("https");
        reveal_strlit("www");
        reveal_strlit("https://");
        reveal_strlit("https://www.");
        assert("https"@ =~= https_chars());
        assert("www"@ =~= www_chars());
        assert("https://"@ =~= scheme_prefix(Scheme::Https));
        assert("https://www."@ =~= scheme_prefix(Scheme::Https) + seq!['w', 'w', 'w', '.']);
    }
    if str_starts_with(url, "https") {
        String::from_str(url)
    } else if str_starts_with(url, "www") {
        String::from_str("https://").concat(url)
    } else {
        String::from_str("https://www.").concat(url)
    }
}

/// Derives the `Target` of a URL string, or `InvalidUrl` exactly when the
/// string is not in this client's URL grammar.
pub fn parse_target(url: &str) -> (r: Result<Target, FetchError>)
    ensures
        match r {
            Ok(t) => spec_parse_target(url@) == Some(t@),
            Err(e) => spec_parse_target(url@) is None && e == FetchError::InvalidUrl,
        },
{
    proof {
        reveal_strlit("https://");
        reveal_strlit("http://");
        assert("https://"@ =~= scheme_prefix(Scheme::Https));
        assert("http://"@ =~= scheme_prefix(Scheme::Http));
    }
    let n = url.unicode_len();
    let scheme: Scheme;
    let skip: usize;
    if str_starts_with(url, "https://") {
        scheme = Scheme::Https;
        skip = 8;
    } else if str_starts_with(url, "http://") {
        scheme = Scheme::Http;
        skip = 7;
    } else {
        return Err(FetchError::InvalidUrl);
    }
    let rest = url.substring_char(skip, n);
    proof {
        assert(rest@ =~= url@.skip(skip as int));
    }
    let rn = rest.unicode_len();

    // The host runs to the first `:` or `/`.
    let mut he: usize = 0;
    loop
        invariant
            rn == rest@.len(),
            he <= rn,
            forall|j: int| 0 <= j < he ==> !host_stop(rest@[j]),
        ensures
            he <= rn,
            forall|j: int| 0 <= j < he ==> !host_stop(rest@[j]),
            he < rn ==> host_stop(rest@[he as int]),
        decreases rn - he,
    {
        if he == rn {
            break;
        }
        let c = rest.get_char(he);
        if c == ':' || c == '/' {
            break;
        }
        he += 1;
    }
    proof {
        assert forall|j: int| 0 <= j < he implies !((|c: char| host_stop(c))(rest@[j])) by {
            assert(!host_stop(rest@[j]));
        }
        lemma_scan_until_is(rest@, |c: char| host_stop(c), he as int);
    }
    if he == 0 {
        return Err(FetchError::InvalidUrl);
    }
    let host = rest.substring_char(0, he);
    proof {
        assert(host@ =~= rest@.take(he as int));
    }

    if he == rn {
        // Neither port nor path: both default.
        let path = String::from_str("/");
        proof {
            reveal_strlit("/");
            assert(path@ =~= seq!['/']);
            assert(rest@.skip(he as int).len() == 0);
        }
        return Ok(
            Target { scheme, host: String::from_str(host), port: scheme.default_port(), path },
        );
    }
    let c = rest.get_char(he);
    if c == '/' {
        // No port; the rest, `/` first, is the path.
        let path = String::from_str(rest.substring_char(he, rn));
        proof {
            assert(path@ =~= rest@.skip(he as int));
            assert(rest@.skip(he as int)[0] == rest@[he as int]);
        }
        return Ok(
            Target { scheme, host: String::from_str(host), port: scheme.default_port(), path },
        );
    }
    // `c` stopped the host scan and is not `/`, so it is `:`: a port follows,
    // running to the first `/`.
    let mut pe: usize = he + 1;
    loop
        invariant
            rn == rest@.len(),
            he + 1 <= pe <= rn,
            forall|j: int| he + 1 <= j < pe ==> rest@[j] != '/',
        ensures
            he + 1 <= pe <= rn,
            forall|j: int| he + 1 <= j < pe ==> rest@[j] != '/',
            pe < rn ==> rest@[pe as int] == '/',
        decreases rn - pe,
    {
        if pe == rn {
            break;
        }
        if rest.get_char(pe) == '/' {
            break;
        }
        pe += 1;
    }
    let ghost pd = rest@.skip(he + 1);
    proof {
        assert(pd =~= rest@.skip(he as int).skip(1));
        assert forall|j: int| 0 <= j < pe - he - 1 implies !((|c: char| slash_stop(c))(pd[j])) by {
            assert(pd[j] == rest@[he + 1 + j]);
        }
        if pe < rn {
            assert(pd[pe - he - 1] == rest@[pe as int]);
        }
        lemma_scan_until_is(pd, |c: char| slash_stop(c), pe - he - 1);
    }
    let digits = rest.substring_char(he + 1, pe);
    proof {
        assert(digits@ =~= pd.take(pe - he - 1));
    }
    match parse_u16(digits) {
        None => Err(FetchError::InvalidUrl),
        Some(port) => {
            let path: String;
            if pe == rn {
                path = String::from_str("/");
                proof {
                    reveal_strlit("/");
                    assert(path@ =~= seq!['/']);
                    assert(pd.skip(pe - he - 1).len() == 0);
                }
            } else {
                path = String::from_str(rest.substring_char(pe, rn));
                proof {
                    assert(path@ =~= pd.skip(pe - he - 1));
                }
            }
            Ok(Target { scheme, host: String::from_str(host), port, path })
        },
    }
}

} // verus!

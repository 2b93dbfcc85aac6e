use vstd::prelude::*;
use vstd::string::StringExecFns;

verus! {

/// The one wire request this client ever sends for a host and path: a GET
/// request line, a `Host` header, `Connection: close` (the body is framed by
/// the peer closing), fixed `Accept` and `Cache-Control` headers, and the
/// blank line.
pub open spec fn spec_request(host: Seq<char>, path: Seq<char>) -> Seq<char> {
    "GET "@ + path + " HTTP/1.1\r\nHost: "@ + host
        + "\r\nConnection: close\r\nAccept: text/html, application/json; charset=utf-8\r\nCache-Control: no-cache; max-age=0\r\n\r\n"@
}

/// Serializes the request for one hop. Only GET, no body, no custom headers:
/// this client is read-only by design.
pub fn write_request(host: &str, path: &str) -> (r: String)
    ensures
        r@ == spec_request(host@, path@),
{
    let mut r = String::from_str("GET ");
    r.append(path);
    r.append(" HTTP/1.1\r\nHost: ");
    r.append(host);
    r.append(
        "\r\nConnection: close\r\nAccept: text/html, application/json; charset=utf-8\r\nCache-Control: no-cache; max-age=0\r\n\r\n",
    );
    proof {
        assert(r@ =~= spec_request(host@, path@));
    }
    r
}

} // verus!

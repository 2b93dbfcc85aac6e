use vstd::prelude::*;

use crate::strutil::opt_str_view;

verus! {

/// Why a redirect hop could not be followed.
#[derive(Clone, Copy, PartialEq, Eq, Structural, Debug)]
pub enum RedirectFault {
    /// A 3xx response carried no `Location` header.
    MissingLocation,
    /// The rewritten `Location` value is not a URL this client can parse.
    InvalidLocation,
    /// More than the allowed number of consecutive redirects.
    TooManyRedirects,
}

/// Everything that can abort a fetch. Any of these ends the whole operation:
/// no retry, no partial result.
#[derive(Clone, PartialEq, Eq, Debug)]
pub enum FetchError {
    /// DNS resolution or the TCP connect failed.
    ConnectionError,
    /// The TLS handshake failed.
    TlsError,
    /// The response bytes are not a well-formed HTTP/1.1 response.
    ParseError,
    /// The requested URL is not an absolute `http`/`https` URL.
    InvalidUrl,
    /// A 3xx response could not be followed.
    RedirectError(RedirectFault),
    /// A 4xx response, with its status code and reason phrase.
    ClientError(u16, Option<String>),
    /// A 5xx response, with its status code and reason phrase.
    ServerError(u16, Option<String>),
    /// A status family this client does not implement (1xx, or a code outside
    /// the families HTTP/1.1 defines).
    UnsupportedResponse(u16),
}

/// The mathematical shape of a `FetchError`.
pub ghost enum ErrorSpec {
    Connection,
    Tls,
    Parse,
    InvalidUrl,
    Redirect(RedirectFault),
    Client(u16, Option<Seq<char>>),
    Server(u16, Option<Seq<char>>),
    Unsupported(u16),
}

impl View for FetchError {
    type V = ErrorSpec;

    open spec fn view(&self) -> ErrorSpec {
        match self {
            FetchError::ConnectionError => ErrorSpec::Connection,
            FetchError::TlsError => ErrorSpec::Tls,
            FetchError::ParseError => ErrorSpec::Parse,
            FetchError::InvalidUrl => ErrorSpec::InvalidUrl,
            FetchError::RedirectError(f) => ErrorSpec::Redirect(*f),
            FetchError::ClientError(code, reason) => ErrorSpec::Client(
                *code,
                opt_str_view(*reason),
            ),
            FetchError::ServerError(code, reason) => ErrorSpec::Server(
                *code,
                opt_str_view(*reason),
            ),
            FetchError::UnsupportedResponse(code) => ErrorSpec::Unsupported(*code),
        }
    }
}

} // verus!

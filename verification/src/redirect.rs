use vstd::prelude::*;
use vstd::string::StringExecFns;

use crate::classify::{classify, spec_classify, ContentKind};
use crate::errors::{ErrorSpec, FetchError, RedirectFault};
use crate::response::{
    find_header, headers_view, spec_find_header, Header, HeaderSpec, RawResponse, RawResponseSpec,
};
use crate::strutil::{begins_with, opt_str_view, str_starts_with};
use crate::target::{parse_target, scheme_prefix, spec_parse_target, Scheme, Target, TargetSpec};

verus! {

/// How many 3xx hops may be followed before the fetch fails.
pub const MAX_REDIRECTS: u8 = 10;

/// The characters of `"Location"`, matched exactly as received.
pub open spec fn location_chars() -> Seq<char> {
    seq!['L', 'o', 'c', 'a', 't', 'i', 'o', 'n']
}

/// How a `Location` value is rewritten: absolute values are used verbatim,
/// values beginning with `/` are put after the current scheme and host.
pub open spec fn spec_resolve_location(scheme: Scheme, host: Seq<char>, loc: Seq<char>) -> Seq<
    char,
> {
    if begins_with(loc, seq!['/']) {
        scheme_prefix(scheme) + host + loc
    } else {
        loc
    }
}

/// Rewrites a `Location` value against the current scheme and host.
pub fn resolve_location(scheme: Scheme, host: &str, loc: &str) -> (r: String)
    ensures
        r@ == spec_resolve_location(scheme, host@, loc@),
{
    proof {
        reveal_strlit("/");
        reveal_strlit("http://");
        reveal_strlit("https://");
        assert("/"@ =~= seq!['/']);
        assert("http://"@ =~= scheme_prefix(Scheme::Http));
        assert("https://"@ =~= scheme_prefix(Scheme::Https));
    }
    if str_starts_with(loc, "/") {
        let base = match scheme {
            Scheme::Http => String::from_str("http://"),
            Scheme::Https => String::from_str("https://"),
        };
        base.concat(host).concat(loc)
    } else {
        String::from_str(loc)
    }
}

/// What the controller decides after one parsed response.
pub ghost enum SpecStep {
    /// The fetch ends with this outcome.
    Done { outcome: SpecOutcome },
    /// Connect again, at this URL.
    Next { url: Seq<char> },
}

/// How a fetch ends.
pub ghost enum SpecOutcome {
    /// A 2xx response: its body, and what the headers say it is.
    Success { body: Seq<char>, kind: ContentKind },
    /// Anything else: the error that aborts the fetch.
    Failure { error: ErrorSpec },
}

/// The decision for one parsed response at an already-derived target: 2xx
/// succeeds, 3xx rewrites the `Location` header into the next URL, 4xx and
/// 5xx fail with code and reason, everything else is unsupported.
pub open spec fn spec_step_target(t: TargetSpec, resp: RawResponseSpec) -> SpecStep {
    if 100 <= resp.code < 200 {
        SpecStep::Done {
            outcome: SpecOutcome::Failure { error: ErrorSpec::Unsupported(resp.code) },
        }
    } else if 200 <= resp.code < 300 {
        SpecStep::Done {
            outcome: SpecOutcome::Success { body: resp.body, kind: spec_classify(resp.headers) },
        }
    } else if 300 <= resp.code < 400 {
        match spec_find_header(resp.headers, location_chars()) {
            None => SpecStep::Done {
                outcome: SpecOutcome::Failure {
                    error: ErrorSpec::Redirect(RedirectFault::MissingLocation),
                },
            },
            Some(loc) => {
                let nu = spec_resolve_location(t.scheme, t.host, loc);
                if spec_parse_target(nu) is Some {
                    SpecStep::Next { url: nu }
                } else {
                    SpecStep::Done {
                        outcome: SpecOutcome::Failure {
                            error: ErrorSpec::Redirect(RedirectFault::InvalidLocation),
                        },
                    }
                }
            },
        }
    } else if 400 <= resp.code < 500 {
        SpecStep::Done {
            outcome: SpecOutcome::Failure { error: ErrorSpec::Client(resp.code, resp.reason) },
        }
    } else if 500 <= resp.code < 600 {
        SpecStep::Done {
            outcome: SpecOutcome::Failure { error: ErrorSpec::Server(resp.code, resp.reason) },
        }
    } else {
        SpecStep::Done {
            outcome: SpecOutcome::Failure { error: ErrorSpec::Unsupported(resp.code) },
        }
    }
}

/// The decision at a URL string: derive the target first.
pub open spec fn spec_step(url: Seq<char>, resp: RawResponseSpec) -> SpecStep {
    match spec_parse_target(url) {
        None => SpecStep::Done { outcome: SpecOutcome::Failure { error: ErrorSpec::InvalidUrl } },
        Some(t) => spec_step_target(t, resp),
    }
}

/// The decision with the hop bound applied: a followable redirect with no
/// hops left fails with `TooManyRedirects` instead.
pub open spec fn spec_step_bounded(t: TargetSpec, resp: RawResponseSpec, hops_left: u8) -> SpecStep {
    match spec_step_target(t, resp) {
        SpecStep::Next { url } => if hops_left == 0 {
            SpecStep::Done {
                outcome: SpecOutcome::Failure {
                    error: ErrorSpec::Redirect(RedirectFault::TooManyRedirects),
                },
            }
        } else {
            SpecStep::Next { url }
        },
        SpecStep::Done { outcome } => SpecStep::Done { outcome },
    }
}

/// What the caller must do after one parsed response.
pub enum StepResult {
    /// The fetch is complete: the body, and what the headers say it is.
    Success { body: String, kind: ContentKind },
    /// Open a new connection to this URL and go round again.
    Redirect { url: String },
    /// The fetch failed; nothing further is attempted.
    Failure { error: FetchError },
}

impl View for StepResult {
    type V = SpecStep;

    open spec fn view(&self) -> SpecStep {
        match self {
            StepResult::Success { body, kind } => SpecStep::Done {
                outcome: SpecOutcome::Success { body: body@, kind: *kind },
            },
            StepResult::Redirect { url } => SpecStep::Next { url: url@ },
            StepResult::Failure { error } => SpecStep::Done {
                outcome: SpecOutcome::Failure { error: error@ },
            },
        }
    }
}

/// Copies a reason phrase for an error report.
fn clone_reason(reason: &Option<String>) -> (r: Option<String>)
    ensures
        opt_str_view(r) == opt_str_view(*reason),
{
    match reason {
        None => None,
        Some(s) => Some(s.clone()),
    }
}

/// Decides one hop from the decoded response: success on 2xx, a rewritten
/// URL on 3xx while hops remain, an error otherwise — exactly the decision
/// of the specification machine.
pub fn redirect_step(target: &Target, resp: &RawResponse, hops_left: u8) -> (r: StepResult)
    ensures
        r@ == spec_step_bounded(target@, resp@, hops_left),
{
    proof {
        reveal_strlit("Location");
        assert("Location"@ =~= location_chars());
    }
    let code = resp.code;
    if 200 <= code && code < 300 {
        StepResult::Success { body: resp.body.clone(), kind: classify(&resp.headers) }
    } else if 300 <= code && code < 400 {
        match find_header(&resp.headers, "Location") {
            None => StepResult::Failure {
                error: FetchError::RedirectError(RedirectFault::MissingLocation),
            },
            Some(loc) => {
                let nu = resolve_location(target.scheme, target.host.as_str(), loc.as_str());
                match parse_target(nu.as_str()) {
                    Err(_) => StepResult::Failure {
                        error: FetchError::RedirectError(RedirectFault::InvalidLocation),
                    },
                    Ok(_) => {
                        if hops_left == 0 {
                            StepResult::Failure {
                                error: FetchError::RedirectError(RedirectFault::TooManyRedirects),
                            }
                        } else {
                            StepResult::Redirect { url: nu }
                        }
                    },
                }
            },
        }
    } else if 100 <= code && code < 200 {
        StepResult::Failure { error: FetchError::UnsupportedResponse(code) }
    } else if 400 <= code && code < 500 {
        StepResult::Failure { error: FetchError::ClientError(code, clone_reason(&resp.reason)) }
    } else if 500 <= code && code < 600 {
        StepResult::Failure { error: FetchError::ServerError(code, clone_reason(&resp.reason)) }
    } else {
        StepResult::Failure { error: FetchError::UnsupportedResponse(code) }
    }
}

/// The whole redirect loop as mathematics: from a starting URL and the
/// parsed responses the wire would hand back (one per connection, in order),
/// how many connections are opened and how the fetch ends.
pub open spec fn spec_run(url: Seq<char>, responses: Seq<RawResponseSpec>, hops_left: nat) -> (
    nat,
    SpecOutcome,
)
    decreases responses.len(),
{
    if responses.len() == 0 {
        (0 as nat, SpecOutcome::Failure { error: ErrorSpec::Connection })
    } else {
        match spec_step(url, responses[0]) {
            SpecStep::Done { outcome } => (1 as nat, outcome),
            SpecStep::Next { url: nu } => if hops_left == 0 {
                (
                    1 as nat,
                    SpecOutcome::Failure {
                        error: ErrorSpec::Redirect(RedirectFault::TooManyRedirects),
                    },
                )
            } else {
                let rest = spec_run(nu, responses.drop_first(), (hops_left - 1) as nat);
                ((rest.0 + 1) as nat, rest.1)
            },
        }
    }
}

/// The URL in force before connection `i`, along a chain the controller
/// follows.
pub open spec fn chain_url(url: Seq<char>, responses: Seq<RawResponseSpec>, i: int) -> Seq<char>
    decreases i,
{
    if i <= 0 {
        url
    } else {
        match spec_step(chain_url(url, responses, i - 1), responses[i - 1]) {
            SpecStep::Next { url: nu } => nu,
            SpecStep::Done { .. } => chain_url(url, responses, i - 1),
        }
    }
}

/// The controller follows this response at this URL: a 3xx whose rewritten
/// `Location` is itself a valid URL.
pub open spec fn follows_redirect(url: Seq<char>, resp: RawResponseSpec) -> bool {
    spec_step(url, resp) is Next
}

/// Running the machine one hop in is running it from the rewritten URL on
/// the remaining responses.
proof fn lemma_chain_shift(
    url: Seq<char>,
    responses: Seq<RawResponseSpec>,
    nu: Seq<char>,
    i: int,
)
    requires
        responses.len() > 0,
        spec_step(url, responses[0]) == (SpecStep::Next { url: nu }),
        1 <= i <= responses.len(),
    ensures
        chain_url(url, responses, i) == chain_url(nu, responses.drop_first(), i - 1),
    decreases i,
{
    if i == 1 {
        assert(chain_url(url, responses, 0) == url);
        assert(chain_url(nu, responses.drop_first(), 0) == nu);
    } else {
        lemma_chain_shift(url, responses, nu, i - 1);
        assert(responses.drop_first()[i - 2] == responses[i - 1]);
    }
}

/// Through `n` followed redirects within the hop budget and then a 2xx
/// response, the controller opens exactly `n + 1` connections and succeeds
/// with that final response's body and content kind.
pub proof fn lemma_redirect_chain(
    url: Seq<char>,
    responses: Seq<RawResponseSpec>,
    n: int,
    hops_left: nat,
)
    requires
        0 <= n < responses.len(),
        n <= hops_left,
        forall|i: int| 0 <= i < n ==> follows_redirect(chain_url(url, responses, i), responses[i]),
        spec_parse_target(chain_url(url, responses, n)) is Some,
        200 <= responses[n].code < 300,
    ensures
        spec_run(url, responses, hops_left).0 == n + 1,
        spec_run(url, responses, hops_left).1 == (SpecOutcome::Success {
            body: responses[n].body,
            kind: spec_classify(responses[n].headers),
        }),
    decreases n,
{
    if n == 0 {
    } else {
        assert(follows_redirect(chain_url(url, responses, 0), responses[0]));
        let step0 = spec_step(url, responses[0]);
        match step0 {
            SpecStep::Next { url: nu } => {
                let rs2 = responses.drop_first();
                assert forall|i: int| 0 <= i < n - 1 implies follows_redirect(
                    chain_url(nu, rs2, i),
                    rs2[i],
                ) by {
                    lemma_chain_shift(url, responses, nu, i + 1);
                    assert(rs2[i] == responses[i + 1]);
                    assert(follows_redirect(chain_url(url, responses, i + 1), responses[i + 1]));
                }
                lemma_chain_shift(url, responses, nu, n);
                assert(rs2[n - 1] == responses[n]);
                lemma_redirect_chain(nu, rs2, n - 1, (hops_left - 1) as nat);
            },
            SpecStep::Done { .. } => {
                assert(false);
            },
        }
    }
}

/// Followable redirects past the whole hop budget exhaust it: the controller
/// opens exactly `hops_left + 1` connections, then fails with
/// `TooManyRedirects` without connecting again.
pub proof fn lemma_redirect_exhaustion(
    url: Seq<char>,
    responses: Seq<RawResponseSpec>,
    hops_left: nat,
)
    requires
        hops_left < responses.len(),
        forall|i: int|
            0 <= i <= hops_left ==> follows_redirect(chain_url(url, responses, i), responses[i]),
    ensures
        spec_run(url, responses, hops_left).0 == hops_left + 1,
        spec_run(url, responses, hops_left).1 == (SpecOutcome::Failure {
            error: ErrorSpec::Redirect(RedirectFault::TooManyRedirects),
        }),
    decreases hops_left,
{
    assert(follows_redirect(chain_url(url, responses, 0), responses[0]));
    let step0 = spec_step(url, responses[0]);
    match step0 {
        SpecStep::Next { url: nu } => {
            if hops_left > 0 {
                let rs2 = responses.drop_first();
                assert forall|i: int| 0 <= i <= hops_left - 1 implies follows_redirect(
                    chain_url(nu, rs2, i),
                    rs2[i],
                ) by {
                    lemma_chain_shift(url, responses, nu, i + 1);
                    assert(rs2[i] == responses[i + 1]);
                    assert(follows_redirect(chain_url(url, responses, i + 1), responses[i + 1]));
                }
                lemma_redirect_exhaustion(nu, rs2, (hops_left - 1) as nat);
            }
        },
        SpecStep::Done { .. } => {
            assert(false);
        },
    }
}

/// A response in the 200 family ends the fetch at once: exactly one
/// connection, and the controller succeeds with that response.
pub proof fn lemma_success_single_hop(
    url: Seq<char>,
    responses: Seq<RawResponseSpec>,
    hops_left: nat,
)
    requires
        responses.len() > 0,
        spec_parse_target(url) is Some,
        200 <= responses[0].code < 300,
    ensures
        spec_run(url, responses, hops_left).0 == 1,
        spec_run(url, responses, hops_left).1 == (SpecOutcome::Success {
            body: responses[0].body,
            kind: spec_classify(responses[0].headers),
        }),
{
    lemma_redirect_chain(url, responses, 0, hops_left);
}

/// A chain of `n` redirects (`n` at most ten) ending in a 2xx makes exactly
/// `n + 1` connections and succeeds on the final response.
pub proof fn lemma_chain_within_bound(url: Seq<char>, responses: Seq<RawResponseSpec>, n: int)
    requires
        0 <= n < responses.len(),
        n <= MAX_REDIRECTS,
        forall|i: int| 0 <= i < n ==> follows_redirect(chain_url(url, responses, i), responses[i]),
        spec_parse_target(chain_url(url, responses, n)) is Some,
        200 <= responses[n].code < 300,
    ensures
        spec_run(url, responses, MAX_REDIRECTS as nat).0 == n + 1,
        spec_run(url, responses, MAX_REDIRECTS as nat).1 == (SpecOutcome::Success {
            body: responses[n].body,
            kind: spec_classify(responses[n].headers),
        }),
{
    lemma_redirect_chain(url, responses, n, MAX_REDIRECTS as nat);
}

/// Eleven followable redirects in a row overrun the bound of ten: exactly
/// eleven connections are opened, and the fetch fails with
/// `TooManyRedirects` before a twelfth.
pub proof fn lemma_chain_beyond_bound(url: Seq<char>, responses: Seq<RawResponseSpec>)
    requires
        MAX_REDIRECTS < responses.len(),
        forall|i: int|
            0 <= i <= MAX_REDIRECTS ==> follows_redirect(
                chain_url(url, responses, i),
                responses[i],
            ),
    ensures
        spec_run(url, responses, MAX_REDIRECTS as nat).0 == MAX_REDIRECTS + 1,
        spec_run(url, responses, MAX_REDIRECTS as nat).1 == (SpecOutcome::Failure {
            error: ErrorSpec::Redirect(RedirectFault::TooManyRedirects),
        }),
{
    lemma_redirect_exhaustion(url, responses, MAX_REDIRECTS as nat);
}

} // verus!

use go2web::classify::{classify, ContentKind};
use go2web::errors::{FetchError, RedirectFault};
use go2web::redirect::{redirect_step, resolve_location, StepResult, MAX_REDIRECTS};
use go2web::request::write_request;
use go2web::response::{decode_response, find_header, RawResponse};
use go2web::target::{normalize_url, parse_target, Scheme, Target};

fn decode_ok(text: &str) -> RawResponse {
    decode_response(text).expect("well-formed response text")
}

fn target_of(url: &str) -> Target {
    parse_target(url).expect("valid URL")
}

#[test]
fn parse_https_default_port() {
    let t = target_of("https://example.com");
    assert_eq!(t.scheme, Scheme::Https);
    assert_eq!(t.host, "example.com");
    assert_eq!(t.port, 443);
    assert_eq!(t.path, "/");
}

#[test]
fn parse_http_default_port() {
    let t = target_of("http://example.com/x");
    assert_eq!(t.scheme, Scheme::Http);
    assert_eq!(t.host, "example.com");
    assert_eq!(t.port, 80);
    assert_eq!(t.path, "/x");
}

#[test]
fn parse_explicit_port_and_path() {
    let t = target_of("https://example.com:8080/a/b?q=1");
    assert_eq!(t.port, 8080);
    assert_eq!(t.path, "/a/b?q=1");
}

#[test]
fn parse_rejects_bad_urls() {
    assert_eq!(parse_target("example.com"), Err(FetchError::InvalidUrl));
    assert_eq!(parse_target("ftp://example.com"), Err(FetchError::InvalidUrl));
    assert_eq!(parse_target("https://"), Err(FetchError::InvalidUrl));
    assert_eq!(parse_target("https://:80/"), Err(FetchError::InvalidUrl));
    assert_eq!(parse_target("https://host:/"), Err(FetchError::InvalidUrl));
    assert_eq!(parse_target("https://host:99999/"), Err(FetchError::InvalidUrl));
    assert_eq!(parse_target("https://host:12x/"), Err(FetchError::InvalidUrl));
}

#[test]
fn parse_port_upper_bound() {
    assert_eq!(target_of("https://h:65535/").port, 65535);
    assert_eq!(parse_target("https://h:65536/"), Err(FetchError::InvalidUrl));
}

#[test]
fn normalize_bare_host() {
    assert_eq!(normalize_url("example.com"), "https://www.example.com");
}

#[test]
fn normalize_www_host() {
    assert_eq!(normalize_url("www.example.com"), "https://www.example.com");
}

#[test]
fn normalize_keeps_https() {
    assert_eq!(normalize_url("https://example.com"), "https://example.com");
}

#[test]
fn request_has_fixed_shape() {
    let r = write_request("example.com", "/foo");
    assert!(r.starts_with("GET /foo HTTP/1.1\r\n"));
    assert!(r.contains("\r\nHost: example.com\r\n"));
    assert!(r.contains("\r\nConnection: close\r\n"));
    assert!(r.contains("\r\nAccept: text/html, application/json; charset=utf-8\r\n"));
    assert!(r.contains("\r\nCache-Control: no-cache; max-age=0\r\n"));
    assert!(r.ends_with("\r\n\r\n"));
}

#[test]
fn decode_basic_response() {
    let r = decode_ok("HTTP/1.1 200 OK\r\nContent-Type: text/html\r\n\r\n<html>");
    assert_eq!(r.code, 200);
    assert_eq!(r.reason.as_deref(), Some("OK"));
    assert_eq!(r.headers.len(), 1);
    assert_eq!(r.headers[0].name, "Content-Type");
    assert_eq!(r.headers[0].value, "text/html");
    assert_eq!(r.body, "<html>");
}

#[test]
fn decode_missing_delimiter_is_parse_error() {
    let r = decode_response("HTTP/1.1 200 OK\r\nContent-Type: text/html");
    assert_eq!(r, Err(FetchError::ParseError));
}

#[test]
fn decode_malformed_status_is_parse_error() {
    assert_eq!(decode_response("junk\r\n\r\nbody"), Err(FetchError::ParseError));
    assert_eq!(decode_response("HTTP/2 200 OK\r\n\r\n"), Err(FetchError::ParseError));
    assert_eq!(decode_response("HTTP/1.1 2x0 OK\r\n\r\n"), Err(FetchError::ParseError));
    assert_eq!(decode_response("HTTP/1.1 200x\r\n\r\n"), Err(FetchError::ParseError));
}

#[test]
fn decode_malformed_header_is_parse_error() {
    assert_eq!(
        decode_response("HTTP/1.1 200 OK\r\nnocolon\r\n\r\nbody"),
        Err(FetchError::ParseError)
    );
    assert_eq!(
        decode_response("HTTP/1.1 200 OK\r\n: empty-name\r\n\r\nbody"),
        Err(FetchError::ParseError)
    );
}

#[test]
fn decode_without_reason() {
    let r = decode_ok("HTTP/1.1 204\r\n\r\n");
    assert_eq!(r.code, 204);
    assert_eq!(r.reason, None);
    assert_eq!(r.headers.len(), 0);
    assert_eq!(r.body, "");
}

#[test]
fn decode_reason_with_spaces() {
    let r = decode_ok("HTTP/1.1 404 Not Found\r\n\r\n");
    assert_eq!(r.code, 404);
    assert_eq!(r.reason.as_deref(), Some("Not Found"));
}

#[test]
fn decode_header_value_leading_spaces() {
    let r = decode_ok("HTTP/1.1 200 OK\r\nX-A:   spaced value\r\n\r\n");
    assert_eq!(r.headers[0].value, "spaced value");
}

#[test]
fn decode_truncates_after_sixty_four_headers() {
    let mut text = String::from("HTTP/1.1 200 OK\r\n");
    for i in 0..70 {
        text.push_str(&format!("H{}: v{}\r\n", i, i));
    }
    // The delimiter: the last header line's CRLF plus this blank line.
    text.push_str("\r\nbody");
    let r = decode_ok(&text);
    assert_eq!(r.headers.len(), 64);
    assert_eq!(r.headers[63].name, "H63");
    // Lines past the sixty-fourth are never inspected, even malformed ones.
    let mut text2 = String::from("HTTP/1.1 200 OK\r\n");
    for i in 0..64 {
        text2.push_str(&format!("H{}: v{}\r\n", i, i));
    }
    text2.push_str("this line has no colon\r\n\r\nbody");
    let r2 = decode_ok(&text2);
    assert_eq!(r2.headers.len(), 64);
    assert_eq!(r2.body, "body");
}

#[test]
fn find_header_is_case_sensitive_and_ordered() {
    let r = decode_ok("HTTP/1.1 200 OK\r\nx: 1\r\nX: 2\r\nX: 3\r\n\r\n");
    assert_eq!(find_header(&r.headers, "X").as_deref(), Some("2"));
    assert_eq!(find_header(&r.headers, "x").as_deref(), Some("1"));
    assert_eq!(find_header(&r.headers, "y"), None);
}

#[test]
fn classify_json_with_charset() {
    let r = decode_ok("HTTP/1.1 200 OK\r\nContent-Type: application/json; charset=utf-8\r\n\r\n{}");
    assert_eq!(classify(&r.headers), ContentKind::Json);
}

#[test]
fn classify_html_is_markup() {
    let r = decode_ok("HTTP/1.1 200 OK\r\nContent-Type: text/html\r\n\r\n<p>");
    assert_eq!(classify(&r.headers), ContentKind::Markup);
}

#[test]
fn classify_absent_header_is_markup() {
    let r = decode_ok("HTTP/1.1 200 OK\r\n\r\nhello");
    assert_eq!(classify(&r.headers), ContentKind::Markup);
}

#[test]
fn classify_name_match_is_case_sensitive() {
    // Only the exact spelling `Content-Type` is matched; the lower-case
    // spelling is deliberately not recognized.
    let r = decode_ok("HTTP/1.1 200 OK\r\ncontent-type: application/json\r\n\r\n{}");
    assert_eq!(classify(&r.headers), ContentKind::Markup);
}

#[test]
fn resolve_location_path_only() {
    let r = resolve_location(Scheme::Https, "example.com", "/a/b");
    assert_eq!(r, "https://example.com/a/b");
}

#[test]
fn resolve_location_absolute_is_verbatim() {
    let r = resolve_location(Scheme::Https, "example.com", "http://other.com/x");
    assert_eq!(r, "http://other.com/x");
}

#[test]
fn step_success_on_first_hop() {
    let t = target_of("https://example.com");
    let r = decode_ok("HTTP/1.1 200 OK\r\nContent-Type: text/html\r\n\r\n<p>hi</p>");
    match redirect_step(&t, &r, MAX_REDIRECTS) {
        StepResult::Success { body, kind } => {
            assert_eq!(body, "<p>hi</p>");
            assert_eq!(kind, ContentKind::Markup);
        }
        _ => panic!("expected success"),
    }
}

#[test]
fn step_follows_relative_location() {
    let t = target_of("https://example.com/old");
    let r = decode_ok("HTTP/1.1 301 Moved Permanently\r\nLocation: /new\r\n\r\n");
    match redirect_step(&t, &r, MAX_REDIRECTS) {
        StepResult::Redirect { url } => assert_eq!(url, "https://example.com/new"),
        _ => panic!("expected redirect"),
    }
}

#[test]
fn step_follows_absolute_location() {
    let t = target_of("http://example.com/");
    let r = decode_ok("HTTP/1.1 302 Found\r\nLocation: https://other.com/here\r\n\r\n");
    match redirect_step(&t, &r, MAX_REDIRECTS) {
        StepResult::Redirect { url } => assert_eq!(url, "https://other.com/here"),
        _ => panic!("expected redirect"),
    }
}

#[test]
fn step_missing_location_fails() {
    let t = target_of("https://example.com");
    let r = decode_ok("HTTP/1.1 301 Moved Permanently\r\n\r\n");
    match redirect_step(&t, &r, MAX_REDIRECTS) {
        StepResult::Failure { error } => {
            assert_eq!(error, FetchError::RedirectError(RedirectFault::MissingLocation));
        }
        _ => panic!("expected failure"),
    }
}

#[test]
fn step_unparseable_location_fails() {
    let t = target_of("https://example.com");
    let r = decode_ok("HTTP/1.1 301 Moved Permanently\r\nLocation: not a url\r\n\r\n");
    match redirect_step(&t, &r, MAX_REDIRECTS) {
        StepResult::Failure { error } => {
            assert_eq!(error, FetchError::RedirectError(RedirectFault::InvalidLocation));
        }
        _ => panic!("expected failure"),
    }
}

#[test]
fn step_exhausted_hops_fail() {
    let t = target_of("https://example.com");
    let r = decode_ok("HTTP/1.1 301 Moved Permanently\r\nLocation: /next\r\n\r\n");
    match redirect_step(&t, &r, 0) {
        StepResult::Failure { error } => {
            assert_eq!(error, FetchError::RedirectError(RedirectFault::TooManyRedirects));
        }
        _ => panic!("expected failure"),
    }
}

#[test]
fn step_client_error_carries_code_and_reason() {
    let t = target_of("https://example.com");
    let r = decode_ok("HTTP/1.1 404 Not Found\r\n\r\n");
    match redirect_step(&t, &r, MAX_REDIRECTS) {
        StepResult::Failure { error } => {
            assert_eq!(error, FetchError::ClientError(404, Some(String::from("Not Found"))));
        }
        _ => panic!("expected failure"),
    }
}

#[test]
fn step_server_error_carries_code_and_reason() {
    let t = target_of("https://example.com");
    let r = decode_ok("HTTP/1.1 503 Service Unavailable\r\n\r\n");
    match redirect_step(&t, &r, MAX_REDIRECTS) {
        StepResult::Failure { error } => {
            assert_eq!(
                error,
                FetchError::ServerError(503, Some(String::from("Service Unavailable")))
            );
        }
        _ => panic!("expected failure"),
    }
}

#[test]
fn step_informational_is_unsupported() {
    let t = target_of("https://example.com");
    let r = decode_ok("HTTP/1.1 100 Continue\r\n\r\n");
    match redirect_step(&t, &r, MAX_REDIRECTS) {
        StepResult::Failure { error } => {
            assert_eq!(error, FetchError::UnsupportedResponse(100));
        }
        _ => panic!("expected failure"),
    }
}

#[test]
fn step_out_of_family_code_is_unsupported() {
    let t = target_of("https://example.com");
    let r = decode_ok("HTTP/1.1 999 Weird\r\n\r\n");
    match redirect_step(&t, &r, MAX_REDIRECTS) {
        StepResult::Failure { error } => {
            assert_eq!(error, FetchError::UnsupportedResponse(999));
        }
        _ => panic!("expected failure"),
    }
}

/// Drives the controller over a canned list of response texts, exactly as
/// the network loop does, and reports (connections made, final step).
fn drive(start: &str, responses: &[&str]) -> (usize, StepResult) {
    let mut url = String::from(start);
    let mut hops_left = MAX_REDIRECTS;
    let mut connections = 0usize;
    loop {
        let t = target_of(&url);
        let r = decode_ok(responses[connections]);
        connections += 1;
        match redirect_step(&t, &r, hops_left) {
            StepResult::Redirect { url: next } => {
                url = next;
                hops_left -= 1;
            }
            done => return (connections, done),
        }
    }
}

#[test]
fn chain_of_two_redirects_succeeds_on_third_connection() {
    let (connections, end) = drive(
        "https://a.com/",
        &[
            "HTTP/1.1 301 Moved Permanently\r\nLocation: /r1\r\n\r\n",
            "HTTP/1.1 302 Found\r\nLocation: https://b.com/x\r\n\r\n",
            "HTTP/1.1 200 OK\r\nContent-Type: text/html\r\n\r\ndone",
        ],
    );
    assert_eq!(connections, 3);
    match end {
        StepResult::Success { body, kind } => {
            assert_eq!(body, "done");
            assert_eq!(kind, ContentKind::Markup);
        }
        _ => panic!("expected success"),
    }
}

#[test]
fn eleventh_redirect_exhausts_the_bound() {
    let redirect = "HTTP/1.1 301 Moved Permanently\r\nLocation: /again\r\n\r\n";
    let responses: Vec<&str> = std::iter::repeat(redirect).take(12).collect();
    let (connections, end) = drive("https://a.com/", &responses);
    assert_eq!(connections, 11);
    match end {
        StepResult::Failure { error } => {
            assert_eq!(error, FetchError::RedirectError(RedirectFault::TooManyRedirects));
        }
        _ => panic!("expected failure"),
    }
}

#[test]
fn ten_redirects_then_success() {
    let redirect = "HTTP/1.1 301 Moved Permanently\r\nLocation: /again\r\n\r\n";
    let mut responses: Vec<&str> = std::iter::repeat(redirect).take(10).collect();
    responses.push("HTTP/1.1 200 OK\r\n\r\nok");
    let (connections, end) = drive("https://a.com/", &responses);
    assert_eq!(connections, 11);
    match end {
        StepResult::Success { body, .. } => assert_eq!(body, "ok"),
        _ => panic!("expected success"),
    }
}

#[test]
fn bare_host_fetch_scenario() {
    // `example.com` is first rewritten to `https://www.example.com`; a 301
    // there is followed, and the final 200 body goes down the markup path.
    let url = normalize_url("example.com");
    assert_eq!(url, "https://www.example.com");
    let t = target_of(&url);
    assert_eq!(t.host, "www.example.com");
    assert_eq!(t.port, 443);
    let r1 = decode_ok("HTTP/1.1 301 Moved Permanently\r\nLocation: https://example.com/\r\n\r\n");
    let next = match redirect_step(&t, &r1, MAX_REDIRECTS) {
        StepResult::Redirect { url } => url,
        _ => panic!("expected redirect"),
    };
    assert_eq!(next, "https://example.com/");
    let t2 = target_of(&next);
    let r2 = decode_ok("HTTP/1.1 200 OK\r\nContent-Type: text/html\r\n\r\n<h1>hi</h1>");
    match redirect_step(&t2, &r2, MAX_REDIRECTS - 1) {
        StepResult::Success { body, kind } => {
            assert_eq!(body, "<h1>hi</h1>");
            assert_eq!(kind, ContentKind::Markup);
        }
        _ => panic!("expected success"),
    }
}

#[test]
fn json_body_is_passed_through() {
    let t = target_of("https://api.example.com/v");
    let r = decode_ok("HTTP/1.1 200 OK\r\nContent-Type: application/json\r\n\r\n{\"a\":1}");
    match redirect_step(&t, &r, MAX_REDIRECTS) {
        StepResult::Success { body, kind } => {
            assert_eq!(body, "{\"a\":1}");
            assert_eq!(kind, ContentKind::Json);
        }
        _ => panic!("expected success"),
    }
}

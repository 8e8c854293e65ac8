use poe_bridge::cors::cors_middleware;
use poe_bridge::headers::{stream_headers, Header, HeaderName};

fn value(headers: &[Header], name: HeaderName) -> Option<&str> {
    headers
        .iter()
        .rev()
        .find(|header| header.name == name)
        .map(|header| header.value.as_str())
}

#[test]
fn origin_of_a_request_is_allowed() {
    let outcome = cors_middleware("GET", Some(b"https://example.com"));
    assert!(outcome.proceed);
    assert_eq!(outcome.status, None);
    assert_eq!(outcome.headers.len(), 3);
    assert_eq!(
        value(&outcome.headers, HeaderName::AccessControlAllowOrigin),
        Some("https://example.com")
    );
    assert_eq!(value(&outcome.headers, HeaderName::AccessControlAllowCredentials), Some("true"));
    assert_eq!(value(&outcome.headers, HeaderName::Vary), Some("Origin"));
}

#[test]
fn origin_that_is_no_text_becomes_null() {
    for origin in [None, Some(&b"\xff"[..]), Some(&b"a\x7f"[..]), Some(&b"a\nb"[..])] {
        let outcome = cors_middleware("POST", origin);
        assert_eq!(value(&outcome.headers, HeaderName::AccessControlAllowOrigin), Some("null"));
    }
    let tab = cors_middleware("POST", Some(b"a\tb"));
    assert_eq!(value(&tab.headers, HeaderName::AccessControlAllowOrigin), Some("a\tb"));
    let empty = cors_middleware("POST", Some(b""));
    assert_eq!(value(&empty.headers, HeaderName::AccessControlAllowOrigin), Some(""));
}

#[test]
fn preflight_request_is_answered_at_once() {
    let outcome = cors_middleware("OPTIONS", Some(b"null"));
    assert!(!outcome.proceed);
    assert_eq!(outcome.status, Some(204));
    assert_eq!(outcome.headers.len(), 7);
    assert_eq!(
        value(&outcome.headers, HeaderName::AccessControlAllowMethods),
        Some("GET, POST, OPTIONS, PUT, DELETE, PATCH, HEAD")
    );
    assert_eq!(
        value(&outcome.headers, HeaderName::AccessControlAllowHeaders),
        Some(
            "Authorization, Content-Type, User-Agent, Accept, Origin, \
             X-Requested-With, Access-Control-Request-Method, \
             Access-Control-Request-Headers, Accept-Encoding, Accept-Language, \
             Cache-Control, Connection, Referer, Sec-Fetch-Dest, Sec-Fetch-Mode, \
             Sec-Fetch-Site, Pragma, X-Api-Key"
        )
    );
    assert_eq!(value(&outcome.headers, HeaderName::AccessControlMaxAge), Some("3600"));
    assert_eq!(
        value(&outcome.headers, HeaderName::Vary),
        Some("Origin, Access-Control-Request-Method, Access-Control-Request-Headers")
    );
}

#[test]
fn method_is_compared_exactly() {
    assert!(cors_middleware("options", None).proceed);
}

#[test]
fn stream_has_its_headers() {
    let headers = stream_headers();
    assert_eq!(headers.len(), 3);
    assert_eq!(value(&headers, HeaderName::ContentType), Some("text/event-stream"));
    assert_eq!(value(&headers, HeaderName::CacheControl), Some("no-cache"));
    assert_eq!(value(&headers, HeaderName::Connection), Some("keep-alive"));
}

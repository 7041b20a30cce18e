use axum::http::{HeaderName, HeaderValue};
use bini_server::reply::{error_response, fixed_headers, health};

#[test]
fn health_is_json_and_never_stored() {
    let reply = health();
    assert_eq!(reply.status, 200);
    assert_eq!(reply.body, b"{\"status\":\"ok\"}".to_vec());
    assert_eq!(reply.headers.len(), 2);
    assert_eq!(reply.headers.get("content-type").unwrap(), "application/json");
    assert_eq!(reply.headers.get("cache-control").unwrap(), "no-store");
}

#[test]
fn errors_are_json() {
    let reply = error_response(504, "API timed out");
    assert_eq!(reply.status, 504);
    assert_eq!(reply.body, b"{\"error\":\"API timed out\"}".to_vec());
    assert_eq!(reply.headers.len(), 1);
    assert_eq!(reply.headers.get("content-type").unwrap(), "application/json");
}

#[test]
fn fixed_headers_are_the_documented_ones() {
    assert_eq!(
        fixed_headers(),
        vec![
            ("x-powered-by", "Bini.js"),
            ("x-content-type-options", "nosniff"),
            ("x-frame-options", "SAMEORIGIN"),
            ("x-xss-protection", "0"),
            ("referrer-policy", "strict-origin-when-cross-origin"),
            ("permissions-policy", "camera=(), microphone=(), geolocation=()"),
            ("strict-transport-security", "max-age=31536000; includeSubDomains"),
        ]
    );
    for (name, value) in fixed_headers() {
        assert_eq!(HeaderName::from_static(name).as_str(), name);
        assert_eq!(HeaderValue::from_static(value), value);
    }
}

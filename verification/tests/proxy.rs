use axum::http::{HeaderMap, HeaderName, HeaderValue};
use bini_server::proxy::{
    api_proxy_reply, api_proxy_request, forward_headers, request_id, supplied_request_id,
    upstream_url, BodyOutcome, ProxyRequest, UpstreamOutcome,
};
use bini_server::reply::Reply;

fn headers(entries: &[(&'static str, &[u8])]) -> HeaderMap {
    let mut map = HeaderMap::new();
    for (name, value) in entries {
        map.append(HeaderName::from_static(name), HeaderValue::from_bytes(value).unwrap());
    }
    map
}

fn request(query: Option<&str>) -> ProxyRequest {
    ProxyRequest {
        method: "POST".to_string(),
        path: "users/7".to_string(),
        query: query.map(|q| q.to_string()),
        headers: headers(&[("accept", b"*/*")]),
    }
}

fn error_of(reply: Reply) -> (u16, String) {
    assert_eq!(reply.headers.len(), 1);
    assert_eq!(reply.headers.get("content-type").unwrap(), "application/json");
    (reply.status, String::from_utf8(reply.body).unwrap())
}

#[test]
fn supplied_identifier_is_used() {
    let map = headers(&[("x-request-id", b"abc 1"), ("x-request-id", b"second")]);
    assert_eq!(supplied_request_id(&map), Some("abc 1".to_string()));
    assert_eq!(request_id(&map), "abc 1");
    let empty = headers(&[("x-request-id", b"")]);
    assert_eq!(request_id(&empty), "");
}

#[test]
fn missing_or_unreadable_identifier_is_replaced_by_a_random_one() {
    for map in [headers(&[]), headers(&[("x-request-id", b"\xff")])] {
        assert_eq!(supplied_request_id(&map), None);
        let id = request_id(&map);
        assert_eq!(id.len(), 36);
        for (i, c) in id.chars().enumerate() {
            if [8, 13, 18, 23].contains(&i) {
                assert_eq!(c, '-');
            } else {
                assert!(c.is_ascii_digit() || ('a'..='f').contains(&c));
            }
        }
        assert_eq!(&id[14..15], "4");
        assert!(["8", "9", "a", "b"].contains(&&id[19..20]));
        assert_ne!(id, request_id(&map));
    }
}

#[test]
fn address_keeps_path_and_query() {
    assert_eq!(upstream_url(3001, "a/b", None), "http://127.0.0.1:3001/api/a/b");
    assert_eq!(upstream_url(80, "", Some("")), "http://127.0.0.1:80/api/?");
    assert_eq!(upstream_url(80, "a", Some("x=1&y")), "http://127.0.0.1:80/api/a?x=1&y");
}

#[test]
fn only_listed_headers_are_forwarded() {
    let map = headers(&[
        ("content-type", b"text/plain"),
        ("authorization", b"Bearer t"),
        ("accept", b"a"),
        ("accept", b"b"),
        ("accept-encoding", b"gzip"),
        ("accept-language", b"\xe9"),
        ("cache-control", b"no-cache"),
        ("cookie", b"c=1"),
        ("host", b"example.com"),
    ]);
    let fwd = forward_headers(&map, "id-1");
    assert_eq!(fwd.len(), 8);
    assert_eq!(fwd.get("content-type").unwrap(), "text/plain");
    assert_eq!(fwd.get("authorization").unwrap(), "Bearer t");
    assert_eq!(fwd.get("accept").unwrap(), "a");
    assert_eq!(fwd.get("accept-encoding").unwrap(), "gzip");
    assert_eq!(fwd.get("accept-language").unwrap().as_bytes(), b"\xe9");
    assert_eq!(fwd.get("cache-control").unwrap(), "no-cache");
    assert_eq!(fwd.get("x-forwarded-for").unwrap(), "127.0.0.1");
    assert_eq!(fwd.get("x-request-id").unwrap(), "id-1");
}

#[test]
fn origin_of_an_earlier_proxy_is_kept() {
    let fwd = forward_headers(&headers(&[("x-forwarded-for", b"1.2.3.4, 5.6.7.8")]), "i");
    assert_eq!(fwd.get("x-forwarded-for").unwrap(), "1.2.3.4, 5.6.7.8");
    let fwd = forward_headers(&headers(&[("x-forwarded-for", b"\x80")]), "i");
    assert_eq!(fwd.get("x-forwarded-for").unwrap(), "127.0.0.1");
}

#[test]
fn unfit_identifier_is_not_sent() {
    let fwd = forward_headers(&headers(&[]), "a\nb");
    assert_eq!(fwd.len(), 1);
    assert!(fwd.get("x-request-id").is_none());
}

#[test]
fn collected_body_goes_upstream() {
    let body = BodyOutcome::Collected(vec![1, 2, 3]);
    match api_proxy_request(3001, request(Some("q=1")), "id", body) {
        Ok(upstream) => {
            assert_eq!(upstream.method, "POST");
            assert_eq!(upstream.url, "http://127.0.0.1:3001/api/users/7?q=1");
            assert_eq!(upstream.body, vec![1, 2, 3]);
            assert_eq!(upstream.headers.len(), 3);
            assert_eq!(upstream.headers.get("x-request-id").unwrap(), "id");
        }
        Err(_) => panic!("refused"),
    }
}

#[test]
fn unread_body_is_answered_at_once() {
    match api_proxy_request(1, request(None), "id", BodyOutcome::Failed) {
        Err(reply) => assert_eq!(
            error_of(reply),
            (400, "{\"error\":\"Failed to read request body\"}".to_string())
        ),
        Ok(_) => panic!("sent"),
    }
    match api_proxy_request(1, request(None), "id", BodyOutcome::TimedOut) {
        Err(reply) => assert_eq!(
            error_of(reply),
            (408, "{\"error\":\"Request body timed out\"}".to_string())
        ),
        Ok(_) => panic!("sent"),
    }
}

#[test]
fn answer_is_handed_back() {
    let answer = Reply {
        status: 201,
        headers: headers(&[
            ("content-type", b"text/html"),
            ("set-cookie", b"a=1"),
            ("set-cookie", b"b=2"),
            ("x-request-id", b"theirs"),
            ("transfer-encoding", b"chunked"),
            ("connection", b"close"),
            ("keep-alive", b"timeout=5"),
            ("te", b"x"),
            ("trailer", b"x"),
            ("upgrade", b"h2c"),
            ("proxy-authenticate", b"x"),
            ("proxy-authorization", b"x"),
        ]),
        body: b"hello".to_vec(),
    };
    let reply = api_proxy_reply("mine", UpstreamOutcome::Answered(answer)).unwrap();
    assert_eq!(reply.status, 201);
    assert_eq!(reply.body, b"hello".to_vec());
    assert_eq!(reply.headers.len(), 3);
    assert_eq!(reply.headers.get("content-type").unwrap(), "text/html");
    assert_eq!(reply.headers.get("set-cookie").unwrap(), "b=2");
    assert_eq!(reply.headers.get("x-request-id").unwrap(), "mine");
}

#[test]
fn answer_keeps_its_identifier_where_ours_is_unfit() {
    let answer = Reply { status: 200, headers: headers(&[("x-request-id", b"theirs")]), body: vec![] };
    let reply = api_proxy_reply("\n", UpstreamOutcome::Answered(answer)).unwrap();
    assert_eq!(reply.headers.get("x-request-id").unwrap(), "theirs");
}

fn many_headers(n: usize) -> Reply {
    let mut map = HeaderMap::new();
    for i in 0..n {
        let name = HeaderName::from_bytes(format!("x-{}", i).as_bytes()).unwrap();
        map.insert(name, HeaderValue::from_static("v"));
    }
    Reply { status: 200, headers: map, body: vec![] }
}

#[test]
fn answer_with_too_many_headers_is_refused() {
    for n in [6553, 6554, 12000] {
        let fits = api_proxy_reply("i", UpstreamOutcome::Answered(many_headers(n))).unwrap();
        assert_eq!(fits.headers.len(), n + 1);
    }
    assert!(api_proxy_reply("i", UpstreamOutcome::Answered(many_headers(24576))).is_none());
}

#[test]
fn failures_are_answered_with_json_errors() {
    for (outcome, status, message) in [
        (UpstreamOutcome::Unsendable, 502, "Bad gateway"),
        (UpstreamOutcome::Failed, 502, "API unavailable"),
        (UpstreamOutcome::TimedOut, 504, "API timed out"),
        (UpstreamOutcome::BodyFailed, 502, "Failed to read upstream response"),
        (UpstreamOutcome::Unbuildable, 500, "Response build error"),
    ] {
        let reply = api_proxy_reply("id", outcome).unwrap();
        assert_eq!(error_of(reply), (status, format!("{{\"error\":\"{}\"}}", message)));
    }
}

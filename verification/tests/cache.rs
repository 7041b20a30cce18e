use axum::http::{HeaderMap, HeaderName, HeaderValue};
use bini_server::cache::{add_cache_policy, cache_headers};

#[test]
fn assets_are_immutable() {
    for path in ["/a.js", "/assets/index-4f3.css", "/f.woff", "/f.woff2", "/f.ttf", ".js"] {
        assert_eq!(cache_headers(path, false), Some("public, max-age=31536000, immutable"));
    }
}

#[test]
fn pages_are_not_cached() {
    for path in ["/", "/index.html", "/a/b.html"] {
        assert_eq!(cache_headers(path, false), Some("no-cache"));
    }
}

#[test]
fn everything_else_is_cached_for_an_hour() {
    for path in ["", "/about", "/logo.png", "/a.js.map", "/a.JS", "//", "/a.mjs", "/data.json"] {
        assert_eq!(cache_headers(path, false), Some("public, max-age=3600"), "{}", path);
    }
}

#[test]
fn existing_policy_is_kept() {
    for path in ["/", "/a.js", "/x"] {
        assert_eq!(cache_headers(path, true), None);
    }
}

#[test]
fn policy_is_added_and_nothing_else_changes() {
    let mut headers = HeaderMap::new();
    headers.append("set-cookie", HeaderValue::from_static("a"));
    headers.append("set-cookie", HeaderValue::from_static("b"));
    assert!(add_cache_policy("/a.js", &mut headers));
    let values: Vec<_> = headers.get_all("cache-control").iter().collect();
    assert_eq!(values, vec!["public, max-age=31536000, immutable"]);
    let cookies: Vec<_> = headers.get_all("set-cookie").iter().collect();
    assert_eq!(cookies, vec!["a", "b"]);
    assert_eq!(headers.len(), 3);
    let before = headers.clone();
    assert!(add_cache_policy("/", &mut headers));
    assert_eq!(headers, before);
}

#[test]
fn own_policy_stays() {
    let mut headers = HeaderMap::new();
    headers.append("cache-control", HeaderValue::from_static("no-store"));
    headers.append("cache-control", HeaderValue::from_static("private"));
    let before = headers.clone();
    assert!(add_cache_policy("/a.css", &mut headers));
    assert_eq!(headers, before);
}

#[test]
fn full_headers_take_no_policy() {
    let mut headers = HeaderMap::new();
    for i in 0..24576 {
        let name = HeaderName::from_bytes(format!("x-{}", i).as_bytes()).unwrap();
        headers.insert(name, HeaderValue::from_static("v"));
    }
    assert!(!add_cache_policy("/", &mut headers));
    assert_eq!(headers.len(), 24576);
    assert!(!headers.contains_key("cache-control"));
}

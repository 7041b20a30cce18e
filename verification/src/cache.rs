//! Cache headers of responses.

use axum::http::HeaderMap;
use vstd::prelude::*;
use vstd::utf8::encode_utf8;

use crate::headers::{
    all_name_chars, first_value, has_room, header_name, header_values, insert_header,
    is_visible_text, lemma_spells_visible, spells_visible, visible_value, HeaderModel,
};
use crate::text::{ends_with, has_suffix, same_text, suffix_stands_last};

verus! {

/// Whether a path names a file whose name changes with its contents: a script, a style sheet or a
/// font.
pub open spec fn is_immutable_asset(path: Seq<char>) -> bool {
    ||| has_suffix(path, ".js"@)
    ||| has_suffix(path, ".css"@)
    ||| has_suffix(path, ".woff"@)
    ||| has_suffix(path, ".woff2"@)
    ||| has_suffix(path, ".ttf"@)
}

/// Whether a path names a page.
pub open spec fn is_page(path: Seq<char>) -> bool {
    has_suffix(path, ".html"@) || path == "/"@
}

/// The cache policy of a path.
pub open spec fn cache_policy(path: Seq<char>) -> Seq<char> {
    if is_immutable_asset(path) {
        "public, max-age=31536000, immutable"@
    } else if is_page(path) {
        "no-cache"@
    } else {
        "public, max-age=3600"@
    }
}

/// The cache policy to add to a response for `path`. A response that carries one already is left
/// alone.
pub fn cache_headers(path: &str, has_policy: bool) -> (policy: Option<&'static str>)
    ensures
        match policy {
            Some(text) => !has_policy && text@ == cache_policy(path@),
            None => has_policy,
        },
{
    if has_policy {
        return None;
    }
    if ends_with(path, ".js") || ends_with(path, ".css") || ends_with(path, ".woff") || ends_with(
        path,
        ".woff2",
    ) || ends_with(path, ".ttf") {
        Some("public, max-age=31536000, immutable")
    } else if ends_with(path, ".html") || same_text(path, "/") {
        Some("no-cache")
    } else {
        Some("public, max-age=3600")
    }
}

/// The headers of a response for `path` with its cache policy: its own where it has one, else that
/// of the path.
pub open spec fn with_cache_policy(path: Seq<char>, headers: HeaderModel) -> HeaderModel {
    if headers.contains_key("cache-control"@) {
        headers
    } else {
        headers.insert("cache-control"@, seq![encode_utf8(cache_policy(path))])
    }
}

/// Every cache policy can stand in a header.
proof fn lemma_policy_is_visible(path: Seq<char>)
    ensures
        is_visible_text(cache_policy(path)),
{
    reveal_strlit("public, max-age=31536000, immutable");
    reveal_strlit("no-cache");
    reveal_strlit("public, max-age=3600");
    reveal_with_fuel(spells_visible, 40);
    lemma_spells_visible("public, max-age=31536000, immutable"@);
    lemma_spells_visible("no-cache"@);
    lemma_spells_visible("public, max-age=3600"@);
}

/// Adds the cache policy of `path` to the headers of a response that carries none, and says whether
/// the headers now carry one. They always do, unless they were too many to take one more; then they
/// stay as they are.
pub fn add_cache_policy(path: &str, headers: &mut HeaderMap) -> (done: bool)
    ensures
        done ==> header_values(*final(headers)) == with_cache_policy(
            path@,
            header_values(*old(headers)),
        ),
        !done ==> header_values(*final(headers)) == header_values(*old(headers)),
        !done ==> !header_values(*old(headers)).contains_key("cache-control"@) && !has_room(
            header_values(*old(headers)),
        ),
{
    proof {
        reveal_strlit("cache-control");
        reveal_with_fuel(all_name_chars, 20);
        lemma_policy_is_visible(path@);
    }
    let has_policy = first_value(headers, &header_name("cache-control")).is_some();
    match cache_headers(path, has_policy) {
        Some(policy) => insert_header(
            headers,
            header_name("cache-control"),
            visible_value(policy),
        ),
        None => true,
    }
}

// ---------------------------------------------------------------------------
// Laws
// ---------------------------------------------------------------------------

/// A response ends up with a cache policy, which is its own where it came with one; no other header
/// changes, and a second time changes nothing.
pub proof fn only_a_missing_policy_is_added(
    path: Seq<char>,
    headers: HeaderModel,
    name: Seq<char>,
)
    ensures
        with_cache_policy(path, headers).contains_key("cache-control"@),
        headers.contains_key(name) ==> with_cache_policy(path, headers).contains_key(name)
            && with_cache_policy(path, headers)[name] == headers[name],
        with_cache_policy(path, headers).contains_key(name) ==> headers.contains_key(name) || name
            == "cache-control"@,
        with_cache_policy(path, with_cache_policy(path, headers)) == with_cache_policy(
            path,
            headers,
        ),
{
}

/// A page is always revalidated: no page counts as an asset whose name changes with its contents.
pub proof fn pages_are_revalidated(path: Seq<char>)
    requires
        is_page(path),
    ensures
        !is_immutable_asset(path),
        cache_policy(path) == "no-cache"@,
{
    reveal_strlit(".js");
    reveal_strlit(".css");
    reveal_strlit(".woff");
    reveal_strlit(".woff2");
    reveal_strlit(".ttf");
    reveal_strlit(".html");
    reveal_strlit("/");
    lemma_suffix_last(path, ".js"@);
    lemma_suffix_last(path, ".css"@);
    lemma_suffix_last(path, ".woff"@);
    lemma_suffix_last(path, ".woff2"@);
    lemma_suffix_last(path, ".ttf"@);
    lemma_suffix_last(path, ".html"@);
}

proof fn lemma_suffix_last(s: Seq<char>, tail: Seq<char>)
    requires
        tail.len() > 0,
    ensures
        has_suffix(s, tail) ==> s.last() == tail.last(),
{
    if has_suffix(s, tail) {
        assert(s.skip(s.len() - tail.len()).last() == s.last());
    }
}

/// Whatever the rest of the path: scripts, style sheets and fonts are cached for a year and never
/// revalidated.
pub proof fn assets_are_immutable(stem: Seq<char>)
    ensures
        cache_policy(stem + ".js"@) == "public, max-age=31536000, immutable"@,
        cache_policy(stem + ".css"@) == "public, max-age=31536000, immutable"@,
        cache_policy(stem + ".woff"@) == "public, max-age=31536000, immutable"@,
        cache_policy(stem + ".woff2"@) == "public, max-age=31536000, immutable"@,
        cache_policy(stem + ".ttf"@) == "public, max-age=31536000, immutable"@,
{
    suffix_stands_last(stem + ".js"@, ".js"@);
    suffix_stands_last(stem + ".css"@, ".css"@);
    suffix_stands_last(stem + ".woff"@, ".woff"@);
    suffix_stands_last(stem + ".woff2"@, ".woff2"@);
    suffix_stands_last(stem + ".ttf"@, ".ttf"@);
}

/// Whatever the rest of the path: HTML files are revalidated every time, and so is the root.
pub proof fn html_is_revalidated(stem: Seq<char>)
    ensures
        cache_policy(stem + ".html"@) == "no-cache"@,
        cache_policy("/"@) == "no-cache"@,
{
    suffix_stands_last(stem + ".html"@, ".html"@);
    pages_are_revalidated(stem + ".html"@);
    pages_are_revalidated("/"@);
}

/// Everything else is cached for an hour.
pub proof fn everything_else_is_cached_for_an_hour(path: Seq<char>)
    requires
        path != "/"@,
        !exists|stem: Seq<char>| path == #[trigger] (stem + ".js"@),
        !exists|stem: Seq<char>| path == #[trigger] (stem + ".css"@),
        !exists|stem: Seq<char>| path == #[trigger] (stem + ".woff"@),
        !exists|stem: Seq<char>| path == #[trigger] (stem + ".woff2"@),
        !exists|stem: Seq<char>| path == #[trigger] (stem + ".ttf"@),
        !exists|stem: Seq<char>| path == #[trigger] (stem + ".html"@),
    ensures
        cache_policy(path) == "public, max-age=3600"@,
{
    suffix_stands_last(path, ".js"@);
    suffix_stands_last(path, ".css"@);
    suffix_stands_last(path, ".woff"@);
    suffix_stands_last(path, ".woff2"@);
    suffix_stands_last(path, ".ttf"@);
    suffix_stands_last(path, ".html"@);
}

/// The policy that is added is one value, the policy of the path.
pub proof fn added_policy_is_that_of_the_path(path: Seq<char>, headers: HeaderModel)
    requires
        !headers.contains_key("cache-control"@),
    ensures
        with_cache_policy(path, headers)["cache-control"@] == seq![encode_utf8(cache_policy(path))],
        with_cache_policy(path, headers).remove("cache-control"@) == headers,
{
    assert(with_cache_policy(path, headers).remove("cache-control"@) =~= headers);
}

} // verus!

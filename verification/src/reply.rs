//! Replies that the server writes itself: the health check, JSON errors and fixed headers.

use axum::http::HeaderMap;
use vstd::prelude::*;
use vstd::utf8::encode_utf8;

use crate::headers::{
    empty_headers, header_name, header_values, insert_header, visible_value, HeaderModel,
};

verus! {

/// An HTTP reply: a status code, headers and a body.
pub struct Reply {
    pub status: u16,
    pub headers: HeaderMap,
    pub body: Vec<u8>,
}

/// What a [`Reply`] holds.
pub struct ReplyModel {
    pub status: u16,
    pub headers: HeaderModel,
    pub body: Seq<u8>,
}

impl View for Reply {
    type V = ReplyModel;

    open spec fn view(&self) -> ReplyModel {
        ReplyModel {
            status: self.status,
            headers: header_values(self.headers),
            body: self.body@,
        }
    }
}

/// The headers that declare a JSON body and nothing else.
pub open spec fn json_headers() -> HeaderModel {
    HeaderModel::empty().insert("content-type"@, seq![encode_utf8("application/json"@)])
}

/// The JSON object that carries an error message.
pub open spec fn error_body(msg: Seq<char>) -> Seq<u8> {
    encode_utf8("{\"error\":\""@ + msg + "\"}"@)
}

/// The reply that reports an error.
pub open spec fn error_reply(status: u16, msg: Seq<char>) -> ReplyModel {
    ReplyModel { status, headers: json_headers(), body: error_body(msg) }
}

/// The reply to a health check.
pub open spec fn health_reply() -> ReplyModel {
    ReplyModel {
        status: 200,
        headers: json_headers().insert("cache-control"@, seq![encode_utf8("no-store"@)]),
        body: encode_utf8("{\"status\":\"ok\"}"@),
    }
}

/// Makes the headers that declare a JSON body.
fn json_header_map() -> (headers: HeaderMap)
    ensures
        header_values(headers) == json_headers(),
{
    let mut headers = empty_headers();
    proof {
        reveal_strlit("content-type");
        reveal_strlit("application/json");
        reveal_with_fuel(crate::headers::all_name_chars, 20);
        reveal_with_fuel(crate::headers::spells_visible, 20);
        crate::headers::lemma_spells_visible("application/json"@);
    }
    insert_header(&mut headers, header_name("content-type"), visible_value("application/json"));
    headers
}

/// Reports that the server is up.
pub fn health() -> (reply: Reply)
    ensures
        reply@ == health_reply(),
{
    let mut headers = json_header_map();
    proof {
        reveal_strlit("cache-control");
        reveal_strlit("no-store");
        reveal_with_fuel(crate::headers::all_name_chars, 20);
        reveal_with_fuel(crate::headers::spells_visible, 20);
        crate::headers::lemma_spells_visible("no-store"@);
    }
    insert_header(&mut headers, header_name("cache-control"), visible_value("no-store"));
    Reply { status: 200, headers, body: "{\"status\":\"ok\"}".as_bytes_vec() }
}

/// Reports an error as a JSON object with one field.
pub fn error_response(status: u16, msg: &str) -> (reply: Reply)
    ensures
        reply@ == error_reply(status, msg@),
{
    let mut text = "{\"error\":\"".to_owned();
    text.append(msg);
    text.append("\"}");
    Reply { status, headers: json_header_map(), body: text.as_str().as_bytes_vec() }
}

/// The contents of pairs of texts.
pub open spec fn pair_texts(pairs: Seq<(&'static str, &'static str)>) -> Seq<
    (Seq<char>, Seq<char>),
> {
    Seq::new(pairs.len(), |i: int| (pairs[i].0@, pairs[i].1@))
}

/// The headers that every response carries, unless it has its own.
pub open spec fn standing_headers() -> Seq<(Seq<char>, Seq<char>)> {
    seq![
        ("x-powered-by"@, "Bini.js"@),
        ("x-content-type-options"@, "nosniff"@),
        ("x-frame-options"@, "SAMEORIGIN"@),
        ("x-xss-protection"@, "0"@),
        ("referrer-policy"@, "strict-origin-when-cross-origin"@),
        ("permissions-policy"@, "camera=(), microphone=(), geolocation=()"@),
        ("strict-transport-security"@, "max-age=31536000; includeSubDomains"@),
    ]
}

/// Lists the headers that every response carries, unless it has its own: the name of the server
/// and the security headers.
pub fn fixed_headers() -> (headers: Vec<(&'static str, &'static str)>)
    ensures
        pair_texts(headers@) == standing_headers(),
{
    let mut headers: Vec<(&'static str, &'static str)> = Vec::new();
    headers.push(("x-powered-by", "Bini.js"));
    headers.push(("x-content-type-options", "nosniff"));
    headers.push(("x-frame-options", "SAMEORIGIN"));
    headers.push(("x-xss-protection", "0"));
    headers.push(("referrer-policy", "strict-origin-when-cross-origin"));
    headers.push(("permissions-policy", "camera=(), microphone=(), geolocation=()"));
    headers.push(("strict-transport-security", "max-age=31536000; includeSubDomains"));
    assert(pair_texts(headers@) =~= standing_headers());
    headers
}

// ---------------------------------------------------------------------------
// Laws
// ---------------------------------------------------------------------------

/// A reply stands for its status, what its headers hold, and its body.
pub proof fn reply_stands_for_its_parts(reply: Reply)
    ensures
        reply@.status == reply.status,
        reply@.headers == header_values(reply.headers),
        reply@.body == reply.body@,
{
}

/// An error keeps its status and its message: the body is a JSON object with the message between
/// fixed texts, so different messages give different bodies, and the only header declares JSON.
pub proof fn error_reports_status_and_message(status: u16, msg: Seq<char>, name: Seq<char>)
    ensures
        error_reply(status, msg).status == status,
        error_reply(status, msg).body == encode_utf8(
            seq!['{', '"', 'e', 'r', 'r', 'o', 'r', '"', ':', '"'] + msg + seq!['"', '}'],
        ),
        error_reply(status, msg).headers.contains_key(name) <==> name == "content-type"@,
        error_reply(status, msg).headers["content-type"@] == seq![encode_utf8(
            "application/json"@,
        )],
{
    reveal_strlit("{\"error\":\"");
    reveal_strlit("\"}");
    assert("{\"error\":\""@ =~= seq!['{', '"', 'e', 'r', 'r', 'o', 'r', '"', ':', '"']);
    assert("\"}"@ =~= seq!['"', '}']);
}

/// A health check is answered with success, as JSON that is not to be stored.
pub proof fn health_is_reported(name: Seq<char>)
    ensures
        health_reply().status == 200,
        health_reply().body == encode_utf8("{\"status\":\"ok\"}"@),
        health_reply().headers.contains_key(name) <==> name == "content-type"@ || name
            == "cache-control"@,
        health_reply().headers["content-type"@] == seq![encode_utf8("application/json"@)],
        health_reply().headers["cache-control"@] == seq![encode_utf8("no-store"@)],
{
    reveal_strlit("content-type");
    reveal_strlit("cache-control");
    assert("content-type"@.len() != "cache-control"@.len());
}

/// Every response carries these headers, each once, with these values, and no others of the kind.
pub proof fn responses_carry_these_headers(name: Seq<char>, value: Seq<char>)
    ensures
        standing_headers().len() == 7,
        standing_headers().contains((name, value)) <==> {
            ||| name == "x-powered-by"@ && value == "Bini.js"@
            ||| name == "x-content-type-options"@ && value == "nosniff"@
            ||| name == "x-frame-options"@ && value == "SAMEORIGIN"@
            ||| name == "x-xss-protection"@ && value == "0"@
            ||| name == "referrer-policy"@ && value == "strict-origin-when-cross-origin"@
            ||| name == "permissions-policy"@ && value
                == "camera=(), microphone=(), geolocation=()"@
            ||| name == "strict-transport-security"@ && value
                == "max-age=31536000; includeSubDomains"@
        },
{
    let all = standing_headers();
    assert(all[0] == ("x-powered-by"@, "Bini.js"@));
    assert(all[1] == ("x-content-type-options"@, "nosniff"@));
    assert(all[2] == ("x-frame-options"@, "SAMEORIGIN"@));
    assert(all[3] == ("x-xss-protection"@, "0"@));
    assert(all[4] == ("referrer-policy"@, "strict-origin-when-cross-origin"@));
    assert(all[5] == ("permissions-policy"@, "camera=(), microphone=(), geolocation=()"@));
    assert(all[6] == ("strict-transport-security"@, "max-age=31536000; includeSubDomains"@));
}

/// A list of pairs stands for their texts, one by one.
pub proof fn pairs_stand_for_their_texts(pairs: Seq<(&'static str, &'static str)>, i: int)
    ensures
        pair_texts(pairs).len() == pairs.len(),
        0 <= i < pairs.len() ==> pair_texts(pairs)[i] == (pairs[i].0@, pairs[i].1@),
{
}

} // verus!

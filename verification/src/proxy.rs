//! The reverse proxy for `/api/*`: which request goes to the API process, and which reply comes
//! back for each outcome.

use axum::http::{HeaderMap, HeaderName, HeaderValue};
use vstd::prelude::*;
use vstd::set_lib::lemma_len_subset;
use vstd::utf8::encode_utf8;

use crate::headers::{
    all_field_bytes, all_visible, ascii_text, empty_headers, field_bytes_are_these, first_value,
    has_room, header_name, header_name_text, header_pairs, header_values, insert_header,
    is_visible_text, name_chars, value_bytes, value_of, value_text, values_named,
    visible_bytes_are_these, visible_text_is_value, visible_value_reads_back, HeaderModel,
};
use crate::reply::{error_reply, error_response, Reply, ReplyModel};
use crate::text::{
    decimal, decimal_text, first_at_end_of, is_digit, lemma_decimal_digits, same_text, split_first,
    split_first_divides,
};

verus! {

// ---------------------------------------------------------------------------
// Request identifiers
// ---------------------------------------------------------------------------

/// The identifier that the client gave its request, where it can be read as text.
pub open spec fn supplied_id(headers: HeaderModel) -> Option<Seq<char>> {
    if headers.contains_key("x-request-id"@) && all_visible(headers["x-request-id"@][0]) {
        Some(ascii_text(headers["x-request-id"@][0]))
    } else {
        None
    }
}

/// The lower case hexadecimal digits.
pub open spec fn is_hex_digit(c: char) -> bool {
    '0' <= c && c <= '9' || 'a' <= c && c <= 'f'
}

/// The text form of a random UUID: groups of 8, 4, 4, 4 and 12 lower case hexadecimal digits with
/// hyphens between them, version 4 and the standard variant.
pub open spec fn is_random_uuid(s: Seq<char>) -> bool {
    &&& s.len() == 36
    &&& forall|i: int|
        0 <= i < 36 ==> if i == 8 || i == 13 || i == 18 || i == 23 {
            #[trigger] s[i] == '-'
        } else {
            is_hex_digit(s[i])
        }
    &&& s[14] == '4'
    &&& s[19] == '8' || s[19] == '9' || s[19] == 'a' || s[19] == 'b'
}

/// `Uuid::new_v4` draws a random UUID, and its `to_string` writes it in groups with hyphens. Which
/// UUID is drawn is left to chance.
#[verifier::external_body]
fn random_uuid() -> (id: String)
    ensures
        is_random_uuid(id@),
{
    uuid::Uuid::new_v4().to_string()
}

/// Reads the identifier that the client gave its request.
pub fn supplied_request_id(headers: &HeaderMap) -> (id: Option<String>)
    ensures
        match id {
            Some(t) => supplied_id(header_values(*headers)) == Some(t@),
            None => supplied_id(header_values(*headers)) is None,
        },
{
    proof {
        reveal_strlit("x-request-id");
        reveal_with_fuel(crate::headers::all_name_chars, 20);
    }
    match first_value(headers, &header_name("x-request-id")) {
        Some(value) => value_text(&value),
        None => None,
    }
}

/// The identifier of a request: the client's own where there is a readable one, else a new random
/// one. It is always fit to stand in a header.
pub fn request_id(headers: &HeaderMap) -> (id: String)
    ensures
        match supplied_id(header_values(*headers)) {
            Some(t) => id@ == t,
            None => is_random_uuid(id@),
        },
        is_visible_text(id@),
{
    match supplied_request_id(headers) {
        Some(id) => {
            proof {
                visible_value_reads_back(header_values(*headers)["x-request-id"@][0]);
            }
            id
        },
        None => {
            let id = random_uuid();
            assert forall|i: int| 0 <= i < id@.len() implies (#[trigger] id@[i] == '\t' || ' '
                <= id@[i] && id@[i] <= '~') by {}
            id
        },
    }
}

// ---------------------------------------------------------------------------
// The request to the API process
// ---------------------------------------------------------------------------

/// The head of a request to `/api/*`. The path is what follows `/api/`.
pub struct ProxyRequest {
    pub method: String,
    pub path: String,
    pub query: Option<String>,
    pub headers: HeaderMap,
}

/// How reading the body of a request went.
pub enum BodyOutcome {
    /// The whole body came in.
    Collected(Vec<u8>),
    /// The body could not be read.
    Failed,
    /// The body did not come in in time.
    TimedOut,
}

/// The request that goes to the API process.
pub struct UpstreamRequest {
    pub method: String,
    pub url: String,
    pub headers: HeaderMap,
    pub body: Vec<u8>,
}

/// The address of a path on the API process.
pub open spec fn upstream_address(api_port: u16, path: Seq<char>, query: Option<Seq<char>>) -> Seq<
    char,
> {
    "http://127.0.0.1:"@ + decimal(api_port as nat) + "/api/"@ + path + match query {
        Some(q) => "?"@ + q,
        None => Seq::empty(),
    }
}

/// The headers that are handed on as the client sent them.
pub open spec fn is_forwarded(name: Seq<char>) -> bool {
    ||| name == "content-type"@
    ||| name == "authorization"@
    ||| name == "accept"@
    ||| name == "accept-encoding"@
    ||| name == "accept-language"@
    ||| name == "cache-control"@
}

/// Where the request comes from: what an earlier proxy noted, if it is readable, else this machine.
pub open spec fn client_origin(headers: HeaderModel) -> Seq<u8> {
    if headers.contains_key("x-forwarded-for"@) && all_visible(headers["x-forwarded-for"@][0]) {
        headers["x-forwarded-for"@][0]
    } else {
        encode_utf8("127.0.0.1"@)
    }
}

/// Whether a request identifier can stand in a header.
pub open spec fn is_header_id(id: Seq<char>) -> bool {
    all_field_bytes(encode_utf8(id))
}

/// The headers of the request to the API process: the first value of each header that is handed
/// on, where the request comes from, and the request identifier.
pub open spec fn forwarded_headers(headers: HeaderModel, id: Seq<char>) -> HeaderModel {
    HeaderModel::new(
        |name: Seq<char>|
            {
                ||| is_forwarded(name) && headers.contains_key(name)
                ||| name == "x-forwarded-for"@
                ||| name == "x-request-id"@ && is_header_id(id)
            },
        |name: Seq<char>|
            if name == "x-request-id"@ && is_header_id(id) {
                seq![encode_utf8(id)]
            } else if name == "x-forwarded-for"@ {
                seq![client_origin(headers)]
            } else {
                seq![headers[name][0]]
            },
    )
}

/// Writes the address of a path on the API process.
pub fn upstream_url(api_port: u16, path: &str, query: Option<&str>) -> (url: String)
    ensures
        url@ == upstream_address(
            api_port,
            path@,
            match query {
                Some(q) => Some(q@),
                None => None,
            },
        ),
{
    let mut url = "http://127.0.0.1:".to_owned();
    url.append(decimal_text(api_port as u64).as_str());
    url.append("/api/");
    url.append(path);
    let ghost base = url@;
    match query {
        Some(q) => {
            url.append("?");
            url.append(q);
            assert(url@ == base + ("?"@ + q@));
        },
        None => {
            assert(base + Seq::<char>::empty() == base);
        },
    }
    url
}

/// Hands on the first value of one header, if there is one.
fn forward_header(from: &HeaderMap, to: &mut HeaderMap, name: HeaderName)
    requires
        has_room(header_values(*old(to))),
    ensures
        header_values(*final(to)) == if header_values(*from).contains_key(name_chars(name)) {
            header_values(*old(to)).insert(
                name_chars(name),
                seq![header_values(*from)[name_chars(name)][0]],
            )
        } else {
            header_values(*old(to))
        },
        header_values(*final(to)).dom().finite(),
        header_values(*final(to)).dom().len() <= header_values(*old(to)).dom().len() + 1,
{
    match first_value(from, &name) {
        Some(value) => {
            insert_header(to, name, value);
        },
        None => {},
    }
}

/// Makes the headers of the request to the API process.
pub fn forward_headers(headers: &HeaderMap, id: &str) -> (fwd: HeaderMap)
    ensures
        header_values(fwd) == forwarded_headers(header_values(*headers), id@),
{
    proof {
        reveal_strlit("content-type");
        reveal_strlit("authorization");
        reveal_strlit("accept");
        reveal_strlit("accept-encoding");
        reveal_strlit("accept-language");
        reveal_strlit("cache-control");
        reveal_with_fuel(crate::headers::all_name_chars, 20);
    }
    let mut fwd = empty_headers();
    forward_header(headers, &mut fwd, header_name("content-type"));
    forward_header(headers, &mut fwd, header_name("authorization"));
    forward_header(headers, &mut fwd, header_name("accept"));
    forward_header(headers, &mut fwd, header_name("accept-encoding"));
    forward_header(headers, &mut fwd, header_name("accept-language"));
    forward_header(headers, &mut fwd, header_name("cache-control"));
    let origin = match forwarded_for(headers) {
        Some(value) => value,
        None => loopback_origin(),
    };
    proof {
        reveal_strlit("x-forwarded-for");
    }
    insert_header(&mut fwd, header_name("x-forwarded-for"), origin);
    match value_of(id) {
        Some(value) => {
            proof {
                reveal_strlit("x-request-id");
            }
            insert_header(&mut fwd, header_name("x-request-id"), value);
        },
        None => {},
    }
    assert(header_values(fwd) =~= forwarded_headers(header_values(*headers), id@));
    fwd
}

/// Reads where the request comes from, as an earlier proxy noted it.
fn forwarded_for(headers: &HeaderMap) -> (value: Option<HeaderValue>)
    ensures
        match value {
            Some(v) => header_values(*headers).contains_key("x-forwarded-for"@) && all_visible(
                header_values(*headers)["x-forwarded-for"@][0],
            ) && value_bytes(v) == header_values(*headers)["x-forwarded-for"@][0],
            None => !(header_values(*headers).contains_key("x-forwarded-for"@) && all_visible(
                header_values(*headers)["x-forwarded-for"@][0],
            )),
        },
{
    proof {
        reveal_strlit("x-forwarded-for");
        reveal_with_fuel(crate::headers::all_name_chars, 20);
    }
    match first_value(headers, &header_name("x-forwarded-for")) {
        Some(value) => match value_text(&value) {
            Some(text) => {
                proof {
                    visible_value_reads_back(value_bytes(value));
                    visible_text_is_value(text@);
                }
                value_of(text.as_str())
            },
            None => None,
        },
        None => None,
    }
}

/// The origin of a request that no earlier proxy handed on.
fn loopback_origin() -> (value: HeaderValue)
    ensures
        value_bytes(value) == encode_utf8("127.0.0.1"@),
{
    proof {
        reveal_strlit("127.0.0.1");
        reveal_with_fuel(crate::headers::spells_visible, 20);
        crate::headers::lemma_spells_visible("127.0.0.1"@);
    }
    crate::headers::visible_value("127.0.0.1")
}

/// Decides what follows the attempt to read the body of a request: the request that goes to the
/// API process, or the reply that reports why there is none.
pub fn api_proxy_request(
    api_port: u16,
    request: ProxyRequest,
    id: &str,
    body: BodyOutcome,
) -> (r: Result<UpstreamRequest, Reply>)
    ensures
        match body {
            BodyOutcome::Collected(bytes) => match r {
                Ok(upstream) => {
                    &&& upstream.method@ == request.method@
                    &&& upstream.url@ == upstream_address(
                        api_port,
                        request.path@,
                        match request.query {
                            Some(q) => Some(q@),
                            None => None,
                        },
                    )
                    &&& header_values(upstream.headers) == forwarded_headers(
                        header_values(request.headers),
                        id@,
                    )
                    &&& upstream.body@ == bytes@
                },
                Err(_) => false,
            },
            BodyOutcome::Failed => match r {
                Ok(_) => false,
                Err(reply) => reply@ == error_reply(400, "Failed to read request body"@),
            },
            BodyOutcome::TimedOut => match r {
                Ok(_) => false,
                Err(reply) => reply@ == error_reply(408, "Request body timed out"@),
            },
        },
{
    match body {
        BodyOutcome::Collected(bytes) => {
            let url = match &request.query {
                Some(q) => upstream_url(api_port, request.path.as_str(), Some(q.as_str())),
                None => upstream_url(api_port, request.path.as_str(), None),
            };
            let headers = forward_headers(&request.headers, id);
            Ok(UpstreamRequest { method: request.method, url, headers, body: bytes })
        },
        BodyOutcome::Failed => Err(error_response(400, "Failed to read request body")),
        BodyOutcome::TimedOut => Err(error_response(408, "Request body timed out")),
    }
}

// ---------------------------------------------------------------------------
// The reply to the client
// ---------------------------------------------------------------------------

/// How the request to the API process went.
pub enum UpstreamOutcome {
    /// The request could not be put together.
    Unsendable,
    /// The API process could not be reached, or broke off.
    Failed,
    /// The API process did not answer in time.
    TimedOut,
    /// The head of an answer came in, but its body could not be read.
    BodyFailed,
    /// The API process answered.
    Answered(Reply),
    /// The API process answered, but no reply could be made of the answer.
    Unbuildable,
}

/// The headers that concern one connection only, and are not handed back.
pub open spec fn is_hop_by_hop(name: Seq<char>) -> bool {
    ||| name == "transfer-encoding"@
    ||| name == "connection"@
    ||| name == "keep-alive"@
    ||| name == "te"@
    ||| name == "trailer"@
    ||| name == "upgrade"@
    ||| name == "proxy-authenticate"@
    ||| name == "proxy-authorization"@
}

/// The headers of the reply to the client: the last value of each header of the answer that is
/// not hop-by-hop, and the request identifier in place of the answer's own.
pub open spec fn returned_headers(answer: HeaderModel, id: Seq<char>) -> HeaderModel {
    HeaderModel::new(
        |name: Seq<char>|
            {
                ||| answer.contains_key(name) && !is_hop_by_hop(name)
                ||| name == "x-request-id"@ && is_header_id(id)
            },
        |name: Seq<char>|
            if name == "x-request-id"@ && is_header_id(id) {
                seq![encode_utf8(id)]
            } else {
                seq![answer[name].last()]
            },
    )
}

/// The reply for an outcome.
pub open spec fn outcome_reply(outcome: UpstreamOutcome, id: Seq<char>) -> ReplyModel {
    match outcome {
        UpstreamOutcome::Unsendable => error_reply(502, "Bad gateway"@),
        UpstreamOutcome::Failed => error_reply(502, "API unavailable"@),
        UpstreamOutcome::TimedOut => error_reply(504, "API timed out"@),
        UpstreamOutcome::BodyFailed => error_reply(502, "Failed to read upstream response"@),
        UpstreamOutcome::Answered(answer) => ReplyModel {
            status: answer@.status,
            headers: returned_headers(answer@.headers, id),
            body: answer@.body,
        },
        UpstreamOutcome::Unbuildable => error_reply(500, "Response build error"@),
    }
}

/// Whether the headers of an answer may be too many to be handed back.
pub open spec fn too_many_headers(outcome: UpstreamOutcome) -> bool {
    match outcome {
        UpstreamOutcome::Answered(answer) => !has_room(answer@.headers),
        _ => false,
    }
}

/// Tests whether a header concerns one connection only.
fn hop_by_hop(name: &str) -> (b: bool)
    ensures
        b == is_hop_by_hop(name@),
{
    same_text(name, "transfer-encoding") || same_text(name, "connection") || same_text(
        name,
        "keep-alive",
    ) || same_text(name, "te") || same_text(name, "trailer") || same_text(name, "upgrade")
        || same_text(name, "proxy-authenticate") || same_text(name, "proxy-authorization")
}

/// A name that has values in a prefix of a list has values in the whole list.
proof fn lemma_named_prefix(pairs: Seq<(HeaderName, HeaderValue)>, n: int, name: Seq<char>)
    requires
        0 <= n <= pairs.len(),
        values_named(pairs.take(n), name).len() > 0,
    ensures
        values_named(pairs, name).len() > 0,
    decreases pairs.len() - n,
{
    if n < pairs.len() {
        assert(pairs.take(n + 1).drop_last() == pairs.take(n));
        lemma_named_prefix(pairs, n + 1, name);
    } else {
        assert(pairs.take(n) == pairs);
    }
}

/// What the headers of the reply hold after the first `n` pairs of the answer.
spec fn returned_so_far(
    out: HeaderModel,
    pairs: Seq<(HeaderName, HeaderValue)>,
    n: int,
) -> bool {
    forall|name: Seq<char>|
        #![trigger out.contains_key(name)]
        #![trigger values_named(pairs.take(n), name)]
        {
            &&& out.contains_key(name) <==> !is_hop_by_hop(name) && values_named(
                pairs.take(n),
                name,
            ).len() > 0
            &&& out.contains_key(name) ==> out[name] == seq![values_named(
                pairs.take(n),
                name,
            ).last()]
        }
}

/// Where the headers of the reply are among those of the answer, they leave as much room.
proof fn lemma_room_is_kept(out: HeaderModel, model: HeaderModel)
    requires
        forall|name: Seq<char>| #[trigger] out.contains_key(name) ==> model.contains_key(name),
        has_room(model),
    ensures
        has_room(out),
{
    assert forall|name: Seq<char>| out.dom().contains(name) implies model.dom().contains(name) by {
        assert(out.contains_key(name));
    }
    lemma_len_subset(out.dom(), model.dom());
}

/// Makes the headers of the reply to the client, where they can be held.
fn return_headers(answer: &HeaderMap, id: &str) -> (r: Option<HeaderMap>)
    ensures
        match r {
            Some(out) => header_values(out) == returned_headers(header_values(*answer), id@),
            None => !has_room(header_values(*answer)),
        },
{
    let pairs = header_pairs(answer);
    let ghost all = pairs@;
    let ghost model = header_values(*answer);
    let mut out = empty_headers();
    for pair in it: pairs
        invariant
            it.seq() == all,
            model == header_values(*answer),
            returned_so_far(header_values(out), all, it.index() as int),
            forall|name: Seq<char>|
                #![trigger values_named(all, name)]
                model.contains_key(name) <==> values_named(all, name).len() > 0,
    {
        let (name, value) = pair;
        let ghost n = it.index() as int;
        assert(all.take(n + 1).drop_last() == all.take(n));
        assert(all.take(n + 1).last() == (name, value));
        if !hop_by_hop(header_name_text(&name)) {
            proof {
                assert forall|k: Seq<char>| #[trigger]
                    header_values(out).contains_key(k) implies model.contains_key(k) by {
                    lemma_named_prefix(all, n, k);
                }
                if has_room(model) {
                    lemma_room_is_kept(header_values(out), model);
                }
            }
            if !insert_header(&mut out, name, value) {
                return None;
            }
        }
        assert(returned_so_far(header_values(out), all, n + 1));
    }
    assert(all.take(all.len() as int) == all);
    proof {
        if has_room(model) {
            lemma_room_is_kept(header_values(out), model);
        }
    }
    match value_of(id) {
        Some(value) => {
            proof {
                reveal_strlit("x-request-id");
                reveal_with_fuel(crate::headers::all_name_chars, 20);
            }
            if !insert_header(&mut out, header_name("x-request-id"), value) {
                return None;
            }
        },
        None => {},
    }
    assert(header_values(out) =~= returned_headers(model, id@));
    Some(out)
}

/// Decides which reply the client gets. There is one wherever its headers can be held, which is sure
/// as long as the answer has no more different names than [`ROOM_LIMIT`](crate::headers::ROOM_LIMIT).
pub fn api_proxy_reply(id: &str, outcome: UpstreamOutcome) -> (reply: Option<Reply>)
    ensures
        match reply {
            Some(r) => r@ == outcome_reply(outcome, id@),
            None => too_many_headers(outcome),
        },
{
    match outcome {
        UpstreamOutcome::Unsendable => Some(error_response(502, "Bad gateway")),
        UpstreamOutcome::Failed => Some(error_response(502, "API unavailable")),
        UpstreamOutcome::TimedOut => Some(error_response(504, "API timed out")),
        UpstreamOutcome::BodyFailed => Some(
            error_response(502, "Failed to read upstream response"),
        ),
        UpstreamOutcome::Answered(answer) => {
            match return_headers(&answer.headers, id) {
                Some(headers) => Some(
                    Reply { status: answer.status, headers, body: answer.body },
                ),
                None => None,
            }
        },
        UpstreamOutcome::Unbuildable => Some(error_response(500, "Response build error")),
    }
}

// ---------------------------------------------------------------------------
// Laws
// ---------------------------------------------------------------------------

/// No hop-by-hop header of an answer reaches the client.
pub proof fn hop_by_hop_headers_stay_behind(answer: HeaderModel, id: Seq<char>, name: Seq<char>)
    requires
        is_hop_by_hop(name),
    ensures
        !returned_headers(answer, id).contains_key(name),
{
    reveal_strlit("x-request-id");
    reveal_strlit("transfer-encoding");
    reveal_strlit("connection");
    reveal_strlit("keep-alive");
    reveal_strlit("te");
    reveal_strlit("trailer");
    reveal_strlit("upgrade");
    reveal_strlit("proxy-authenticate");
    reveal_strlit("proxy-authorization");
    assert("connection"@[0] != "x-request-id"@[0]);
}

/// Every other header of an answer reaches the client with its last value, unless it is the
/// request identifier.
pub proof fn other_headers_are_returned(answer: HeaderModel, id: Seq<char>, name: Seq<char>)
    requires
        answer.contains_key(name),
        !is_hop_by_hop(name),
        name != "x-request-id"@,
    ensures
        returned_headers(answer, id).contains_key(name),
        returned_headers(answer, id)[name] == seq![answer[name].last()],
{
}

/// The API process sees no header of the client but those that are handed on, where the request
/// comes from, and the request identifier.
pub proof fn no_other_header_is_forwarded(headers: HeaderModel, id: Seq<char>, name: Seq<char>)
    requires
        forwarded_headers(headers, id).contains_key(name),
    ensures
        is_forwarded(name) || name == "x-forwarded-for"@ || name == "x-request-id"@,
{
}

/// A header that is to be handed on reaches the API process with the first value that the client
/// gave it.
pub proof fn listed_headers_are_forwarded(headers: HeaderModel, id: Seq<char>, name: Seq<char>)
    requires
        is_forwarded(name),
        headers.contains_key(name),
    ensures
        forwarded_headers(headers, id).contains_key(name),
        forwarded_headers(headers, id)[name] == seq![headers[name][0]],
{
    reveal_strlit("x-request-id");
    reveal_strlit("x-forwarded-for");
    reveal_strlit("content-type");
    reveal_strlit("authorization");
    reveal_strlit("accept");
    reveal_strlit("accept-encoding");
    reveal_strlit("accept-language");
    reveal_strlit("cache-control");
    assert(name[0] != 'x');
    assert("x-request-id"@[0] == 'x');
    assert("x-forwarded-for"@[0] == 'x');
}

/// An identifier that the client supplies goes to the API process and comes back to the client
/// byte for byte, whatever the API process answers.
pub proof fn supplied_identifier_travels_unchanged(
    headers: HeaderModel,
    answer: HeaderModel,
    id: Seq<char>,
)
    requires
        supplied_id(headers) == Some(id),
    ensures
        forwarded_headers(headers, id)["x-request-id"@] == seq![headers["x-request-id"@][0]],
        returned_headers(answer, id)["x-request-id"@] == seq![headers["x-request-id"@][0]],
{
    visible_value_reads_back(headers["x-request-id"@][0]);
    visible_text_is_value(id);
}

/// The request to the API process and the reply to the client carry the same identifier, whichever
/// it is: every identifier that a request can get is fit for a header.
pub proof fn both_sides_carry_the_identifier(
    headers: HeaderModel,
    answer: HeaderModel,
    id: Seq<char>,
)
    requires
        is_visible_text(id),
    ensures
        forwarded_headers(headers, id).contains_key("x-request-id"@),
        returned_headers(answer, id).contains_key("x-request-id"@),
        forwarded_headers(headers, id)["x-request-id"@] == seq![encode_utf8(id)],
        returned_headers(answer, id)["x-request-id"@] == seq![encode_utf8(id)],
{
    visible_text_is_value(id);
}

/// The address of a request begins with this machine, the port of the API process and `/api/`. What
/// follows is the path as it is, and then, where there is a query, a question mark and the query.
pub proof fn address_keeps_path_and_query(api_port: u16, path: Seq<char>, query: Seq<char>)
    ensures
        ({
            let prefix = "http://127.0.0.1:"@ + decimal(api_port as nat) + "/api/"@;
            let n = prefix.len() as int;
            &&& upstream_address(api_port, path, None).take(n) == prefix
            &&& upstream_address(api_port, path, None).skip(n) == path
            &&& upstream_address(api_port, path, Some(query)).take(n) == prefix
            &&& upstream_address(api_port, path, Some(query)).skip(n).take(path.len() as int) == path
            &&& upstream_address(api_port, path, Some(query)).skip(n).skip(path.len() as int)
                == seq!['?'] + query
        }),
{
    reveal_strlit("?");
    assert("?"@ =~= seq!['?']);
    let prefix = "http://127.0.0.1:"@ + decimal(api_port as nat) + "/api/"@;
    let n = prefix.len() as int;
    let bare = upstream_address(api_port, path, None);
    let full = upstream_address(api_port, path, Some(query));
    assert(bare =~= prefix + path);
    assert(full =~= prefix + path + (seq!['?'] + query));
    assert(bare.take(n) =~= prefix);
    assert(bare.skip(n) =~= path);
    assert(full.take(n) =~= prefix);
    assert(full.skip(n).take(path.len() as int) =~= path);
    assert(full.skip(n).skip(path.len() as int) =~= seq!['?'] + query);
}

/// Requests for different paths, or with different queries, never go to the same address of one API
/// process, as long as the paths hold no question mark of their own; nor do requests to different
/// ports.
pub proof fn different_requests_go_to_different_addresses(
    port: u16,
    path: Seq<char>,
    query: Option<Seq<char>>,
    other_port: u16,
    other_path: Seq<char>,
    other_query: Option<Seq<char>>,
)
    requires
        upstream_address(port, path, query) == upstream_address(
            other_port,
            other_path,
            other_query,
        ),
    ensures
        port == other_port,
        query is None && other_query is None ==> path == other_path,
        !path.contains('?') && !other_path.contains('?') ==> path == other_path && query
            == other_query,
{
    let address = upstream_address(port, path, query);
    let rest = lemma_address_parts(port, path, query);
    let other_rest = lemma_address_parts(other_port, other_path, other_query);
    let n = "http://127.0.0.1:"@.len() as int;
    let after = address.skip(n);
    assert(split_first(after, '/') == Some((decimal(port as nat), "api/"@ + rest)));
    assert(split_first(after, '/') == Some((decimal(other_port as nat), "api/"@ + other_rest)));
    lemma_decimal_digits(port as nat);
    lemma_decimal_digits(other_port as nat);
    let k = "api/"@.len() as int;
    assert(("api/"@ + rest).skip(k) =~= rest);
    assert(("api/"@ + other_rest).skip(k) =~= other_rest);
    assert(rest == other_rest);
    if !path.contains('?') && !other_path.contains('?') {
        lemma_query_parts(path, query, rest);
        lemma_query_parts(other_path, other_query, rest);
    }
}

proof fn lemma_address_parts(port: u16, path: Seq<char>, query: Option<Seq<char>>) -> (rest: Seq<
    char,
>)
    ensures
        rest == match query {
            Some(q) => path + seq!['?'] + q,
            None => path,
        },
        split_first(
            upstream_address(port, path, query).skip("http://127.0.0.1:"@.len() as int),
            '/',
        ) == Some((decimal(port as nat), "api/"@ + rest)),
{
    reveal_strlit("?");
    reveal_strlit("/api/");
    reveal_strlit("api/");
    assert("?"@ =~= seq!['?']);
    assert("/api/"@ =~= seq!['/'] + "api/"@);
    let rest = match query {
        Some(q) => path + seq!['?'] + q,
        None => path,
    };
    let digits = decimal(port as nat);
    let n = "http://127.0.0.1:"@.len() as int;
    let after = upstream_address(port, path, query).skip(n);
    assert(after =~= digits + seq!['/'] + ("api/"@ + rest));
    lemma_decimal_digits(port as nat);
    assert(!digits.contains('/')) by {
        if digits.contains('/') {
            let i = choose|i: int| 0 <= i < digits.len() && digits[i] == '/';
            assert(is_digit(digits[i]));
        }
    }
    first_at_end_of(digits, '/', "api/"@ + rest);
    rest
}

proof fn lemma_query_parts(path: Seq<char>, query: Option<Seq<char>>, rest: Seq<char>)
    requires
        !path.contains('?'),
        rest == match query {
            Some(q) => path + seq!['?'] + q,
            None => path,
        },
    ensures
        split_first(rest, '?') == match query {
            Some(q) => Some((path, q)),
            None => None,
        },
        query is None ==> rest == path,
{
    match query {
        Some(q) => {
            first_at_end_of(path, '?', q);
        },
        None => {
            split_first_divides(path, '?');
            if split_first(path, '?') is Some {
                let a = (split_first(path, '?')->0).0;
                assert(path[a.len() as int] == '?');
            }
        },
    }
}

/// Exactly eight headers concern one connection only.
pub proof fn hop_by_hop_headers_are_eight(name: Seq<char>)
    ensures
        is_hop_by_hop(name) <==> {
            ||| name == "transfer-encoding"@
            ||| name == "connection"@
            ||| name == "keep-alive"@
            ||| name == "te"@
            ||| name == "trailer"@
            ||| name == "upgrade"@
            ||| name == "proxy-authenticate"@
            ||| name == "proxy-authorization"@
        },
{
}

/// The reply holds a header if and only if the answer does, with its last value; but for the eight
/// headers of one connection, which it never holds, and the request identifier.
pub proof fn answer_headers_come_back(answer: HeaderModel, id: Seq<char>, name: Seq<char>)
    requires
        name != "x-request-id"@,
    ensures
        returned_headers(answer, id).contains_key(name) <==> {
            &&& answer.contains_key(name)
            &&& name != "transfer-encoding"@
            &&& name != "connection"@
            &&& name != "keep-alive"@
            &&& name != "te"@
            &&& name != "trailer"@
            &&& name != "upgrade"@
            &&& name != "proxy-authenticate"@
            &&& name != "proxy-authorization"@
        },
        returned_headers(answer, id).contains_key(name) ==> returned_headers(answer, id)[name]
            == seq![answer[name].last()],
{
}

/// The reply carries the request identifier wherever it can stand in a header; an identifier with a
/// control character is left out, and that of the answer stays.
pub proof fn reply_carries_the_identifier(answer: HeaderModel, id: Seq<char>)
    ensures
        ({
            let fits = forall|i: int|
                0 <= i < encode_utf8(id).len() ==> #[trigger] encode_utf8(id)[i] == 9 || 32
                    <= encode_utf8(id)[i] <= 126 || 128 <= encode_utf8(id)[i];
            let reply = returned_headers(answer, id);
            &&& fits ==> reply.contains_key("x-request-id"@) && reply["x-request-id"@] == seq![
                encode_utf8(id),
            ]
            &&& !fits ==> (reply.contains_key("x-request-id"@) <==> answer.contains_key(
                "x-request-id"@,
            ))
            &&& !fits && answer.contains_key("x-request-id"@) ==> reply["x-request-id"@] == seq![
                answer["x-request-id"@].last(),
            ]
        }),
{
    field_bytes_are_these(encode_utf8(id));
    if answer.contains_key("x-request-id"@) {
        reveal_strlit("x-request-id");
        reveal_strlit("transfer-encoding");
        reveal_strlit("connection");
        reveal_strlit("keep-alive");
        reveal_strlit("te");
        reveal_strlit("trailer");
        reveal_strlit("upgrade");
        reveal_strlit("proxy-authenticate");
        reveal_strlit("proxy-authorization");
        assert(!is_hop_by_hop("x-request-id"@)) by {
            assert("x-request-id"@[0] == 'x');
            assert("transfer-encoding"@[0] == 't');
            assert("connection"@[0] == 'c');
            assert("keep-alive"@[0] == 'k');
            assert("te"@[0] == 't');
            assert("trailer"@[0] == 't');
            assert("upgrade"@[0] == 'u');
            assert("proxy-authenticate"@[0] == 'p');
            assert("proxy-authorization"@[0] == 'p');
        }
    }
}

/// The API process gets six headers of the client, each with its first value and only where the
/// client sent it; no other header of the client gets through as it is.
pub proof fn six_headers_are_forwarded(headers: HeaderModel, id: Seq<char>, name: Seq<char>)
    requires
        name != "x-forwarded-for"@,
        name != "x-request-id"@,
    ensures
        forwarded_headers(headers, id).contains_key(name) <==> headers.contains_key(name) && {
            ||| name == "content-type"@
            ||| name == "authorization"@
            ||| name == "accept"@
            ||| name == "accept-encoding"@
            ||| name == "accept-language"@
            ||| name == "cache-control"@
        },
        forwarded_headers(headers, id).contains_key(name) ==> forwarded_headers(headers, id)[name]
            == seq![headers[name][0]],
{
}

/// The API process learns where a request comes from: what the client sent about it, where that can
/// be read as text, else the address of this machine. It is always one value.
pub proof fn origin_is_forwarded(headers: HeaderModel, id: Seq<char>)
    ensures
        ({
            let fwd = forwarded_headers(headers, id);
            let sent = headers["x-forwarded-for"@][0];
            let readable = headers.contains_key("x-forwarded-for"@) && forall|i: int|
                0 <= i < sent.len() ==> #[trigger] sent[i] == 9 || 32 <= sent[i] <= 126;
            &&& fwd.contains_key("x-forwarded-for"@)
            &&& readable ==> fwd["x-forwarded-for"@] == seq![sent]
            &&& !readable ==> fwd["x-forwarded-for"@] == seq![encode_utf8("127.0.0.1"@)]
        }),
{
    visible_bytes_are_these(headers["x-forwarded-for"@][0]);
    reveal_strlit("x-forwarded-for");
    reveal_strlit("x-request-id");
    assert("x-forwarded-for"@.len() != "x-request-id"@.len());
}

/// The API process gets the request identifier wherever it can stand in a header, and no other.
pub proof fn identifier_is_forwarded(headers: HeaderModel, id: Seq<char>)
    ensures
        ({
            let fits = forall|i: int|
                0 <= i < encode_utf8(id).len() ==> #[trigger] encode_utf8(id)[i] == 9 || 32
                    <= encode_utf8(id)[i] <= 126 || 128 <= encode_utf8(id)[i];
            let fwd = forwarded_headers(headers, id);
            &&& fwd.contains_key("x-request-id"@) <==> fits
            &&& fits ==> fwd["x-request-id"@] == seq![encode_utf8(id)]
        }),
{
    field_bytes_are_these(encode_utf8(id));
    reveal_strlit("x-request-id");
    reveal_strlit("x-forwarded-for");
    reveal_strlit("content-type");
    reveal_strlit("authorization");
    reveal_strlit("accept");
    reveal_strlit("accept-encoding");
    reveal_strlit("accept-language");
    reveal_strlit("cache-control");
    assert("x-request-id"@[0] == 'x');
    assert("x-forwarded-for"@.len() != "x-request-id"@.len());
    assert("content-type"@[0] == 'c');
    assert("authorization"@[0] == 'a');
    assert("accept"@[0] == 'a');
    assert("accept-encoding"@[0] == 'a');
    assert("accept-language"@[0] == 'a');
    assert("cache-control"@[0] == 'c');
}

/// The client's identifier is the first value of its header, where each byte of it is the tab or
/// visible ASCII; its bytes give that value back. Otherwise there is none.
pub proof fn supplied_identifier_is_the_first_value(headers: HeaderModel)
    ensures
        ({
            let sent = headers["x-request-id"@][0];
            let readable = headers.contains_key("x-request-id"@) && forall|i: int|
                0 <= i < sent.len() ==> #[trigger] sent[i] == 9 || 32 <= sent[i] <= 126;
            &&& supplied_id(headers) is Some <==> readable
            &&& readable ==> encode_utf8(supplied_id(headers)->0) == sent
        }),
{
    let sent = headers["x-request-id"@][0];
    visible_bytes_are_these(sent);
    if all_visible(sent) {
        visible_value_reads_back(sent);
    }
}

/// A random identifier is a version 4 UUID of the standard variant in lower case.
pub proof fn random_identifier_is_a_uuid(id: Seq<char>, i: int)
    requires
        is_random_uuid(id),
        0 <= i < 36,
    ensures
        id.len() == 36,
        i == 8 || i == 13 || i == 18 || i == 23 <==> id[i] == '-',
        id[i] != '-' ==> "0123456789abcdef"@.contains(id[i]),
        id[14] == '4',
        "89ab"@.contains(id[19]),
{
    reveal_strlit("0123456789abcdef");
    reveal_strlit("89ab");
    let hex = "0123456789abcdef"@;
    if id[i] != '-' {
        let c = id[i];
        if '0' <= c && c <= '9' {
            assert(hex[c as u32 - '0' as u32] == c);
        } else {
            assert(hex[c as u32 - 'a' as u32 + 10] == c);
        }
    }
    let v = "89ab"@;
    assert(v[0] == '8' && v[1] == '9' && v[2] == 'a' && v[3] == 'b');
}

/// An answer comes back with its own status and its own body, byte for byte.
pub proof fn answer_keeps_status_and_body(answer: Reply, id: Seq<char>)
    ensures
        outcome_reply(UpstreamOutcome::Answered(answer), id).status == answer.status,
        outcome_reply(UpstreamOutcome::Answered(answer), id).body == answer.body@,
        outcome_reply(UpstreamOutcome::Answered(answer), id).headers == returned_headers(
            header_values(answer.headers),
            id,
        ),
{
}

/// What goes wrong on the way to the API process is answered with its own status and message.
pub proof fn failures_have_their_own_replies(id: Seq<char>)
    ensures
        outcome_reply(UpstreamOutcome::Unsendable, id) == error_reply(502, "Bad gateway"@),
        outcome_reply(UpstreamOutcome::Failed, id) == error_reply(502, "API unavailable"@),
        outcome_reply(UpstreamOutcome::TimedOut, id) == error_reply(504, "API timed out"@),
        outcome_reply(UpstreamOutcome::BodyFailed, id) == error_reply(
            502,
            "Failed to read upstream response"@,
        ),
        outcome_reply(UpstreamOutcome::Unbuildable, id) == error_reply(
            500,
            "Response build error"@,
        ),
{
}

/// Only an answer with more than 6553 different header names may get no reply.
pub proof fn only_a_huge_answer_gets_no_reply(outcome: UpstreamOutcome)
    ensures
        too_many_headers(outcome) ==> outcome is Answered,
        outcome matches UpstreamOutcome::Answered(answer) && header_values(
            answer.headers,
        ).dom().finite() && header_values(answer.headers).dom().len() <= 6553
            ==> !too_many_headers(outcome),
{
}

} // verus!

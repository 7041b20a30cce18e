//! HTTP header maps: what the `http` types that `axum` exports hold, and the few operations on
//! them that the proxy needs.

use axum::http::{HeaderMap, HeaderName, HeaderValue};
use vstd::prelude::*;
use vstd::utf8::{encode_utf8, is_ascii_chars, is_ascii_chars_encode_utf8};

verus! {

/// The header map of `axum::http`, a multimap from header names to values.
#[verifier::external_type_specification]
#[verifier::external_body]
#[verifier::reject_recursive_types(T)]
pub struct ExHeaderMap<T>(HeaderMap<T>);

/// The header name of `axum::http`, a lower case text.
#[verifier::external_type_specification]
#[verifier::external_body]
pub struct ExHeaderName(HeaderName);

/// The header value of `axum::http`, a run of bytes.
#[verifier::external_type_specification]
#[verifier::external_body]
pub struct ExHeaderValue(HeaderValue);

/// Header names with their values, in the order in which the values were added.
pub type HeaderModel = Map<Seq<char>, Seq<Seq<u8>>>;

/// What a header map holds.
pub uninterp spec fn header_values(map: HeaderMap) -> HeaderModel;

/// The characters that a header name holds.
pub uninterp spec fn name_chars(name: HeaderName) -> Seq<char>;

/// The bytes that a header value holds.
pub uninterp spec fn value_bytes(value: HeaderValue) -> Seq<u8>;

/// How many different names a map may hold and still be sure to take one more.
pub const ROOM_LIMIT: usize = 6553;

/// Whether a map with these contents is sure to take one more header, whatever its name.
pub open spec fn has_room(model: HeaderModel) -> bool {
    model.dom().finite() && model.dom().len() <= ROOM_LIMIT
}

/// The bytes that a header value may hold and still be read as text: the tab and visible ASCII.
pub open spec fn is_visible(b: u8) -> bool {
    b == 9 || 32 <= b < 127
}

/// Whether a header value can be read as text.
pub open spec fn all_visible(bytes: Seq<u8>) -> bool {
    forall|i: int| 0 <= i < bytes.len() ==> is_visible(#[trigger] bytes[i])
}

/// The text of a run of ASCII bytes.
pub open spec fn ascii_text(bytes: Seq<u8>) -> Seq<char> {
    Seq::new(bytes.len(), |i: int| bytes[i] as char)
}

/// Whether a text holds nothing but tabs and visible ASCII characters.
pub open spec fn is_visible_text(s: Seq<char>) -> bool {
    forall|i: int| 0 <= i < s.len() ==> (#[trigger] s[i] == '\t' || ' ' <= s[i] && s[i] <= '~')
}

/// The bytes that no header value holds: the control characters other than the tab.
pub open spec fn is_field_byte(b: u8) -> bool {
    b == 9 || 32 <= b && b != 127
}

/// Whether a run of bytes can stand in a header value.
pub open spec fn all_field_bytes(bytes: Seq<u8>) -> bool {
    forall|i: int| 0 <= i < bytes.len() ==> is_field_byte(#[trigger] bytes[i])
}

/// The characters that the server's own header names are made of.
pub open spec fn is_name_char(c: char) -> bool {
    ||| 'a' <= c && c <= 'z'
    ||| '0' <= c && c <= '9'
    ||| c == '-'
    ||| c == '_'
}

/// Whether `s` is made of such characters only.
pub open spec fn all_name_chars(s: Seq<char>) -> bool
    decreases s.len(),
{
    s.len() == 0 || (is_name_char(s.last()) && all_name_chars(s.drop_last()))
}

/// Whether `s` is a header name in lower case, made of such characters.
pub open spec fn is_header_name(s: Seq<char>) -> bool {
    0 < s.len() <= 64 && all_name_chars(s)
}

/// The values that a list of name and value pairs gives to one name, in the order of the list.
pub open spec fn values_named(pairs: Seq<(HeaderName, HeaderValue)>, name: Seq<char>) -> Seq<Seq<u8>>
    decreases pairs.len(),
{
    if pairs.len() == 0 {
        Seq::empty()
    } else if name_chars(pairs.last().0) == name {
        values_named(pairs.drop_last(), name).push(value_bytes(pairs.last().1))
    } else {
        values_named(pairs.drop_last(), name)
    }
}

/// `HeaderMap::new` makes a map that holds nothing.
#[verifier::external_body]
pub(crate) fn empty_headers() -> (map: HeaderMap)
    ensures
        header_values(map) == HeaderModel::empty(),
{
    HeaderMap::new()
}

/// `HeaderName::from_static` makes the header name that holds the given lower case text.
#[verifier::external_body]
pub(crate) fn header_name(text: &'static str) -> (name: HeaderName)
    requires
        is_header_name(text@),
    ensures
        name_chars(name) == text@,
{
    HeaderName::from_static(text)
}

/// `HeaderName::as_str` gives the text that a header name holds.
#[verifier::external_body]
pub(crate) fn header_name_text(name: &HeaderName) -> (text: &str)
    ensures
        text@ == name_chars(*name),
{
    name.as_str()
}

/// `HeaderMap::get` finds the first value of a name, if the map holds that name. The value is
/// handed out as a copy.
#[verifier::external_body]
pub(crate) fn first_value(map: &HeaderMap, name: &HeaderName) -> (value: Option<HeaderValue>)
    ensures
        match value {
            Some(v) => header_values(*map).contains_key(name_chars(*name)) && header_values(
                *map,
            )[name_chars(*name)].len() > 0 && value_bytes(v) == header_values(*map)[name_chars(
                *name,
            )][0],
            None => !header_values(*map).contains_key(name_chars(*name)),
        },
{
    map.get(name).cloned()
}

/// `HeaderMap::try_insert` gives a name one value and drops the values that it had before. It
/// refuses, and leaves the contents as they are, where the table of the map would have to grow past
/// its limit. A map that has room never refuses; whether one without room does rests on the table
/// that it has allocated, and is left unsaid.
#[verifier::external_body]
pub(crate) fn insert_header(map: &mut HeaderMap, name: HeaderName, value: HeaderValue) -> (stored:
    bool)
    ensures
        stored ==> header_values(*final(map)) == header_values(*old(map)).insert(
            name_chars(name),
            seq![value_bytes(value)],
        ),
        !stored ==> header_values(*final(map)) == header_values(*old(map)),
        has_room(header_values(*old(map))) ==> stored,
{
    map.try_insert(name, value).is_ok()
}

/// `HeaderMap::iter` visits every name once for each of its values. The values of one name come
/// in their order; in which order the names come is left open.
#[verifier::external_body]
pub(crate) fn header_pairs(map: &HeaderMap) -> (pairs: Vec<(HeaderName, HeaderValue)>)
    ensures
        forall|name: Seq<char>|
            #![trigger values_named(pairs@, name)]
            #![trigger header_values(*map).contains_key(name)]
            if header_values(*map).contains_key(name) {
                values_named(pairs@, name).len() > 0 && values_named(pairs@, name)
                    == header_values(*map)[name]
            } else {
                values_named(pairs@, name).len() == 0
            },
{
    map.iter().map(|(name, value)| (name.clone(), value.clone())).collect()
}

/// `HeaderValue::to_str` reads a value as text, where all of its bytes are visible.
#[verifier::external_body]
pub(crate) fn value_text(value: &HeaderValue) -> (text: Option<String>)
    ensures
        match text {
            Some(t) => all_visible(value_bytes(*value)) && t@ == ascii_text(value_bytes(*value)),
            None => !all_visible(value_bytes(*value)),
        },
{
    value.to_str().ok().map(|text| text.to_owned())
}

/// `HeaderValue::from_str` makes a value of the bytes of a text, where none of them is a control
/// character.
#[verifier::external_body]
pub(crate) fn value_of(text: &str) -> (value: Option<HeaderValue>)
    ensures
        match value {
            Some(v) => all_field_bytes(encode_utf8(text@)) && value_bytes(v) == encode_utf8(text@),
            None => !all_field_bytes(encode_utf8(text@)),
        },
{
    HeaderValue::from_str(text).ok()
}

/// Whether every character of `s` is a tab or visible ASCII, one character after the other.
pub open spec fn spells_visible(s: Seq<char>) -> bool
    decreases s.len(),
{
    s.len() == 0 || ((s.last() == '\t' || ' ' <= s.last() && s.last() <= '~') && spells_visible(
        s.drop_last(),
    ))
}

/// The two ways to say that a text is visible agree.
pub(crate) proof fn lemma_spells_visible(s: Seq<char>)
    requires
        spells_visible(s),
    ensures
        is_visible_text(s),
    decreases s.len(),
{
    if s.len() > 0 {
        lemma_spells_visible(s.drop_last());
        assert forall|i: int| 0 <= i < s.len() implies (#[trigger] s[i] == '\t' || ' ' <= s[i]
            && s[i] <= '~') by {
            if i < s.len() - 1 {
                assert(s.drop_last()[i] == s[i]);
            }
        }
    }
}

/// Makes a header value of a visible text.
pub(crate) fn visible_value(text: &str) -> (value: HeaderValue)
    requires
        is_visible_text(text@),
    ensures
        value_bytes(value) == encode_utf8(text@),
{
    proof {
        visible_text_is_value(text@);
    }
    value_of(text).unwrap()
}

/// A visible text can stand in a header value, and its bytes are its characters.
pub proof fn visible_text_is_value(s: Seq<char>)
    requires
        is_visible_text(s),
    ensures
        all_field_bytes(encode_utf8(s)),
        all_visible(encode_utf8(s)),
        ascii_text(encode_utf8(s)) == s,
{
    assert(is_ascii_chars(s));
    is_ascii_chars_encode_utf8(s);
    assert forall|i: int| 0 <= i < encode_utf8(s).len() implies is_visible(
        #[trigger] encode_utf8(s)[i],
    ) by {
        assert(encode_utf8(s)[i] == s[i] as u8);
    }
    assert(ascii_text(encode_utf8(s)) =~= s);
}

/// Reading a visible header value as text and writing that text gives back its bytes.
pub proof fn visible_value_reads_back(bytes: Seq<u8>)
    requires
        all_visible(bytes),
    ensures
        is_visible_text(ascii_text(bytes)),
        encode_utf8(ascii_text(bytes)) == bytes,
{
    let s = ascii_text(bytes);
    assert forall|i: int| 0 <= i < s.len() implies (#[trigger] s[i] == '\t' || ' ' <= s[i] && s[i]
        <= '~') by {
        assert(is_visible(bytes[i]));
    }
    assert(is_ascii_chars(s));
    is_ascii_chars_encode_utf8(s);
    assert(encode_utf8(s) =~= bytes);
}

/// A value can be read as text if and only if each byte is the tab or lies between the space and the
/// tilde, and its text has the same code points.
pub proof fn visible_bytes_are_these(bytes: Seq<u8>)
    ensures
        all_visible(bytes) <==> forall|i: int|
            0 <= i < bytes.len() ==> #[trigger] bytes[i] == 9 || 32 <= bytes[i] <= 126,
        ascii_text(bytes).len() == bytes.len(),
        forall|i: int|
            0 <= i < bytes.len() ==> #[trigger] ascii_text(bytes)[i] as u32 == bytes[i] as u32,
{
    if all_visible(bytes) {
        assert forall|i: int| 0 <= i < bytes.len() implies #[trigger] bytes[i] == 9 || 32
            <= bytes[i] <= 126 by {
            assert(is_visible(bytes[i]));
        }
    }
}

/// A header value may hold every byte but the control characters, of which the tab is allowed.
pub proof fn field_bytes_are_these(bytes: Seq<u8>)
    ensures
        all_field_bytes(bytes) <==> forall|i: int|
            0 <= i < bytes.len() ==> #[trigger] bytes[i] == 9 || 32 <= bytes[i] <= 126 || 128
                <= bytes[i],
{
    if all_field_bytes(bytes) {
        assert forall|i: int| 0 <= i < bytes.len() implies #[trigger] bytes[i] == 9 || 32
            <= bytes[i] <= 126 || 128 <= bytes[i] by {
            assert(is_field_byte(bytes[i]));
        }
    }
}

/// A map with at most 6553 different names has room.
pub proof fn small_maps_have_room(model: HeaderModel)
    ensures
        has_room(model) <==> model.dom().finite() && model.dom().len() <= 6553,
{
}

/// A list of pairs gives a name the values that stand beside it, in the order of the list.
pub proof fn named_values_keep_their_order(
    a: Seq<(HeaderName, HeaderValue)>,
    b: Seq<(HeaderName, HeaderValue)>,
    name: Seq<char>,
)
    ensures
        values_named(a + b, name) == values_named(a, name) + values_named(b, name),
        a.len() == 1 ==> values_named(a, name) == if name_chars(a[0].0) == name {
            seq![value_bytes(a[0].1)]
        } else {
            Seq::empty()
        },
    decreases b.len(),
{
    if a.len() == 1 {
        assert(a.drop_last() =~= Seq::empty());
        assert(values_named(a.drop_last(), name) =~= Seq::empty());
        assert(values_named(a, name) =~= if name_chars(a[0].0) == name {
            seq![value_bytes(a[0].1)]
        } else {
            Seq::empty()
        });
    }
    if b.len() == 0 {
        assert(a + b == a);
        assert(values_named(a, name) + Seq::<Seq<u8>>::empty() == values_named(a, name));
    } else {
        assert((a + b).drop_last() == a + b.drop_last());
        named_values_keep_their_order(a, b.drop_last(), name);
        assert(values_named(a + b, name) =~= values_named(a, name) + values_named(b, name));
    }
}

} // verus!

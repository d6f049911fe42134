//! The header map of a request head, which is `http::HeaderMap`.
use http::header::{HeaderMap, HeaderName, HeaderValue};
use vstd::prelude::*;
use vstd::string::*;
use vstd::utf8::*;

use crate::text::{lemma_first_octets, lower, lower_text, opt_text};

verus! {

/// `http::HeaderName`, opaque.
#[verifier::external_type_specification]
#[verifier::external_body]
pub struct ExHeaderName(HeaderName);

/// `http::HeaderValue`, opaque.
#[verifier::external_type_specification]
#[verifier::external_body]
pub struct ExHeaderValue(HeaderValue);

/// `http::HeaderMap`, opaque.
#[verifier::external_type_specification]
#[verifier::external_body]
#[verifier::reject_recursive_types(T)]
pub struct ExHeaderMap<T>(HeaderMap<T>);

/// The normalised text of a header name.
pub uninterp spec fn name_text(name: HeaderName) -> Seq<char>;

/// The octets of a header value.
pub uninterp spec fn value_bytes(value: HeaderValue) -> Seq<u8>;

/// The values that a header map holds under each normalised name, in the order in which they were
/// appended.
pub uninterp spec fn header_lists(map: HeaderMap<HeaderValue>) -> Map<Seq<char>, Seq<Seq<u8>>>;

/// The contents of a header map without entries.
pub open spec fn no_headers() -> Map<Seq<char>, Seq<Seq<u8>>> {
    Map::empty()
}

/// The octets that a header name may hold: the token characters of HTTP.
pub open spec fn token_byte(b: u8) -> bool {
    ||| 0x30 <= b <= 0x39
    ||| 0x41 <= b <= 0x5a
    ||| 0x5e <= b <= 0x7a
    ||| b == 0x21
    ||| 0x23 <= b <= 0x27
    ||| b == 0x2a
    ||| b == 0x2b
    ||| b == 0x2d
    ||| b == 0x2e
    ||| b == 0x7c
    ||| b == 0x7e
}

/// The normalised form of a header name: its octets as characters, in lower case.
pub open spec fn normal_name(bytes: Seq<u8>) -> Seq<char> {
    bytes.map_values(|b: u8| lower(b as char))
}

/// `bytes` is a header name: one token character or more, at most 65535.
pub open spec fn valid_name(bytes: Seq<u8>) -> bool {
    &&& 0 < bytes.len() <= 65535
    &&& forall|i: int| 0 <= i < bytes.len() ==> token_byte(#[trigger] bytes[i])
}

/// The octets that a header value may hold: all but control characters, tab excepted.
pub open spec fn value_byte(b: u8) -> bool {
    (b >= 32 && b != 127) || b == 9
}

/// `bytes` is a header value.
pub open spec fn valid_value(bytes: Seq<u8>) -> bool {
    forall|i: int| 0 <= i < bytes.len() ==> value_byte(#[trigger] bytes[i])
}

/// The number of distinct names up to which a header map accepts another entry whatever the hashes
/// of its names are.
pub open spec fn map_room() -> nat {
    6554
}

/// `http::HeaderName::from_bytes` accepts one to 65535 token characters and normalises them to
/// lower case.
#[verifier::external_body]
pub(crate) fn header_name(bytes: &[u8]) -> (r: Option<HeaderName>)
    ensures
        r is Some <==> valid_name(bytes@),
        r matches Some(n) ==> name_text(n) == normal_name(bytes@),
{
    HeaderName::from_bytes(bytes).ok()
}

/// `http::HeaderValue::from_str` accepts a text without control characters other than tab, and
/// keeps its octets.
#[verifier::external_body]
pub(crate) fn header_value(text: &str) -> (r: Option<HeaderValue>)
    ensures
        r is Some <==> valid_value(encode_utf8(text@)),
        r matches Some(v) ==> value_bytes(v) == encode_utf8(text@),
{
    HeaderValue::from_str(text).ok()
}

/// `http::HeaderMap::new` makes a map without entries.
#[verifier::external_body]
pub(crate) fn empty_headers() -> (r: HeaderMap<HeaderValue>)
    ensures
        header_lists(r) == no_headers(),
{
    HeaderMap::new()
}

/// `http::HeaderMap::try_append` pushes a value to the end of the list under a name. It refuses
/// only when its table cannot grow, which cannot happen while the map holds few names.
#[verifier::external_body]
pub(crate) fn append_header(
    map: &mut HeaderMap<HeaderValue>,
    name: HeaderName,
    value: HeaderValue,
) -> (r: bool)
    ensures
        header_lists(*old(map)).dom().finite() && header_lists(*old(map)).dom().len() < map_room()
            ==> r,
        r ==> header_lists(*final(map)) == appended(
            header_lists(*old(map)),
            name_text(name),
            value_bytes(value),
        ),
{
    map.try_append(name, value).is_ok()
}

/// `lists` with `value` at the end of the list under `name`.
pub open spec fn appended(
    lists: Map<Seq<char>, Seq<Seq<u8>>>,
    name: Seq<char>,
    value: Seq<u8>,
) -> Map<Seq<char>, Seq<Seq<u8>>> {
    lists.insert(
        name,
        if lists.contains_key(name) {
            lists[name].push(value)
        } else {
            seq![value]
        },
    )
}

/// `name` is a header name in its normalised form.
pub open spec fn normalised(name: Seq<char>) -> bool {
    &&& 0 < name.len() <= 65535
    &&& forall|i: int|
        0 <= i < name.len() ==> (#[trigger] name[i] as u32) < 128 && token_byte(name[i] as u8)
            && lower(name[i]) == name[i]
}

/// `http::HeaderMap::get` gives the first value under a name, and nothing if the map does not hold
/// the name; a name that the map holds has at least one value.
#[verifier::external_body]
pub(crate) fn first_value<'a>(map: &'a HeaderMap<HeaderValue>, name: &str) -> (r: Option<
    &'a HeaderValue,
>)
    requires
        normalised(name@),
    ensures
        r is Some <==> header_lists(*map).contains_key(name@),
        r matches Some(v) ==> header_lists(*map)[name@].len() > 0 && value_bytes(*v)
            == header_lists(*map)[name@][0],
{
    map.get(name)
}

/// A header value that is all visible ASCII, spaces and tabs.
pub open spec fn visible(bytes: Seq<u8>) -> bool {
    forall|i: int| 0 <= i < bytes.len() ==> 32 <= (#[trigger] bytes[i]) < 127 || bytes[i] == 9
}

/// `http::HeaderValue::to_str` gives the text of a value that is all visible ASCII, spaces and
/// tabs, and nothing for any other.
#[verifier::external_body]
pub(crate) fn visible_text(value: &HeaderValue) -> (r: Option<&str>)
    ensures
        r is Some <==> visible(value_bytes(*value)),
        r matches Some(s) ==> encode_utf8(s@) == value_bytes(*value),
{
    value.to_str().ok()
}

/// The text of the first value under `name`, if there is one and it is visible.
pub open spec fn header_text(lists: Map<Seq<char>, Seq<Seq<u8>>>, name: Seq<char>) -> Option<
    Seq<char>,
> {
    if lists.contains_key(name) && visible(lists[name][0]) {
        Some(decode_utf8(lists[name][0]))
    } else {
        None
    }
}

/// Read the first value under `name` as text.
pub fn get_text(map: &HeaderMap<HeaderValue>, name: &str) -> (r: Option<String>)
    requires
        normalised(name@),
    ensures
        opt_text(r) == header_text(header_lists(*map), name@),
{
    match first_value(map, name) {
        None => None,
        Some(value) => match visible_text(value) {
            None => None,
            Some(s) => {
                proof {
                    encode_utf8_decode_utf8(s@);
                }
                Some(s.to_string())
            },
        },
    }
}

/// A name in its normalised form is a header name, and stays as it is.
pub proof fn normalised_name_is_kept(name: Seq<char>)
    requires
        normalised(name),
    ensures
        valid_name(encode_utf8(name)),
        normal_name(encode_utf8(name)) == name,
{
    assert(is_ascii_chars(name));
    is_ascii_chars_encode_utf8(name);
    let bytes = encode_utf8(name);
    assert forall|i: int| 0 <= i < bytes.len() implies token_byte(#[trigger] bytes[i])
        && normal_name(bytes)[i] == name[i] by {
        assert(name[i] as u8 == bytes[i]);
        assert((name[i] as u8) as char == name[i]);
        assert(lower(name[i]) == name[i]);
    }
    assert(normal_name(bytes) =~= name);
}

/// A text whose octets are all ASCII is written by them.
pub proof fn lemma_ascii_octets(s: Seq<char>)
    requires
        forall|j: int| 0 <= j < encode_utf8(s).len() ==> #[trigger] encode_utf8(s)[j] < 128,
    ensures
        normal_name(encode_utf8(s)) == lower_text(s),
    decreases s.len(),
{
    let bytes = encode_utf8(s);
    if s.len() == 0 {
        assert(normal_name(bytes) =~= lower_text(s));
    } else {
        let rest = s.drop_first();
        lemma_first_octets(s);
        assert(bytes[0] < 128);
        assert(bytes.skip(1) == encode_utf8(rest));
        assert forall|j: int| 0 <= j < encode_utf8(rest).len() implies #[trigger] encode_utf8(
            rest,
        )[j] < 128 by {
            assert(bytes[j + 1] == encode_utf8(rest)[j]);
        }
        lemma_ascii_octets(rest);
        char_u32_cast(s[0], bytes[0] as u32);
        assert(encode_utf8(rest).len() == normal_name(encode_utf8(rest)).len());
        assert(lower_text(rest).len() == rest.len());
        assert(bytes.len() == s.len());
        assert forall|j: int| 0 <= j < bytes.len() implies normal_name(bytes)[j] == lower_text(
            s,
        )[j] by {
            if j > 0 {
                assert(bytes[j] == encode_utf8(rest)[j - 1]);
                assert(normal_name(encode_utf8(rest))[j - 1] == lower_text(rest)[j - 1]);
                assert(rest[j - 1] == s[j]);
            }
        }
        assert(normal_name(bytes) =~= lower_text(s));
    }
}

/// A header name is filed under its lower-case form.
pub proof fn name_is_lowered(name: Seq<char>)
    requires
        valid_name(encode_utf8(name)),
    ensures
        normal_name(encode_utf8(name)) == lower_text(name),
{
    let bytes = encode_utf8(name);
    assert forall|j: int| 0 <= j < bytes.len() implies #[trigger] bytes[j] < 128 by {
        assert(token_byte(bytes[j]));
    }
    lemma_ascii_octets(name);
}

/// A header map takes at least this many names whatever they are.
pub proof fn header_map_has_room()
    ensures
        map_room() >= 6554,
{
}

/// A value is appended behind those of its name, and no other name is touched.
pub proof fn values_are_appended(
    lists: Map<Seq<char>, Seq<Seq<u8>>>,
    name: Seq<char>,
    value: Seq<u8>,
    other: Seq<char>,
)
    requires
        other != name,
    ensures
        appended(lists, name, value).contains_key(name),
        appended(lists, name, value)[name].last() == value,
        lists.contains_key(name) ==> appended(lists, name, value)[name].drop_last() == lists[name],
        !lists.contains_key(name) ==> appended(lists, name, value)[name].len() == 1,
        appended(lists, name, value).contains_key(other) <==> lists.contains_key(other),
        lists.contains_key(other) ==> appended(lists, name, value)[other] == lists[other],
{
    if lists.contains_key(name) {
        assert(lists[name].push(value).drop_last() =~= lists[name]);
    }
}

/// The text of a header is that of its first value, if it is visible.
pub proof fn first_value_is_read(
    lists: Map<Seq<char>, Seq<Seq<u8>>>,
    name: Seq<char>,
    text: Seq<char>,
    rest: Seq<Seq<u8>>,
)
    ensures
        visible(encode_utf8(text)) ==> header_text(
            lists.insert(name, seq![encode_utf8(text)] + rest),
            name,
        ) == Some(text),
        !visible(encode_utf8(text)) ==> header_text(
            lists.insert(name, seq![encode_utf8(text)] + rest),
            name,
        ) is None,
        !lists.contains_key(name) ==> header_text(lists, name) is None,
{
    encode_utf8_decode_utf8(text);
    assert((seq![encode_utf8(text)] + rest)[0] == encode_utf8(text));
}

} // verus!

//! The calls into the engine's crates.
//!
//! Nothing here is proved: each item states what the outside function does,
//! as its source shows it, and the rest of the library is verified against
//! these statements.

use crate::headers::{appended, distinct_names, has_name, regrouped, walk, Fields, Item};
use crate::message::Version;
use hyper::header::{HeaderMap, HeaderName, HeaderValue};
use hyper::Uri;
use std::convert::TryFrom;
use std::str::FromStr;
use vstd::prelude::*;
use vstd::utf8::is_ascii_chars;

verus! {

/// The engine's header map, `http::header::HeaderMap`.
#[verifier::external_type_specification]
#[verifier::external_body]
#[verifier::reject_recursive_types(T)]
pub struct ExHeaderMap<T>(HeaderMap<T>);

/// The engine's header value, `http::header::HeaderValue`.
#[verifier::external_type_specification]
#[verifier::external_body]
pub struct ExHeaderValue(HeaderValue);

/// The fields of an engine header map: its names in the order in which the
/// map walks them, each with the values that were given under it, oldest
/// first.
pub uninterp spec fn header_fields(map: HeaderMap<HeaderValue>) -> Fields;

/// Whether the engine reads `url` as a URI and, if it does, the scheme that
/// it finds there, in the engine's spelling.
pub uninterp spec fn uri_scheme(url: Seq<char>) -> Option<Option<Seq<char>>>;

/// The characters that the engine accepts in a header name: the digits, the
/// ASCII letters, and ``!"#$%&'*+-.^_`|~``.
pub open spec fn native_name_char(c: char) -> bool {
    let n = c as u32;
    ||| 33 <= n <= 39
    ||| n == 42
    ||| n == 43
    ||| n == 45
    ||| n == 46
    ||| 48 <= n <= 57
    ||| 65 <= n <= 90
    ||| 94 <= n <= 122
    ||| n == 124
    ||| n == 126
}

/// The engine's spelling of a header name, where it accepts the name: a
/// name of 1 to 65535 characters that it accepts, with its capitals as
/// small letters.
pub open spec fn native_name(name: Seq<char>) -> Option<Seq<char>> {
    if 1 <= name.len() <= 65535 && forall|k: int|
        0 <= k < name.len() ==> native_name_char(#[trigger] name[k]) {
        Some(lowercase(name))
    } else {
        None
    }
}

/// What holds of the fields of every engine header map: no name occurs
/// twice, every name is one that the engine accepts, in the engine's
/// spelling, and every field has a value.
pub open spec fn settled(fields: Fields) -> bool {
    &&& distinct_names(fields)
    &&& forall|i: int|
        0 <= i < fields.len() ==> native_name((#[trigger] fields[i]).0) == Some(fields[i].0)
    &&& forall|i: int| 0 <= i < fields.len() ==> (#[trigger] fields[i]).1.len() > 0
}

/// The bytes that the engine accepts in a header value: the tab, and all
/// from the space on but DEL.
pub open spec fn native_value_byte(b: u8) -> bool {
    (b >= 32 && b != 127) || b == 9
}

/// Whether the engine accepts `value` as a header value.
pub open spec fn native_value(value: Seq<u8>) -> bool {
    forall|k: int| 0 <= k < value.len() ==> native_value_byte(#[trigger] value[k])
}

/// The number of names up to which an engine header map is known to take
/// another header.
pub const HEADER_ROOM: usize = 6553;

/// An ASCII capital as its small letter, any other character as it is.
pub open spec fn lower(c: char) -> char {
    if 'A' <= c && c <= 'Z' {
        ((c as u8) + 32) as char
    } else {
        c
    }
}

/// `name` with its ASCII capitals as small letters.
pub open spec fn lowercase(name: Seq<char>) -> Seq<char> {
    Seq::new(name.len(), |k: int| lower(name[k]))
}

/// Whether every byte of `value` is ASCII.
pub open spec fn ascii_bytes(value: Seq<u8>) -> bool {
    forall|k: int| 0 <= k < value.len() ==> #[trigger] value[k] < 128
}

/// What a scheme lookup holds.
pub open spec fn scheme_of(found: Option<Option<String>>) -> Option<Option<Seq<char>>> {
    match found {
        None => None,
        Some(None) => Some(None),
        Some(Some(scheme)) => Some(Some(scheme@)),
    }
}

/// One step of a walk through an engine header map, as plain values.
#[derive(Clone, Debug, PartialEq, Eq)]
pub struct HeaderItem {
    pub name: Option<String>,
    pub value: Vec<u8>,
}

impl View for HeaderItem {
    type V = Item;

    open spec fn view(&self) -> Item {
        (
            match self.name {
                Some(name) => Some(name@),
                None => None,
            },
            self.value@,
        )
    }
}

/// The steps that a vector of items holds.
pub open spec fn items_of(items: Seq<HeaderItem>) -> Seq<Item> {
    Seq::new(items.len(), |i: int| items[i]@)
}

/// `Uri::try_from` on a string, then `Uri::scheme_str` on the URI: `None`
/// where the engine does not read `url` as a URI, else the scheme it found,
/// if any. What the parser accepts is not written out here; the result goes
/// by the name `uri_scheme`.
#[verifier::external_body]
pub(crate) fn find_scheme(url: &str) -> (found: Option<Option<String>>)
    ensures
        scheme_of(found) == uri_scheme(url@),
{
    match Uri::try_from(url) {
        Ok(uri) => Some(
            match uri.scheme_str() {
                Some(scheme) => Some(scheme.to_owned()),
                None => None,
            },
        ),
        Err(_) => None,
    }
}

/// `HeaderName::from_str` of the engine: it accepts a name of 1 to 65535
/// bytes, each of them a digit, an ASCII letter or one of
/// ``!"#$%&'*+-.^_`|~``, and no other.
#[verifier::external_body]
pub(crate) fn accepts_name(name: &str) -> (yes: bool)
    ensures
        yes == native_name(name@).is_some(),
{
    HeaderName::from_str(name).is_ok()
}

/// `HeaderValue::from_bytes` of the engine: it accepts a value in which
/// every byte is a tab or at least 32 and not 127, and no other.
#[verifier::external_body]
pub(crate) fn accepts_value(value: &[u8]) -> (yes: bool)
    ensures
        yes == native_value(value@),
{
    HeaderValue::from_bytes(value).is_ok()
}

/// `HeaderMap::new`: a map without fields.
#[verifier::external_body]
pub(crate) fn new_header_map() -> (map: HeaderMap<HeaderValue>)
    ensures
        header_fields(map) == Seq::<(Seq<char>, Seq<Seq<u8>>)>::empty(),
{
    HeaderMap::new()
}

/// `HeaderMap::try_append` with a name and a value that the engine accepts.
///
/// Where the map holds the name, the value goes to the end of that name's
/// values and the answer is `true`; where it does not, a new field comes
/// last, under the name with its capitals as small letters, and the answer
/// is `false`. A map that is full answers nothing and stays as it was. The
/// map refuses only once it holds 32768 names, or when its table of 32768
/// slots would have to double, which it does when the names fill three
/// quarters of it or, after long probe chains, a fifth of it: a map of at
/// most `HEADER_ROOM` names is under each of these marks.
#[verifier::external_body]
pub(crate) fn try_append(map: &mut HeaderMap<HeaderValue>, name: &str, value: &[u8]) -> (known:
    Option<bool>)
    requires
        native_name(name@).is_some(),
        native_value(value@),
    ensures
        match known {
            Some(known) => known == has_name(header_fields(*old(map)), native_name(name@).unwrap())
                && header_fields(*final(map)) == appended(
                header_fields(*old(map)),
                native_name(name@).unwrap(),
                value@,
            ),
            None => header_fields(*final(map)) == header_fields(*old(map)),
        },
        header_fields(*old(map)).len() <= HEADER_ROOM ==> known.is_some(),
{
    let name = HeaderName::from_str(name).unwrap();
    let value = HeaderValue::from_bytes(value).unwrap();
    map.try_append(name, value).ok()
}

/// The consuming walk of `HeaderMap`: field after field, each value of a
/// field in turn, the name given with the first of them only. The walk
/// shows the map's fields whole, and shows them settled, as every map of
/// the engine is: a map keeps one field for a name, a field is made with
/// its first value, and a name can only be made in the engine's spelling.
#[verifier::external_body]
pub(crate) fn into_items(map: HeaderMap<HeaderValue>) -> (items: Vec<HeaderItem>)
    ensures
        items_of(items@) == walk(header_fields(map)),
        regrouped(items_of(items@)) == header_fields(map),
        settled(regrouped(items_of(items@))),
{
    let mut items = Vec::new();
    for (name, value) in map {
        let name = match name {
            Some(name) => Some(name.as_str().to_owned()),
            None => None,
        };
        items.push(HeaderItem { name, value: value.as_bytes().to_vec() });
    }
    items
}

/// `Version::default` of the engine: HTTP/1.1.
#[verifier::external_body]
pub(crate) fn default_version() -> (version: Version)
    ensures
        version == Version::Http1_1,
{
    let version = hyper::Version::default();
    if version == hyper::Version::HTTP_09 {
        Version::Http0_9
    } else if version == hyper::Version::HTTP_10 {
        Version::Http1_0
    } else if version == hyper::Version::HTTP_11 {
        Version::Http1_1
    } else if version == hyper::Version::HTTP_2 {
        Version::Http2_0
    } else {
        Version::Http3_0
    }
}

/// `HeaderName::from_str` of the engine-agnostic messages: a name of ASCII
/// characters alone is accepted and comes back with its capitals as small
/// letters; any other name is refused.
#[verifier::external_body]
pub(crate) fn plain_name(name: &str) -> (spelled: Option<String>)
    ensures
        spelled.is_some() == is_ascii_chars(name@),
        spelled matches Some(spelled) ==> spelled@ == lowercase(name@),
{
    match http_types::headers::HeaderName::from_str(name) {
        Ok(name) => Some(name.as_str().to_owned()),
        Err(_) => None,
    }
}

/// `HeaderValue::from_bytes` of the engine-agnostic messages: it accepts a
/// value in which every byte is ASCII, and no other.
#[verifier::external_body]
pub(crate) fn accepts_plain_value(value: &[u8]) -> (yes: bool)
    ensures
        yes == ascii_bytes(value@),
{
    http_types::headers::HeaderValue::from_bytes(value.to_vec()).is_ok()
}

} // verus!

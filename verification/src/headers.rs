//! HTTP headers of requests and responses.
use crate::media::copy_bytes;
use crate::text::{lowered, opt_str};
use vstd::prelude::*;

verus! {

/// The value of an HTTP header.
#[verifier::external_type_specification]
#[verifier::external_body]
pub struct ExHeaderValue(reqwest::header::HeaderValue);

/// The headers of an HTTP message.
#[verifier::external_type_specification]
#[verifier::external_body]
#[verifier::reject_recursive_types(T)]
pub struct ExHeaderMap<T>(reqwest::header::HeaderMap<T>);

/// The bytes of a header value.
pub uninterp spec fn header_bytes(value: reqwest::header::HeaderValue) -> Seq<u8>;

/// The values of each header of a message, under the header's name in small
/// letters, in the order in which they were added. A name without values is
/// not in the map.
pub uninterp spec fn header_entries(headers: reqwest::header::HeaderMap) -> Map<Seq<char>, Seq<Seq<u8>>>;

/// The bytes that a header value may hold to be read as text: the visible
/// ASCII characters, the space and the tab.
pub open spec fn is_visible(byte: u8) -> bool {
    32 <= byte < 127 || byte == 9
}

/// A header value as text, if it holds nothing but visible characters.
pub open spec fn visible_text(bytes: Seq<u8>) -> Option<Seq<char>> {
    if forall|i: int| 0 <= i < bytes.len() ==> is_visible(#[trigger] bytes[i]) {
        Some(Seq::new(bytes.len(), |i: int| bytes[i] as char))
    } else {
        None
    }
}

/// A header of a message as text, if it has one that can be read; of several
/// values the first.
pub open spec fn header_of(headers: reqwest::header::HeaderMap, name: Seq<char>) -> Option<Seq<char>> {
    if header_entries(headers).dom().contains(lowered(name)) {
        visible_text(header_entries(headers)[lowered(name)][0])
    } else {
        None
    }
}

/// The `Content-Type` of a message as text, if it has one that can be read.
pub open spec fn content_type(headers: reqwest::header::HeaderMap) -> Option<Seq<char>> {
    header_of(headers, "content-type"@)
}

/// Wraps `HeaderValue::to_str`: the characters of the value, unless one of its
/// bytes is not a visible character.
#[verifier::external_body]
fn header_text(value: &reqwest::header::HeaderValue) -> (result: Option<&str>)
    ensures
        opt_str(result) == visible_text(header_bytes(*value)),
{
    value.to_str().ok()
}

/// Wraps `HeaderMap::get`: the first value of the header of that name, in
/// whichever case the name is written. A text that is no name of a header finds
/// nothing.
#[verifier::external_body]
fn header_named<'a>(headers: &'a reqwest::header::HeaderMap, name: &str) -> (result: Option<
    &'a reqwest::header::HeaderValue,
>)
    ensures
        match result {
            Some(value) => header_entries(*headers).dom().contains(lowered(name@)) && header_bytes(*value)
                == header_entries(*headers)[lowered(name@)][0],
            None => !header_entries(*headers).dom().contains(lowered(name@)),
        },
{
    headers.get(name)
}

/// Wraps `HeaderValue::as_bytes`: the bytes of the value.
#[verifier::external_body]
fn value_bytes(value: &reqwest::header::HeaderValue) -> (result: &[u8])
    ensures
        result@ == header_bytes(*value),
{
    value.as_bytes()
}

/// The bytes of a header of a message, if it has one; of several values the
/// first.
pub open spec fn raw_header(headers: reqwest::header::HeaderMap, name: Seq<char>) -> Option<Seq<u8>> {
    if header_entries(headers).dom().contains(lowered(name)) {
        Some(header_entries(headers)[lowered(name)][0])
    } else {
        None
    }
}

/// The bytes of a header of a message, if it has one.
pub fn header_value(headers: &reqwest::header::HeaderMap, name: &str) -> (result: Option<Vec<u8>>)
    ensures
        match result {
            Some(bytes) => raw_header(*headers, name@) == Some(bytes@),
            None => raw_header(*headers, name@) is None,
        },
{
    match header_named(headers, name) {
        Some(value) => Some(copy_bytes(value_bytes(value))),
        None => None,
    }
}

/// A header value as text, if it holds nothing but visible characters.
pub fn header_str(value: Option<&reqwest::header::HeaderValue>) -> (result: Option<&str>)
    ensures
        opt_str(result) == (match value {
            Some(value) => visible_text(header_bytes(*value)),
            None => None,
        }),
{
    match value {
        Some(value) => header_text(value),
        None => None,
    }
}

/// A header of a message as text, if it has one that can be read.
pub fn header_at<'a>(headers: &'a reqwest::header::HeaderMap, name: &str) -> (result: Option<&'a str>)
    ensures
        opt_str(result) == header_of(*headers, name@),
{
    header_str(header_named(headers, name))
}

/// The `Content-Type` of a message as text, if it has one that can be read.
pub fn content_type_of(headers: &reqwest::header::HeaderMap) -> (result: Option<&str>)
    ensures
        opt_str(result) == content_type(*headers),
{
    header_at(headers, "content-type")
}

/// A header of visible characters is read as these characters; one with any
/// other byte in it is not read at all.
pub proof fn visible_headers_are_read(bytes: Seq<u8>, i: int)
    requires
        0 <= i < bytes.len(),
    ensures
        (forall|j: int| 0 <= j < bytes.len() ==> 32 <= #[trigger] bytes[j] <= 126 || bytes[j] == 9) ==> (visible_text(bytes)
            matches Some(text) && text.len() == bytes.len() && text[i] as u32 == bytes[i]),
        bytes[i] > 126 || (bytes[i] < 32 && bytes[i] != 9) ==> visible_text(bytes) is None,
{
}

} // verus!

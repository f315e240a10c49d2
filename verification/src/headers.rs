//! Header fields of a request, as the `http` types of axum hold them.

use axum::body::Body;
use axum::http::header::ToStrError;
use axum::http::{HeaderMap, HeaderValue, Request};
use vstd::prelude::*;

verus! {

/// `http::Request`, opaque.
#[verifier::external_type_specification]
#[verifier::external_body]
#[verifier::reject_recursive_types(T)]
pub struct ExRequest<T>(Request<T>);

/// `axum::body::Body`, opaque.
#[verifier::external_type_specification]
#[verifier::external_body]
pub struct ExBody(Body);

/// `http::HeaderMap`, opaque.
#[verifier::external_type_specification]
#[verifier::external_body]
#[verifier::reject_recursive_types(T)]
pub struct ExHeaderMap<T>(HeaderMap<T>);

/// `http::HeaderValue`, opaque.
#[verifier::external_type_specification]
#[verifier::external_body]
pub struct ExHeaderValue(HeaderValue);

/// `http::header::ToStrError`, opaque.
#[verifier::external_type_specification]
#[verifier::external_body]
pub struct ExToStrError(ToStrError);

/// The header fields that `headers` holds: under the lower-case name of each field, the bytes of
/// its values in the order in which they were added.
pub uninterp spec fn header_fields(headers: HeaderMap) -> Map<Seq<char>, Seq<Seq<u8>>>;

/// The bytes that `value` holds.
pub uninterp spec fn header_bytes(value: HeaderValue) -> Seq<u8>;

/// The header fields of `request`, in the form of `header_fields`.
pub uninterp spec fn request_fields(request: Request<Body>) -> Map<Seq<char>, Seq<Seq<u8>>>;

/// A name in the form under which `header_fields` lists a field: lower-case letters, digits and
/// hyphens, at most 64 of them.
pub open spec fn is_field_name(name: Seq<char>) -> bool {
    &&& 0 < name.len() <= 64
    &&& forall|i: int|
        0 <= i < name.len() ==> {
            ||| 'a' <= #[trigger] name[i] <= 'z'
            ||| '0' <= name[i] <= '9'
            ||| name[i] == '-'
        }
}

/// A byte that may stand in the text of a header value: a tab or a printable ASCII character.
pub open spec fn is_visible_ascii(byte: u8) -> bool {
    32 <= byte < 127 || byte == 9
}

/// The text of a header value, if each of its bytes may stand in one.
pub open spec fn value_text(bytes: Seq<u8>) -> Option<Seq<char>> {
    if forall|i: int| 0 <= i < bytes.len() ==> is_visible_ascii(#[trigger] bytes[i]) {
        Some(bytes.map_values(|byte: u8| byte as char))
    } else {
        None
    }
}

/// The text of the first value under `name`, if there is one and it is text.
pub open spec fn field_text(fields: Map<Seq<char>, Seq<Seq<u8>>>, name: Seq<char>) -> Option<
    Seq<char>,
> {
    if fields.contains_key(name) {
        value_text(fields[name].first())
    } else {
        None
    }
}

/// `Request::headers`: the header map of the request.
#[verifier::external_body]
pub(crate) fn headers_of(request: &Request<Body>) -> (headers: &HeaderMap)
    ensures
        header_fields(*headers) == request_fields(*request),
{
    request.headers()
}

/// `HeaderMap::get`: the first of the values under `name`, `None` where there is no value under it.
/// A listed name has at least one value.
#[verifier::external_body]
pub(crate) fn first_value<'a>(headers: &'a HeaderMap, name: &str) -> (value: Option<&'a HeaderValue>)
    requires
        is_field_name(name@),
    ensures
        match value {
            Some(found) => {
                &&& header_fields(*headers).contains_key(name@)
                &&& header_fields(*headers)[name@].len() > 0
                &&& header_bytes(*found) == header_fields(*headers)[name@][0]
            },
            None => !header_fields(*headers).contains_key(name@),
        },
{
    headers.get(name)
}

/// `HeaderValue::to_str`: the value as text if it holds nothing but tabs and printable ASCII
/// characters, an error if it holds any other byte.
pub assume_specification[ HeaderValue::to_str ](value: &HeaderValue) -> (text: Result<
    &str,
    ToStrError,
>)
    ensures
        match text {
            Ok(t) => value_text(header_bytes(*value)) == Some(t@),
            Err(_) => value_text(header_bytes(*value)) is None,
        },
;

/// The text of the first value under `name`, if there is one and it is text.
pub(crate) fn header_text<'a>(headers: &'a HeaderMap, name: &str) -> (text: Option<&'a str>)
    requires
        is_field_name(name@),
    ensures
        text.deep_view() == field_text(header_fields(*headers), name@),
{
    match first_value(headers, name) {
        Some(value) => match value.to_str() {
            Ok(text) => Some(text),
            Err(_) => None,
        },
        None => None,
    }
}

} // verus!

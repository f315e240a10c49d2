//! Who sends a request: its client address and its API key.

use axum::body::Body;
use axum::http::{HeaderMap, Request};
use subtle::ConstantTimeEq;
use vstd::prelude::*;

use crate::headers::{header_text, headers_of};
#[allow(unused_imports)]
use crate::headers::{field_text, header_fields, is_field_name, request_fields};
use crate::text::{before, strip_prefix, trim, CharClass};
#[allow(unused_imports)]
use crate::text::{stripped, trimmed, up_to};

verus! {

/// The hop nearest to the client in the text of a forwarding header: what stands before the first
/// comma, without white space round it. `None` where that is empty.
pub open spec fn nearest_hop(value: Seq<char>) -> Option<Seq<char>> {
    let hop = trimmed(up_to(value, ','), CharClass::WhiteSpace);
    if hop.len() > 0 {
        Some(hop)
    } else {
        None
    }
}

/// The hop nearest to the client in the text of a header, if there is a text.
pub open spec fn nearest_hop_in(text: Option<Seq<char>>) -> Option<Seq<char>> {
    match text {
        Some(value) => nearest_hop(value),
        None => None,
    }
}

/// The first hop that one of the forwarding headers gives, in the order of their precedence.
pub open spec fn forwarded_hop(
    forwarded_for: Option<Seq<char>>,
    real_ip: Option<Seq<char>>,
    cf_connecting_ip: Option<Seq<char>>,
) -> Option<Seq<char>> {
    if nearest_hop_in(forwarded_for) is Some {
        nearest_hop_in(forwarded_for)
    } else if nearest_hop_in(real_ip) is Some {
        nearest_hop_in(real_ip)
    } else {
        nearest_hop_in(cf_connecting_ip)
    }
}

/// The hop that the header fields of a request give.
pub open spec fn hop_in_fields(fields: Map<Seq<char>, Seq<Seq<u8>>>) -> Option<Seq<char>> {
    forwarded_hop(
        field_text(fields, "x-forwarded-for"@),
        field_text(fields, "x-real-ip"@),
        field_text(fields, "cf-connecting-ip"@),
    )
}

/// The normal form of the client address `raw`: the IP address `socket_ip` that it has as a socket
/// address, else the IP address `ip` that it is, else the IP address `bare_ip` that it is without
/// square brackets round it, else what is left of it without them.
pub open spec fn normal_ip(
    raw: Seq<char>,
    socket_ip: Option<Seq<char>>,
    ip: Option<Seq<char>>,
    bare_ip: Option<Seq<char>>,
) -> Seq<char> {
    match socket_ip {
        Some(address) => address,
        None => match ip {
            Some(address) => address,
            None => match bare_ip {
                Some(address) => address,
                None => trimmed(raw, CharClass::SquareBracket),
            },
        },
    }
}

/// `out` is the normal form of `raw` for some answers that the two parsers may give. The second
/// parser is asked about `raw` only where the first gives no address, and about `bare`, which is
/// `raw` without square brackets round it, only where it gave none for `raw`.
pub open spec fn is_normal_ip<S, I>(raw: &str, parse_socket: S, parse_ip: I, out: Seq<char>) -> bool
    where S: Fn(&str) -> Option<String>, I: Fn(&str) -> Option<String>
{
    exists|
        bare: &str,
        socket_ip: Option<String>,
        ip: Option<String>,
        bare_ip: Option<String>,
    |
        {
            &&& #[trigger] bare@ == trimmed(raw@, CharClass::SquareBracket)
            &&& out == #[trigger] normal_ip(
                raw@,
                socket_ip.deep_view(),
                ip.deep_view(),
                bare_ip.deep_view(),
            )
            &&& call_ensures(parse_socket, (raw,), socket_ip)
            &&& socket_ip is None ==> call_ensures(parse_ip, (raw,), ip)
            &&& socket_ip is None && ip is None ==> call_ensures(parse_ip, (bare,), bare_ip)
        }
}

/// `out` is the client address that header fields give, in normal form: that of the hop in them,
/// and none where there is no hop.
pub open spec fn is_client_ip<S, I>(
    fields: Map<Seq<char>, Seq<Seq<u8>>>,
    parse_socket: S,
    parse_ip: I,
    out: Option<Seq<char>>,
) -> bool
    where S: Fn(&str) -> Option<String>, I: Fn(&str) -> Option<String>
{
    match hop_in_fields(fields) {
        Some(hop) => exists|raw: &str|
            out is Some && raw@ == hop && #[trigger] is_normal_ip(
                raw,
                parse_socket,
                parse_ip,
                out->0,
            ),
        None => out is None,
    }
}

/// The key that a request presents: the `x-api-key` header, else what follows `Bearer ` in the
/// `authorization` header.
pub open spec fn presented_key(
    x_api_key: Option<Seq<char>>,
    authorization: Option<Seq<char>>,
) -> Option<Seq<char>> {
    match x_api_key {
        Some(key) => Some(key),
        None => match authorization {
            Some(value) => stripped(value, "Bearer "@),
            None => None,
        },
    }
}

/// The key that the header fields of a request present.
pub open spec fn key_in_fields(fields: Map<Seq<char>, Seq<Seq<u8>>>) -> Option<Seq<char>> {
    presented_key(field_text(fields, "x-api-key"@), field_text(fields, "authorization"@))
}

/// The five names that are looked up are names of header fields.
proof fn lemma_field_names()
    ensures
        is_field_name("x-forwarded-for"@),
        is_field_name("x-real-ip"@),
        is_field_name("cf-connecting-ip"@),
        is_field_name("x-api-key"@),
        is_field_name("authorization"@),
{
    reveal_strlit("x-forwarded-for");
    reveal_strlit("x-real-ip");
    reveal_strlit("cf-connecting-ip");
    reveal_strlit("x-api-key");
    reveal_strlit("authorization");
}

/// The hop nearest to the client in the text of a forwarding header.
pub fn first_hop(value: &str) -> (hop: Option<&str>)
    ensures
        hop.deep_view() == nearest_hop(value@),
{
    let hop = trim(before(value, ','), CharClass::WhiteSpace);
    if hop.is_empty() {
        None
    } else {
        Some(hop)
    }
}

/// The hop that the texts of the three forwarding headers give. `X-Forwarded-For` goes before
/// `X-Real-IP`, and that before `CF-Connecting-IP`.
pub fn choose_hop<'a>(
    forwarded_for: Option<&'a str>,
    real_ip: Option<&'a str>,
    cf_connecting_ip: Option<&'a str>,
) -> (hop: Option<&'a str>)
    ensures
        hop.deep_view() == forwarded_hop(
            forwarded_for.deep_view(),
            real_ip.deep_view(),
            cf_connecting_ip.deep_view(),
        ),
{
    if let Some(value) = forwarded_for {
        if let Some(hop) = first_hop(value) {
            return Some(hop);
        }
    }
    if let Some(value) = real_ip {
        if let Some(hop) = first_hop(value) {
            return Some(hop);
        }
    }
    match cf_connecting_ip {
        Some(value) => first_hop(value),
        None => None,
    }
}

/// The normal form of the client address `raw`, for given results of parsing it as a socket
/// address and as an IP address, and of parsing what is left without square brackets round it as
/// an IP address.
pub fn choose_ip(
    raw: &str,
    socket_ip: Option<String>,
    ip: Option<String>,
    bare_ip: Option<String>,
) -> (out: String)
    ensures
        out@ == normal_ip(
            raw@,
            socket_ip.deep_view(),
            ip.deep_view(),
            bare_ip.deep_view(),
        ),
{
    match socket_ip {
        Some(address) => address,
        None => match ip {
            Some(address) => address,
            None => match bare_ip {
                Some(address) => address,
                None => trim(raw, CharClass::SquareBracket).to_owned(),
            },
        },
    }
}

/// Takes off the port (`1.2.3.4:5678`) and the square brackets (`[::1]:5678`, `[::1]`) that a
/// proxy may have put on a client address, so that one client has one value on all of its
/// connections.
///
/// `parse_socket` gives the IP address of a text that is a socket address, `parse_ip` that of a
/// text that is an IP address, both in canonical form.
pub fn normalize_ip<S, I>(raw: &str, parse_socket: S, parse_ip: I) -> (out: String)
    where S: Fn(&str) -> Option<String>, I: Fn(&str) -> Option<String>
    requires
        forall|s: &str| call_requires(parse_socket, (s,)),
        forall|s: &str| call_requires(parse_ip, (s,)),
    ensures
        is_normal_ip(raw, parse_socket, parse_ip, out@),
{
    let bare = trim(raw, CharClass::SquareBracket);
    let socket_ip = parse_socket(raw);
    let ip = if socket_ip.is_none() {
        parse_ip(raw)
    } else {
        None
    };
    let bare_ip = if socket_ip.is_none() && ip.is_none() {
        parse_ip(bare)
    } else {
        None
    };
    let ghost answers = (socket_ip, ip, bare_ip);
    let out = choose_ip(raw, socket_ip, ip, bare_ip);
    assert(bare@ == trimmed(raw@, CharClass::SquareBracket));
    assert(out@ == normal_ip(
        raw@,
        answers.0.deep_view(),
        answers.1.deep_view(),
        answers.2.deep_view(),
    ));
    out
}

/// The client address that the forwarding headers give, in normal form.
pub fn client_ip_from_headers<S, I>(headers: &HeaderMap, parse_socket: S, parse_ip: I) -> (out:
    Option<String>)
    where S: Fn(&str) -> Option<String>, I: Fn(&str) -> Option<String>
    requires
        forall|s: &str| call_requires(parse_socket, (s,)),
        forall|s: &str| call_requires(parse_ip, (s,)),
    ensures
        is_client_ip(header_fields(*headers), parse_socket, parse_ip, out.deep_view()),
{
    proof {
        lemma_field_names();
    }
    let hop = choose_hop(
        header_text(headers, "x-forwarded-for"),
        header_text(headers, "x-real-ip"),
        header_text(headers, "cf-connecting-ip"),
    );
    match hop {
        Some(raw) => {
            let ghost parsers = (parse_socket, parse_ip);
            let ip = normalize_ip(raw, parse_socket, parse_ip);
            let out = Some(ip);
            assert(is_normal_ip(raw, parsers.0, parsers.1, out.deep_view()->0));
            out
        },
        None => None,
    }
}

/// The client address of a request, for its log: the one that a proxy put into a forwarding
/// header, else `peer_ip`, the address of the other end of the connection.
///
/// It is a field for audits and no boundary of trust: a client that connects directly can send
/// forwarding headers of its own.
pub fn extract_client_ip<S, I>(
    request: &Request<Body>,
    parse_socket: S,
    parse_ip: I,
    peer_ip: Option<String>,
) -> (out: Option<String>)
    where S: Fn(&str) -> Option<String>, I: Fn(&str) -> Option<String>
    requires
        forall|s: &str| call_requires(parse_socket, (s,)),
        forall|s: &str| call_requires(parse_ip, (s,)),
    ensures
        if hop_in_fields(request_fields(*request)) is Some {
            is_client_ip(request_fields(*request), parse_socket, parse_ip, out.deep_view())
        } else {
            out == peer_ip
        },
{
    match client_ip_from_headers(headers_of(request), parse_socket, parse_ip) {
        Some(ip) => Some(ip),
        None => peer_ip,
    }
}

/// The key that the texts of the two headers present.
pub fn choose_api_key(x_api_key: Option<&str>, authorization: Option<&str>) -> (key: Option<String>)
    ensures
        key.deep_view() == presented_key(x_api_key.deep_view(), authorization.deep_view()),
{
    if let Some(key) = x_api_key {
        return Some(key.to_owned());
    }
    match authorization {
        Some(value) => match strip_prefix(value, "Bearer ") {
            Some(token) => Some(token.to_owned()),
            None => None,
        },
        None => None,
    }
}

/// The API key of a request: its `x-api-key` header, else the token of
/// `Authorization: Bearer <token>`.
pub fn extract_api_key(request: &Request<Body>) -> (key: Option<String>)
    ensures
        key.deep_view() == key_in_fields(request_fields(*request)),
{
    proof {
        lemma_field_names();
    }
    let headers = headers_of(request);
    choose_api_key(header_text(headers, "x-api-key"), header_text(headers, "authorization"))
}

/// `subtle::ConstantTimeEq::ct_eq` on byte slices: whether the two hold the same bytes. How long
/// it takes is not expressed.
#[verifier::external_body]
fn ct_eq(a: &[u8], b: &[u8]) -> (equal: bool)
    ensures
        equal == (a@ == b@),
{
    a.ct_eq(b).into()
}

/// Whether two strings are the same. The comparison is left to `subtle`, so that its time tells
/// nothing of what the strings hold.
pub fn constant_time_eq(a: &str, b: &str) -> (equal: bool)
    ensures
        equal == (a@ == b@),
{
    proof {
        vstd::utf8::encode_utf8_decode_utf8(a@);
        vstd::utf8::encode_utf8_decode_utf8(b@);
    }
    ct_eq(a.as_bytes(), b.as_bytes())
}

} // verus!

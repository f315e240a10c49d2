//! What holds of client addresses and API keys whatever a request carries.

use vstd::prelude::*;

#[allow(unused_imports)]
use crate::auth::{
    forwarded_hop, hop_in_fields, is_client_ip, is_normal_ip, nearest_hop, nearest_hop_in,
    normal_ip, presented_key,
};
#[allow(unused_imports)]
use crate::headers::field_text;
#[allow(unused_imports)]
use crate::text::{stripped, trimmed, up_to, CharClass};

verus! {

/// Trimmed text starts and ends with no character of the class, and holds no character that the
/// text did not hold.
proof fn lemma_trimmed(s: Seq<char>, class: CharClass)
    ensures
        trimmed(s, class).len() > 0 ==> !class.has(trimmed(s, class).first()),
        trimmed(s, class).len() > 0 ==> !class.has(trimmed(s, class).last()),
        forall|c: char| #[trigger] trimmed(s, class).contains(c) ==> s.contains(c),
        trimmed(trimmed(s, class), class) == trimmed(s, class),
    decreases s.len(),
{
    if s.len() > 0 && class.has(s.first()) {
        lemma_trimmed(s.drop_first(), class);
        assert forall|c: char| #[trigger] s.drop_first().contains(c) implies s.contains(c) by {
            let i = choose|i: int| 0 <= i < s.drop_first().len() && s.drop_first()[i] == c;
            assert(s[i + 1] == c);
        }
    } else if s.len() > 0 && class.has(s.last()) {
        lemma_trimmed(s.drop_last(), class);
        assert forall|c: char| #[trigger] s.drop_last().contains(c) implies s.contains(c) by {
            let i = choose|i: int| 0 <= i < s.drop_last().len() && s.drop_last()[i] == c;
            assert(s[i] == c);
        }
    }
}

/// A hop is one item of a list: it is not empty, holds no comma, and neither starts nor ends with
/// white space.
pub proof fn hop_is_one_item(value: Seq<char>)
    ensures
        nearest_hop(value) matches Some(hop) ==> {
            &&& hop.len() > 0
            &&& !hop.contains(',')
            &&& !CharClass::WhiteSpace.has(hop.first())
            &&& !CharClass::WhiteSpace.has(hop.last())
        },
{
    let head = up_to(value, ',');
    lemma_trimmed(head, CharClass::WhiteSpace);
    value.index_of_first_ensures(',');
    assert(!head.contains(','));
}

/// The leftmost hop decides: what stands after the first comma has no effect.
pub proof fn later_hops_have_no_effect(first: Seq<char>, rest: Seq<char>)
    requires
        !first.contains(','),
    ensures
        nearest_hop(first + seq![','] + rest) == nearest_hop(first),
{
    let list = first + seq![','] + rest;
    let at = first.len() as int;
    list.index_of_first_ensures(',');
    first.index_of_first_ensures(',');
    assert(list[at] == ',');
    assert(list.contains(','));
    let found = list.index_of_first(',')->0;
    if found < at {
        assert(first[found] == ',');
        assert(first.contains(','));
    }
    assert(found == at);
    assert(list.take(at) =~= first);
}

/// A forwarding header of higher precedence that gives a hop hides those of lower precedence, and
/// one that gives none is as good as absent.
pub proof fn forwarding_headers_have_an_order(
    forwarded_for: Option<Seq<char>>,
    real_ip: Option<Seq<char>>,
    cf_connecting_ip: Option<Seq<char>>,
)
    ensures
        nearest_hop_in(forwarded_for) is Some ==> forwarded_hop(
            forwarded_for,
            real_ip,
            cf_connecting_ip,
        ) == nearest_hop_in(forwarded_for),
        nearest_hop_in(forwarded_for) is None ==> forwarded_hop(
            forwarded_for,
            real_ip,
            cf_connecting_ip,
        ) == forwarded_hop(None, real_ip, cf_connecting_ip),
        nearest_hop_in(real_ip) is Some ==> forwarded_hop(None, real_ip, cf_connecting_ip)
            == nearest_hop_in(real_ip),
        nearest_hop_in(real_ip) is None ==> forwarded_hop(None, real_ip, cf_connecting_ip)
            == nearest_hop_in(cf_connecting_ip),
        forwarded_hop(None, None, None) is None,
{
}

/// A header that holds only white space gives no hop.
pub proof fn blank_header_gives_no_hop(value: Seq<char>)
    requires
        forall|i: int| 0 <= i < value.len() ==> CharClass::WhiteSpace.has(#[trigger] value[i]),
    ensures
        nearest_hop(value) is None,
{
    let head = up_to(value, ',');
    value.index_of_first_ensures(',');
    lemma_trimmed(head, CharClass::WhiteSpace);
    let hop = trimmed(head, CharClass::WhiteSpace);
    if hop.len() > 0 {
        assert(hop.contains(hop.first()));
        let i = choose|i: int| 0 <= i < head.len() && head[i] == hop.first();
        assert(head[i] == value[i]);
    }
}

/// The parser gives `answer(text)` of each text, and nothing else.
pub open spec fn is_function<P>(
    parser: P,
    answer: spec_fn(Seq<char>) -> Option<Seq<char>>,
) -> bool
    where P: Fn(&str) -> Option<String>
{
    forall|text: &str, out: Option<String>| #[trigger]
        call_ensures(parser, (text,), out) ==> out.deep_view() == answer(text@)
}

/// The normal form of `raw` where `socket_ip` and `ip` are what the parsers give of each text.
pub open spec fn normal_form(
    raw: Seq<char>,
    socket_ip: spec_fn(Seq<char>) -> Option<Seq<char>>,
    ip: spec_fn(Seq<char>) -> Option<Seq<char>>,
) -> Seq<char> {
    normal_ip(raw, socket_ip(raw), ip(raw), ip(trimmed(raw, CharClass::SquareBracket)))
}

/// Where the parsers are functions of the text that they read, an address has one normal form.
pub proof fn parsers_fix_the_normal_form<S, I>(
    raw: &str,
    parse_socket: S,
    parse_ip: I,
    socket_ip: spec_fn(Seq<char>) -> Option<Seq<char>>,
    ip: spec_fn(Seq<char>) -> Option<Seq<char>>,
    out: Seq<char>,
)
    where S: Fn(&str) -> Option<String>, I: Fn(&str) -> Option<String>
    requires
        is_function(parse_socket, socket_ip),
        is_function(parse_ip, ip),
        is_normal_ip(raw, parse_socket, parse_ip, out),
    ensures
        out == normal_form(raw@, socket_ip, ip),
{
}

/// The client address depends on the leftmost hop of `X-Forwarded-For` alone where there is one:
/// neither later hops nor any other header field has an effect.
pub proof fn leftmost_hop_alone_decides<S, I>(
    fields: Map<Seq<char>, Seq<Seq<u8>>>,
    other_fields: Map<Seq<char>, Seq<Seq<u8>>>,
    parse_socket: S,
    parse_ip: I,
    socket_ip: spec_fn(Seq<char>) -> Option<Seq<char>>,
    ip: spec_fn(Seq<char>) -> Option<Seq<char>>,
    out: Option<Seq<char>>,
    other_out: Option<Seq<char>>,
)
    where S: Fn(&str) -> Option<String>, I: Fn(&str) -> Option<String>
    requires
        is_function(parse_socket, socket_ip),
        is_function(parse_ip, ip),
        nearest_hop_in(field_text(fields, "x-forwarded-for"@)) is Some,
        nearest_hop_in(field_text(fields, "x-forwarded-for"@)) == nearest_hop_in(
            field_text(other_fields, "x-forwarded-for"@),
        ),
        is_client_ip(fields, parse_socket, parse_ip, out),
        is_client_ip(other_fields, parse_socket, parse_ip, other_out),
    ensures
        out == other_out,
        out == Some(
            normal_form(
                nearest_hop_in(field_text(fields, "x-forwarded-for"@))->0,
                socket_ip,
                ip,
            ),
        ),
{
    let hop = hop_in_fields(fields)->0;
    let raw = choose|raw: &str|
        out is Some && raw@ == hop && #[trigger] is_normal_ip(raw, parse_socket, parse_ip, out->0);
    parsers_fix_the_normal_form(raw, parse_socket, parse_ip, socket_ip, ip, out->0);
    let other_raw = choose|raw: &str|
        other_out is Some && raw@ == hop && #[trigger] is_normal_ip(
            raw,
            parse_socket,
            parse_ip,
            other_out->0,
        );
    parsers_fix_the_normal_form(other_raw, parse_socket, parse_ip, socket_ip, ip, other_out->0);
}

/// A bracket more at the end is trimmed off.
proof fn lemma_trimmed_closing_bracket(s: Seq<char>)
    ensures
        trimmed(s.push(']'), CharClass::SquareBracket) == trimmed(s, CharClass::SquareBracket),
    decreases s.len(),
{
    if s.len() == 0 {
        assert(s.push(']').drop_first() =~= s);
    } else if CharClass::SquareBracket.has(s.first()) {
        lemma_trimmed_closing_bracket(s.drop_first());
        assert(s.push(']').drop_first() =~= s.drop_first().push(']'));
    } else {
        assert(s.push(']').drop_last() =~= s);
    }
}

/// `address` in square brackets.
pub open spec fn in_brackets(address: Seq<char>) -> Seq<char> {
    seq!['['] + address + seq![']']
}

/// One client has one value, however a proxy writes its address: with any port, bare, or in square
/// brackets without a port, and in any spelling that the parser of IP addresses takes. The value
/// is the canonical address, without port and brackets.
///
/// `with_port` is a socket address of the client. `bare` is an IP address of the client: it has no
/// bracket at either end, it is no socket address, and in brackets it is no address to either
/// parser.
pub proof fn one_client_has_one_value(
    socket_ip: spec_fn(Seq<char>) -> Option<Seq<char>>,
    ip: spec_fn(Seq<char>) -> Option<Seq<char>>,
    canonical: Seq<char>,
    with_port: Seq<char>,
    bare: Seq<char>,
)
    requires
        socket_ip(with_port) == Some(canonical),
        ip(bare) == Some(canonical),
        trimmed(bare, CharClass::SquareBracket) == bare,
        socket_ip(bare) is None,
        socket_ip(in_brackets(bare)) is None,
        ip(in_brackets(bare)) is None,
    ensures
        normal_form(with_port, socket_ip, ip) == canonical,
        normal_form(bare, socket_ip, ip) == canonical,
        normal_form(in_brackets(bare), socket_ip, ip) == canonical,
{
    lemma_trimmed_closing_bracket(bare);
    assert(in_brackets(bare).drop_first() =~= bare.push(']'));
}

/// What is no address, with its brackets or without, has a normal form with no square bracket at
/// either end, which is its own normal form.
pub proof fn brackets_come_off(raw: Seq<char>)
    ensures
        normal_ip(raw, None, None, None).len() > 0 ==> {
            &&& !CharClass::SquareBracket.has(normal_ip(raw, None, None, None).first())
            &&& !CharClass::SquareBracket.has(normal_ip(raw, None, None, None).last())
        },
        normal_ip(normal_ip(raw, None, None, None), None, None, None) == normal_ip(
            raw,
            None,
            None,
            None,
        ),
{
    lemma_trimmed(raw, CharClass::SquareBracket);
}

/// The `x-api-key` header goes before the `authorization` header.
pub proof fn api_key_header_goes_first(key: Seq<char>, authorization: Option<Seq<char>>)
    ensures
        presented_key(Some(key), authorization) == Some(key),
{
}

/// Without an `x-api-key` header the key is `token` exactly where the `authorization` header is
/// `Bearer ` followed by `token`.
pub proof fn bearer_token_is_what_follows(value: Seq<char>, token: Seq<char>)
    ensures
        presented_key(None, Some(value)) == Some(token) <==> value == "Bearer "@ + token,
{
    let prefix = "Bearer "@;
    if value == prefix + token {
        assert(value.subrange(0, prefix.len() as int) =~= prefix);
        assert(value.skip(prefix.len() as int) =~= token);
    }
    if prefix.is_prefix_of(value) && value.skip(prefix.len() as int) == token {
        assert(value =~= prefix + token);
    }
}

} // verus!

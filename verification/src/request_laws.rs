//! What the functions on text and on requests give, in terms of the text that goes in.
//!
//! A law here speaks of any call: `call_ensures(f, args, out)` says that `f` may give `out` for
//! `args`.

use axum::body::Body;
use axum::http::{HeaderMap, Request};
use vstd::prelude::*;

#[allow(unused_imports)]
use crate::auth::{
    choose_api_key, choose_hop, choose_ip, client_ip_from_headers, constant_time_eq,
    extract_api_key, extract_client_ip, first_hop, is_client_ip, is_normal_ip, nearest_hop,
    normalize_ip,
};
#[allow(unused_imports)]
use crate::auth_laws::is_function;
#[allow(unused_imports)]
use crate::headers::{field_text, header_fields, request_fields};
#[allow(unused_imports)]
use crate::text::{before, strip_prefix, trim, trimmed, up_to, CharClass};

verus! {

/// White space, by code point.
pub open spec fn is_white(c: char) -> bool {
    let code = c as int;
    ||| 0x9 <= code <= 0xd
    ||| code == 0x20
    ||| code == 0x85
    ||| code == 0xa0
    ||| code == 0x1680
    ||| 0x2000 <= code <= 0x200a
    ||| code == 0x2028
    ||| code == 0x2029
    ||| code == 0x202f
    ||| code == 0x205f
    ||| code == 0x3000
}

/// A square bracket, by code point.
pub open spec fn is_bracket(c: char) -> bool {
    c as int == 0x5b || c as int == 0x5d
}

/// Text of white space only.
pub open spec fn all_white(s: Seq<char>) -> bool {
    forall|i: int| 0 <= i < s.len() ==> is_white(#[trigger] s[i])
}

/// Text of square brackets only.
pub open spec fn all_brackets(s: Seq<char>) -> bool {
    forall|i: int| 0 <= i < s.len() ==> is_bracket(#[trigger] s[i])
}

/// `s` is `core` with white space round it, and `core` has none at its ends.
pub open spec fn in_white(s: Seq<char>, lead: Seq<char>, core: Seq<char>, trail: Seq<char>) -> bool {
    &&& s == lead + core + trail
    &&& all_white(lead)
    &&& all_white(trail)
    &&& core.len() > 0 ==> !is_white(core[0]) && !is_white(core[core.len() - 1])
}

/// `s` is `core` with square brackets round it, and `core` has none at its ends.
pub open spec fn in_square(
    s: Seq<char>,
    opening: Seq<char>,
    core: Seq<char>,
    closing: Seq<char>,
) -> bool {
    &&& s == opening + core + closing
    &&& all_brackets(opening)
    &&& all_brackets(closing)
    &&& core.len() > 0 ==> !is_bracket(core[0]) && !is_bracket(core[core.len() - 1])
}

/// `value` is a list whose first item is `item`: the item, and after it nothing or a comma and
/// whatever follows.
pub open spec fn starts_with_item(value: Seq<char>, item: Seq<char>, rest: Seq<char>) -> bool {
    &&& value == item + rest
    &&& !item.contains(',')
    &&& rest.len() > 0 ==> rest[0] == ','
}

/// The classes of characters are those that their names say.
pub proof fn classes_are_as_named(class: CharClass, c: char, member: bool)
    requires
        call_ensures(CharClass::contains, (class, c), member),
    ensures
        class == CharClass::WhiteSpace ==> member == is_white(c),
        class == CharClass::SquareBracket ==> member == is_bracket(c),
{
}

proof fn lemma_classes()
    ensures
        forall|c: char| #[trigger] CharClass::WhiteSpace.has(c) == is_white(c),
        forall|c: char| #[trigger] CharClass::SquareBracket.has(c) == is_bracket(c),
{
}

/// What stands between characters of a class is what is left when they are trimmed off.
proof fn lemma_trimmed_core(lead: Seq<char>, core: Seq<char>, trail: Seq<char>, class: CharClass)
    requires
        forall|i: int| 0 <= i < lead.len() ==> class.has(#[trigger] lead[i]),
        forall|i: int| 0 <= i < trail.len() ==> class.has(#[trigger] trail[i]),
        core.len() > 0 ==> !class.has(core[0]) && !class.has(core[core.len() - 1]),
    ensures
        trimmed(lead + core + trail, class) == core,
    decreases lead.len() + trail.len(),
{
    let s = lead + core + trail;
    if lead.len() > 0 {
        assert(s.first() == lead[0]);
        assert(s.drop_first() =~= lead.drop_first() + core + trail);
        lemma_trimmed_core(lead.drop_first(), core, trail, class);
    } else if trail.len() > 0 {
        if core.len() > 0 {
            assert(s.first() == core[0]);
            assert(s.last() == trail.last());
            assert(s.drop_last() =~= lead + core + trail.drop_last());
            lemma_trimmed_core(lead, core, trail.drop_last(), class);
        } else {
            assert(s.first() == trail[0]);
            assert(s.drop_first() =~= lead + core + trail.drop_first());
            lemma_trimmed_core(lead, core, trail.drop_first(), class);
        }
    } else {
        assert(s =~= core);
    }
}

/// Every text is a core with characters of a class round it.
proof fn lemma_has_core(s: Seq<char>, class: CharClass) -> (split: (Seq<char>, Seq<char>, Seq<char>))
    ensures
        s == split.0 + split.1 + split.2,
        forall|i: int| 0 <= i < split.0.len() ==> class.has(#[trigger] split.0[i]),
        forall|i: int| 0 <= i < split.2.len() ==> class.has(#[trigger] split.2[i]),
        split.1.len() > 0 ==> !class.has(split.1[0]) && !class.has(split.1[split.1.len() - 1]),
    decreases s.len(),
{
    if s.len() > 0 && class.has(s.first()) {
        let inner = lemma_has_core(s.drop_first(), class);
        let split = (seq![s.first()] + inner.0, inner.1, inner.2);
        assert(s =~= seq![s.first()] + s.drop_first());
        assert(seq![s.first()] + (inner.0 + inner.1 + inner.2) =~= split.0 + split.1 + split.2);
        split
    } else if s.len() > 0 && class.has(s.last()) {
        let inner = lemma_has_core(s.drop_last(), class);
        let split = (inner.0, inner.1, inner.2.push(s.last()));
        assert(s =~= s.drop_last().push(s.last()));
        assert((inner.0 + inner.1 + inner.2).push(s.last()) =~= split.0 + split.1 + split.2);
        split
    } else {
        let split = (Seq::<char>::empty(), s, Seq::<char>::empty());
        assert(s =~= split.0 + split.1 + split.2);
        split
    }
}

/// Every text is a list with a first item, and every item is a core with white space round it.
pub proof fn every_text_has_a_first_item(value: Seq<char>)
    ensures
        exists|lead: Seq<char>, core: Seq<char>, trail: Seq<char>, rest: Seq<char>|
            #![trigger in_white(lead + core + trail, lead, core, trail), starts_with_item(
                value,
                lead + core + trail,
                rest,
            )]
            in_white(lead + core + trail, lead, core, trail) && starts_with_item(
                value,
                lead + core + trail,
                rest,
            ),
{
    value.index_of_first_ensures(',');
    let at = match value.index_of_first(',') {
        Some(i) => i,
        None => value.len() as int,
    };
    let item = value.take(at);
    let rest = value.skip(at);
    assert(value =~= item + rest);
    lemma_classes();
    let split = lemma_has_core(item, CharClass::WhiteSpace);
    assert(in_white(split.0 + split.1 + split.2, split.0, split.1, split.2));
    assert(starts_with_item(value, split.0 + split.1 + split.2, rest));
}

/// Every text is a core with square brackets round it.
pub proof fn every_text_has_a_bracketed_core(raw: Seq<char>)
    ensures
        exists|opening: Seq<char>, core: Seq<char>, closing: Seq<char>|
            in_square(raw, opening, core, closing),
{
    lemma_classes();
    let split = lemma_has_core(raw, CharClass::SquareBracket);
    assert(in_square(raw, split.0, split.1, split.2));
}

/// To trim a text gives its core.
pub proof fn trim_gives_the_core(
    s: &str,
    out: &str,
    class: CharClass,
    lead: Seq<char>,
    core: Seq<char>,
    trail: Seq<char>,
)
    requires
        call_ensures(trim, (s, class), out),
        class == CharClass::WhiteSpace ==> in_white(s@, lead, core, trail),
        class == CharClass::SquareBracket ==> in_square(s@, lead, core, trail),
    ensures
        out@ == core,
{
    lemma_classes();
    lemma_trimmed_core(lead, core, trail, class);
}

/// The part before the first `c` is all of the text that holds no `c` and has nothing or `c` after
/// it.
proof fn lemma_up_to(head: Seq<char>, c: char, rest: Seq<char>)
    requires
        !head.contains(c),
        rest.len() > 0 ==> rest[0] == c,
    ensures
        up_to(head + rest, c) == head,
{
    let s = head + rest;
    s.index_of_first_ensures(c);
    assert forall|j: int| 0 <= j < head.len() implies s[j] != c by {
        assert(head.contains(head[j]));
    }
    if rest.len() > 0 {
        assert(s[head.len() as int] == c);
        assert(s.contains(c));
        assert(s.index_of_first(c) == Some(head.len() as int));
        assert(s.take(head.len() as int) =~= head);
    } else {
        assert(s =~= head);
    }
}

/// The part before a character is what stands before its first occurrence.
pub proof fn before_gives_the_head(s: &str, c: char, out: &str, head: Seq<char>, rest: Seq<char>)
    requires
        call_ensures(before, (s, c), out),
        s@ == head + rest,
        !head.contains(c),
        rest.len() > 0 ==> rest[0] == c,
    ensures
        out@ == head,
{
    lemma_up_to(head, c, rest);
}

/// A prefix comes off exactly where the text is the prefix and what follows it.
pub proof fn strip_prefix_gives_the_rest(s: &str, prefix: &str, out: Option<&str>, rest: Seq<char>)
    requires
        call_ensures(strip_prefix, (s, prefix), out),
    ensures
        (out is Some && out->0@ == rest) <==> s@ == prefix@ + rest,
        out is None <==> !(s@.len() >= prefix@.len() && s@.take(prefix@.len() as int) == prefix@),
{
    let n = prefix@.len() as int;
    if s@ == prefix@ + rest {
        assert(s@.subrange(0, n) =~= prefix@);
        assert(s@.skip(n) =~= rest);
    }
    if prefix@.is_prefix_of(s@) {
        assert(s@ =~= prefix@ + s@.skip(n));
        assert(s@.take(n) =~= prefix@);
    }
    if s@.len() >= n && s@.take(n) == prefix@ {
        assert(s@.subrange(0, n) =~= prefix@);
    }
}

/// The hop of a list is the core of its first item.
proof fn lemma_nearest_hop(
    value: Seq<char>,
    lead: Seq<char>,
    core: Seq<char>,
    trail: Seq<char>,
    rest: Seq<char>,
)
    requires
        starts_with_item(value, lead + core + trail, rest),
        in_white(lead + core + trail, lead, core, trail),
    ensures
        core.len() > 0 ==> nearest_hop(value) == Some(core),
        core.len() == 0 ==> nearest_hop(value) is None,
{
    lemma_classes();
    lemma_up_to(lead + core + trail, ',', rest);
    lemma_trimmed_core(lead, core, trail, CharClass::WhiteSpace);
}

/// The hop of a header text is what stands before its first comma, without the white space round
/// it, whatever that is, unless nothing is left; then there is no hop.
pub proof fn first_hop_is_the_first_item(
    value: &str,
    out: Option<&str>,
    lead: Seq<char>,
    core: Seq<char>,
    trail: Seq<char>,
    rest: Seq<char>,
)
    requires
        call_ensures(first_hop, (value,), out),
        starts_with_item(value@, lead + core + trail, rest),
        in_white(lead + core + trail, lead, core, trail),
    ensures
        core.len() > 0 ==> out is Some && out->0@ == core,
        core.len() == 0 ==> out is None,
{
    lemma_nearest_hop(value@, lead, core, trail, rest);
}

/// A text that is not empty, holds no comma and has no white space at its ends is its own hop.
pub proof fn plain_text_is_its_own_hop(value: &str, out: Option<&str>)
    requires
        call_ensures(first_hop, (value,), out),
        value@.len() > 0,
        !value@.contains(','),
        !is_white(value@[0]),
        !is_white(value@[value@.len() - 1]),
    ensures
        out is Some && out->0@ == value@,
{
    let none = Seq::<char>::empty();
    assert(none + value@ + none =~= value@);
    assert(value@ + none =~= value@);
    lemma_nearest_hop(value@, none, value@, none, none);
}

/// `value` is a list whose first item is `hop` with white space round it.
pub open spec fn gives_hop(value: Seq<char>, hop: Seq<char>) -> bool {
    &&& hop.len() > 0
    &&& exists|lead: Seq<char>, trail: Seq<char>, rest: Seq<char>|
        #![trigger in_white(lead + hop + trail, lead, hop, trail), starts_with_item(
            value,
            lead + hop + trail,
            rest,
        )]
        in_white(lead + hop + trail, lead, hop, trail) && starts_with_item(
            value,
            lead + hop + trail,
            rest,
        )
}

/// `value` is a list whose first item is white space only.
pub open spec fn gives_no_hop(value: Seq<char>) -> bool {
    exists|blank: Seq<char>, rest: Seq<char>|
        all_white(blank) && #[trigger] starts_with_item(value, blank, rest)
}

/// Every text gives a hop or gives none.
pub proof fn every_text_is_decided(value: Seq<char>)
    ensures
        gives_no_hop(value) || exists|hop: Seq<char>| gives_hop(value, hop),
{
    every_text_has_a_first_item(value);
    let (lead, core, trail, rest) = choose|
        lead: Seq<char>,
        core: Seq<char>,
        trail: Seq<char>,
        rest: Seq<char>,
    |
        #![trigger in_white(lead + core + trail, lead, core, trail), starts_with_item(
            value,
            lead + core + trail,
            rest,
        )]
        in_white(lead + core + trail, lead, core, trail) && starts_with_item(
            value,
            lead + core + trail,
            rest,
        );
    if core.len() > 0 {
        assert(gives_hop(value, core));
    } else {
        assert(all_white(lead + core + trail));
    }
}

proof fn lemma_gives_hop(value: Seq<char>, hop: Seq<char>)
    ensures
        gives_hop(value, hop) ==> nearest_hop(value) == Some(hop),
        gives_no_hop(value) ==> nearest_hop(value) is None,
{
    if gives_hop(value, hop) {
        let (lead, trail, rest) = choose|lead: Seq<char>, trail: Seq<char>, rest: Seq<char>|
            #![trigger in_white(lead + hop + trail, lead, hop, trail), starts_with_item(
                value,
                lead + hop + trail,
                rest,
            )]
            in_white(lead + hop + trail, lead, hop, trail) && starts_with_item(
                value,
                lead + hop + trail,
                rest,
            );
        lemma_nearest_hop(value, lead, hop, trail, rest);
    }
    if gives_no_hop(value) {
        let (blank, rest) = choose|blank: Seq<char>, rest: Seq<char>|
            all_white(blank) && #[trigger] starts_with_item(value, blank, rest);
        let none = Seq::<char>::empty();
        assert(blank + none + none =~= blank);
        lemma_nearest_hop(value, blank, none, none, rest);
    }
}

/// The text of a header, if it has one, gives `hop`.
pub open spec fn text_gives_hop(text: Option<Seq<char>>, hop: Seq<char>) -> bool {
    text is Some && gives_hop(text->0, hop)
}

/// The header has no text, or one that gives no hop.
pub open spec fn text_gives_no_hop(text: Option<Seq<char>>) -> bool {
    text is Some ==> gives_no_hop(text->0)
}

/// The first of three header texts that gives a hop gives `hop`.
pub open spec fn picks(
    first: Option<Seq<char>>,
    second: Option<Seq<char>>,
    third: Option<Seq<char>>,
    hop: Seq<char>,
) -> bool {
    ||| text_gives_hop(first, hop)
    ||| text_gives_no_hop(first) && text_gives_hop(second, hop)
    ||| text_gives_no_hop(first) && text_gives_no_hop(second) && text_gives_hop(third, hop)
}

/// None of three header texts gives a hop.
pub open spec fn picks_none(
    first: Option<Seq<char>>,
    second: Option<Seq<char>>,
    third: Option<Seq<char>>,
) -> bool {
    text_gives_no_hop(first) && text_gives_no_hop(second) && text_gives_no_hop(third)
}

/// Of the three forwarding headers the first in their order that gives a hop decides.
pub proof fn first_header_with_a_hop_decides(
    forwarded_for: Option<&str>,
    real_ip: Option<&str>,
    cf_connecting_ip: Option<&str>,
    out: Option<&str>,
    hop: Seq<char>,
)
    requires
        call_ensures(choose_hop, (forwarded_for, real_ip, cf_connecting_ip), out),
    ensures
        picks(
            forwarded_for.deep_view(),
            real_ip.deep_view(),
            cf_connecting_ip.deep_view(),
            hop,
        ) ==> out is Some && out->0@ == hop,
        picks_none(forwarded_for.deep_view(), real_ip.deep_view(), cf_connecting_ip.deep_view())
            ==> out is None,
{
    if forwarded_for is Some {
        lemma_gives_hop(forwarded_for->0@, hop);
    }
    if real_ip is Some {
        lemma_gives_hop(real_ip->0@, hop);
    }
    if cf_connecting_ip is Some {
        lemma_gives_hop(cf_connecting_ip->0@, hop);
    }
}

/// `address` is the value of a client whose address was written `raw`, where `socket_ip` and `ip`
/// are what the parsers give of each text: the IP address of `raw` as a socket address, else as an
/// IP address, else what is left of it without square brackets, as an IP address if it is one.
pub open spec fn has_value(
    raw: Seq<char>,
    socket_ip: spec_fn(Seq<char>) -> Option<Seq<char>>,
    ip: spec_fn(Seq<char>) -> Option<Seq<char>>,
    address: Seq<char>,
) -> bool {
    ||| socket_ip(raw) == Some(address)
    ||| socket_ip(raw) is None && ip(raw) == Some(address)
    ||| socket_ip(raw) is None && ip(raw) is None && exists|
        opening: Seq<char>,
        core: Seq<char>,
        closing: Seq<char>,
    | #[trigger]
        in_square(raw, opening, core, closing) && (ip(core) == Some(address) || (ip(core) is None
            && address == core))
}

/// Every text has a value.
pub proof fn every_text_has_a_value(
    raw: Seq<char>,
    socket_ip: spec_fn(Seq<char>) -> Option<Seq<char>>,
    ip: spec_fn(Seq<char>) -> Option<Seq<char>>,
)
    ensures
        exists|address: Seq<char>| has_value(raw, socket_ip, ip, address),
{
    every_text_has_a_bracketed_core(raw);
    let (opening, core, closing) = choose|
        opening: Seq<char>,
        core: Seq<char>,
        closing: Seq<char>,
    | in_square(raw, opening, core, closing);
    let address = match socket_ip(raw) {
        Some(a) => a,
        None => match ip(raw) {
            Some(a) => a,
            None => match ip(core) {
                Some(a) => a,
                None => core,
            },
        },
    };
    assert(has_value(raw, socket_ip, ip, address));
}

proof fn lemma_has_value<S, I>(
    raw: &str,
    parse_socket: S,
    parse_ip: I,
    socket_ip: spec_fn(Seq<char>) -> Option<Seq<char>>,
    ip: spec_fn(Seq<char>) -> Option<Seq<char>>,
    out: Seq<char>,
    address: Seq<char>,
)
    where S: Fn(&str) -> Option<String>, I: Fn(&str) -> Option<String>
    requires
        is_function(parse_socket, socket_ip),
        is_function(parse_ip, ip),
        is_normal_ip(raw, parse_socket, parse_ip, out),
        has_value(raw@, socket_ip, ip, address),
    ensures
        out == address,
{
    if socket_ip(raw@) is None && ip(raw@) is None {
        let (opening, core, closing) = choose|
            opening: Seq<char>,
            core: Seq<char>,
            closing: Seq<char>,
        | #[trigger]
            in_square(raw@, opening, core, closing) && (ip(core) == Some(address) || (ip(core)
                is None && address == core));
        lemma_classes();
        lemma_trimmed_core(opening, core, closing, CharClass::SquareBracket);
    }
}

/// For given answers of the parsers, the first answer is the value; without an answer it is the
/// text without the square brackets round it.
pub proof fn first_answer_is_the_value(
    raw: &str,
    socket_ip: Option<String>,
    ip: Option<String>,
    bare_ip: Option<String>,
    out: String,
    opening: Seq<char>,
    core: Seq<char>,
    closing: Seq<char>,
)
    requires
        call_ensures(choose_ip, (raw, socket_ip, ip, bare_ip), out),
        in_square(raw@, opening, core, closing),
    ensures
        socket_ip is Some ==> out@ == socket_ip->0@,
        socket_ip is None && ip is Some ==> out@ == ip->0@,
        socket_ip is None && ip is None && bare_ip is Some ==> out@ == bare_ip->0@,
        socket_ip is None && ip is None && bare_ip is None ==> out@ == core,
{
    lemma_classes();
    lemma_trimmed_core(opening, core, closing, CharClass::SquareBracket);
}

/// The normal form of a client address is its value.
pub proof fn normalize_ip_gives_the_value<S, I>(
    raw: &str,
    parse_socket: S,
    parse_ip: I,
    socket_ip: spec_fn(Seq<char>) -> Option<Seq<char>>,
    ip: spec_fn(Seq<char>) -> Option<Seq<char>>,
    out: String,
    address: Seq<char>,
)
    where S: Fn(&str) -> Option<String>, I: Fn(&str) -> Option<String>
    requires
        is_function(parse_socket, socket_ip),
        is_function(parse_ip, ip),
        call_ensures(normalize_ip::<S, I>, (raw, parse_socket, parse_ip), out),
        has_value(raw@, socket_ip, ip, address),
    ensures
        out@ == address,
{
    lemma_has_value(raw, parse_socket, parse_ip, socket_ip, ip, out@, address);
}

/// A character that may stand in the text of a header: a tab or printable ASCII.
pub open spec fn is_header_char(c: char) -> bool {
    c as int == 0x9 || 0x20 <= c as int <= 0x7e
}

/// The first value under `name` is `text`, character for byte.
pub open spec fn carries(
    fields: Map<Seq<char>, Seq<Seq<u8>>>,
    name: Seq<char>,
    text: Seq<char>,
) -> bool {
    &&& fields.contains_key(name)
    &&& fields[name].len() > 0
    &&& fields[name][0].len() == text.len()
    &&& forall|i: int|
        0 <= i < text.len() ==> is_header_char(#[trigger] text[i]) && fields[name][0][i] as int
            == text[i] as int
}

/// There is no value under `name`, or the first one holds a byte that is no text.
pub open spec fn carries_no_text(fields: Map<Seq<char>, Seq<Seq<u8>>>, name: Seq<char>) -> bool {
    fields.contains_key(name) ==> fields[name].len() > 0 && exists|i: int|
        0 <= i < fields[name][0].len() && (#[trigger] fields[name][0][i] < 32 && fields[name][0][i]
            != 9 || fields[name][0][i] >= 127)
}

proof fn lemma_carries(fields: Map<Seq<char>, Seq<Seq<u8>>>, name: Seq<char>, text: Seq<char>)
    ensures
        carries(fields, name, text) ==> field_text(fields, name) == Some(text),
        carries_no_text(fields, name) ==> field_text(fields, name) is None,
{
    if carries(fields, name, text) {
        let bytes = fields[name][0];
        assert forall|i: int| 0 <= i < bytes.len() implies crate::headers::is_visible_ascii(
            #[trigger] bytes[i],
        ) && bytes[i] as char == text[i] by {
            assert(is_header_char(text[i]));
        }
        assert(bytes.map_values(|byte: u8| byte as char) =~= text);
    }
    if carries_no_text(fields, name) && fields.contains_key(name) {
        let bytes = fields[name][0];
        let i = choose|i: int|
            0 <= i < fields[name][0].len() && (#[trigger] fields[name][0][i] < 32
                && fields[name][0][i] != 9 || fields[name][0][i] >= 127);
        assert(!crate::headers::is_visible_ascii(bytes[i]));
    }
}

/// Every field carries a text or none.
pub proof fn every_field_is_decided(fields: Map<Seq<char>, Seq<Seq<u8>>>, name: Seq<char>)
    requires
        fields.contains_key(name) ==> fields[name].len() > 0,
    ensures
        carries_no_text(fields, name) || exists|text: Seq<char>| carries(fields, name, text),
{
    if !carries_no_text(fields, name) {
        let bytes = fields[name][0];
        let text = Seq::new(bytes.len(), |i: int| bytes[i] as char);
        assert forall|i: int| 0 <= i < text.len() implies is_header_char(#[trigger] text[i])
            && fields[name][0][i] as int == text[i] as int by {
            assert(!(fields[name][0][i] < 32 && fields[name][0][i] != 9 || fields[name][0][i]
                >= 127));
        }
        assert(carries(fields, name, text));
    }
}

/// The first value under `name` is the text of a list whose first item is `hop`.
pub open spec fn field_gives_hop(
    fields: Map<Seq<char>, Seq<Seq<u8>>>,
    name: Seq<char>,
    hop: Seq<char>,
) -> bool {
    exists|text: Seq<char>| #[trigger] carries(fields, name, text) && gives_hop(text, hop)
}

/// There is no text under `name`, or one that gives no hop.
pub open spec fn field_gives_no_hop(fields: Map<Seq<char>, Seq<Seq<u8>>>, name: Seq<char>) -> bool {
    carries_no_text(fields, name) || exists|text: Seq<char>| #[trigger]
        carries(fields, name, text) && gives_no_hop(text)
}

/// The forwarding headers give `hop`: `X-Forwarded-For`, else `X-Real-IP`, else
/// `CF-Connecting-IP`.
pub open spec fn fields_give_hop(fields: Map<Seq<char>, Seq<Seq<u8>>>, hop: Seq<char>) -> bool {
    ||| field_gives_hop(fields, "x-forwarded-for"@, hop)
    ||| field_gives_no_hop(fields, "x-forwarded-for"@) && field_gives_hop(
        fields,
        "x-real-ip"@,
        hop,
    )
    ||| field_gives_no_hop(fields, "x-forwarded-for"@) && field_gives_no_hop(fields, "x-real-ip"@)
        && field_gives_hop(fields, "cf-connecting-ip"@, hop)
}

/// None of the forwarding headers gives a hop.
pub open spec fn fields_give_no_hop(fields: Map<Seq<char>, Seq<Seq<u8>>>) -> bool {
    &&& field_gives_no_hop(fields, "x-forwarded-for"@)
    &&& field_gives_no_hop(fields, "x-real-ip"@)
    &&& field_gives_no_hop(fields, "cf-connecting-ip"@)
}

proof fn lemma_field_hop(fields: Map<Seq<char>, Seq<Seq<u8>>>, name: Seq<char>, hop: Seq<char>)
    ensures
        field_gives_hop(fields, name, hop) ==> crate::auth::nearest_hop_in(field_text(fields, name))
            == Some(hop),
        field_gives_no_hop(fields, name) ==> crate::auth::nearest_hop_in(field_text(fields, name))
            is None,
{
    lemma_carries(fields, name, hop);
    if field_gives_hop(fields, name, hop) {
        let text = choose|text: Seq<char>| #[trigger]
            carries(fields, name, text) && gives_hop(text, hop);
        lemma_carries(fields, name, text);
        lemma_gives_hop(text, hop);
    }
    if field_gives_no_hop(fields, name) && !carries_no_text(fields, name) {
        let text = choose|text: Seq<char>| #[trigger]
            carries(fields, name, text) && gives_no_hop(text);
        lemma_carries(fields, name, text);
        lemma_gives_hop(text, hop);
    }
}

proof fn lemma_fields_hop(fields: Map<Seq<char>, Seq<Seq<u8>>>, hop: Seq<char>)
    ensures
        fields_give_hop(fields, hop) ==> crate::auth::hop_in_fields(fields) == Some(hop),
        fields_give_no_hop(fields) ==> crate::auth::hop_in_fields(fields) is None,
{
    lemma_field_hop(fields, "x-forwarded-for"@, hop);
    lemma_field_hop(fields, "x-real-ip"@, hop);
    lemma_field_hop(fields, "cf-connecting-ip"@, hop);
}

/// The client address that header fields give is the value of the hop in them.
pub proof fn headers_give_the_value_of_the_hop<S, I>(
    headers: &HeaderMap,
    parse_socket: S,
    parse_ip: I,
    socket_ip: spec_fn(Seq<char>) -> Option<Seq<char>>,
    ip: spec_fn(Seq<char>) -> Option<Seq<char>>,
    out: Option<String>,
    hop: Seq<char>,
    address: Seq<char>,
)
    where S: Fn(&str) -> Option<String>, I: Fn(&str) -> Option<String>
    requires
        is_function(parse_socket, socket_ip),
        is_function(parse_ip, ip),
        call_ensures(client_ip_from_headers::<S, I>, (headers, parse_socket, parse_ip), out),
        has_value(hop, socket_ip, ip, address),
    ensures
        fields_give_hop(header_fields(*headers), hop) ==> out is Some && out->0@ == address,
        fields_give_no_hop(header_fields(*headers)) ==> out is None,
{
    let fields = header_fields(*headers);
    lemma_fields_hop(fields, hop);
    if fields_give_hop(fields, hop) {
        lemma_client_ip(
            fields,
            parse_socket,
            parse_ip,
            socket_ip,
            ip,
            out.deep_view(),
            hop,
            address,
        );
    }
}

proof fn lemma_client_ip<S, I>(
    fields: Map<Seq<char>, Seq<Seq<u8>>>,
    parse_socket: S,
    parse_ip: I,
    socket_ip: spec_fn(Seq<char>) -> Option<Seq<char>>,
    ip: spec_fn(Seq<char>) -> Option<Seq<char>>,
    out: Option<Seq<char>>,
    hop: Seq<char>,
    address: Seq<char>,
)
    where S: Fn(&str) -> Option<String>, I: Fn(&str) -> Option<String>
    requires
        is_function(parse_socket, socket_ip),
        is_function(parse_ip, ip),
        is_client_ip(fields, parse_socket, parse_ip, out),
        has_value(hop, socket_ip, ip, address),
        crate::auth::hop_in_fields(fields) == Some(hop),
    ensures
        out == Some(address),
{
    let raw = choose|raw: &str|
        out is Some && raw@ == hop && #[trigger] is_normal_ip(raw, parse_socket, parse_ip, out->0);
    lemma_has_value(raw, parse_socket, parse_ip, socket_ip, ip, out->0, address);
}

/// The client address of a request is the value of the hop that its forwarding headers give, and
/// the address of the peer where they give none.
pub proof fn request_gives_the_value_of_the_hop<S, I>(
    request: &Request<Body>,
    parse_socket: S,
    parse_ip: I,
    socket_ip: spec_fn(Seq<char>) -> Option<Seq<char>>,
    ip: spec_fn(Seq<char>) -> Option<Seq<char>>,
    peer_ip: Option<String>,
    out: Option<String>,
    hop: Seq<char>,
    address: Seq<char>,
)
    where S: Fn(&str) -> Option<String>, I: Fn(&str) -> Option<String>
    requires
        is_function(parse_socket, socket_ip),
        is_function(parse_ip, ip),
        call_ensures(
            extract_client_ip::<S, I>,
            (request, parse_socket, parse_ip, peer_ip),
            out,
        ),
        has_value(hop, socket_ip, ip, address),
    ensures
        fields_give_hop(request_fields(*request), hop) ==> out is Some && out->0@ == address,
        fields_give_no_hop(request_fields(*request)) ==> out == peer_ip,
{
    let fields = request_fields(*request);
    lemma_fields_hop(fields, hop);
    if fields_give_hop(fields, hop) {
        lemma_client_ip(
            fields,
            parse_socket,
            parse_ip,
            socket_ip,
            ip,
            out.deep_view(),
            hop,
            address,
        );
    }
}

/// `value` starts with `Bearer` and a space.
pub open spec fn is_bearer(value: Seq<char>) -> bool {
    value.len() >= 7 && value.take(7) == seq!['B', 'e', 'a', 'r', 'e', 'r', ' ']
}

proof fn lemma_bearer(value: Seq<char>)
    ensures
        is_bearer(value) ==> crate::text::stripped(value, "Bearer "@) == Some(value.skip(7)),
        !is_bearer(value) ==> crate::text::stripped(value, "Bearer "@) is None,
{
    reveal_strlit("Bearer ");
    assert("Bearer "@ =~= seq!['B', 'e', 'a', 'r', 'e', 'r', ' ']);
    if is_bearer(value) {
        assert(value.subrange(0, 7) =~= value.take(7));
    }
    if "Bearer "@.is_prefix_of(value) {
        assert(value.take(7) =~= value.subrange(0, 7));
    }
}

/// Of two header texts the first is the key where there is one, whatever the second is; else the
/// key is what follows `Bearer ` in the second.
pub proof fn key_is_the_first_text_or_the_token(
    x_api_key: Option<&str>,
    authorization: Option<&str>,
    out: Option<String>,
)
    requires
        call_ensures(choose_api_key, (x_api_key, authorization), out),
    ensures
        x_api_key is Some ==> out is Some && out->0@ == x_api_key->0@,
        x_api_key is None && authorization is Some && is_bearer(authorization->0@) ==> out is Some
            && out->0@ == authorization->0@.skip(7),
        x_api_key is None && authorization is Some && !is_bearer(authorization->0@) ==> out is None,
        x_api_key is None && authorization is None ==> out is None,
{
    if authorization is Some {
        lemma_bearer(authorization->0@);
    }
}

/// The key of a request is the text of its `x-api-key` header where it has one, whatever other
/// fields it has and also where it has no others; else what follows `Bearer ` in the text of its
/// `authorization` header; else there is none.
pub proof fn key_of_a_request(
    request: &Request<Body>,
    out: Option<String>,
    key: Seq<char>,
    value: Seq<char>,
)
    requires
        call_ensures(extract_api_key, (request,), out),
    ensures
        carries(request_fields(*request), "x-api-key"@, key) ==> out is Some && out->0@ == key,
        carries_no_text(request_fields(*request), "x-api-key"@) && carries(
            request_fields(*request),
            "authorization"@,
            value,
        ) && is_bearer(value) ==> out is Some && out->0@ == value.skip(7),
        carries_no_text(request_fields(*request), "x-api-key"@) && carries(
            request_fields(*request),
            "authorization"@,
            value,
        ) && !is_bearer(value) ==> out is None,
        carries_no_text(request_fields(*request), "x-api-key"@) && carries_no_text(
            request_fields(*request),
            "authorization"@,
        ) ==> out is None,
{
    let fields = request_fields(*request);
    lemma_carries(fields, "x-api-key"@, key);
    lemma_carries(fields, "authorization"@, value);
    lemma_bearer(value);
}

/// Two strings compare as equal exactly where they have the same length and the same character at
/// each place.
pub proof fn comparison_is_equality(a: &str, b: &str, out: bool)
    requires
        call_ensures(constant_time_eq, (a, b), out),
    ensures
        out <==> a@.len() == b@.len() && forall|i: int|
            0 <= i < a@.len() ==> #[trigger] a@[i] == b@[i],
{
    if a@.len() == b@.len() && forall|i: int| 0 <= i < a@.len() ==> #[trigger] a@[i] == b@[i] {
        assert(a@ =~= b@);
    }
}

} // verus!

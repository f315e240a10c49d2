use axum::body::Body;
use axum::http::{HeaderValue, Request};
use kiro_gateway::auth::{
    choose_api_key, choose_hop, choose_ip, client_ip_from_headers, constant_time_eq,
    extract_api_key, extract_client_ip, first_hop, normalize_ip,
};
use kiro_gateway::text::{before, strip_prefix, trim, CharClass};

/// The IP address of the socket addresses that occur below.
fn parse_socket(text: &str) -> Option<String> {
    match text {
        "10.0.0.2:4567" => Some("10.0.0.2".to_string()),
        "203.0.113.9:51234" => Some("203.0.113.9".to_string()),
        "[2001:db8::1]:443" | "[2001:DB8::1]:443" | "[2001:DB8::1]:8443" => Some("2001:db8::1".to_string()),
        _ => None,
    }
}

/// The canonical form of the IP addresses that occur below.
fn parse_ip(text: &str) -> Option<String> {
    match text {
        "203.0.113.9" | "198.51.100.7" | "192.0.2.33" | "2001:db8::1" => Some(text.to_string()),
        "2001:DB8::1" | "2001:db8:0:0:0:0:0:1" | "2001:0DB8:0:0::1" => Some("2001:db8::1".to_string()),
        _ => None,
    }
}

fn req_with(headers: &[(&'static str, &str)]) -> Request<Body> {
    let mut req = Request::builder().uri("/").body(Body::empty()).unwrap();
    for (k, v) in headers {
        req.headers_mut().insert(*k, HeaderValue::from_str(v).unwrap());
    }
    req
}

fn client_ip(headers: &[(&'static str, &str)], peer: Option<&str>) -> Option<String> {
    let req = req_with(headers);
    extract_client_ip(&req, parse_socket, parse_ip, peer.and_then(parse_socket))
}

#[test]
fn prefers_leftmost_forwarded_for() {
    let ip = client_ip(
        &[("x-forwarded-for", "203.0.113.9, 10.0.0.1, 10.0.0.2")],
        Some("10.0.0.2:4567"),
    );
    assert_eq!(ip.as_deref(), Some("203.0.113.9"));
}

#[test]
fn falls_back_through_real_ip_and_cf_then_peer() {
    let ip = client_ip(&[("x-real-ip", "198.51.100.7")], Some("10.0.0.2:4567"));
    assert_eq!(ip.as_deref(), Some("198.51.100.7"));

    let ip = client_ip(&[("cf-connecting-ip", "192.0.2.33")], Some("10.0.0.2:4567"));
    assert_eq!(ip.as_deref(), Some("192.0.2.33"));

    let ip = client_ip(&[], Some("10.0.0.2:4567"));
    assert_eq!(ip.as_deref(), Some("10.0.0.2"));

    let ip = client_ip(&[], None);
    assert_eq!(ip, None);
}

#[test]
fn strips_port_and_brackets() {
    let ip = client_ip(&[("x-forwarded-for", "203.0.113.9:51234")], None);
    assert_eq!(ip.as_deref(), Some("203.0.113.9"));

    let ip = client_ip(&[("x-forwarded-for", "[2001:db8::1]:443")], None);
    assert_eq!(ip.as_deref(), Some("2001:db8::1"));

    let ip = client_ip(&[("x-forwarded-for", "2001:db8::1")], None);
    assert_eq!(ip.as_deref(), Some("2001:db8::1"));
}

#[test]
fn ignores_empty_forwarded_header() {
    let ip = client_ip(&[("x-forwarded-for", " ")], Some("10.0.0.2:4567"));
    assert_eq!(ip.as_deref(), Some("10.0.0.2"));
}

#[test]
fn forwarding_headers_have_an_order() {
    let all = [
        ("x-forwarded-for", "203.0.113.9"),
        ("x-real-ip", "198.51.100.7"),
        ("cf-connecting-ip", "192.0.2.33"),
    ];
    assert_eq!(client_ip(&all, None).as_deref(), Some("203.0.113.9"));
    assert_eq!(client_ip(&all[1..], None).as_deref(), Some("198.51.100.7"));
    assert_eq!(client_ip(&all[2..], None).as_deref(), Some("192.0.2.33"));
}

#[test]
fn header_without_a_hop_is_passed_over() {
    assert_eq!(choose_hop(Some(" , 1.1.1.1"), Some("\t"), Some("c, d")), Some("c"));
    assert_eq!(choose_hop(Some(""), None, None), None);
    assert_eq!(choose_hop(None, Some("b"), Some("c")), Some("b"));
    assert_eq!(choose_hop(None, None, None), None);
}

#[test]
fn header_that_is_no_text_is_passed_over() {
    let mut req = req_with(&[("x-real-ip", "198.51.100.7")]);
    req.headers_mut()
        .insert("x-forwarded-for", HeaderValue::from_bytes(b"203.0.113.9\xff").unwrap());
    let ip = client_ip_from_headers(req.headers(), parse_socket, parse_ip);
    assert_eq!(ip.as_deref(), Some("198.51.100.7"));
}

#[test]
fn first_of_several_values_counts() {
    let mut req = req_with(&[]);
    req.headers_mut().append("X-Forwarded-For", HeaderValue::from_static("203.0.113.9"));
    req.headers_mut().append("x-forwarded-for", HeaderValue::from_static("198.51.100.7"));
    let ip = client_ip_from_headers(req.headers(), parse_socket, parse_ip);
    assert_eq!(ip.as_deref(), Some("203.0.113.9"));
}

#[test]
fn first_hop_is_the_trimmed_first_item() {
    assert_eq!(first_hop(" a b ,c"), Some("a b"));
    assert_eq!(first_hop("a"), Some("a"));
    assert_eq!(first_hop("\ta\t"), Some("a"));
    assert_eq!(first_hop(",a"), None);
    assert_eq!(first_hop(""), None);
}

#[test]
fn one_client_has_one_value() {
    let forms = [
        "[2001:db8::1]:443",
        "[2001:DB8::1]:443",
        "[2001:DB8::1]:8443",
        "2001:db8::1",
        "2001:DB8::1",
        "2001:0DB8:0:0::1",
        "[2001:db8::1]",
        "[2001:DB8::1]",
        "[2001:db8:0:0:0:0:0:1]",
    ];
    for form in forms {
        assert_eq!(normalize_ip(form, parse_socket, parse_ip), "2001:db8::1");
    }
}

#[test]
fn bracketed_address_in_a_header_is_normalized() {
    let ip = client_ip(&[("x-forwarded-for", "[2001:DB8::1], 10.0.0.1")], None);
    assert_eq!(ip.as_deref(), Some("2001:db8::1"));
    let ip = client_ip(&[("x-forwarded-for", "[unknown]")], None);
    assert_eq!(ip.as_deref(), Some("unknown"));
}

#[test]
fn leftmost_hop_alone_decides() {
    let one = client_ip(&[("x-forwarded-for", "203.0.113.9, 10.0.0.1")], None);
    let other = client_ip(
        &[
            ("x-forwarded-for", "\t203.0.113.9 ,192.0.2.33"),
            ("x-real-ip", "198.51.100.7"),
            ("cf-connecting-ip", "192.0.2.33"),
            ("user-agent", "x"),
        ],
        Some("10.0.0.2:4567"),
    );
    assert_eq!(one, other);
    assert_eq!(one.as_deref(), Some("203.0.113.9"));
}

#[test]
fn socket_address_goes_before_ip_address() {
    let socket_ip = Some("1.1.1.1".to_string());
    let ip = Some("2.2.2.2".to_string());
    let bare_ip = Some("3.3.3.3".to_string());
    assert_eq!(choose_ip("[x]", socket_ip, ip.clone(), bare_ip.clone()), "1.1.1.1");
    assert_eq!(choose_ip("[x]", None, ip, bare_ip.clone()), "2.2.2.2");
    assert_eq!(choose_ip("[x]", None, None, bare_ip), "3.3.3.3");
    assert_eq!(choose_ip("[x]", None, None, None), "x");
    assert_eq!(choose_ip("]]x[y]z[[", None, None, None), "x[y]z");
    assert_eq!(choose_ip("[]", None, None, None), "");
    assert_eq!(choose_ip("unknown", None, None, None), "unknown");
}

#[test]
fn api_key_header_goes_first() {
    let req = req_with(&[("x-api-key", "k1"), ("authorization", "Bearer k2")]);
    assert_eq!(extract_api_key(&req).as_deref(), Some("k1"));
}

#[test]
fn bearer_token_is_what_follows() {
    let req = req_with(&[("authorization", "Bearer k2")]);
    assert_eq!(extract_api_key(&req).as_deref(), Some("k2"));
    let req = req_with(&[("authorization", "Bearer  k2 ")]);
    assert_eq!(extract_api_key(&req).as_deref(), Some(" k2 "));
    let req = req_with(&[("authorization", "bearer k2")]);
    assert_eq!(extract_api_key(&req), None);
    let req = req_with(&[("authorization", "Bearer")]);
    assert_eq!(extract_api_key(&req), None);
    let req = req_with(&[("authorization", "Basic k2")]);
    assert_eq!(extract_api_key(&req), None);
    assert_eq!(extract_api_key(&req_with(&[])), None);
}

#[test]
fn api_key_that_is_no_text_gives_way_to_the_token() {
    let mut req = req_with(&[("authorization", "Bearer k2")]);
    req.headers_mut().insert("x-api-key", HeaderValue::from_bytes(b"\xe9").unwrap());
    assert_eq!(extract_api_key(&req).as_deref(), Some("k2"));
}

#[test]
fn empty_api_key_is_a_key() {
    let req = req_with(&[("x-api-key", ""), ("authorization", "Bearer k2")]);
    assert_eq!(extract_api_key(&req).as_deref(), Some(""));
    assert_eq!(choose_api_key(None, Some("Bearer ")).as_deref(), Some(""));
    assert_eq!(choose_api_key(None, None), None);
}

#[test]
fn constant_time_eq_is_equality() {
    assert!(constant_time_eq("", ""));
    assert!(constant_time_eq("sk-secret", "sk-secret"));
    assert!(!constant_time_eq("sk-secret", "sk-secreu"));
    assert!(!constant_time_eq("sk-secret", "sk-secre"));
    assert!(!constant_time_eq("", "a"));
    assert!(constant_time_eq("\u{5bc6}\u{94a5}", "\u{5bc6}\u{94a5}"));
    assert!(!constant_time_eq("\u{5bc6}\u{94a5}", "\u{5bc6}\u{94a6}"));
}

#[test]
fn text_operations_agree_with_std() {
    let samples = [
        "", " ", "a", " a ", "\u{3000}a,b\u{a0}", "[[a]]", "][", "\u{85}\u{2028}x\u{200b}", "\u{e9},",
        ",,", "Bearer x", "\u{205f}\u{1680}\u{202f}", "\u{b}\u{c}x\u{1c}", "[\u{4f60}]\u{597d}[",
    ];
    for s in samples {
        assert_eq!(trim(s, CharClass::WhiteSpace), s.trim());
        assert_eq!(
            trim(s, CharClass::SquareBracket),
            s.trim_matches(|c| c == '[' || c == ']')
        );
        assert_eq!(Some(before(s, ',')), s.split(',').next());
        assert_eq!(strip_prefix(s, "Bearer "), s.strip_prefix("Bearer "));
    }
}

#[test]
fn white_space_is_that_of_unicode() {
    for c in '\0'..=char::MAX {
        assert_eq!(CharClass::WhiteSpace.contains(c), c.is_whitespace());
    }
}

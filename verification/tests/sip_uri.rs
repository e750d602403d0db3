use siprs::message::error::ParseError;
use siprs::message::uri::{parse_host_port, SipUri, UriScheme};
use siprs::registration::extract_domain_from_aor;

#[test]
fn test_parse_simple_sip_uri() {
    let uri = SipUri::parse("sip:bob@example.com").unwrap();
    assert_eq!(uri.scheme, UriScheme::Sip);
    assert!(uri.user_info.is_some());
    assert_eq!(uri.user_info.as_ref().unwrap().user, "bob");
    assert_eq!(uri.host, "example.com");
    assert!(uri.port.is_none());
}

#[test]
fn test_parse_sips_uri() {
    let uri = SipUri::parse("sips:bob@example.com").unwrap();
    assert_eq!(uri.scheme, UriScheme::Sips);
    assert_eq!(uri.user_info.as_ref().unwrap().user, "bob");
    assert_eq!(uri.host, "example.com");
}

#[test]
fn test_parse_full_uri() {
    let uri =
        SipUri::parse("sip:alice:password@example.com:5060;transport=tcp?header=value").unwrap();
    assert_eq!(uri.scheme, UriScheme::Sip);
    let ui = uri.user_info.as_ref().unwrap();
    assert_eq!(ui.user, "alice");
    assert_eq!(ui.password.as_ref().unwrap(), "password");
    assert_eq!(uri.host, "example.com");
    assert_eq!(uri.port, Some(5060));
    assert_eq!(uri.params.transport(), Some("tcp"));
    assert_eq!(uri.headers.get("header"), Some("value"));
}

#[test]
fn test_parse_ipv6_uri() {
    let uri = SipUri::parse("sip:user@[::1]:5060").unwrap();
    assert_eq!(uri.scheme, UriScheme::Sip);
    assert_eq!(uri.user_info.as_ref().unwrap().user, "user");
    assert_eq!(uri.host, "[::1]");
    assert_eq!(uri.port, Some(5060));
}

#[test]
fn test_parse_ipv6_uri_no_port() {
    let uri = SipUri::parse("sip:user@[2001:db8::1]").unwrap();
    assert_eq!(uri.user_info.as_ref().unwrap().user, "user");
    assert_eq!(uri.host, "[2001:db8::1]");
    assert!(uri.port.is_none());
}

#[test]
fn test_parse_uri_with_lr_param() {
    let uri = SipUri::parse("sip:proxy.example.com;lr").unwrap();
    assert_eq!(uri.host, "proxy.example.com");
    assert!(uri.lr());
    assert!(uri.user_info.is_none());
}

#[test]
fn test_parse_uri_no_user() {
    let uri = SipUri::parse("sip:example.com:5060").unwrap();
    assert!(uri.user_info.is_none());
    assert_eq!(uri.host, "example.com");
    assert_eq!(uri.port, Some(5060));
}

#[test]
fn test_parse_uri_multiple_params() {
    let uri = SipUri::parse("sip:alice@example.com;transport=tcp;lr").unwrap();
    assert_eq!(uri.params.transport(), Some("tcp"));
    assert!(uri.lr());
}

#[test]
fn test_roundtrip_simple() {
    let input = "sip:bob@example.com";
    let uri = SipUri::parse(input).unwrap();
    let output = uri.to_string();
    let uri2 = SipUri::parse(&output).unwrap();
    assert_eq!(uri, uri2);
}

#[test]
fn test_roundtrip_full() {
    let input = "sip:alice:password@example.com:5060;transport=tcp?header=value";
    let uri = SipUri::parse(input).unwrap();
    let output = uri.to_string();
    let uri2 = SipUri::parse(&output).unwrap();
    assert_eq!(uri, uri2);
}

#[test]
fn test_roundtrip_ipv6() {
    let input = "sip:user@[::1]:5060";
    let uri = SipUri::parse(input).unwrap();
    let output = uri.to_string();
    let uri2 = SipUri::parse(&output).unwrap();
    assert_eq!(uri, uri2);
}

#[test]
fn test_roundtrip_sips() {
    let input = "sips:bob@example.com";
    let uri = SipUri::parse(input).unwrap();
    let output = uri.to_string();
    let uri2 = SipUri::parse(&output).unwrap();
    assert_eq!(uri, uri2);
}

#[test]
fn test_parse_invalid_scheme() {
    assert!(SipUri::parse("http:example.com").is_err());
}

#[test]
fn test_parse_missing_colon() {
    assert!(SipUri::parse("sipexample.com").is_err());
}

#[test]
fn test_parse_unclosed_ipv6_bracket() {
    assert!(SipUri::parse("sip:user@[::1").is_err());
}

#[test]
fn test_parse_empty_host() {
    assert!(SipUri::parse("sip:user@").is_err());
}

#[test]
fn test_from_str() {
    let uri: SipUri = "sip:alice@example.com".parse().unwrap();
    assert_eq!(uri.scheme, UriScheme::Sip);
}

fn detail(r: Result<SipUri, ParseError>) -> String {
    match r {
        Err(ParseError::InvalidUri { detail }) => detail,
        Err(other) => panic!("unexpected error {:?}", other),
        Ok(_) => panic!("expected an error"),
    }
}

#[test]
fn test_parse_error_messages() {
    assert_eq!(detail(SipUri::parse("sipexample.com")), "missing ':' after scheme");
    assert_eq!(detail(SipUri::parse("http:example.com")), "unknown URI scheme: http");
    assert_eq!(detail(SipUri::parse("sip:user@")), "empty host");
    assert_eq!(detail(SipUri::parse("sip:user@[::1")), "unclosed IPv6 bracket");
    assert_eq!(detail(SipUri::parse("sip:user@[::1]:")), "empty port after colon");
    assert_eq!(detail(SipUri::parse("sip:user@[::1]x")), "unexpected characters after IPv6 address: x");
    assert_eq!(detail(SipUri::parse("sip:user@host:99999")), "invalid port: 99999");
    assert_eq!(detail(SipUri::parse("sip::pw@host")), "empty user name");
    assert_eq!(detail(SipUri::parse("sip:@host")), "empty user info");
}

#[test]
fn test_parse_trims_and_scheme_case() {
    let uri = SipUri::parse("  SIP:bob@example.com:+5060;lr  ").unwrap();
    assert_eq!(uri.scheme, UriScheme::Sip);
    assert_eq!(uri.port, Some(5060));
    assert!(uri.lr());
    assert_eq!(uri.to_string(), "sip:bob@example.com:5060;lr");
}

#[test]
fn test_parse_at_sign_inside_brackets_is_not_user_info() {
    let uri = SipUri::parse("sip:[a@b]:5060").unwrap();
    assert!(uri.user_info.is_none());
    assert_eq!(uri.host, "[a@b]");
}

#[test]
fn test_uri_to_string_full() {
    let uri = SipUri::parse("sips:alice:pw@[::1]:5061;transport=tls;lr?subject=hi&x").unwrap();
    assert_eq!(uri.to_string(), "sips:alice:pw@[::1]:5061;transport=tls;lr?subject=hi&x=");
}

#[test]
fn test_parse_host_port_forms() {
    assert_eq!(parse_host_port("example.com:5060").unwrap(), ("example.com".to_string(), Some(5060)));
    assert_eq!(parse_host_port("example.com").unwrap(), ("example.com".to_string(), None));
    assert_eq!(parse_host_port("[::1]").unwrap(), ("[::1]".to_string(), None));
    assert!(parse_host_port("example.com:abc").is_err());
    assert!(parse_host_port("").is_err());
}

#[test]
fn test_extract_domain_from_aor() {
    assert_eq!(extract_domain_from_aor("sip:alice@example.com"), "sip:example.com");
    assert_eq!(extract_domain_from_aor("sip:bob@192.168.1.1:5060"), "sip:192.168.1.1:5060");
}

#[test]
fn test_extract_domain_from_aor_keeps_non_uri() {
    assert_eq!(extract_domain_from_aor("not a uri"), "not a uri");
    assert_eq!(extract_domain_from_aor("sips:carol@host;transport=tls?x=y"), "sips:host");
}

use siprs::message::error::ParseError;
use siprs::message::name_addr::{ContactHeader, FromToHeader, Tag};
use siprs::message::uri::{SipUri, UriScheme};

#[test]
fn test_contact_header_new() {
    let uri = SipUri::parse("sip:alice@example.com").unwrap();
    let contact = ContactHeader::new(uri);
    assert!(contact.display_name.is_none());
    assert!(contact.expires.is_none());
}

#[test]
fn test_contact_header_display() {
    let uri = SipUri::parse("sip:alice@192.168.1.1:5060").unwrap();
    let contact = ContactHeader::new(uri).with_expires(3600);
    let s = contact.to_string();
    assert!(s.contains("<sip:alice@192.168.1.1:5060>"));
    assert!(s.contains(";expires=3600"));
}

#[test]
fn test_contact_header_parse() {
    let s = "<sip:alice@example.com>;expires=3600";
    let contact: ContactHeader = s.parse().unwrap();
    assert_eq!(contact.uri.scheme, UriScheme::Sip);
    assert_eq!(contact.expires, Some(3600));
}

#[test]
fn test_contact_header_parse_with_name() {
    let s = "Alice <sip:alice@example.com>;expires=600";
    let contact: ContactHeader = s.parse().unwrap();
    assert_eq!(contact.display_name.as_ref().unwrap(), "Alice");
    assert_eq!(contact.expires, Some(600));
}

#[test]
fn test_contact_header_roundtrip() {
    let uri = SipUri::parse("sip:alice@example.com").unwrap();
    let contact = ContactHeader::new(uri).with_display_name("Alice").with_expires(3600);
    let s = contact.to_string();
    let contact2: ContactHeader = s.parse().unwrap();
    assert_eq!(contact.display_name, contact2.display_name);
    assert_eq!(contact.uri, contact2.uri);
    assert_eq!(contact.expires, contact2.expires);
}

#[test]
fn test_contact_header_errors() {
    assert!(matches!(
        "*".parse::<ContactHeader>(),
        Err(ParseError::InvalidHeader { name, .. }) if name == "Contact"
    ));
    assert!(matches!(
        "<sip:a@b>;EXPIRES=abc".parse::<ContactHeader>(),
        Err(ParseError::InvalidHeader { detail, .. }) if detail == "invalid expires value: abc"
    ));
    assert!(matches!(
        "\"Alice <sip:a@b>".parse::<ContactHeader>(),
        Err(ParseError::InvalidHeader { detail, .. }) if detail == "unclosed quote in display name"
    ));
    assert!(matches!(
        "Alice <sip:a@b".parse::<ContactHeader>(),
        Err(ParseError::InvalidHeader { detail, .. }) if detail == "unclosed '<' in URI"
    ));
    assert!(matches!("<http:a@b>".parse::<ContactHeader>(), Err(ParseError::InvalidUri { .. })));
    // Without angle brackets the URI ends at the first `;`; the last
    // `expires` wins.
    let c: ContactHeader = "sip:a@b;expires=10;x=1;expires=20".parse().unwrap();
    assert_eq!(c.uri.host, "b");
    assert_eq!(c.expires, Some(20));
}

#[test]
fn test_contact_header_quoted_name_written() {
    let uri = SipUri::parse("sip:alice@example.com").unwrap();
    let contact = ContactHeader::new(uri).with_display_name("Alice Smith");
    assert_eq!(contact.to_string(), "\"Alice Smith\" <sip:alice@example.com>");
}

#[test]
fn test_from_to_header_new() {
    let uri = SipUri::parse("sip:alice@example.com").unwrap();
    let header = FromToHeader::new(uri.clone());
    assert!(header.display_name.is_none());
    assert_eq!(header.uri, uri);
    assert!(header.tag.is_none());
}

#[test]
fn test_from_to_header_with_generated_tag() {
    let uri = SipUri::parse("sip:alice@example.com").unwrap();
    let header = FromToHeader::with_generated_tag(uri);
    assert!(header.tag.is_some());
    assert_eq!(header.tag.unwrap().0.len(), 36);
}

#[test]
fn test_from_to_header_display() {
    let uri = SipUri::parse("sip:alice@example.com").unwrap();
    let header = FromToHeader::new(uri).with_tag(Tag("abc123".to_string()));
    let s = header.to_string();
    assert!(s.contains("<sip:alice@example.com>"));
    assert!(s.contains(";tag=abc123"));
}

#[test]
fn test_from_to_header_display_with_name() {
    let uri = SipUri::parse("sip:alice@example.com").unwrap();
    let header = FromToHeader::new(uri)
        .with_display_name("Alice Smith")
        .with_tag(Tag("abc".to_string()));
    let s = header.to_string();
    assert!(s.contains("\"Alice Smith\""));
    assert!(s.contains("<sip:alice@example.com>"));
}

#[test]
fn test_from_to_header_parse_simple() {
    let s = "<sip:alice@example.com>;tag=abc123";
    let header: FromToHeader = s.parse().unwrap();
    assert!(header.display_name.is_none());
    assert_eq!(header.uri.scheme, UriScheme::Sip);
    assert_eq!(header.tag.as_ref().unwrap().0, "abc123");
}

#[test]
fn test_from_to_header_parse_with_name() {
    let s = "Alice <sip:alice@example.com>;tag=xyz";
    let header: FromToHeader = s.parse().unwrap();
    assert_eq!(header.display_name.as_ref().unwrap(), "Alice");
    assert_eq!(header.tag.as_ref().unwrap().0, "xyz");
}

#[test]
fn test_from_to_header_parse_quoted_name() {
    let s = "\"Alice Smith\" <sip:alice@example.com>;tag=abc";
    let header: FromToHeader = s.parse().unwrap();
    assert_eq!(header.display_name.as_ref().unwrap(), "Alice Smith");
}

#[test]
fn test_from_to_header_roundtrip() {
    let uri = SipUri::parse("sip:alice@example.com").unwrap();
    let header = FromToHeader::new(uri)
        .with_display_name("Alice")
        .with_tag(Tag("abc123".to_string()));
    let s = header.to_string();
    let header2: FromToHeader = s.parse().unwrap();
    assert_eq!(header.display_name, header2.display_name);
    assert_eq!(header.uri, header2.uri);
    assert_eq!(header.tag, header2.tag);
}

#[test]
fn test_from_to_header_tag_case_and_last() {
    let header: FromToHeader = "<sip:a@b>;TAG=one;x;tag=two".parse().unwrap();
    assert_eq!(header.tag.unwrap().0, "two");
}

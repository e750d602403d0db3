use siprs::message::headers::{
    parse_header_value, HeaderCollection, HeaderName, HeaderValue, ParseWarning,
};

fn read(name: HeaderName, value: &str) -> (HeaderValue, Vec<ParseWarning>) {
    let mut warnings = Vec::new();
    let v = parse_header_value(&name, value, &mut warnings);
    (v, warnings)
}

#[test]
fn numbers_are_read_after_trimming() {
    let (v, w) = read(HeaderName::MaxForwards, " 70 ");
    assert!(matches!(v, HeaderValue::MaxForwards(70)));
    assert!(w.is_empty());
    let (v, w) = read(HeaderName::ContentLength, "0");
    assert!(matches!(v, HeaderValue::ContentLength(0)));
    assert!(w.is_empty());
    let (v, _) = read(HeaderName::Expires, "3600");
    assert!(matches!(v, HeaderValue::Expires(3600)));
}

#[test]
fn bad_numbers_stay_raw_with_a_warning() {
    let (v, w) = read(HeaderName::MaxForwards, "seventy");
    match v {
        HeaderValue::Raw(t) => assert_eq!(t, "seventy"),
        other => panic!("unexpected {:?}", other),
    }
    assert_eq!(w.len(), 1);
    assert_eq!(w[0].name, "Max-Forwards");
    assert_eq!(w[0].detail, "invalid Max-Forwards value");
    assert_eq!(w[0].raw_value, "seventy");

    let (_, w) = read(HeaderName::ContentLength, "-1");
    assert_eq!(w[0].detail, "invalid Content-Length value");
    let (_, w) = read(HeaderName::Expires, "4294967296");
    assert_eq!(w[0].name, "Expires");
    assert_eq!(w[0].detail, "invalid Expires value");
}

#[test]
fn call_id_and_content_type() {
    let (v, w) = read(HeaderName::CallId, "test-call-id@example.com");
    match v {
        HeaderValue::CallId(c) => assert_eq!(c, "test-call-id@example.com"),
        other => panic!("unexpected {:?}", other),
    }
    assert!(w.is_empty());
    let (v, _) = read(HeaderName::ContentType, " application/sdp ");
    match v {
        HeaderValue::ContentType(t) => assert_eq!(t, "application/sdp"),
        other => panic!("unexpected {:?}", other),
    }
}

#[test]
fn from_to_and_contact_values() {
    let (v, w) = read(HeaderName::From, "\"Alice\" <sip:alice@example.com>;tag=1928301774");
    match v {
        HeaderValue::FromTo(h) => {
            assert_eq!(h.display_name.as_deref(), Some("Alice"));
            assert_eq!(h.uri.to_string(), "sip:alice@example.com");
            assert_eq!(h.tag.as_ref().map(|t| t.0.as_str()), Some("1928301774"));
        }
        other => panic!("unexpected {:?}", other),
    }
    assert!(w.is_empty());
    let (v, w) = read(HeaderName::Contact, "<sip:alice@192.168.1.1:5060>;expires=600");
    match v {
        HeaderValue::Contact(c) => assert_eq!(c.expires, Some(600)),
        other => panic!("unexpected {:?}", other),
    }
    assert!(w.is_empty());
}

#[test]
fn unreadable_contact_stays_raw_with_a_warning() {
    let mut warnings = Vec::new();
    let v = parse_header_value(&HeaderName::Contact, "*", &mut warnings);
    assert!(matches!(v, HeaderValue::Raw(_)));
    assert_eq!(warnings.len(), 1);
    assert_eq!(warnings[0].name, "Contact");
    assert_eq!(warnings[0].raw_value, "*");
    let v = parse_header_value(&HeaderName::To, "not a uri", &mut warnings);
    assert!(matches!(v, HeaderValue::Raw(_)));
    assert_eq!(warnings.len(), 2);
    assert_eq!(warnings[1].name, "To");
}

#[test]
fn other_headers_stay_raw_without_warning() {
    let (v, w) = read(HeaderName::Extension("X-Custom".to_string()), "custom-value");
    match v {
        HeaderValue::Raw(t) => assert_eq!(t, "custom-value"),
        other => panic!("unexpected {:?}", other),
    }
    assert!(w.is_empty());
    let (v, _) = read(HeaderName::Subject, "hello");
    assert!(matches!(v, HeaderValue::Raw(_)));
}

#[test]
fn headers_with_grammars_read_elsewhere_stay_raw_with_a_warning() {
    for (name, text) in [
        (HeaderName::Via, "Via"),
        (HeaderName::CSeq, "CSeq"),
        (HeaderName::Route, "Route"),
        (HeaderName::RecordRoute, "Record-Route"),
        (HeaderName::Allow, "Allow"),
        (HeaderName::Authorization, "Authorization"),
        (HeaderName::ProxyAuthorization, "Proxy-Authorization"),
        (HeaderName::WwwAuthenticate, "WWW-Authenticate"),
        (HeaderName::ProxyAuthenticate, "Proxy-Authenticate"),
    ] {
        let (v, w) = read(name, "invalid-via-format");
        match v {
            HeaderValue::Raw(t) => assert_eq!(t, "invalid-via-format"),
            other => panic!("unexpected {:?}", other),
        }
        assert_eq!(w.len(), 1);
        assert_eq!(w[0].name, text);
        assert_eq!(w[0].raw_value, "invalid-via-format");
        assert_eq!(w[0].detail, "value kept raw");
    }
}

#[test]
fn test_header_collection_insert_and_get() {
    let mut collection = HeaderCollection::new();
    collection.insert(HeaderName::CallId, HeaderValue::CallId("test-call-id".to_string()));
    collection.insert(HeaderName::MaxForwards, HeaderValue::MaxForwards(70));

    let call_id = collection.get(&HeaderName::CallId);
    assert!(call_id.is_some());
    assert_eq!(call_id.unwrap().as_call_id().unwrap(), "test-call-id");

    let max_forwards = collection.get(&HeaderName::MaxForwards);
    assert!(max_forwards.is_some());
    assert_eq!(max_forwards.unwrap().as_max_forwards().unwrap(), 70);
}

#[test]
fn test_header_collection_remove() {
    let mut collection = HeaderCollection::new();
    collection.insert(HeaderName::CallId, HeaderValue::CallId("test".to_string()));
    assert!(collection.contains(&HeaderName::CallId));

    collection.remove(&HeaderName::CallId);
    assert!(!collection.contains(&HeaderName::CallId));
}

#[test]
fn test_header_collection_iter() {
    let mut collection = HeaderCollection::new();
    collection.insert(HeaderName::CallId, HeaderValue::CallId("test".to_string()));
    collection.insert(HeaderName::MaxForwards, HeaderValue::MaxForwards(70));

    let count = collection.iter().len();
    assert_eq!(count, 2);
}

#[test]
fn header_collection_keeps_order_and_first_wins() {
    let mut c = HeaderCollection::default();
    assert!(c.is_empty());
    c.insert(HeaderName::Via, HeaderValue::Raw("a".to_string()));
    c.insert(HeaderName::Extension("Via".to_string()), HeaderValue::Raw("x".to_string()));
    c.insert(HeaderName::Via, HeaderValue::Raw("b".to_string()));
    assert_eq!(c.len(), 3);
    match c.get(&HeaderName::Via) {
        Some(HeaderValue::Raw(t)) => assert_eq!(t, "a"),
        other => panic!("unexpected {:?}", other),
    }
    let all = c.get_all(&HeaderName::Via);
    assert_eq!(all.len(), 2);
    assert!(matches!(all[1], HeaderValue::Raw(t) if t == "b"));
    assert_eq!(c.get_all(&HeaderName::Extension("Via".to_string())).len(), 1);
    assert!(c.get(&HeaderName::Extension("via".to_string())).is_none());
    c.remove(&HeaderName::Via);
    assert_eq!(c.len(), 1);
    assert!(c.contains(&HeaderName::Extension("Via".to_string())));
    assert!(c.get(&HeaderName::CallId).is_none());
}

#[test]
fn header_value_accessors() {
    assert_eq!(HeaderValue::ContentLength(5).as_content_length(), Some(5));
    assert_eq!(HeaderValue::Raw("5".to_string()).as_content_length(), None);
    assert_eq!(HeaderValue::MaxForwards(70).as_call_id(), None);
    let (v, _) = read(HeaderName::Contact, "<sip:a@h>");
    assert!(v.as_contact().is_some());
    assert!(v.as_from_to().is_none());
}

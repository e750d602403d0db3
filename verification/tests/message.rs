use siprs::message::headers::{unfold_headers, HeaderName};
use siprs::message::error::ParseError;
use siprs::message::parser::{
    is_status_line, split_first_line, split_headers_body, MessageParser,
};
use siprs::message::uri::{UriHeaders, UriParams, UriScheme, UserInfo};

// ---- UriScheme ----

#[test]
fn test_uri_scheme_display() {
    assert_eq!(UriScheme::Sip.to_string(), "sip");
    assert_eq!(UriScheme::Sips.to_string(), "sips");
    assert_eq!(UriScheme::SipWs.to_string(), "sip+ws");
    assert_eq!(UriScheme::SipWss.to_string(), "sip+wss");
}

#[test]
fn test_uri_scheme_from_str() {
    assert!(matches!("sip".parse::<UriScheme>(), Ok(UriScheme::Sip)));
    assert!(matches!("SIPS".parse::<UriScheme>(), Ok(UriScheme::Sips)));
    assert!(matches!("sip+ws".parse::<UriScheme>(), Ok(UriScheme::SipWs)));
    assert!(matches!("SIP+WSS".parse::<UriScheme>(), Ok(UriScheme::SipWss)));
    assert!("http".parse::<UriScheme>().is_err());
}

// ---- UserInfo ----

#[test]
fn test_user_info_display() {
    let ui = UserInfo {
        user: "alice".to_string(),
        password: None,
    };
    assert_eq!(ui.to_string(), "alice");

    let ui_with_pw = UserInfo {
        user: "alice".to_string(),
        password: Some("secret".to_string()),
    };
    assert_eq!(ui_with_pw.to_string(), "alice:secret");
}

// ---- UriParams ----

#[test]
fn test_uri_params_transport() {
    let mut params = UriParams::new();
    params.insert("transport", Some("tcp".to_string()));
    params.insert("lr", None);
    assert_eq!(params.transport(), Some("tcp"));
    assert!(params.lr());
}

#[test]
fn test_uri_params_display() {
    let mut params = UriParams::new();
    params.insert("transport", Some("tcp".to_string()));
    params.insert("lr", None);
    assert_eq!(params.to_string(), ";transport=tcp;lr");
}

// ---- UriHeaders ----

#[test]
fn test_uri_headers_display() {
    let mut headers = UriHeaders::new();
    headers.insert("header", "value");
    assert_eq!(headers.to_string(), "?header=value");

    let mut headers2 = UriHeaders::new();
    headers2.insert("h1", "v1");
    headers2.insert("h2", "v2");
    assert_eq!(headers2.to_string(), "?h1=v1&h2=v2");
}

// ---- HeaderName ----

#[test]
fn test_header_name_from_str_case_insensitive() {
    assert_eq!(
        HeaderName::from_str_case_insensitive("Via"),
        HeaderName::Via
    );
    assert_eq!(
        HeaderName::from_str_case_insensitive("via"),
        HeaderName::Via
    );
    assert_eq!(
        HeaderName::from_str_case_insensitive("VIA"),
        HeaderName::Via
    );
    assert_eq!(
        HeaderName::from_str_case_insensitive("Call-ID"),
        HeaderName::CallId
    );
    assert_eq!(
        HeaderName::from_str_case_insensitive("call-id"),
        HeaderName::CallId
    );
    assert_eq!(
        HeaderName::from_str_case_insensitive("Content-Type"),
        HeaderName::ContentType
    );
    assert_eq!(
        HeaderName::from_str_case_insensitive("X-Custom"),
        HeaderName::Extension("X-Custom".to_string())
    );
}

#[test]
fn test_header_name_display() {
    assert_eq!(HeaderName::Via.to_string(), "Via");
    assert_eq!(HeaderName::CallId.to_string(), "Call-ID");
    assert_eq!(HeaderName::ContentLength.to_string(), "Content-Length");
    assert_eq!(
        HeaderName::Extension("X-Custom".to_string()).to_string(),
        "X-Custom"
    );
}

// ---- Folded lines ----

#[test]
fn test_unfold_headers() {
    let folded = "Via: SIP/2.0/UDP proxy.example.com;\r\n branch=z9hG4bK-abc";
    let unfolded = unfold_headers(folded);
    assert_eq!(
        unfolded,
        "Via: SIP/2.0/UDP proxy.example.com; branch=z9hG4bK-abc"
    );
}

#[test]
fn test_unfold_headers_tab() {
    let folded = "Via: SIP/2.0/UDP proxy.example.com;\r\n\tbranch=z9hG4bK-abc";
    let unfolded = unfold_headers(folded);
    assert_eq!(
        unfolded,
        "Via: SIP/2.0/UDP proxy.example.com; branch=z9hG4bK-abc"
    );
}

#[test]
fn test_unfold_headers_no_fold() {
    let normal = "Via: SIP/2.0/UDP proxy.example.com;branch=z9hG4bK-abc";
    let unfolded = unfold_headers(normal);
    assert_eq!(unfolded, normal);
}

// ---- Framing ----

#[test]
fn test_is_status_line() {
    assert!(is_status_line("SIP/2.0 200 OK"));
    assert!(is_status_line("  SIP/2.0 200 OK"));
    assert!(!is_status_line("INVITE sip:bob@example.com SIP/2.0"));
    assert!(!is_status_line("REGISTER sip:example.com SIP/2.0"));
}

#[test]
fn test_split_first_line() {
    let (line, rest) = split_first_line("INVITE sip:bob@example.com SIP/2.0\r\nrest");
    assert_eq!(line, "INVITE sip:bob@example.com SIP/2.0");
    assert_eq!(rest, "rest");
}

#[test]
fn test_split_headers_body() {
    let (headers, body) =
        split_headers_body("Header1: value1\r\nHeader2: value2\r\n\r\nbody content");
    assert!(headers.contains("Header1: value1"));
    assert!(headers.contains("Header2: value2"));
    assert_eq!(body, "body content");
}

#[test]
fn test_split_headers_body_no_body() {
    let (headers, body) = split_headers_body("Header1: value1\r\n\r\n");
    assert!(headers.contains("Header1: value1"));
    assert!(body.is_empty());
}

#[test]
fn header_names_in_any_ascii_case() {
    assert_eq!(HeaderName::from_str_case_insensitive("vIa"), HeaderName::Via);
    assert_eq!(HeaderName::from_str_case_insensitive("CALL-id"), HeaderName::CallId);
    assert_eq!(
        HeaderName::from_str_case_insensitive("wWw-AuThEnTiCaTe"),
        HeaderName::WwwAuthenticate
    );
    assert_eq!(HeaderName::from_str_case_insensitive("MIN-EXPIRES"), HeaderName::MinExpires);
    assert_eq!(HeaderName::from_str_case_insensitive("cseq"), HeaderName::CSeq);
    assert_eq!(
        HeaderName::from_str_case_insensitive("X-Custom"),
        HeaderName::Extension("X-Custom".to_string())
    );
}

#[test]
fn frame_finds_a_complete_message() {
    let parser = MessageParser::new(65536);
    let text = "INVITE sip:a SIP/2.0\r\nContent-Length: 5\r\n\r\nhello";
    assert_eq!(parser.frame(text), Ok(Some(48)));
    let more = format!("{}NOTIFY sip:b SIP/2.0\r\n", text);
    assert_eq!(parser.frame(&more), Ok(Some(48)));
}

#[test]
fn frame_waits_for_the_rest() {
    let parser = MessageParser::default_parser();
    assert_eq!(parser.frame("INVITE sip:a SIP/2.0"), Ok(None));
    assert_eq!(parser.frame("INVITE sip:a SIP/2.0\r\nCall-ID: x\r\n"), Ok(None));
    assert_eq!(
        parser.frame("INVITE sip:a SIP/2.0\r\nContent-Length: 5\r\n\r\nhel"),
        Ok(None)
    );
}

#[test]
fn frame_reads_the_first_content_length_in_any_form() {
    let parser = MessageParser::default_parser();
    let compact = "SIP/2.0 200 OK\r\nCall-ID: x\r\nl: 3\r\ncontent-length: 9\r\n\r\nabcdefghijkl";
    assert_eq!(parser.frame(compact), Ok(Some(58)));
    let none = "SIP/2.0 200 OK\r\nCall-ID: x\r\n\r\nbody";
    assert_eq!(parser.frame(none), Ok(Some(30)));
    let bad = "SIP/2.0 200 OK\r\nContent-Length: many\r\n\r\nbody";
    assert_eq!(parser.frame(bad), Ok(Some(40)));
}

#[test]
fn frame_refuses_a_text_over_the_limit() {
    let parser = MessageParser::new(10);
    assert_eq!(
        parser.frame("INVITE sip:a SIP/2.0\r\n\r\n"),
        Err(ParseError::MessageTooLarge { size: 24, max: 10 })
    );
}

#[test]
fn frame_of_a_request_without_headers() {
    let parser = MessageParser::default_parser();
    assert_eq!(parser.frame("INVITE sip:bob@example.com SIP/2.0\r\n\r\n"), Ok(Some(38)));
    assert_eq!(parser.frame("INVITE sip:bob@example.com SIP/2.0\n\n"), Ok(None));
}

#[test]
fn split_first_line_at_the_end_of_the_text() {
    let (line, rest) = split_first_line("INVITE sip:a SIP/2.0\n");
    assert_eq!(line, "INVITE sip:a SIP/2.0");
    assert_eq!(rest, "");
    let (line, rest) = split_first_line("INVITE sip:a SIP/2.0\r\n");
    assert_eq!(line, "INVITE sip:a SIP/2.0");
    assert_eq!(rest, "");
    let (line, rest) = split_first_line("A\nBC");
    assert_eq!(line, "A");
    assert_eq!(rest, "C");
}

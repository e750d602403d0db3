use siprs::message::error::ParseError;
use siprs::message::parser::parse_status_line;

#[test]
fn test_parse_status_line_ok() {
    let sl = parse_status_line("SIP/2.0 200 OK").unwrap();
    assert_eq!(sl.status_code, 200);
    assert_eq!(sl.reason_phrase, "OK");
}

#[test]
fn test_parse_status_line_trying() {
    let sl = parse_status_line("SIP/2.0 100 Trying").unwrap();
    assert_eq!(sl.status_code, 100);
    assert_eq!(sl.reason_phrase, "Trying");
}

#[test]
fn test_parse_status_line_invalid_version() {
    let result = parse_status_line("SIP/1.0 200 OK");
    assert!(result.is_err());
    assert!(matches!(result.unwrap_err(), ParseError::InvalidVersion { .. }));
}

#[test]
fn test_parse_status_line_invalid_status_code_low() {
    let result = parse_status_line("SIP/2.0 99 Bad");
    assert!(result.is_err());
    assert!(matches!(result.unwrap_err(), ParseError::InvalidStatusCode { code: 99 }));
}

#[test]
fn test_parse_status_line_invalid_status_code_high() {
    let result = parse_status_line("SIP/2.0 800 Bad");
    assert!(result.is_err());
    assert!(matches!(result.unwrap_err(), ParseError::InvalidStatusCode { code: 800 }));
}

#[test]
fn test_parse_status_line_edges() {
    // No reason phrase.
    let sl = parse_status_line("  SIP/2.0 180  ").unwrap();
    assert_eq!(sl.status_code, 180);
    assert_eq!(sl.reason_phrase, "");
    // The reason phrase keeps its inner spaces.
    let sl = parse_status_line("SIP/2.0 486 Busy Here").unwrap();
    assert_eq!(sl.reason_phrase, "Busy Here");
    // No space at all.
    assert!(matches!(
        parse_status_line("SIP/2.0"),
        Err(ParseError::InvalidStartLine { detail }) if detail == "invalid status line format: SIP/2.0"
    ));
    // A code that is no number is reported as 0.
    assert!(matches!(
        parse_status_line("SIP/2.0 abc OK"),
        Err(ParseError::InvalidStatusCode { code: 0 })
    ));
    assert!(matches!(
        parse_status_line("SIP/2.0 70000 Big"),
        Err(ParseError::InvalidStatusCode { code: 0 })
    ));
    assert!(matches!(
        parse_status_line("SIP/3.0 200 OK"),
        Err(ParseError::InvalidVersion { version }) if version == "SIP/3.0"
    ));
}

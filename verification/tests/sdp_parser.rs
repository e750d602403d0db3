use siprs::sdp::parser::SdpParser;
use siprs::sdp::types::{MediaType, SdpError};

#[test]
fn test_parse_basic_sdp() {
    let sdp_text = "v=0\r\no=- 1234 1234 IN IP4 192.168.1.1\r\ns=Session\r\nc=IN IP4 192.168.1.1\r\nt=0 0\r\nm=video 5000 RTP/AVP 96\r\na=rtpmap:96 PS/90000\r\na=recvonly\r\n";
    let sdp = SdpParser::parse(sdp_text).unwrap();

    assert_eq!(sdp.version, 0);
    assert_eq!(sdp.origin.username, "-");
    assert_eq!(sdp.origin.session_id, 1234);
    assert_eq!(sdp.origin.session_version, 1234);
    assert_eq!(sdp.origin.network_type, "IN");
    assert_eq!(sdp.origin.address_type, "IP4");
    assert_eq!(sdp.origin.unicast_address, "192.168.1.1");
    assert_eq!(sdp.session_name, "Session");
    assert!(sdp.connection.is_some());
    assert_eq!(sdp.time_descriptions.len(), 1);
    assert_eq!(sdp.time_descriptions[0].start_time, 0);
    assert_eq!(sdp.time_descriptions[0].stop_time, 0);
    assert_eq!(sdp.media_descriptions.len(), 1);

    let media = &sdp.media_descriptions[0];
    assert_eq!(media.media, MediaType::Video);
    assert_eq!(media.port, 5000);
    assert_eq!(media.proto, "RTP/AVP");
    assert_eq!(media.formats, vec!["96"]);
    assert_eq!(media.attributes.len(), 2);
    assert_eq!(media.attributes[0].name, "rtpmap");
    assert_eq!(media.attributes[0].value.as_deref(), Some("96 PS/90000"));
    assert_eq!(media.attributes[1].name, "recvonly");
    assert_eq!(media.attributes[1].value, None);
}

#[test]
fn test_parse_sdp_with_multiple_media() {
    let sdp_text = "\
v=0\r\n\
o=- 1234 1234 IN IP4 192.168.1.1\r\n\
s=Session\r\n\
t=0 0\r\n\
m=audio 5002 RTP/AVP 8 0\r\n\
a=rtpmap:8 PCMA/8000\r\n\
m=video 5000 RTP/AVP 96\r\n\
a=rtpmap:96 PS/90000\r\n";

    let sdp = SdpParser::parse(sdp_text).unwrap();
    assert_eq!(sdp.media_descriptions.len(), 2);

    // 音频媒体
    let audio = &sdp.media_descriptions[0];
    assert_eq!(audio.media, MediaType::Audio);
    assert_eq!(audio.port, 5002);
    assert_eq!(audio.formats, vec!["8", "0"]);

    // 视频媒体
    let video = &sdp.media_descriptions[1];
    assert_eq!(video.media, MediaType::Video);
    assert_eq!(video.port, 5000);
}

#[test]
fn test_parse_sdp_with_bandwidth() {
    let sdp_text = "\
v=0\r\n\
o=- 1234 1234 IN IP4 192.168.1.1\r\n\
s=Session\r\n\
b=AS:8000\r\n\
t=0 0\r\n";

    let sdp = SdpParser::parse(sdp_text).unwrap();
    assert_eq!(sdp.bandwidth.len(), 1);
    assert_eq!(sdp.bandwidth[0].bandwidth_type, "AS");
    assert_eq!(sdp.bandwidth[0].bandwidth, 8000);
}

#[test]
fn test_parse_sdp_with_connection_multicast() {
    let sdp_text = "\
v=0\r\n\
o=- 1234 1234 IN IP4 192.168.1.1\r\n\
s=Session\r\n\
c=IN IP4 224.2.1.1/127/3\r\n\
t=0 0\r\n";

    let sdp = SdpParser::parse(sdp_text).unwrap();
    let conn = sdp.connection.unwrap();
    assert_eq!(conn.connection_address, "224.2.1.1");
    assert_eq!(conn.ttl, Some(127));
    assert_eq!(conn.number_of_addresses, Some(3));
}

#[test]
fn test_parse_sdp_with_repeat_time() {
    let sdp_text = "\
v=0\r\n\
o=- 1234 1234 IN IP4 192.168.1.1\r\n\
s=Session\r\n\
t=3034423619 3042462419\r\n\
r=604800 3600 0 90000\r\n";

    let sdp = SdpParser::parse(sdp_text).unwrap();
    assert_eq!(sdp.time_descriptions.len(), 1);
    let td = &sdp.time_descriptions[0];
    assert_eq!(td.start_time, 3034423619);
    assert_eq!(td.stop_time, 3042462419);
    assert_eq!(td.repeat_times.len(), 1);
    assert_eq!(td.repeat_times[0].repeat_interval, 604800);
    assert_eq!(td.repeat_times[0].active_duration, 3600);
    assert_eq!(td.repeat_times[0].offsets, vec![0, 90000]);
}

#[test]
fn test_parse_sdp_with_encryption() {
    let sdp_text = "\
v=0\r\n\
o=- 1234 1234 IN IP4 192.168.1.1\r\n\
s=Session\r\n\
k=base64:key123\r\n\
t=0 0\r\n";

    let sdp = SdpParser::parse(sdp_text).unwrap();
    let enc = sdp.encryption.unwrap();
    assert_eq!(enc.method, "base64");
    assert_eq!(enc.encryption_key.as_deref(), Some("key123"));
}

#[test]
fn test_parse_sdp_with_media_encryption() {
    let sdp_text = "\
v=0\r\n\
o=- 1234 1234 IN IP4 192.168.1.1\r\n\
s=Session\r\n\
t=0 0\r\n\
m=video 5000 RTP/AVP 96\r\n\
k=prompt\r\n";

    let sdp = SdpParser::parse(sdp_text).unwrap();
    let enc = sdp.media_descriptions[0].encryption.as_ref().unwrap();
    assert_eq!(enc.method, "prompt");
    assert_eq!(enc.encryption_key, None);
}

#[test]
fn test_parse_sdp_with_media_title() {
    let sdp_text = "\
v=0\r\n\
o=- 1234 1234 IN IP4 192.168.1.1\r\n\
s=Session\r\n\
t=0 0\r\n\
m=video 5000 RTP/AVP 96\r\n\
i=Video Channel\r\n";

    let sdp = SdpParser::parse(sdp_text).unwrap();
    assert_eq!(
        sdp.media_descriptions[0].title.as_deref(),
        Some("Video Channel")
    );
}

#[test]
fn test_parse_sdp_with_session_info() {
    let sdp_text = "\
v=0\r\n\
o=- 1234 1234 IN IP4 192.168.1.1\r\n\
s=Session\r\n\
i=A test session\r\n\
t=0 0\r\n";

    let sdp = SdpParser::parse(sdp_text).unwrap();
    assert_eq!(sdp.session_info.as_deref(), Some("A test session"));
}

#[test]
fn test_parse_sdp_with_uri_email_phone() {
    let sdp_text = "\
v=0\r\n\
o=- 1234 1234 IN IP4 192.168.1.1\r\n\
s=Session\r\n\
u=http://example.com\r\n\
e=user@example.com\r\n\
p=+1234567890\r\n\
t=0 0\r\n";

    let sdp = SdpParser::parse(sdp_text).unwrap();
    assert_eq!(sdp.uri.as_deref(), Some("http://example.com"));
    assert_eq!(sdp.email.as_deref(), Some("user@example.com"));
    assert_eq!(sdp.phone.as_deref(), Some("+1234567890"));
}

#[test]
fn test_parse_sdp_with_timezone() {
    let sdp_text = "\
v=0\r\n\
o=- 1234 1234 IN IP4 192.168.1.1\r\n\
s=Session\r\n\
t=0 0\r\n\
z=2882844526 -1h 2898848070 0\r\n";

    let sdp = SdpParser::parse(sdp_text).unwrap();
    assert_eq!(sdp.timezone.as_deref(), Some("2882844526 -1h 2898848070 0"));
}

#[test]
fn test_parse_gb28181_sdp() {
    let sdp_text = "\
v=0\r\n\
o=- 1234 1234 IN IP4 192.168.1.1\r\n\
s=Play\r\n\
c=IN IP4 192.168.1.1\r\n\
t=0 0\r\n\
m=video 5000 RTP/AVP 96 97 98\r\n\
a=rtpmap:96 PS/90000\r\n\
a=rtpmap:97 H264/90000\r\n\
a=rtpmap:98 H265/90000\r\n\
a=recvonly\r\n\
y=01234567890000000001\r\n\
f=v/2/4///a/1/8///\r\n";

    let sdp = SdpParser::parse(sdp_text).unwrap();
    assert_eq!(sdp.ssrc.as_deref(), Some("01234567890000000001"));
    assert_eq!(sdp.media_format.as_deref(), Some("v/2/4///a/1/8///"));

    // y= 和 f= 也应该出现在媒体描述的属性中
    let media = &sdp.media_descriptions[0];
    let y_attr = media.attributes.iter().find(|a| a.name == "y");
    assert!(y_attr.is_some());
    assert_eq!(
        y_attr.unwrap().value.as_deref(),
        Some("01234567890000000001")
    );

    let f_attr = media.attributes.iter().find(|a| a.name == "f");
    assert!(f_attr.is_some());
    assert_eq!(f_attr.unwrap().value.as_deref(), Some("v/2/4///a/1/8///"));
}

#[test]
fn test_parse_sdp_with_media_connection() {
    let sdp_text = "\
v=0\r\n\
o=- 1234 1234 IN IP4 192.168.1.1\r\n\
s=Session\r\n\
t=0 0\r\n\
m=video 5000 RTP/AVP 96\r\n\
c=IN IP4 10.0.0.1\r\n\
a=rtpmap:96 PS/90000\r\n";

    let sdp = SdpParser::parse(sdp_text).unwrap();
    let conn = sdp.media_descriptions[0].connection.as_ref().unwrap();
    assert_eq!(conn.connection_address, "10.0.0.1");
}

#[test]
fn test_parse_sdp_with_media_bandwidth() {
    let sdp_text = "\
v=0\r\n\
o=- 1234 1234 IN IP4 192.168.1.1\r\n\
s=Session\r\n\
t=0 0\r\n\
m=video 5000 RTP/AVP 96\r\n\
b=AS:4000\r\n\
a=rtpmap:96 PS/90000\r\n";

    let sdp = SdpParser::parse(sdp_text).unwrap();
    assert_eq!(sdp.media_descriptions[0].bandwidth.len(), 1);
    assert_eq!(sdp.media_descriptions[0].bandwidth[0].bandwidth, 4000);
}

#[test]
fn test_parse_sdp_with_port_count() {
    let sdp_text = "\
v=0\r\n\
o=- 1234 1234 IN IP4 192.168.1.1\r\n\
s=Session\r\n\
t=0 0\r\n\
m=video 5000/2 RTP/AVP 96\r\n";

    let sdp = SdpParser::parse(sdp_text).unwrap();
    assert_eq!(sdp.media_descriptions[0].port, 5000);
    assert_eq!(sdp.media_descriptions[0].number_of_ports, Some(2));
}

#[test]
fn test_parse_error_missing_equals() {
    let sdp_text = "v0\r\no=- 1234 1234 IN IP4 192.168.1.1\r\ns=Session\r\nt=0 0\r\n";
    let result = SdpParser::parse(sdp_text);
    assert!(result.is_err());
    if let Err(SdpError::ParseError { detail, .. }) = result {
        assert!(detail.contains("expected '='"));
    } else {
        panic!("Expected ParseError");
    }
}

#[test]
fn test_parse_error_invalid_origin() {
    let sdp_text = "v=0\r\no=bad\r\ns=Session\r\nt=0 0\r\n";
    let result = SdpParser::parse(sdp_text);
    assert!(result.is_err());
}

#[test]
fn test_parse_error_missing_time() {
    let sdp_text = "v=0\r\no=- 1234 1234 IN IP4 192.168.1.1\r\ns=Session\r\n";
    let result = SdpParser::parse(sdp_text);
    assert!(result.is_err());
    if let Err(SdpError::MissingField { field }) = result {
        assert!(field.contains("time_description"));
    } else {
        panic!("Expected MissingField error");
    }
}

#[test]
fn test_parse_error_repeat_without_time() {
    let sdp_text =
        "v=0\r\no=- 1234 1234 IN IP4 192.168.1.1\r\ns=Session\r\nr=604800 3600 0\r\n";
    let result = SdpParser::parse(sdp_text);
    assert!(result.is_err());
}

#[test]
fn test_parse_sdp_lf_only() {
    // 支持 \n 换行（非标准但常见）
    let sdp_text = "v=0\no=- 1234 1234 IN IP4 192.168.1.1\ns=Session\nt=0 0\n";
    let sdp = SdpParser::parse(sdp_text).unwrap();
    assert_eq!(sdp.version, 0);
    assert_eq!(sdp.session_name, "Session");
}

#[test]
fn test_parse_sdp_session_level_attributes() {
    let sdp_text = "\
v=0\r\n\
o=- 1234 1234 IN IP4 192.168.1.1\r\n\
s=Session\r\n\
a=tool:testapp\r\n\
a=recvonly\r\n\
t=0 0\r\n";

    let sdp = SdpParser::parse(sdp_text).unwrap();
    assert_eq!(sdp.attributes.len(), 2);
    assert_eq!(sdp.attributes[0].name, "tool");
    assert_eq!(sdp.attributes[0].value.as_deref(), Some("testapp"));
    assert_eq!(sdp.attributes[1].name, "recvonly");
}

#[test]
fn test_parse_sdp_multiple_time_descriptions() {
    let sdp_text = "\
v=0\r\n\
o=- 1234 1234 IN IP4 192.168.1.1\r\n\
s=Session\r\n\
t=3034423619 3042462419\r\n\
r=604800 3600 0 90000\r\n\
t=3042462420 3043462420\r\n";

    let sdp = SdpParser::parse(sdp_text).unwrap();
    assert_eq!(sdp.time_descriptions.len(), 2);
    assert_eq!(sdp.time_descriptions[0].start_time, 3034423619);
    assert_eq!(sdp.time_descriptions[0].repeat_times.len(), 1);
    assert_eq!(sdp.time_descriptions[1].start_time, 3042462420);
    assert_eq!(sdp.time_descriptions[1].repeat_times.len(), 0);
}

#[test]
fn wide_type_character_is_a_parse_error() {
    let text = "v=0\r\no=- 1 1 IN IP4 1.1.1.1\r\ns=S\r\nt=0 0\r\n中=x\r\n";
    match SdpParser::parse(text) {
        Err(SdpError::ParseError { line_no, detail }) => {
            assert_eq!(line_no, 5);
            assert_eq!(detail, "invalid type character: '中'");
        }
        other => panic!("expected ParseError, got {:?}", other),
    }
}

#[test]
fn single_wide_character_line_is_too_short() {
    let text = "v=0\r\n中\r\n";
    match SdpParser::parse(text) {
        Err(SdpError::ParseError { line_no, detail }) => {
            assert_eq!(line_no, 2);
            assert_eq!(detail, "line too short: '中'");
        }
        other => panic!("expected ParseError, got {:?}", other),
    }
}

#[test]
fn two_byte_type_character_keeps_the_equals_sign() {
    let text = "v=0\r\no=- 1 1 IN IP4 1.1.1.1\r\ns=S\r\nt=0 0\r\né=x\r\n";
    let sdp = SdpParser::parse(text).unwrap();
    assert_eq!(sdp.session_name, "S");
}

#[test]
fn parsed_text_reads_back_after_writing() {
    let text = "v=0\r\no=- 7 8 IN IP4 10.0.0.1\r\ns=Play\r\nc=IN IP4 10.0.0.1\r\nt=0 0\r\nm=video 6000 RTP/AVP 96 98\r\na=rtpmap:96 PS/90000\r\na=recvonly\r\nb=AS:512\r\nk=clear:key\r\n";
    let first = SdpParser::parse(text).unwrap();
    let second = SdpParser::parse(&first.to_sdp_string()).unwrap();
    assert_eq!(first, second);
}

#[test]
fn text_without_origin_line_does_not_read_back() {
    let text = "v=0\r\ns=S\r\nt=0 0\r\n";
    let first = SdpParser::parse(text).unwrap();
    assert_eq!(first.origin.username, "");
    assert!(matches!(
        SdpParser::parse(&first.to_sdp_string()),
        Err(SdpError::ParseError { line_no: 2, .. })
    ));
}

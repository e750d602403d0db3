use siprs::sdp::builder::SdpBuilder;
use siprs::sdp::parser::SdpParser;
use siprs::sdp::types::{Connection, Encryption, MediaDescription, MediaType, Origin};

fn test_origin() -> Origin {
    Origin {
        username: "-".to_string(),
        session_id: 1234,
        session_version: 1234,
        network_type: "IN".to_string(),
        address_type: "IP4".to_string(),
        unicast_address: "192.168.1.1".to_string(),
    }
}

#[test]
fn test_builder_basic() {
    let sdp = SdpBuilder::new(test_origin(), "Test Session")
        .connection(Connection::ipv4("192.168.1.1"))
        .time(0, 0)
        .build();

    assert_eq!(sdp.version, 0);
    assert_eq!(sdp.session_name, "Test Session");
    assert!(sdp.connection.is_some());
    assert_eq!(sdp.time_descriptions.len(), 1);
}

#[test]
fn test_builder_with_attributes() {
    let sdp = SdpBuilder::new(test_origin(), "Test")
        .time(0, 0)
        .attribute("recvonly", None)
        .attribute("tool", Some("testapp".to_string()))
        .build();

    assert_eq!(sdp.attributes.len(), 2);
    assert_eq!(sdp.attributes[0].name, "recvonly");
    assert_eq!(sdp.attributes[1].name, "tool");
    assert_eq!(sdp.attributes[1].value.as_deref(), Some("testapp"));
}

#[test]
fn test_builder_with_media() {
    let media = MediaDescription::new(MediaType::Video, 5000, "RTP/AVP")
        .with_format("96")
        .with_rtpmap(96, "PS/90000")
        .with_attribute("recvonly", None);

    let sdp = SdpBuilder::new(test_origin(), "Test")
        .time(0, 0)
        .media(media)
        .build();

    assert_eq!(sdp.media_descriptions.len(), 1);
    assert_eq!(sdp.media_descriptions[0].port, 5000);
    assert_eq!(sdp.media_descriptions[0].formats, vec!["96"]);
}

#[test]
fn test_builder_with_bandwidth() {
    let sdp = SdpBuilder::new(test_origin(), "Test")
        .time(0, 0)
        .bandwidth("AS", 8000)
        .build();

    assert_eq!(sdp.bandwidth.len(), 1);
    assert_eq!(sdp.bandwidth[0].bandwidth_type, "AS");
    assert_eq!(sdp.bandwidth[0].bandwidth, 8000);
}

#[test]
fn test_serialize_basic() {
    let sdp = SdpBuilder::new(test_origin(), "Test Session")
        .connection(Connection::ipv4("192.168.1.1"))
        .time(0, 0)
        .build();

    let sdp_str = sdp.to_sdp_string();
    assert!(sdp_str.contains("v=0\r\n"));
    assert!(sdp_str.contains("o=- 1234 1234 IN IP4 192.168.1.1\r\n"));
    assert!(sdp_str.contains("s=Test Session\r\n"));
    assert!(sdp_str.contains("c=IN IP4 192.168.1.1\r\n"));
    assert!(sdp_str.contains("t=0 0\r\n"));
}

#[test]
fn test_serialize_with_media() {
    let media = MediaDescription::new(MediaType::Video, 5000, "RTP/AVP")
        .with_format("96")
        .with_rtpmap(96, "PS/90000")
        .with_attribute("recvonly", None);

    let sdp = SdpBuilder::new(test_origin(), "Test")
        .time(0, 0)
        .media(media)
        .build();

    let sdp_str = sdp.to_sdp_string();
    assert!(sdp_str.contains("m=video 5000 RTP/AVP 96\r\n"));
    assert!(sdp_str.contains("a=rtpmap:96 PS/90000\r\n"));
    assert!(sdp_str.contains("a=recvonly\r\n"));
}

#[test]
fn test_serialize_with_optional_fields() {
    let sdp = SdpBuilder::new(test_origin(), "Test")
        .session_info("A test session")
        .uri("http://example.com")
        .email("user@example.com")
        .phone("+1234567890")
        .time(0, 0)
        .timezone("2882844526 -1h 2898848070 0")
        .build();

    let sdp_str = sdp.to_sdp_string();
    assert!(sdp_str.contains("i=A test session\r\n"));
    assert!(sdp_str.contains("u=http://example.com\r\n"));
    assert!(sdp_str.contains("e=user@example.com\r\n"));
    assert!(sdp_str.contains("p=+1234567890\r\n"));
    assert!(sdp_str.contains("z=2882844526 -1h 2898848070 0\r\n"));
}

#[test]
fn test_serialize_with_encryption() {
    let sdp = SdpBuilder::new(test_origin(), "Test")
        .time(0, 0)
        .encryption(Encryption {
            method: "base64".to_string(),
            encryption_key: Some("key123".to_string()),
        })
        .build();

    let sdp_str = sdp.to_sdp_string();
    assert!(sdp_str.contains("k=base64:key123\r\n"));
}

#[test]
fn test_serialize_with_repeat_time() {
    let sdp = SdpBuilder::new(test_origin(), "Test")
        .time_with_repeat(3034423619, 3042462419, 604800, 3600, vec![0, 90000])
        .build();

    let sdp_str = sdp.to_sdp_string();
    assert!(sdp_str.contains("t=3034423619 3042462419\r\n"));
    assert!(sdp_str.contains("r=604800 3600 0 90000\r\n"));
}

#[test]
fn test_serialize_gb28181() {
    let sdp = SdpBuilder::new(test_origin(), "Play")
        .connection(Connection::ipv4("192.168.1.1"))
        .time(0, 0)
        .ssrc("01234567890000000001")
        .media_format("v/2/4///a/1/8///")
        .build();

    let sdp_str = sdp.to_sdp_string();
    assert!(sdp_str.contains("y=01234567890000000001\r\n"));
    assert!(sdp_str.contains("f=v/2/4///a/1/8///\r\n"));
}

#[test]
fn test_roundtrip() {
    // SDP 往返一致性测试：解析 -> 序列化 -> 再解析
    let original = "\
v=0\r\n\
o=- 1234 1234 IN IP4 192.168.1.1\r\n\
s=Session\r\n\
c=IN IP4 192.168.1.1\r\n\
t=0 0\r\n\
m=video 5000 RTP/AVP 96\r\n\
a=rtpmap:96 PS/90000\r\n\
a=recvonly\r\n";

    let sdp1 = SdpParser::parse(original).unwrap();
    let serialized = sdp1.to_sdp_string();
    let sdp2 = SdpParser::parse(&serialized).unwrap();

    // 验证关键字段一致
    assert_eq!(sdp1.version, sdp2.version);
    assert_eq!(sdp1.origin.username, sdp2.origin.username);
    assert_eq!(sdp1.origin.session_id, sdp2.origin.session_id);
    assert_eq!(sdp1.session_name, sdp2.session_name);
    assert_eq!(sdp1.connection.is_some(), sdp2.connection.is_some());
    assert_eq!(sdp1.time_descriptions.len(), sdp2.time_descriptions.len());
    assert_eq!(sdp1.media_descriptions.len(), sdp2.media_descriptions.len());

    if let (Some(c1), Some(c2)) = (&sdp1.connection, &sdp2.connection) {
        assert_eq!(c1.connection_address, c2.connection_address);
    }

    assert_eq!(
        sdp1.media_descriptions[0].media,
        sdp2.media_descriptions[0].media
    );
    assert_eq!(
        sdp1.media_descriptions[0].port,
        sdp2.media_descriptions[0].port
    );
    assert_eq!(
        sdp1.media_descriptions[0].attributes.len(),
        sdp2.media_descriptions[0].attributes.len()
    );
}

#[test]
fn test_roundtrip_gb28181() {
    // GB28181 SDP 往返一致性测试
    let original = "\
v=0\r\n\
o=- 1234 1234 IN IP4 192.168.1.1\r\n\
s=Play\r\n\
c=IN IP4 192.168.1.1\r\n\
t=0 0\r\n\
m=video 5000 RTP/AVP 96\r\n\
a=rtpmap:96 PS/90000\r\n\
a=recvonly\r\n\
y=01234567890000000001\r\n\
f=v/2/4///a/1/8///\r\n";

    let sdp1 = SdpParser::parse(original).unwrap();
    let serialized = sdp1.to_sdp_string();
    let sdp2 = SdpParser::parse(&serialized).unwrap();

    assert_eq!(sdp1.ssrc, sdp2.ssrc);
    assert_eq!(sdp1.media_format, sdp2.media_format);
}

#[test]
fn test_connection_ipv4_helper() {
    let conn = Connection::ipv4("192.168.1.1");
    assert_eq!(conn.network_type, "IN");
    assert_eq!(conn.address_type, "IP4");
    assert_eq!(conn.connection_address, "192.168.1.1");
}

#[test]
fn test_connection_ipv6_helper() {
    let conn = Connection::ipv6("::1");
    assert_eq!(conn.network_type, "IN");
    assert_eq!(conn.address_type, "IP6");
    assert_eq!(conn.connection_address, "::1");
}

#[test]
fn test_media_description_builder() {
    let media = MediaDescription::new(MediaType::Audio, 5002, "RTP/AVP")
        .with_formats(vec!["8".to_string(), "0".to_string()])
        .with_rtpmap(8, "PCMA/8000")
        .with_rtpmap(0, "PCMU/8000")
        .with_connection(Connection::ipv4("10.0.0.1"))
        .with_bandwidth("AS", 64);

    assert_eq!(media.media, MediaType::Audio);
    assert_eq!(media.port, 5002);
    assert_eq!(media.formats, vec!["8", "0"]);
    assert_eq!(media.attributes.len(), 2);
    assert!(media.connection.is_some());
    assert_eq!(media.bandwidth.len(), 1);
}

#[test]
fn test_full_sdp_serialization() {
    let media = MediaDescription::new(MediaType::Video, 5000, "RTP/AVP")
        .with_format("96")
        .with_rtpmap(96, "PS/90000")
        .with_attribute("recvonly", None);

    let sdp = SdpBuilder::new(test_origin(), "Play")
        .connection(Connection::ipv4("192.168.1.1"))
        .time(0, 0)
        .attribute("tool", Some("sip-sdp".to_string()))
        .media(media)
        .ssrc("01234567890000000001")
        .media_format("v/2/4///a/1/8///")
        .build();

    let sdp_str = sdp.to_sdp_string();

    // 验证输出包含所有必要行
    assert!(sdp_str.contains("v=0\r\n"));
    assert!(sdp_str.contains("o=- 1234 1234 IN IP4 192.168.1.1\r\n"));
    assert!(sdp_str.contains("s=Play\r\n"));
    assert!(sdp_str.contains("c=IN IP4 192.168.1.1\r\n"));
    assert!(sdp_str.contains("t=0 0\r\n"));
    assert!(sdp_str.contains("a=tool:sip-sdp\r\n"));
    assert!(sdp_str.contains("m=video 5000 RTP/AVP 96\r\n"));
    assert!(sdp_str.contains("a=rtpmap:96 PS/90000\r\n"));
    assert!(sdp_str.contains("a=recvonly\r\n"));
    assert!(sdp_str.contains("y=01234567890000000001\r\n"));
    assert!(sdp_str.contains("f=v/2/4///a/1/8///\r\n"));
}

#[test]
fn last_setter_wins_and_adders_append() {
    let origin = Origin::ipv4("-", "10.0.0.1");
    let sd = SdpBuilder::new(origin, "S")
        .ssrc("a")
        .attribute("x", None)
        .version(1)
        .ssrc("b")
        .attribute("y", Some("1".to_string()))
        .version(0)
        .time(0, 0)
        .time(10, 20)
        .build();
    assert_eq!(sd.ssrc.as_deref(), Some("b"));
    assert_eq!(sd.version, 0);
    assert_eq!(sd.attributes.len(), 2);
    assert_eq!(sd.attributes[0].name, "x");
    assert_eq!(sd.attributes[1].name, "y");
    assert_eq!(sd.attributes[1].value.as_deref(), Some("1"));
    assert_eq!(sd.time_descriptions.len(), 2);
    assert_eq!(sd.time_descriptions[1].start_time, 10);
}

#[test]
fn origin_at_a_given_time() {
    let o = Origin::ipv4_at("user", "10.0.0.2", 1_700_000_000);
    assert_eq!(o.username, "user");
    assert_eq!(o.session_id, 1_700_000_000);
    assert_eq!(o.session_version, 1_700_000_000);
    assert_eq!(o.network_type, "IN");
    assert_eq!(o.address_type, "IP4");
    assert_eq!(o.unicast_address, "10.0.0.2");
    assert_eq!(o.to_text(), "user 1700000000 1700000000 IN IP4 10.0.0.2");
}

#[test]
fn origin_now_uses_the_clock() {
    let o = Origin::ipv4("-", "10.0.0.1");
    assert_eq!(o.session_id, o.session_version);
    assert!(o.session_id > 1_600_000_000);
}

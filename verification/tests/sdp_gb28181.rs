use siprs::sdp::builder::SdpBuilder;
use siprs::sdp::gb28181::{
    build_download_invite_sdp, build_invite_sdp, build_ok_sdp, build_playback_invite_sdp,
    datetime_to_ntp, extract_media_format, extract_ssrc, extract_stream_type, extract_time_range,
    ntp_to_datetime, parse_media_format, AudioEncoding, MediaParam, StreamType, VideoEncoding,
    NTP_UNIX_OFFSET,
};
use siprs::sdp::parser::SdpParser;
use siprs::sdp::types::{MediaType, Origin};

#[test]
fn test_extract_ssrc() {
    let sdp = SdpBuilder::new(Origin::ipv4("-", "192.168.1.1"), "Test")
        .time(0, 0)
        .ssrc("01234567890000000001")
        .build();

    assert_eq!(extract_ssrc(&sdp), Some("01234567890000000001".to_string()));
}

#[test]
fn test_extract_ssrc_none() {
    let sdp = SdpBuilder::new(Origin::ipv4("-", "192.168.1.1"), "Test")
        .time(0, 0)
        .build();

    assert_eq!(extract_ssrc(&sdp), None);
}

#[test]
fn test_extract_media_format() {
    let sdp = SdpBuilder::new(Origin::ipv4("-", "192.168.1.1"), "Test")
        .time(0, 0)
        .media_format("v/2/4///a/1/8///")
        .build();

    assert_eq!(
        extract_media_format(&sdp),
        Some("v/2/4///a/1/8///".to_string())
    );
}

#[test]
fn test_extract_media_format_none() {
    let sdp = SdpBuilder::new(Origin::ipv4("-", "192.168.1.1"), "Test")
        .time(0, 0)
        .build();

    assert_eq!(extract_media_format(&sdp), None);
}

#[test]
fn test_build_invite_sdp_ps_pcma() {
    let sdp = build_invite_sdp(
        "01234567890000000001",
        "192.168.1.100",
        5000,
        &MediaParam {
            video_encoding: VideoEncoding::PS,
            audio_encoding: AudioEncoding::G711A,
            stream_type: StreamType::Live,
        },
    );

    assert_eq!(sdp.version, 0);
    assert_eq!(sdp.session_name, "Play");
    assert!(sdp.connection.is_some());
    assert_eq!(sdp.media_descriptions.len(), 1);
    assert_eq!(sdp.ssrc.as_deref(), Some("01234567890000000001"));
    assert!(sdp.media_format.is_some());

    let media = &sdp.media_descriptions[0];
    assert_eq!(media.media, MediaType::Video);
    assert_eq!(media.port, 5000);
    assert_eq!(media.proto, "RTP/AVP");
    assert!(media.formats.contains(&"96".to_string())); // PS
    assert!(media.formats.contains(&"8".to_string())); // PCMA

    // 验证 rtpmap
    let rtpmap_96 = media.attributes.iter().find(|a| {
        a.name == "rtpmap" && a.value.as_ref().map_or(false, |v| v.starts_with("96"))
    });
    assert!(rtpmap_96.is_some());

    let rtpmap_8 = media
        .attributes
        .iter()
        .find(|a| a.name == "rtpmap" && a.value.as_ref().map_or(false, |v| v.starts_with("8")));
    assert!(rtpmap_8.is_some());

    // 验证 recvonly
    let recvonly = media.attributes.iter().find(|a| a.name == "recvonly");
    assert!(recvonly.is_some());
}

#[test]
fn test_build_invite_sdp_h264_pcma() {
    let sdp = build_invite_sdp(
        "01234567890000000001",
        "192.168.1.100",
        5000,
        &MediaParam {
            video_encoding: VideoEncoding::H264,
            audio_encoding: AudioEncoding::G711A,
            stream_type: StreamType::Live,
        },
    );

    let media = &sdp.media_descriptions[0];
    assert!(media.formats.contains(&"97".to_string())); // H264
    assert!(media.formats.contains(&"8".to_string())); // PCMA
}

#[test]
fn test_build_invite_sdp_h265_aac() {
    let sdp = build_invite_sdp(
        "01234567890000000001",
        "192.168.1.100",
        5000,
        &MediaParam {
            video_encoding: VideoEncoding::H265,
            audio_encoding: AudioEncoding::AAC,
            stream_type: StreamType::History,
        },
    );

    let media = &sdp.media_descriptions[0];
    assert!(media.formats.contains(&"98".to_string())); // H265
    assert!(media.formats.contains(&"10".to_string())); // AAC
}

#[test]
fn test_build_invite_sdp_serialization() {
    let sdp = build_invite_sdp(
        "01234567890000000001",
        "192.168.1.100",
        5000,
        &MediaParam {
            video_encoding: VideoEncoding::PS,
            audio_encoding: AudioEncoding::G711A,
            stream_type: StreamType::Live,
        },
    );

    let sdp_str = sdp.to_sdp_string();

    assert!(sdp_str.contains("v=0\r\n"));
    assert!(sdp_str.contains("s=Play\r\n"));
    assert!(sdp_str.contains("c=IN IP4 192.168.1.100\r\n"));
    assert!(sdp_str.contains("t=0 0\r\n"));
    assert!(sdp_str.contains("m=video 5000 RTP/AVP"));
    assert!(sdp_str.contains("a=rtpmap:96 PS/90000\r\n"));
    assert!(sdp_str.contains("a=rtpmap:8 PCMA/8000\r\n"));
    assert!(sdp_str.contains("a=recvonly\r\n"));
    assert!(sdp_str.contains("y=01234567890000000001\r\n"));
    // f= 行格式: v/<流类型>/<视频编码>///a/<音频编码>/<音频采样率>///
    // Live=1, PS=2, G711A=1, 8kHz=8 -> v/1/2///a/1/8///
    assert!(sdp_str.contains("f=v/1/2///a/1/8///\r\n"));
}

#[test]
fn test_build_ok_sdp() {
    let sdp = build_ok_sdp(
        "01234567890000000001",
        "192.168.1.200",
        6000,
        &MediaParam {
            video_encoding: VideoEncoding::PS,
            audio_encoding: AudioEncoding::G711A,
            stream_type: StreamType::Live,
        },
    );

    let media = &sdp.media_descriptions[0];
    assert_eq!(media.port, 6000);

    // 200 OK 应该是 sendonly
    let sendonly = media.attributes.iter().find(|a| a.name == "sendonly");
    assert!(sendonly.is_some());
}

#[test]
fn test_video_encoding_properties() {
    assert_eq!(VideoEncoding::PS.payload_type(), 96);
    assert_eq!(VideoEncoding::PS.encoding_name(), "PS");
    assert_eq!(VideoEncoding::PS.clock_rate(), 90000);
    assert_eq!(VideoEncoding::PS.format_id(), "2");

    assert_eq!(VideoEncoding::H264.payload_type(), 97);
    assert_eq!(VideoEncoding::H264.encoding_name(), "H264");
    assert_eq!(VideoEncoding::H264.format_id(), "4");

    assert_eq!(VideoEncoding::H265.payload_type(), 98);
    assert_eq!(VideoEncoding::H265.encoding_name(), "H265");
    assert_eq!(VideoEncoding::H265.format_id(), "5");
}

#[test]
fn test_audio_encoding_properties() {
    assert_eq!(AudioEncoding::G711A.payload_type(), 8);
    assert_eq!(AudioEncoding::G711A.encoding_name(), "PCMA");
    assert_eq!(AudioEncoding::G711A.clock_rate(), 8000);
    assert_eq!(AudioEncoding::G711A.format_id(), "1");

    assert_eq!(AudioEncoding::G711U.payload_type(), 0);
    assert_eq!(AudioEncoding::G711U.encoding_name(), "PCMU");
    assert_eq!(AudioEncoding::G711U.format_id(), "2");

    assert_eq!(AudioEncoding::G7221.payload_type(), 9);
    assert_eq!(AudioEncoding::G7221.clock_rate(), 16000);
    assert_eq!(AudioEncoding::G7221.format_id(), "3");

    assert_eq!(AudioEncoding::AAC.payload_type(), 10);
    assert_eq!(AudioEncoding::AAC.clock_rate(), 48000);
    assert_eq!(AudioEncoding::AAC.format_id(), "4");
}

#[test]
fn test_stream_type_properties() {
    assert_eq!(StreamType::Live.format_id(), "1");
    assert_eq!(StreamType::History.format_id(), "2");
    assert_eq!(StreamType::Download.format_id(), "3");
}

#[test]
fn test_parse_media_format() {
    let parsed = parse_media_format("v/2/4///a/1/8///").unwrap();
    assert_eq!(parsed.stream_type, "2");
    assert_eq!(parsed.video_encoding, "4");
    assert_eq!(parsed.audio_encoding, "1");
    assert_eq!(parsed.audio_sample_rate, "8");
}

#[test]
fn test_parse_media_format_invalid() {
    assert!(parse_media_format("invalid").is_none());
    assert!(parse_media_format("v/1/2/a/3").is_none());
}

#[test]
fn test_gb28181_roundtrip() {
    // 构建 -> 序列化 -> 解析 -> 验证
    let sdp = build_invite_sdp(
        "01234567890000000001",
        "192.168.1.100",
        5000,
        &MediaParam {
            video_encoding: VideoEncoding::PS,
            audio_encoding: AudioEncoding::G711A,
            stream_type: StreamType::Live,
        },
    );

    let sdp_str = sdp.to_sdp_string();
    let reparsed = SdpParser::parse(&sdp_str).unwrap();

    assert_eq!(reparsed.ssrc.as_deref(), Some("01234567890000000001"));
    assert!(reparsed.media_format.is_some());

    // 验证媒体描述
    assert_eq!(reparsed.media_descriptions.len(), 1);
    let media = &reparsed.media_descriptions[0];
    assert_eq!(media.media, MediaType::Video);
    assert_eq!(media.port, 5000);
}

#[test]
fn test_extract_ssrc_from_parsed_sdp() {
    let sdp_text = "\
v=0\r\n\
o=- 1234 1234 IN IP4 192.168.1.1\r\n\
s=Play\r\n\
c=IN IP4 192.168.1.1\r\n\
t=0 0\r\n\
m=video 5000 RTP/AVP 96\r\n\
a=rtpmap:96 PS/90000\r\n\
a=recvonly\r\n\
y=01234567890000000001\r\n\
f=v/2/4///a/1/8///\r\n";

    let sdp = SdpParser::parse(sdp_text).unwrap();

    assert_eq!(extract_ssrc(&sdp), Some("01234567890000000001".to_string()));
    assert_eq!(
        extract_media_format(&sdp),
        Some("v/2/4///a/1/8///".to_string())
    );
}

// ========================================================================
// NTP 时间戳转换测试
// ========================================================================

#[test]
fn test_datetime_to_ntp_basic() {
    // 2024-01-01T00:00:00 UTC
    // Unix timestamp: 1704067200
    // NTP timestamp: 1704067200 + 2208988800 = 3913056000
    let ntp = datetime_to_ntp("2024-01-01T00:00:00").unwrap();
    assert_eq!(ntp, 3_913_056_000);
}

#[test]
fn test_datetime_to_ntp_epoch() {
    // 1970-01-01T00:00:00 UTC = Unix epoch
    // Unix timestamp: 0
    // NTP timestamp: 2208988800
    let ntp = datetime_to_ntp("1970-01-01T00:00:00").unwrap();
    assert_eq!(ntp, NTP_UNIX_OFFSET);
}

#[test]
fn test_datetime_to_ntp_invalid() {
    assert!(datetime_to_ntp("invalid").is_none());
    assert!(datetime_to_ntp("2024-01-01").is_none()); // 缺少时间部分
    assert!(datetime_to_ntp("2024-13-01T00:00:00").is_none()); // 无效月份
    assert!(datetime_to_ntp("2024-01-32T00:00:00").is_none()); // 无效日期
    assert!(datetime_to_ntp("2024-01-01T25:00:00").is_none()); // 无效小时
}

#[test]
fn test_ntp_to_datetime_basic() {
    // 2024-01-01T00:00:00 UTC
    let datetime = ntp_to_datetime(3_913_056_000);
    assert_eq!(datetime, "2024-01-01T00:00:00");
}

#[test]
fn test_ntp_to_datetime_epoch() {
    let datetime = ntp_to_datetime(NTP_UNIX_OFFSET);
    assert_eq!(datetime, "1970-01-01T00:00:00");
}

#[test]
fn test_datetime_ntp_roundtrip() {
    // 测试多个时间点的往返转换
    let test_cases = [
        "2024-01-01T00:00:00",
        "2024-06-15T12:30:45",
        "2023-12-31T23:59:59",
        "2000-01-01T00:00:00",
    ];

    for datetime_str in &test_cases {
        let ntp = datetime_to_ntp(datetime_str).unwrap();
        let result = ntp_to_datetime(ntp);
        assert_eq!(&result, datetime_str, "往返转换失败: {}", datetime_str);
    }
}

// ========================================================================
// 历史回放 SDP 测试
// ========================================================================

#[test]
fn test_build_playback_invite_sdp_basic() {
    let sdp = build_playback_invite_sdp(
        "01234567890000000001",
        "192.168.1.100",
        5000,
        &MediaParam {
            video_encoding: VideoEncoding::PS,
            audio_encoding: AudioEncoding::G711A,
            stream_type: StreamType::History,
        },
        "2024-01-01T00:00:00",
        "2024-01-01T23:59:59",
    );

    // 验证基本字段
    assert_eq!(sdp.version, 0);
    assert_eq!(sdp.session_name, "Playback");
    assert!(sdp.connection.is_some());
    assert_eq!(sdp.media_descriptions.len(), 1);
    assert_eq!(sdp.ssrc.as_deref(), Some("01234567890000000001"));

    // 验证媒体描述
    let media = &sdp.media_descriptions[0];
    assert_eq!(media.media, MediaType::Video);
    assert_eq!(media.port, 5000);

    // 验证 sendonly（设备端发送）
    let sendonly = media.attributes.iter().find(|a| a.name == "sendonly");
    assert!(sendonly.is_some(), "历史回放 SDP 应包含 a=sendonly");

    // 验证 recvonly 不存在
    let recvonly = media.attributes.iter().find(|a| a.name == "recvonly");
    assert!(recvonly.is_none(), "历史回放 SDP 不应包含 a=recvonly");

    // 验证 f= 行中的流类型标识
    assert!(sdp.media_format.is_some());
    let f_line = sdp.media_format.as_ref().unwrap();
    assert!(f_line.starts_with("v/2/"), "历史回放 f= 行应以 v/2/ 开头");
}

#[test]
fn test_build_playback_invite_sdp_time_range() {
    let sdp = build_playback_invite_sdp(
        "01234567890000000001",
        "192.168.1.100",
        5000,
        &MediaParam {
            video_encoding: VideoEncoding::PS,
            audio_encoding: AudioEncoding::G711A,
            stream_type: StreamType::History,
        },
        "2024-01-01T00:00:00",
        "2024-01-01T23:59:59",
    );

    // 验证 t= 行包含时间范围（非 0 0）
    assert_eq!(sdp.time_descriptions.len(), 1);
    let td = &sdp.time_descriptions[0];
    assert_ne!(td.start_time, 0, "历史回放 t= 行开始时间不应为 0");
    assert_ne!(td.stop_time, 0, "历史回放 t= 行结束时间不应为 0");

    // 验证 NTP 时间戳正确性
    let expected_start = datetime_to_ntp("2024-01-01T00:00:00").unwrap();
    let expected_stop = datetime_to_ntp("2024-01-01T23:59:59").unwrap();
    assert_eq!(td.start_time, expected_start);
    assert_eq!(td.stop_time, expected_stop);
}

#[test]
fn test_build_playback_invite_sdp_serialization() {
    let sdp = build_playback_invite_sdp(
        "01234567890000000001",
        "192.168.1.100",
        5000,
        &MediaParam {
            video_encoding: VideoEncoding::PS,
            audio_encoding: AudioEncoding::G711A,
            stream_type: StreamType::History,
        },
        "2024-01-01T00:00:00",
        "2024-01-01T23:59:59",
    );

    let sdp_str = sdp.to_sdp_string();

    assert!(sdp_str.contains("v=0\r\n"));
    assert!(sdp_str.contains("s=Playback\r\n"));
    assert!(sdp_str.contains("c=IN IP4 192.168.1.100\r\n"));
    assert!(sdp_str.contains("m=video 5000 RTP/AVP"));
    assert!(sdp_str.contains("a=rtpmap:96 PS/90000\r\n"));
    assert!(sdp_str.contains("a=rtpmap:8 PCMA/8000\r\n"));
    assert!(sdp_str.contains("a=sendonly\r\n"));
    assert!(sdp_str.contains("y=01234567890000000001\r\n"));
    // f= 行格式: History=2, PS=2, G711A=1, 8kHz=8 -> v/2/2///a/1/8///
    assert!(sdp_str.contains("f=v/2/2///a/1/8///\r\n"));

    // 验证 t= 行不是 0 0
    assert!(!sdp_str.contains("t=0 0\r\n"), "历史回放 t= 行不应为 0 0");
}

// ========================================================================
// 录像下载 SDP 测试
// ========================================================================

#[test]
fn test_build_download_invite_sdp_basic() {
    let sdp = build_download_invite_sdp(
        "01234567890000000001",
        "192.168.1.100",
        5000,
        &MediaParam {
            video_encoding: VideoEncoding::PS,
            audio_encoding: AudioEncoding::G711A,
            stream_type: StreamType::Download,
        },
        "2024-01-01T00:00:00",
        "2024-01-01T23:59:59",
        Some(4),
    );

    // 验证基本字段
    assert_eq!(sdp.version, 0);
    assert_eq!(sdp.session_name, "Download");
    assert!(sdp.connection.is_some());
    assert_eq!(sdp.media_descriptions.len(), 1);
    assert_eq!(sdp.ssrc.as_deref(), Some("01234567890000000001"));

    // 验证媒体描述
    let media = &sdp.media_descriptions[0];
    assert_eq!(media.media, MediaType::Video);
    assert_eq!(media.port, 5000);

    // 验证 sendonly
    let sendonly = media.attributes.iter().find(|a| a.name == "sendonly");
    assert!(sendonly.is_some(), "录像下载 SDP 应包含 a=sendonly");

    // 验证下载速度属性
    let downloadspeed = media.attributes.iter().find(|a| a.name == "downloadspeed");
    assert!(
        downloadspeed.is_some(),
        "录像下载 SDP 应包含 a=downloadspeed"
    );
    assert_eq!(downloadspeed.unwrap().value.as_deref(), Some("4"));

    // 验证 f= 行中的流类型标识
    assert!(sdp.media_format.is_some());
    let f_line = sdp.media_format.as_ref().unwrap();
    assert!(f_line.starts_with("v/3/"), "录像下载 f= 行应以 v/3/ 开头");
}

#[test]
fn test_build_download_invite_sdp_no_speed() {
    let sdp = build_download_invite_sdp(
        "01234567890000000001",
        "192.168.1.100",
        5000,
        &MediaParam {
            video_encoding: VideoEncoding::PS,
            audio_encoding: AudioEncoding::G711A,
            stream_type: StreamType::Download,
        },
        "2024-01-01T00:00:00",
        "2024-01-01T23:59:59",
        None,
    );

    // 不指定下载速度时不应有 downloadspeed 属性
    let media = &sdp.media_descriptions[0];
    let downloadspeed = media.attributes.iter().find(|a| a.name == "downloadspeed");
    assert!(
        downloadspeed.is_none(),
        "不指定下载速度时不应有 a=downloadspeed"
    );
}

#[test]
fn test_build_download_invite_sdp_speed_values() {
    for speed in [1u32, 2, 4] {
        let sdp = build_download_invite_sdp(
            "01234567890000000001",
            "192.168.1.100",
            5000,
            &MediaParam {
                video_encoding: VideoEncoding::PS,
                audio_encoding: AudioEncoding::G711A,
                stream_type: StreamType::Download,
            },
            "2024-01-01T00:00:00",
            "2024-01-01T23:59:59",
            Some(speed),
        );

        let media = &sdp.media_descriptions[0];
        let downloadspeed = media.attributes.iter().find(|a| a.name == "downloadspeed");
        assert!(downloadspeed.is_some());
        assert_eq!(
            downloadspeed.unwrap().value.as_deref(),
            Some(speed.to_string().as_str())
        );
    }
}

#[test]
fn test_build_download_invite_sdp_serialization() {
    let sdp = build_download_invite_sdp(
        "01234567890000000001",
        "192.168.1.100",
        5000,
        &MediaParam {
            video_encoding: VideoEncoding::PS,
            audio_encoding: AudioEncoding::G711A,
            stream_type: StreamType::Download,
        },
        "2024-01-01T00:00:00",
        "2024-01-01T23:59:59",
        Some(4),
    );

    let sdp_str = sdp.to_sdp_string();

    assert!(sdp_str.contains("v=0\r\n"));
    assert!(sdp_str.contains("s=Download\r\n"));
    assert!(sdp_str.contains("c=IN IP4 192.168.1.100\r\n"));
    assert!(sdp_str.contains("m=video 5000 RTP/AVP"));
    assert!(sdp_str.contains("a=rtpmap:96 PS/90000\r\n"));
    assert!(sdp_str.contains("a=rtpmap:8 PCMA/8000\r\n"));
    assert!(sdp_str.contains("a=sendonly\r\n"));
    assert!(sdp_str.contains("a=downloadspeed:4\r\n"));
    assert!(sdp_str.contains("y=01234567890000000001\r\n"));
    // f= 行格式: Download=3, PS=2, G711A=1, 8kHz=8 -> v/3/2///a/1/8///
    assert!(sdp_str.contains("f=v/3/2///a/1/8///\r\n"));

    // 验证 t= 行不是 0 0
    assert!(!sdp_str.contains("t=0 0\r\n"), "录像下载 t= 行不应为 0 0");
}

// ========================================================================
// extract_time_range 测试
// ========================================================================

#[test]
fn test_extract_time_range_playback() {
    let sdp = build_playback_invite_sdp(
        "01234567890000000001",
        "192.168.1.100",
        5000,
        &MediaParam {
            video_encoding: VideoEncoding::PS,
            audio_encoding: AudioEncoding::G711A,
            stream_type: StreamType::History,
        },
        "2024-01-01T00:00:00",
        "2024-01-01T23:59:59",
    );

    let time_range = extract_time_range(&sdp);
    assert!(time_range.is_some());

    let (start, end) = time_range.unwrap();
    assert_eq!(start, "2024-01-01T00:00:00");
    assert_eq!(end, "2024-01-01T23:59:59");
}

#[test]
fn test_extract_time_range_download() {
    let sdp = build_download_invite_sdp(
        "01234567890000000001",
        "192.168.1.100",
        5000,
        &MediaParam {
            video_encoding: VideoEncoding::PS,
            audio_encoding: AudioEncoding::G711A,
            stream_type: StreamType::Download,
        },
        "2024-06-15T08:30:00",
        "2024-06-15T10:00:00",
        Some(2),
    );

    let time_range = extract_time_range(&sdp);
    assert!(time_range.is_some());

    let (start, end) = time_range.unwrap();
    assert_eq!(start, "2024-06-15T08:30:00");
    assert_eq!(end, "2024-06-15T10:00:00");
}

#[test]
fn test_extract_time_range_live_returns_none() {
    // 实时点播使用 t=0 0，不应返回时间范围
    let sdp = build_invite_sdp(
        "01234567890000000001",
        "192.168.1.100",
        5000,
        &MediaParam {
            video_encoding: VideoEncoding::PS,
            audio_encoding: AudioEncoding::G711A,
            stream_type: StreamType::Live,
        },
    );

    let time_range = extract_time_range(&sdp);
    assert!(time_range.is_none(), "实时点播不应返回时间范围");
}

// ========================================================================
// extract_stream_type 测试
// ========================================================================

#[test]
fn test_extract_stream_type_live() {
    let sdp = build_invite_sdp(
        "01234567890000000001",
        "192.168.1.100",
        5000,
        &MediaParam {
            video_encoding: VideoEncoding::PS,
            audio_encoding: AudioEncoding::G711A,
            stream_type: StreamType::Live,
        },
    );

    assert_eq!(extract_stream_type(&sdp), Some(StreamType::Live));
}

#[test]
fn test_extract_stream_type_history() {
    let sdp = build_playback_invite_sdp(
        "01234567890000000001",
        "192.168.1.100",
        5000,
        &MediaParam {
            video_encoding: VideoEncoding::PS,
            audio_encoding: AudioEncoding::G711A,
            stream_type: StreamType::History,
        },
        "2024-01-01T00:00:00",
        "2024-01-01T23:59:59",
    );

    assert_eq!(extract_stream_type(&sdp), Some(StreamType::History));
}

#[test]
fn test_extract_stream_type_download() {
    let sdp = build_download_invite_sdp(
        "01234567890000000001",
        "192.168.1.100",
        5000,
        &MediaParam {
            video_encoding: VideoEncoding::PS,
            audio_encoding: AudioEncoding::G711A,
            stream_type: StreamType::Download,
        },
        "2024-01-01T00:00:00",
        "2024-01-01T23:59:59",
        Some(4),
    );

    assert_eq!(extract_stream_type(&sdp), Some(StreamType::Download));
}

#[test]
fn test_extract_stream_type_from_session_name() {
    // 当 f= 行不存在时，从会话名称判断
    let sdp = SdpBuilder::new(Origin::ipv4("-", "192.168.1.1"), "Playback")
        .time(0, 0)
        .build();

    assert_eq!(extract_stream_type(&sdp), Some(StreamType::History));

    let sdp = SdpBuilder::new(Origin::ipv4("-", "192.168.1.1"), "Download")
        .time(0, 0)
        .build();

    assert_eq!(extract_stream_type(&sdp), Some(StreamType::Download));
}

#[test]
fn test_extract_stream_type_unknown() {
    let sdp = SdpBuilder::new(Origin::ipv4("-", "192.168.1.1"), "UnknownSession")
        .time(0, 0)
        .build();

    assert_eq!(extract_stream_type(&sdp), None);
}

// ========================================================================
// 历史回放/录像下载 SDP 往返测试
// ========================================================================

#[test]
fn test_playback_sdp_roundtrip() {
    let sdp = build_playback_invite_sdp(
        "01234567890000000001",
        "192.168.1.100",
        5000,
        &MediaParam {
            video_encoding: VideoEncoding::PS,
            audio_encoding: AudioEncoding::G711A,
            stream_type: StreamType::History,
        },
        "2024-01-01T00:00:00",
        "2024-01-01T23:59:59",
    );

    let sdp_str = sdp.to_sdp_string();
    let reparsed = SdpParser::parse(&sdp_str).unwrap();

    // 验证基本字段
    assert_eq!(reparsed.session_name, "Playback");
    assert_eq!(reparsed.ssrc.as_deref(), Some("01234567890000000001"));

    // 验证时间范围
    let time_range = extract_time_range(&reparsed);
    assert!(time_range.is_some());
    let (start, end) = time_range.unwrap();
    assert_eq!(start, "2024-01-01T00:00:00");
    assert_eq!(end, "2024-01-01T23:59:59");

    // 验证流类型
    assert_eq!(extract_stream_type(&reparsed), Some(StreamType::History));

    // 验证媒体属性
    let media = &reparsed.media_descriptions[0];
    let sendonly = media.attributes.iter().find(|a| a.name == "sendonly");
    assert!(sendonly.is_some());
}

#[test]
fn test_download_sdp_roundtrip() {
    let sdp = build_download_invite_sdp(
        "01234567890000000001",
        "192.168.1.100",
        5000,
        &MediaParam {
            video_encoding: VideoEncoding::PS,
            audio_encoding: AudioEncoding::G711A,
            stream_type: StreamType::Download,
        },
        "2024-06-15T08:30:00",
        "2024-06-15T10:00:00",
        Some(4),
    );

    let sdp_str = sdp.to_sdp_string();
    let reparsed = SdpParser::parse(&sdp_str).unwrap();

    // 验证基本字段
    assert_eq!(reparsed.session_name, "Download");
    assert_eq!(reparsed.ssrc.as_deref(), Some("01234567890000000001"));

    // 验证时间范围
    let time_range = extract_time_range(&reparsed);
    assert!(time_range.is_some());
    let (start, end) = time_range.unwrap();
    assert_eq!(start, "2024-06-15T08:30:00");
    assert_eq!(end, "2024-06-15T10:00:00");

    // 验证流类型
    assert_eq!(extract_stream_type(&reparsed), Some(StreamType::Download));

    // 验证媒体属性
    let media = &reparsed.media_descriptions[0];
    let sendonly = media.attributes.iter().find(|a| a.name == "sendonly");
    assert!(sendonly.is_some());

    // 验证下载速度
    let downloadspeed = media.attributes.iter().find(|a| a.name == "downloadspeed");
    assert!(downloadspeed.is_some());
    assert_eq!(downloadspeed.unwrap().value.as_deref(), Some("4"));
}

#[test]
fn ntp_times_before_the_epoch_format_as_the_epoch() {
    for ntp in [0u64, 1, 1_000_000_000, NTP_UNIX_OFFSET - 1, NTP_UNIX_OFFSET] {
        assert_eq!(ntp_to_datetime(ntp), "1970-01-01T00:00:00");
    }
}

#[test]
fn datetime_ntp_roundtrip_at_the_ends_of_the_range() {
    for text in ["1970-01-01T00:00:00", "2100-12-31T23:59:59", "2024-02-29T12:00:00"] {
        let ntp = datetime_to_ntp(text).unwrap();
        assert_eq!(ntp_to_datetime(ntp), text);
    }
    assert_eq!(datetime_to_ntp("2024-01-01T00:00:00"), Some(3_913_056_000));
}

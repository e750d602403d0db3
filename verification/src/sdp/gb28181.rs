//! GB/T 28181 extensions to SDP.
//!
//! GB28181 adds two lines to RFC 4566: `y=` carries the 20-digit device code
//! (used as SSRC) and `f=` the media format `v/<stream>/<video>///a/<audio>/<rate>///`.
//! Live view, playback and download sessions are requested with INVITE
//! bodies built here; playback and download carry their time range as NTP
//! timestamps in the `t=` line.
use vstd::prelude::*;

use crate::sdp::builder::SdpBuilder;
use crate::sdp::types::{
    Connection, MediaDescription, MediaType, Origin, SessionDescription, SpecAttribute,
    SpecConnection, SpecMediaDescription, SpecMediaType, SpecOrigin, SpecSessionDescription,
    SpecTimeDescription,
};
use crate::text::{
    copy_opt, copy_str, dec, dec_string, lemma_deep_chars, opt_view, pad_dec, parse_uint,
    parse_uint_vec, push_pad_dec, push_str, split_char, split_vec, string_of, vec_eq_str,
    is_digit, lemma_dec_digits, lemma_leading_zeros, lemma_parse_pad_dec, lemma_split_char_concat,
    lemma_split_char_free, join_char, lemma_split_join,
};

verus! {

// ---------------------------------------------------------------------------
// Encodings
// ---------------------------------------------------------------------------

/// Video encoding.
#[derive(Debug, Clone, PartialEq, Eq, Structural)]
pub enum VideoEncoding {
    H264,
    H265,
    /// MPEG program stream, the GB28181 default.
    PS,
}

/// Audio encoding.
#[derive(Debug, Clone, PartialEq, Eq, Structural)]
pub enum AudioEncoding {
    /// G.711 A-law (PCMA).
    G711A,
    /// G.711 mu-law (PCMU).
    G711U,
    /// G.722.1.
    G7221,
    AAC,
}

/// Kind of media stream.
#[derive(Debug, Clone, PartialEq, Eq, Structural)]
pub enum StreamType {
    Live,
    History,
    Download,
}

/// Encodings and stream kind of a GB28181 session.
#[derive(Debug, Clone)]
pub struct MediaParam {
    pub video_encoding: VideoEncoding,
    pub audio_encoding: AudioEncoding,
    pub stream_type: StreamType,
}

pub open spec fn spec_video_payload(v: VideoEncoding) -> u32 {
    match v {
        VideoEncoding::PS => 96,
        VideoEncoding::H264 => 97,
        VideoEncoding::H265 => 98,
    }
}

pub open spec fn spec_video_name(v: VideoEncoding) -> Seq<char> {
    match v {
        VideoEncoding::PS => "PS"@,
        VideoEncoding::H264 => "H264"@,
        VideoEncoding::H265 => "H265"@,
    }
}

pub open spec fn spec_video_format_id(v: VideoEncoding) -> Seq<char> {
    match v {
        VideoEncoding::PS => "2"@,
        VideoEncoding::H264 => "4"@,
        VideoEncoding::H265 => "5"@,
    }
}

pub open spec fn spec_audio_payload(a: AudioEncoding) -> u32 {
    match a {
        AudioEncoding::G711A => 8,
        AudioEncoding::G711U => 0,
        AudioEncoding::G7221 => 9,
        AudioEncoding::AAC => 10,
    }
}

pub open spec fn spec_audio_name(a: AudioEncoding) -> Seq<char> {
    match a {
        AudioEncoding::G711A => "PCMA"@,
        AudioEncoding::G711U => "PCMU"@,
        AudioEncoding::G7221 => "G7221"@,
        AudioEncoding::AAC => "AAC"@,
    }
}

pub open spec fn spec_audio_clock(a: AudioEncoding) -> u32 {
    match a {
        AudioEncoding::G711A => 8000,
        AudioEncoding::G711U => 8000,
        AudioEncoding::G7221 => 16000,
        AudioEncoding::AAC => 48000,
    }
}

pub open spec fn spec_audio_format_id(a: AudioEncoding) -> Seq<char> {
    match a {
        AudioEncoding::G711A => "1"@,
        AudioEncoding::G711U => "2"@,
        AudioEncoding::G7221 => "3"@,
        AudioEncoding::AAC => "4"@,
    }
}

pub open spec fn spec_audio_rate_id(a: AudioEncoding) -> Seq<char> {
    match a {
        AudioEncoding::G711A => "8"@,
        AudioEncoding::G711U => "8"@,
        AudioEncoding::G7221 => "16"@,
        AudioEncoding::AAC => "48"@,
    }
}

pub open spec fn spec_stream_format_id(s: StreamType) -> Seq<char> {
    match s {
        StreamType::Live => "1"@,
        StreamType::History => "2"@,
        StreamType::Download => "3"@,
    }
}

impl VideoEncoding {
    /// RTP payload type used by GB28181 for this encoding.
    pub fn payload_type(&self) -> (p: u32)
        ensures
            p == spec_video_payload(*self),
    {
        match self {
            VideoEncoding::PS => 96,
            VideoEncoding::H264 => 97,
            VideoEncoding::H265 => 98,
        }
    }

    /// Encoding name in `a=rtpmap`.
    pub fn encoding_name(&self) -> (s: &'static str)
        ensures
            s@ == spec_video_name(*self),
    {
        match self {
            VideoEncoding::PS => "PS",
            VideoEncoding::H264 => "H264",
            VideoEncoding::H265 => "H265",
        }
    }

    /// RTP clock rate: 90000 for every video encoding.
    pub fn clock_rate(&self) -> (r: u32)
        ensures
            r == 90000,
    {
        90000
    }

    /// Video code in the `f=` line.
    pub fn format_id(&self) -> (s: &'static str)
        ensures
            s@ == spec_video_format_id(*self),
    {
        match self {
            VideoEncoding::PS => "2",
            VideoEncoding::H264 => "4",
            VideoEncoding::H265 => "5",
        }
    }
}

impl AudioEncoding {
    /// RTP payload type.
    pub fn payload_type(&self) -> (p: u32)
        ensures
            p == spec_audio_payload(*self),
    {
        match self {
            AudioEncoding::G711A => 8,
            AudioEncoding::G711U => 0,
            AudioEncoding::G7221 => 9,
            AudioEncoding::AAC => 10,
        }
    }

    /// Encoding name in `a=rtpmap`.
    pub fn encoding_name(&self) -> (s: &'static str)
        ensures
            s@ == spec_audio_name(*self),
    {
        match self {
            AudioEncoding::G711A => "PCMA",
            AudioEncoding::G711U => "PCMU",
            AudioEncoding::G7221 => "G7221",
            AudioEncoding::AAC => "AAC",
        }
    }

    /// RTP clock rate.
    pub fn clock_rate(&self) -> (r: u32)
        ensures
            r == spec_audio_clock(*self),
    {
        match self {
            AudioEncoding::G711A => 8000,
            AudioEncoding::G711U => 8000,
            AudioEncoding::G7221 => 16000,
            AudioEncoding::AAC => 48000,
        }
    }

    /// Audio code in the `f=` line.
    pub fn format_id(&self) -> (s: &'static str)
        ensures
            s@ == spec_audio_format_id(*self),
    {
        match self {
            AudioEncoding::G711A => "1",
            AudioEncoding::G711U => "2",
            AudioEncoding::G7221 => "3",
            AudioEncoding::AAC => "4",
        }
    }

    /// Sampling rate code (kHz) in the `f=` line.
    pub fn sample_rate_id(&self) -> (s: &'static str)
        ensures
            s@ == spec_audio_rate_id(*self),
    {
        match self {
            AudioEncoding::G711A => "8",
            AudioEncoding::G711U => "8",
            AudioEncoding::G7221 => "16",
            AudioEncoding::AAC => "48",
        }
    }
}

impl StreamType {
    /// Stream code in the `f=` line.
    pub fn format_id(&self) -> (s: &'static str)
        ensures
            s@ == spec_stream_format_id(*self),
    {
        match self {
            StreamType::Live => "1",
            StreamType::History => "2",
            StreamType::Download => "3",
        }
    }
}

// ---------------------------------------------------------------------------
// Extraction
// ---------------------------------------------------------------------------

/// The `y=` device code of the session.
pub fn extract_ssrc(sdp: &SessionDescription) -> (r: Option<String>)
    ensures
        opt_view(r) == sdp@.ssrc,
{
    copy_opt(&sdp.ssrc)
}

/// The `f=` media format of the session.
pub fn extract_media_format(sdp: &SessionDescription) -> (r: Option<String>)
    ensures
        opt_view(r) == sdp@.media_format,
{
    copy_opt(&sdp.media_format)
}

/// First attribute called `name`, in order.
pub open spec fn first_attr(attrs: Seq<SpecAttribute>, name: Seq<char>) -> Option<SpecAttribute>
    decreases attrs.len(),
{
    if attrs.len() == 0 {
        None
    } else if attrs[0].name == name {
        Some(attrs[0])
    } else {
        first_attr(attrs.drop_first(), name)
    }
}

/// First attribute called `name` over the media descriptions, in order.
pub open spec fn first_media_attr(mds: Seq<SpecMediaDescription>, name: Seq<char>) -> Option<
    SpecAttribute,
>
    decreases mds.len(),
{
    if mds.len() == 0 {
        None
    } else {
        match first_attr(mds[0].attributes, name) {
            Some(a) => Some(a),
            None => first_media_attr(mds.drop_first(), name),
        }
    }
}

/// Value of the first media attribute called `name` (`None` when there is
/// none, or when it has no value).
pub open spec fn media_attr_value(sd: SpecSessionDescription, name: Seq<char>) -> Option<Seq<char>> {
    match first_media_attr(sd.media_descriptions, name) {
        Some(a) => a.value,
        None => None,
    }
}

proof fn lemma_first_attr_skip(attrs: Seq<SpecAttribute>, name: Seq<char>, k: int)
    requires
        0 <= k <= attrs.len(),
        forall|j: int| 0 <= j < k ==> attrs[j].name != name,
    ensures
        first_attr(attrs, name) == first_attr(attrs.skip(k), name),
    decreases k,
{
    if k > 0 {
        assert(attrs[0].name != name);
        assert(attrs.drop_first().skip(k - 1) == attrs.skip(k));
        lemma_first_attr_skip(attrs.drop_first(), name, k - 1);
    } else {
        assert(attrs.skip(0) == attrs);
    }
}

proof fn lemma_first_media_skip(mds: Seq<SpecMediaDescription>, name: Seq<char>, k: int)
    requires
        0 <= k <= mds.len(),
        forall|j: int| 0 <= j < k ==> first_attr(#[trigger] mds[j].attributes, name) is None,
    ensures
        first_media_attr(mds, name) == first_media_attr(mds.skip(k), name),
    decreases k,
{
    if k > 0 {
        assert(first_attr(mds[0].attributes, name) is None);
        assert(mds.drop_first().skip(k - 1) == mds.skip(k));
        assert forall|j: int| 0 <= j < k - 1 implies first_attr(
            #[trigger] mds.drop_first()[j].attributes,
            name,
        ) is None by {
            assert(mds.drop_first()[j] == mds[j + 1]);
        }
        lemma_first_media_skip(mds.drop_first(), name, k - 1);
    } else {
        assert(mds.skip(0) == mds);
    }
}

fn find_media_attr(sdp: &SessionDescription, name: &str) -> (r: Option<String>)
    ensures
        opt_view(r) == media_attr_value(sdp@, name@),
{
    let ghost mds = sdp@.media_descriptions;
    let mut i: usize = 0;
    while i < sdp.media_descriptions.len()
        invariant
            i <= sdp.media_descriptions@.len(),
            mds == sdp@.media_descriptions,
            forall|k: int| 0 <= k < i ==> first_attr(#[trigger] mds[k].attributes, name@) is None,
        decreases sdp.media_descriptions@.len() - i,
    {
        let m = &sdp.media_descriptions[i];
        let ghost attrs = m@.attributes;
        assert(mds[i as int] == m@);
        let mut j: usize = 0;
        while j < m.attributes.len()
            invariant
                j <= m.attributes@.len(),
                attrs == m@.attributes,
                forall|k: int| 0 <= k < j ==> (#[trigger] attrs[k]).name != name@,
                i < mds.len(),
                mds == sdp@.media_descriptions,
                mds[i as int] == m@,
                forall|k: int| 0 <= k < i ==> first_attr(#[trigger] mds[k].attributes, name@) is None,
            decreases m.attributes@.len() - j,
        {
            let a = &m.attributes[j];
            assert(attrs[j as int] == a@);
            let nm = crate::text::chars_of(a.name.as_str());
            if vec_eq_str(&nm, name) {
                proof {
                    lemma_first_attr_skip(attrs, name@, j as int);
                    assert(attrs.skip(j as int)[0] == a@);
                    assert(first_attr(attrs.skip(j as int), name@) == Some(a@));
                    lemma_first_media_skip(mds, name@, i as int);
                    assert(mds.skip(i as int)[0] == m@);
                    assert(first_media_attr(mds.skip(i as int), name@) == Some(a@));
                }
                return copy_opt(&a.value);
            }
            j += 1;
        }
        proof {
            lemma_first_attr_skip(attrs, name@, attrs.len() as int);
        }
        i += 1;
    }
    proof {
        lemma_first_media_skip(mds, name@, mds.len() as int);
    }
    None
}

/// Value of the first `y` attribute among the media descriptions.
pub fn extract_ssrc_from_media(sdp: &SessionDescription) -> (r: Option<String>)
    ensures
        opt_view(r) == media_attr_value(sdp@, "y"@),
{
    find_media_attr(sdp, "y")
}

/// Value of the first `f` attribute among the media descriptions.
pub fn extract_media_format_from_media(sdp: &SessionDescription) -> (r: Option<String>)
    ensures
        opt_view(r) == media_attr_value(sdp@, "f"@),
{
    find_media_attr(sdp, "f")
}

// ---------------------------------------------------------------------------
// Building
// ---------------------------------------------------------------------------

/// The `f=` line `v/<stream>/<video>///a/<audio>/<rate>///`.
pub open spec fn spec_f_line(mp: MediaParam) -> Seq<char> {
    "v/"@ + spec_stream_format_id(mp.stream_type) + "/"@ + spec_video_format_id(mp.video_encoding)
        + "///a/"@ + spec_audio_format_id(mp.audio_encoding) + "/"@ + spec_audio_rate_id(
        mp.audio_encoding,
    ) + "///"@
}

fn build_f_line(mp: &MediaParam) -> (s: String)
    ensures
        s@ == spec_f_line(*mp),
{
    let mut f = copy_str("v/");
    push_str(&mut f, mp.stream_type.format_id());
    push_str(&mut f, "/");
    push_str(&mut f, mp.video_encoding.format_id());
    push_str(&mut f, "///a/");
    push_str(&mut f, mp.audio_encoding.format_id());
    push_str(&mut f, "/");
    push_str(&mut f, mp.audio_encoding.sample_rate_id());
    push_str(&mut f, "///");
    f
}

/// The `m=video` description of a GB28181 session: payloads of the video
/// and audio encodings, their `rtpmap` lines, the direction attribute and,
/// for downloads with a speed, `a=downloadspeed:<n>`.
pub open spec fn spec_gb_media(
    port: u16,
    mp: MediaParam,
    direction: Seq<char>,
    speed: Option<u32>,
) -> SpecMediaDescription {
    let vpt = spec_video_payload(mp.video_encoding);
    let apt = spec_audio_payload(mp.audio_encoding);
    let base = seq![
        SpecAttribute {
            name: "rtpmap"@,
            value: Some(
                dec(vpt as nat) + " "@ + (spec_video_name(mp.video_encoding) + "/"@ + dec(
                    90000,
                )),
            ),
        },
        SpecAttribute {
            name: "rtpmap"@,
            value: Some(
                dec(apt as nat) + " "@ + (spec_audio_name(mp.audio_encoding) + "/"@ + dec(
                    spec_audio_clock(mp.audio_encoding) as nat,
                )),
            ),
        },
        SpecAttribute { name: direction, value: None },
    ];
    SpecMediaDescription {
        media: SpecMediaType::Video,
        port: port as u32,
        number_of_ports: None,
        proto: "RTP/AVP"@,
        formats: seq![dec(vpt as nat), dec(apt as nat)],
        title: None,
        connection: None,
        bandwidth: Seq::empty(),
        encryption: None,
        attributes: match speed {
            Some(n) => base.push(
                SpecAttribute { name: "downloadspeed"@, value: Some(dec(n as nat)) },
            ),
            None => base,
        },
    }
}

/// A GB28181 session description: origin `- 0 0 IN IP4 <ip>`, connection to
/// `<ip>`, one time description, the video media description, `y=<device>`
/// and the `f=` line of `mp`.
pub open spec fn spec_gb_session(
    name: Seq<char>,
    device_id: Seq<char>,
    ip: Seq<char>,
    port: u16,
    mp: MediaParam,
    start: u64,
    stop: u64,
    direction: Seq<char>,
    speed: Option<u32>,
) -> SpecSessionDescription {
    SpecSessionDescription {
        version: 0,
        origin: SpecOrigin {
            username: "-"@,
            session_id: 0,
            session_version: 0,
            network_type: "IN"@,
            address_type: "IP4"@,
            unicast_address: ip,
        },
        session_name: name,
        session_info: None,
        uri: None,
        email: None,
        phone: None,
        connection: Some(
            SpecConnection {
                network_type: "IN"@,
                address_type: "IP4"@,
                connection_address: ip,
                ttl: None,
                number_of_addresses: None,
            },
        ),
        bandwidth: Seq::empty(),
        time_descriptions: seq![
            SpecTimeDescription { start_time: start, stop_time: stop, repeat_times: Seq::empty() },
        ],
        timezone: None,
        encryption: None,
        attributes: Seq::empty(),
        media_descriptions: seq![spec_gb_media(port, mp, direction, speed)],
        ssrc: Some(device_id),
        media_format: Some(spec_f_line(mp)),
    }
}

fn rtpmap_value(name: &str, clock: u32) -> (s: String)
    ensures
        s@ == name@ + "/"@ + dec(clock as nat),
{
    let mut s = copy_str(name);
    push_str(&mut s, "/");
    crate::text::push_dec(&mut s, clock as u64);
    s
}

fn gb_session(
    name: &str,
    device_id: &str,
    ip: &str,
    port: u16,
    mp: &MediaParam,
    start: u64,
    stop: u64,
    direction: &str,
    speed: Option<u32>,
) -> (sd: SessionDescription)
    ensures
        sd@ == spec_gb_session(name@, device_id@, ip@, port, *mp, start, stop, direction@, speed),
{
    let origin = Origin {
        username: copy_str("-"),
        session_id: 0,
        session_version: 0,
        network_type: copy_str("IN"),
        address_type: copy_str("IP4"),
        unicast_address: copy_str(ip),
    };
    let f_line = build_f_line(mp);
    let vpt = mp.video_encoding.payload_type();
    let apt = mp.audio_encoding.payload_type();
    let mut fmts: Vec<String> = Vec::new();
    fmts.push(dec_string(vpt as u64));
    fmts.push(dec_string(apt as u64));
    let vmap = rtpmap_value(mp.video_encoding.encoding_name(), mp.video_encoding.clock_rate());
    let amap = rtpmap_value(mp.audio_encoding.encoding_name(), mp.audio_encoding.clock_rate());
    let mut media = MediaDescription::new(MediaType::Video, port as u32, "RTP/AVP").with_formats(
        fmts,
    ).with_rtpmap(vpt, vmap.as_str()).with_rtpmap(apt, amap.as_str()).with_attribute(
        direction,
        None,
    );
    match speed {
        Some(n) => {
            let sp = dec_string(n as u64);
            media = media.with_attribute("downloadspeed", Some(sp));
        },
        None => {},
    }
    let ghost mv = media@;
    assert(mv =~= spec_gb_media(port, *mp, direction@, speed));
    let sd = SdpBuilder::new(origin, name).connection(Connection::ipv4(ip)).time(start, stop).media(
        media,
    ).ssrc(device_id).media_format(f_line.as_str()).build();
    assert(sd@ =~= spec_gb_session(name@, device_id@, ip@, port, *mp, start, stop, direction@, speed));
    sd
}

/// Live-view INVITE body: session `Play`, `t=0 0`, `a=recvonly`.
pub fn build_invite_sdp(device_id: &str, server_ip: &str, server_port: u16, media_param: &MediaParam) -> (sd: SessionDescription)
    ensures
        sd@ == spec_gb_session(
            "Play"@,
            device_id@,
            server_ip@,
            server_port,
            *media_param,
            0,
            0,
            "recvonly"@,
            None,
        ),
{
    gb_session("Play", device_id, server_ip, server_port, media_param, 0, 0, "recvonly", None)
}

/// Live-view 200 OK body: session `Play`, `t=0 0`, `a=sendonly`.
pub fn build_ok_sdp(device_id: &str, device_ip: &str, device_port: u16, media_param: &MediaParam) -> (sd: SessionDescription)
    ensures
        sd@ == spec_gb_session(
            "Play"@,
            device_id@,
            device_ip@,
            device_port,
            *media_param,
            0,
            0,
            "sendonly"@,
            None,
        ),
{
    gb_session("Play", device_id, device_ip, device_port, media_param, 0, 0, "sendonly", None)
}


// ---------------------------------------------------------------------------
// Calendar and NTP time
// ---------------------------------------------------------------------------

/// Seconds from the NTP epoch (1900-01-01) to the Unix epoch (1970-01-01).
pub const NTP_UNIX_OFFSET: u64 = 2208988800;

pub open spec fn is_leap(y: int) -> bool {
    (y % 4 == 0 && y % 100 != 0) || y % 400 == 0
}

pub open spec fn year_len(y: int) -> nat {
    if is_leap(y) {
        366
    } else {
        365
    }
}

/// Days in month `m` (1..=12) of year `y`.
pub open spec fn month_len(y: int, m: int) -> nat {
    if m == 2 {
        if is_leap(y) {
            29
        } else {
            28
        }
    } else if m == 4 || m == 6 || m == 9 || m == 11 {
        30
    } else {
        31
    }
}

/// Days from 1970-01-01 to January 1st of `y`.
pub open spec fn days_before_year(y: int) -> nat
    decreases y - 1970,
{
    if y <= 1970 {
        0
    } else {
        days_before_year(y - 1) + year_len(y - 1)
    }
}

/// Days from January 1st to the first day of month `m` in year `y`.
pub open spec fn days_before_month(y: int, m: int) -> nat
    decreases m - 1,
{
    if m <= 1 {
        0
    } else {
        days_before_month(y, m - 1) + month_len(y, m - 1)
    }
}

/// Days from 1970-01-01 to day `d` of month `m` of year `y` (a day past the
/// end of the month runs on into the next one).
pub open spec fn civil_days(y: int, m: int, d: int) -> int {
    days_before_year(y) + days_before_month(y, m) + d - 1
}

/// The year holding day `days` counted from January 1st of `y`, and the
/// day within that year.
pub open spec fn year_split(y: int, days: nat) -> (int, nat)
    decreases days,
{
    if days < year_len(y) {
        (y, days)
    } else {
        year_split(y + 1, (days - year_len(y)) as nat)
    }
}

/// The month holding day `days` of year `y` counted from the first day of
/// month `m`, and the day within that month.
pub open spec fn month_split(y: int, m: int, days: nat) -> (int, nat)
    decreases days,
{
    if days < month_len(y, m) || m >= 12 {
        (m, days)
    } else {
        month_split(y, m + 1, (days - month_len(y, m)) as nat)
    }
}

/// Year, month, day, hour, minute and second of Unix time `t` (UTC).
pub open spec fn unix_fields(t: nat) -> (int, int, int, int, int, int) {
    let days = t / 86400;
    let ys = year_split(1970, days);
    let ms = month_split(ys.0, 1, ys.1);
    (ys.0, ms.0, (ms.1 + 1) as int, ((t / 3600) % 24) as int, ((t / 60) % 60) as int, (t % 60) as int)
}

/// Unix time of NTP time `ntp`; times before 1970 count as the Unix epoch.
pub open spec fn ntp_unix(ntp: nat) -> nat {
    if ntp >= NTP_UNIX_OFFSET {
        (ntp - NTP_UNIX_OFFSET) as nat
    } else {
        0
    }
}

/// `YYYY-MM-DDTHH:MM:SS` of the given fields, each zero-padded.
pub open spec fn datetime_text(y: nat, mo: nat, d: nat, h: nat, mi: nat, sec: nat) -> Seq<char> {
    pad_dec(y, 4) + "-"@ + pad_dec(mo, 2) + "-"@ + pad_dec(d, 2) + "T"@ + pad_dec(h, 2) + ":"@
        + pad_dec(mi, 2) + ":"@ + pad_dec(sec, 2)
}

/// `YYYY-MM-DDTHH:MM:SS` for NTP time `ntp`.
pub open spec fn spec_ntp_to_datetime(ntp: nat) -> Seq<char> {
    let f = unix_fields(ntp_unix(ntp));
    datetime_text(f.0 as nat, f.1 as nat, f.2 as nat, f.3 as nat, f.4 as nat, f.5 as nat)
}

/// Whether the year of NTP time `ntp` fits in a `u32`.
pub open spec fn ntp_year_fits(ntp: nat) -> bool {
    unix_fields(ntp_unix(ntp)).0 <= u32::MAX
}

/// NTP time of `YYYY-MM-DDTHH:MM:SS` (each field as `u32::from_str` reads
/// it), for years 1970..=2100, months 1..=12, days 1..=31, hours 0..=23,
/// minutes and seconds 0..=59.
pub open spec fn spec_datetime_to_ntp(s: Seq<char>) -> Option<nat> {
    let parts = split_char(s, 'T');
    if parts.len() != 2 {
        None
    } else {
        let dp = split_char(parts[0], '-');
        let tp = split_char(parts[1], ':');
        let mx = u32::MAX as nat;
        if dp.len() != 3 || tp.len() != 3 {
            None
        } else {
            match (
                parse_uint(dp[0], mx),
                parse_uint(dp[1], mx),
                parse_uint(dp[2], mx),
                parse_uint(tp[0], mx),
                parse_uint(tp[1], mx),
                parse_uint(tp[2], mx),
            ) {
                (Some(y), Some(mo), Some(d), Some(h), Some(mi), Some(sec)) => {
                    if 1970 <= y <= 2100 && 1 <= mo <= 12 && 1 <= d <= 31 && h <= 23 && mi <= 59
                        && sec <= 59 {
                        Some(
                            (civil_days(y as int, mo as int, d as int) * 86400 + h * 3600 + mi * 60
                                + sec + NTP_UNIX_OFFSET) as nat,
                        )
                    } else {
                        None
                    }
                },
                _ => None,
            }
        }
    }
}

fn is_leap_year(year: u32) -> (b: bool)
    ensures
        b == is_leap(year as int),
{
    (year % 4 == 0 && year % 100 != 0) || (year % 400 == 0)
}

fn year_length(year: u32) -> (n: u64)
    ensures
        n == year_len(year as int),
{
    if is_leap_year(year) {
        366
    } else {
        365
    }
}

fn month_length(year: u32, month: u32) -> (n: u64)
    ensures
        n == month_len(year as int, month as int),
{
    if month == 2 {
        if is_leap_year(year) {
            29
        } else {
            28
        }
    } else if month == 4 || month == 6 || month == 9 || month == 11 {
        30
    } else {
        31
    }
}

proof fn lemma_days_before_year_bound(y: int)
    ensures
        y >= 1970 ==> days_before_year(y) <= 366 * (y - 1970),
    decreases y - 1970,
{
    if y > 1970 {
        lemma_days_before_year_bound(y - 1);
    }
}

proof fn lemma_days_before_month_bound(y: int, m: int)
    ensures
        m >= 1 ==> days_before_month(y, m) <= 31 * (m - 1),
    decreases m - 1,
{
    if m > 1 {
        lemma_days_before_month_bound(y, m - 1);
    }
}

proof fn lemma_year_split_ge(y: int, days: nat)
    ensures
        year_split(y, days).0 >= y,
        year_split(y, days).1 < year_len(year_split(y, days).0),
    decreases days,
{
    if days >= year_len(y) {
        lemma_year_split_ge(y + 1, (days - year_len(y)) as nat);
    }
}

proof fn lemma_months_fill_year(y: int)
    ensures
        days_before_month(y, 13) == year_len(y),
        days_before_month(y, 12) + 31 == year_len(y),
{
    reveal_with_fuel(days_before_month, 13);
}

/// Days from 1970-01-01 to the given date.
fn days_since_unix_epoch(year: u32, month: u32, day: u32) -> (days: u64)
    requires
        1970 <= year <= 2100,
        1 <= month <= 12,
        1 <= day <= 31,
    ensures
        days == civil_days(year as int, month as int, day as int),
        days <= 366 * 131 + 31 * 12,
{
    let mut days: u64 = 0;
    let mut y: u32 = 1970;
    while y < year
        invariant
            1970 <= y <= year <= 2100,
            days == days_before_year(y as int),
            days <= 366 * (y - 1970),
        decreases year - y,
    {
        days = days + year_length(y);
        y = y + 1;
    }
    let mut m: u32 = 1;
    while m < month
        invariant
            1 <= m <= month <= 12,
            year <= 2100,
            days == days_before_year(year as int) + days_before_month(year as int, m as int),
            days <= 366 * 130 + 31 * (m - 1),
        decreases month - m,
    {
        days = days + month_length(year, m);
        m = m + 1;
    }
    days = days + (day - 1) as u64;
    days
}

/// NTP timestamp of an ISO 8601 time `YYYY-MM-DDTHH:MM:SS` (UTC); `None`
/// when the text does not have that form or a field is out of range.
pub fn datetime_to_ntp(datetime: &str) -> (r: Option<u64>)
    ensures
        match r {
            Some(n) => spec_datetime_to_ntp(datetime@) == Some(n as nat),
            None => spec_datetime_to_ntp(datetime@) is None,
        },
{
    let v = crate::text::chars_of(datetime);
    let parts = split_vec(&v, 'T');
    proof {
        lemma_deep_chars(parts);
    }
    if parts.len() != 2 {
        return None;
    }
    let dp = split_vec(&parts[0], '-');
    proof {
        lemma_deep_chars(dp);
    }
    if dp.len() != 3 {
        return None;
    }
    let tp = split_vec(&parts[1], ':');
    proof {
        lemma_deep_chars(tp);
    }
    if tp.len() != 3 {
        return None;
    }
    let mx: u64 = 4294967295;
    let year = match parse_uint_vec(&dp[0], mx) {
        Some(n) => n,
        None => return None,
    };
    let month = match parse_uint_vec(&dp[1], mx) {
        Some(n) => n,
        None => return None,
    };
    let day = match parse_uint_vec(&dp[2], mx) {
        Some(n) => n,
        None => return None,
    };
    let hour = match parse_uint_vec(&tp[0], mx) {
        Some(n) => n,
        None => return None,
    };
    let minute = match parse_uint_vec(&tp[1], mx) {
        Some(n) => n,
        None => return None,
    };
    let second = match parse_uint_vec(&tp[2], mx) {
        Some(n) => n,
        None => return None,
    };
    if year < 1970 || year > 2100 || month < 1 || month > 12 || day < 1 || day > 31 {
        return None;
    }
    if hour > 23 || minute > 59 || second > 59 {
        return None;
    }
    let days = days_since_unix_epoch(year as u32, month as u32, day as u32);
    Some(days * 86400 + hour * 3600 + minute * 60 + second + NTP_UNIX_OFFSET)
}

/// Year, month, day, hour, minute and second of Unix time `unix_ts`.
fn unix_ts_to_datetime(unix_ts: u64) -> (r: (u32, u32, u32, u32, u32, u32))
    requires
        unix_fields(unix_ts as nat).0 <= u32::MAX,
    ensures
        r.0 == unix_fields(unix_ts as nat).0,
        r.1 == unix_fields(unix_ts as nat).1,
        r.2 == unix_fields(unix_ts as nat).2,
        r.3 == unix_fields(unix_ts as nat).3,
        r.4 == unix_fields(unix_ts as nat).4,
        r.5 == unix_fields(unix_ts as nat).5,
{
    let mut remaining = unix_ts;
    let second = (remaining % 60) as u32;
    remaining = remaining / 60;
    let minute = (remaining % 60) as u32;
    remaining = remaining / 60;
    let hour = (remaining % 24) as u32;
    remaining = remaining / 24;
    assert(remaining == unix_ts / 86400) by (nonlinear_arith)
        requires
            remaining == ((unix_ts / 60) / 60) / 24,
    ;
    assert(((unix_ts / 60) / 60) == unix_ts / 3600) by (nonlinear_arith);
    let ghost days0: nat = remaining as nat;
    let ghost target = year_split(1970, days0);
    let mut year: u32 = 1970;
    while remaining >= year_length(year)
        invariant
            year >= 1970,
            year_split(year as int, remaining as nat) == target,
            target.0 <= u32::MAX,
        decreases remaining,
    {
        proof {
            lemma_year_split_ge(year + 1, (remaining - year_len(year as int)) as nat);
        }
        remaining = remaining - year_length(year);
        year = year + 1;
    }
    proof {
        lemma_year_split_ge(1970, days0);
        lemma_months_fill_year(year as int);
    }
    let ghost mtarget = month_split(year as int, 1, remaining as nat);
    let mut month: u32 = 1;
    while remaining >= month_length(year, month)
        invariant
            1 <= month <= 12,
            month_split(year as int, month as int, remaining as nat) == mtarget,
            remaining + days_before_month(year as int, month as int) < year_len(year as int),
            days_before_month(year as int, 12) + 31 == year_len(year as int),
        decreases remaining,
    {
        remaining = remaining - month_length(year, month);
        month = month + 1;
    }
    let day = (remaining + 1) as u32;
    (year, month, day, hour, minute, second)
}

/// ISO 8601 time `YYYY-MM-DDTHH:MM:SS` (UTC) of an NTP timestamp; times
/// before 1970 give the Unix epoch.
pub fn ntp_to_datetime(ntp: u64) -> (s: String)
    requires
        ntp_year_fits(ntp as nat),
    ensures
        s@ == spec_ntp_to_datetime(ntp as nat),
{
    let unix_ts = ntp.saturating_sub(NTP_UNIX_OFFSET);
    let (year, month, day, hour, minute, second) = unix_ts_to_datetime(unix_ts);
    let mut s = String::new();
    push_pad_dec(&mut s, year as u64, 4);
    push_str(&mut s, "-");
    push_pad_dec(&mut s, month as u64, 2);
    push_str(&mut s, "-");
    push_pad_dec(&mut s, day as u64, 2);
    push_str(&mut s, "T");
    push_pad_dec(&mut s, hour as u64, 2);
    push_str(&mut s, ":");
    push_pad_dec(&mut s, minute as u64, 2);
    push_str(&mut s, ":");
    push_pad_dec(&mut s, second as u64, 2);
    s
}

/// NTP time of `s`, or 0 (a permanent session) when `s` is not a valid time.
pub open spec fn ntp_or_zero(s: Seq<char>) -> u64 {
    match spec_datetime_to_ntp(s) {
        Some(n) => n as u64,
        None => 0,
    }
}

fn ntp_or_zero_of(s: &str) -> (n: u64)
    ensures
        n == ntp_or_zero(s@),
{
    match datetime_to_ntp(s) {
        Some(n) => n,
        None => 0,
    }
}

/// Playback INVITE body: session `Playback`, `t=` carrying the NTP times of
/// `start_time` and `end_time` (0 for one that is not a valid time),
/// `a=sendonly`.
pub fn build_playback_invite_sdp(
    device_id: &str,
    server_ip: &str,
    server_port: u16,
    media_param: &MediaParam,
    start_time: &str,
    end_time: &str,
) -> (sd: SessionDescription)
    ensures
        sd@ == spec_gb_session(
            "Playback"@,
            device_id@,
            server_ip@,
            server_port,
            *media_param,
            ntp_or_zero(start_time@),
            ntp_or_zero(end_time@),
            "sendonly"@,
            None,
        ),
{
    let ntp_start = ntp_or_zero_of(start_time);
    let ntp_stop = ntp_or_zero_of(end_time);
    gb_session(
        "Playback",
        device_id,
        server_ip,
        server_port,
        media_param,
        ntp_start,
        ntp_stop,
        "sendonly",
        None,
    )
}

/// Download INVITE body: as playback, with session `Download` and, when a
/// speed is given, `a=downloadspeed:<speed>`.
pub fn build_download_invite_sdp(
    device_id: &str,
    server_ip: &str,
    server_port: u16,
    media_param: &MediaParam,
    start_time: &str,
    end_time: &str,
    download_speed: Option<u32>,
) -> (sd: SessionDescription)
    ensures
        sd@ == spec_gb_session(
            "Download"@,
            device_id@,
            server_ip@,
            server_port,
            *media_param,
            ntp_or_zero(start_time@),
            ntp_or_zero(end_time@),
            "sendonly"@,
            download_speed,
        ),
{
    let ntp_start = ntp_or_zero_of(start_time);
    let ntp_stop = ntp_or_zero_of(end_time);
    gb_session(
        "Download",
        device_id,
        server_ip,
        server_port,
        media_param,
        ntp_start,
        ntp_stop,
        "sendonly",
        download_speed,
    )
}

/// First time description whose start or stop time is not 0.
pub open spec fn first_timed(tds: Seq<SpecTimeDescription>) -> Option<SpecTimeDescription>
    decreases tds.len(),
{
    if tds.len() == 0 {
        None
    } else if tds[0].start_time != 0 || tds[0].stop_time != 0 {
        Some(tds[0])
    } else {
        first_timed(tds.drop_first())
    }
}

/// Whether the years of the times that `extract_time_range` renders fit in a `u32`.
pub open spec fn time_range_fits(sd: SpecSessionDescription) -> bool {
    match first_timed(sd.time_descriptions) {
        Some(td) => ntp_year_fits(td.start_time as nat) && ntp_year_fits(td.stop_time as nat),
        None => true,
    }
}

/// Start and end, as ISO 8601 text, of the first time description that is
/// not `t=0 0`.
pub open spec fn spec_time_range(sd: SpecSessionDescription) -> Option<(Seq<char>, Seq<char>)> {
    match first_timed(sd.time_descriptions) {
        Some(td) => Some(
            (
                spec_ntp_to_datetime(td.start_time as nat),
                spec_ntp_to_datetime(td.stop_time as nat),
            ),
        ),
        None => None,
    }
}

proof fn lemma_first_timed_skip(tds: Seq<SpecTimeDescription>, k: int)
    requires
        0 <= k <= tds.len(),
        forall|j: int| 0 <= j < k ==> (#[trigger] tds[j]).start_time == 0 && tds[j].stop_time == 0,
    ensures
        first_timed(tds) == first_timed(tds.skip(k)),
    decreases k,
{
    if k > 0 {
        assert(tds.drop_first().skip(k - 1) == tds.skip(k));
        assert forall|j: int| 0 <= j < k - 1 implies (#[trigger] tds.drop_first()[j]).start_time
            == 0 && tds.drop_first()[j].stop_time == 0 by {
            assert(tds.drop_first()[j] == tds[j + 1]);
        }
        lemma_first_timed_skip(tds.drop_first(), k - 1);
    } else {
        assert(tds.skip(0) == tds);
    }
}

/// Time range of a playback or download session: the first `t=` line that
/// is not `t=0 0`, rendered as ISO 8601 text; `None` for live sessions.
pub fn extract_time_range(sdp: &SessionDescription) -> (r: Option<(String, String)>)
    requires
        time_range_fits(sdp@),
    ensures
        match r {
            Some((a, b)) => spec_time_range(sdp@) == Some((a@, b@)),
            None => spec_time_range(sdp@) is None,
        },
{
    let ghost tds = sdp@.time_descriptions;
    let mut i: usize = 0;
    while i < sdp.time_descriptions.len()
        invariant
            i <= sdp.time_descriptions@.len(),
            tds == sdp@.time_descriptions,
            time_range_fits(sdp@),
            forall|j: int| 0 <= j < i ==> (#[trigger] tds[j]).start_time == 0 && tds[j].stop_time
                == 0,
        decreases sdp.time_descriptions@.len() - i,
    {
        let td = &sdp.time_descriptions[i];
        assert(tds[i as int] == td@);
        if td.start_time != 0 || td.stop_time != 0 {
            proof {
                lemma_first_timed_skip(tds, i as int);
                assert(tds.skip(i as int)[0] == td@);
            }
            let start = ntp_to_datetime(td.start_time);
            let end = ntp_to_datetime(td.stop_time);
            return Some((start, end));
        }
        i += 1;
    }
    proof {
        lemma_first_timed_skip(tds, tds.len() as int);
    }
    None
}

/// Fields of an `f=` line `v/<stream>/<video>///a/<audio>/<rate>///`.
#[derive(Debug, Clone, PartialEq, Eq)]
pub struct ParsedMediaFormat {
    pub stream_type: String,
    pub video_encoding: String,
    pub audio_encoding: String,
    /// Audio sampling rate code (kHz).
    pub audio_sample_rate: String,
}

pub struct SpecParsedMediaFormat {
    pub stream_type: Seq<char>,
    pub video_encoding: Seq<char>,
    pub audio_encoding: Seq<char>,
    pub audio_sample_rate: Seq<char>,
}

impl View for ParsedMediaFormat {
    type V = SpecParsedMediaFormat;

    open spec fn view(&self) -> SpecParsedMediaFormat {
        SpecParsedMediaFormat {
            stream_type: self.stream_type@,
            video_encoding: self.video_encoding@,
            audio_encoding: self.audio_encoding@,
            audio_sample_rate: self.audio_sample_rate@,
        }
    }
}

/// An `f=` line split at `/` into at least ten fields, the first `v` and the
/// sixth `a`: fields 2, 3, 7 and 8 are stream, video, audio and rate.
pub open spec fn spec_parse_media_format(f: Seq<char>) -> Option<SpecParsedMediaFormat> {
    let parts = split_char(f, '/');
    if parts.len() < 10 || parts[0] != "v"@ || parts[5] != "a"@ {
        None
    } else {
        Some(
            SpecParsedMediaFormat {
                stream_type: parts[1],
                video_encoding: parts[2],
                audio_encoding: parts[6],
                audio_sample_rate: parts[7],
            },
        )
    }
}

/// Parses an `f=` line; `None` when it does not have the GB28181 shape.
pub fn parse_media_format(f_line: &str) -> (r: Option<ParsedMediaFormat>)
    ensures
        match r {
            Some(p) => spec_parse_media_format(f_line@) == Some(p@),
            None => spec_parse_media_format(f_line@) is None,
        },
{
    let v = crate::text::chars_of(f_line);
    let parts = split_vec(&v, '/');
    proof {
        lemma_deep_chars(parts);
    }
    if parts.len() < 10 {
        return None;
    }
    if !vec_eq_str(&parts[0], "v") || !vec_eq_str(&parts[5], "a") {
        return None;
    }
    Some(
        ParsedMediaFormat {
            stream_type: string_of(&parts[1]),
            video_encoding: string_of(&parts[2]),
            audio_encoding: string_of(&parts[6]),
            audio_sample_rate: string_of(&parts[7]),
        },
    )
}

/// Stream kind of a session: from the stream code of a well-formed `f=`
/// line (`1` live, `2` history, `3` download, anything else none), else
/// from the session name (`Play`, `Playback`, `Download`).
pub open spec fn spec_stream_type(sd: SpecSessionDescription) -> Option<StreamType> {
    let from_f = match sd.media_format {
        Some(f) => spec_parse_media_format(f),
        None => None,
    };
    match from_f {
        Some(pm) => if pm.stream_type == "1"@ {
            Some(StreamType::Live)
        } else if pm.stream_type == "2"@ {
            Some(StreamType::History)
        } else if pm.stream_type == "3"@ {
            Some(StreamType::Download)
        } else {
            None
        },
        None => if sd.session_name == "Play"@ {
            Some(StreamType::Live)
        } else if sd.session_name == "Playback"@ {
            Some(StreamType::History)
        } else if sd.session_name == "Download"@ {
            Some(StreamType::Download)
        } else {
            None
        },
    }
}

fn stream_type_of_code(code: &String, a: &str, b: &str, c: &str) -> (r: Option<StreamType>)
    ensures
        r == (if code@ == a@ {
            Some(StreamType::Live)
        } else if code@ == b@ {
            Some(StreamType::History)
        } else if code@ == c@ {
            Some(StreamType::Download)
        } else {
            None
        }),
{
    let v = crate::text::chars_of(code.as_str());
    if vec_eq_str(&v, a) {
        Some(StreamType::Live)
    } else if vec_eq_str(&v, b) {
        Some(StreamType::History)
    } else if vec_eq_str(&v, c) {
        Some(StreamType::Download)
    } else {
        None
    }
}

/// Without a well-formed `f=` line, the stream kind of a session is read
/// from its session name alone: `Play` is live view, `Playback` history,
/// `Download` download, and any other name gives none.
pub proof fn law_stream_type_by_session_name(sd: SpecSessionDescription)
    requires
        match sd.media_format {
            Some(f) => spec_parse_media_format(f) is None,
            None => true,
        },
    ensures
        sd.session_name == "Play"@ ==> spec_stream_type(sd) == Some(StreamType::Live),
        sd.session_name == "Playback"@ ==> spec_stream_type(sd) == Some(StreamType::History),
        sd.session_name == "Download"@ ==> spec_stream_type(sd) == Some(StreamType::Download),
        sd.session_name != "Play"@ && sd.session_name != "Playback"@ && sd.session_name
            != "Download"@ ==> spec_stream_type(sd) is None,
{
    reveal_strlit("Play");
    reveal_strlit("Playback");
    reveal_strlit("Download");
    assert("Play"@.len() != "Playback"@.len());
    assert("Play"@.len() != "Download"@.len());
    assert("Playback"@[0] != "Download"@[0]);
}

/// A well-formed `f=` line decides the stream kind whatever the session is
/// named: renaming the session does not change it.
pub proof fn law_stream_type_f_line_first(sd: SpecSessionDescription, name: Seq<char>)
    requires
        sd.media_format matches Some(f) && spec_parse_media_format(f) is Some,
    ensures
        spec_stream_type(SpecSessionDescription { session_name: name, ..sd }) == spec_stream_type(sd),
{
}

/// Stream kind (live, playback or download) of a session.
pub fn extract_stream_type(sdp: &SessionDescription) -> (r: Option<StreamType>)
    ensures
        r == spec_stream_type(sdp@),
{
    match &sdp.media_format {
        Some(f) => {
            match parse_media_format(f.as_str()) {
                Some(pm) => {
                    return stream_type_of_code(&pm.stream_type, "1", "2", "3");
                },
                None => {},
            }
        },
        None => {},
    }
    stream_type_of_code(&sdp.session_name, "Play", "Playback", "Download")
}

// ---------------------------------------------------------------------------
// Laws of the time conversions
// ---------------------------------------------------------------------------

/// A calendar date and time of day in the range `datetime_to_ntp` accepts,
/// the day lying within its month.
pub open spec fn valid_datetime(y: nat, mo: nat, d: nat, h: nat, mi: nat, sec: nat) -> bool {
    1970 <= y <= 2100 && 1 <= mo <= 12 && 1 <= d <= month_len(y as int, mo as int) && h < 24 && mi
        < 60 && sec < 60
}

/// NTP time of the given date and time of day (UTC).
pub open spec fn ntp_of(y: nat, mo: nat, d: nat, h: nat, mi: nat, sec: nat) -> nat {
    (civil_days(y as int, mo as int, d as int) * 86400 + h * 3600 + mi * 60 + sec
        + NTP_UNIX_OFFSET) as nat
}

/// First NTP second after 2100-12-31T23:59:59.
pub open spec fn ntp_end() -> nat {
    (days_before_year(2101) * 86400 + NTP_UNIX_OFFSET) as nat
}

proof fn lemma_days_before_year_mono(a: int, b: int)
    requires
        1970 <= a <= b,
    ensures
        days_before_year(a) <= days_before_year(b),
        a < b ==> days_before_year(a) + year_len(a) <= days_before_year(b),
    decreases b - a,
{
    if a < b {
        lemma_days_before_year_mono(a, b - 1);
    }
}

proof fn lemma_days_before_month_mono(y: int, a: int, b: int)
    requires
        1 <= a <= b,
    ensures
        days_before_month(y, a) <= days_before_month(y, b),
        a < b ==> days_before_month(y, a) + month_len(y, a) <= days_before_month(y, b),
    decreases b - a,
{
    if a < b {
        lemma_days_before_month_mono(y, a, b - 1);
    }
}

proof fn lemma_year_split_at(y0: int, y: int, r: nat)
    requires
        1970 <= y0 <= y,
        r < year_len(y),
    ensures
        year_split(y0, (days_before_year(y) - days_before_year(y0) + r) as nat) == (y, r),
    decreases y - y0,
{
    if y0 < y {
        lemma_days_before_year_mono(y0, y);
        lemma_days_before_year_mono(y0 + 1, y);
        lemma_year_split_at(y0 + 1, y, r);
    }
}

proof fn lemma_month_split_at(y: int, m0: int, m: int, d0: nat)
    requires
        1 <= m0 <= m <= 12,
        d0 < month_len(y, m),
    ensures
        month_split(y, m0, (days_before_month(y, m) - days_before_month(y, m0) + d0) as nat) == (
            m,
            d0,
        ),
    decreases m - m0,
{
    if m0 < m {
        lemma_days_before_month_mono(y, m0, m);
        lemma_days_before_month_mono(y, m0 + 1, m);
        lemma_month_split_at(y, m0 + 1, m, d0);
    }
}

proof fn lemma_year_split_inv(y0: int, days: nat)
    requires
        y0 >= 1970,
    ensures
        year_split(y0, days).0 >= y0,
        year_split(y0, days).1 < year_len(year_split(y0, days).0),
        days_before_year(year_split(y0, days).0) - days_before_year(y0) + year_split(y0, days).1
            == days,
    decreases days,
{
    if days >= year_len(y0) {
        lemma_year_split_inv(y0 + 1, (days - year_len(y0)) as nat);
    }
}

proof fn lemma_month_split_inv(y: int, m0: int, days: nat)
    requires
        1 <= m0 <= 12,
        days_before_month(y, m0) + days < year_len(y),
    ensures
        m0 <= month_split(y, m0, days).0 <= 12,
        month_split(y, m0, days).1 < month_len(y, month_split(y, m0, days).0),
        days_before_month(y, month_split(y, m0, days).0) - days_before_month(y, m0)
            + month_split(y, m0, days).1 == days,
    decreases days,
{
    lemma_months_fill_year(y);
    if m0 == 12 {
        assert(month_len(y, 12) == 31);
    } else if days >= month_len(y, m0) {
        lemma_month_split_inv(y, m0 + 1, (days - month_len(y, m0)) as nat);
    }
}

proof fn lemma_time_of_day(t: int, days: int, h: int, mi: int, sec: int)
    requires
        days >= 0,
        0 <= h < 24,
        0 <= mi < 60,
        0 <= sec < 60,
        t == days * 86400 + h * 3600 + mi * 60 + sec,
    ensures
        t / 86400 == days,
        (t / 3600) % 24 == h,
        (t / 60) % 60 == mi,
        t % 60 == sec,
{
    vstd::arithmetic::div_mod::lemma_fundamental_div_mod_converse(
        t,
        86400,
        days,
        h * 3600 + mi * 60 + sec,
    );
    vstd::arithmetic::div_mod::lemma_fundamental_div_mod_converse(
        t,
        3600,
        days * 24 + h,
        mi * 60 + sec,
    );
    vstd::arithmetic::div_mod::lemma_fundamental_div_mod_converse(days * 24 + h, 24, days, h);
    vstd::arithmetic::div_mod::lemma_fundamental_div_mod_converse(
        t,
        60,
        days * 1440 + h * 60 + mi,
        sec,
    );
    vstd::arithmetic::div_mod::lemma_fundamental_div_mod_converse(
        days * 1440 + h * 60 + mi,
        60,
        days * 24 + h,
        mi,
    );
}

proof fn lemma_time_of_day_parts(t: int)
    requires
        t >= 0,
    ensures
        t == (t / 86400) * 86400 + ((t / 3600) % 24) * 3600 + ((t / 60) % 60) * 60 + t % 60,
        0 <= (t / 3600) % 24 < 24,
        0 <= (t / 60) % 60 < 60,
        0 <= t % 60 < 60,
        t / 86400 >= 0,
{
    let days = t / 86400;
    let rest = t % 86400;
    vstd::arithmetic::div_mod::lemma_fundamental_div_mod(t, 86400);
    let h = rest / 3600;
    let rr = rest % 3600;
    vstd::arithmetic::div_mod::lemma_fundamental_div_mod(rest, 3600);
    let mi = rr / 60;
    let sec = rr % 60;
    vstd::arithmetic::div_mod::lemma_fundamental_div_mod(rr, 60);
    assert(0 <= rest < 86400);
    assert(0 <= h < 24) by (nonlinear_arith)
        requires
            rest == h * 3600 + rr,
            0 <= rr < 3600,
            0 <= rest < 86400,
    ;
    assert(0 <= mi < 60) by (nonlinear_arith)
        requires
            rr == mi * 60 + sec,
            0 <= sec < 60,
            0 <= rr < 3600,
    ;
    lemma_time_of_day(t, days, h, mi, sec);
}

proof fn lemma_digits_free(n: nat, w: nat, c: char)
    requires
        !is_digit(c),
    ensures
        !pad_dec(n, w).contains(c),
{
    lemma_parse_pad_dec(n, w, n);
    let p = pad_dec(n, w);
    lemma_dec_digits(n);
    if dec(n).len() < w {
        lemma_leading_zeros((w - dec(n).len()) as nat, dec(n));
    }
    if p.contains(c) {
        let i = choose|i: int| 0 <= i < p.len() && p[i] == c;
        assert(is_digit(p[i]));
    }
}

proof fn lemma_three_fields(a: Seq<char>, b: Seq<char>, c: Seq<char>, sep: char)
    requires
        !a.contains(sep),
        !b.contains(sep),
        !c.contains(sep),
    ensures
        split_char(a + seq![sep] + b + seq![sep] + c, sep) == seq![a, b, c],
{
    lemma_split_char_concat(a + seq![sep] + b, c, sep);
    lemma_split_char_concat(a, b, sep);
    lemma_split_char_free(a, sep);
    lemma_split_char_free(b, sep);
    lemma_split_char_free(c, sep);
    assert(seq![a] + seq![b] + seq![c] =~= seq![a, b, c]);
}

proof fn lemma_no_sep_in_fields(a: Seq<char>, b: Seq<char>, c: Seq<char>, s1: char, s2: char)
    requires
        !a.contains(s2),
        !b.contains(s2),
        !c.contains(s2),
        s1 != s2,
    ensures
        !(a + seq![s1] + b + seq![s1] + c).contains(s2),
{
    let t = a + seq![s1] + b + seq![s1] + c;
    if t.contains(s2) {
        let i = choose|i: int| 0 <= i < t.len() && t[i] == s2;
        if i < a.len() {
            assert(a[i] == s2);
        } else if i == a.len() {
        } else if i < a.len() + 1 + b.len() {
            assert(b[i - a.len() - 1] == s2);
        } else if i == a.len() + 1 + b.len() {
        } else {
            assert(c[i - a.len() - 2 - b.len()] == s2);
        }
    }
}

/// Reading a formatted date and time: the text of valid fields parses to
/// their NTP time.
proof fn lemma_parse_datetime_text(y: nat, mo: nat, d: nat, h: nat, mi: nat, sec: nat)
    requires
        valid_datetime(y, mo, d, h, mi, sec),
    ensures
        spec_datetime_to_ntp(datetime_text(y, mo, d, h, mi, sec)) == Some(
            ntp_of(y, mo, d, h, mi, sec),
        ),
{
    reveal_strlit("-");
    reveal_strlit(":");
    reveal_strlit("T");
    let py = pad_dec(y, 4);
    let pmo = pad_dec(mo, 2);
    let pd = pad_dec(d, 2);
    let ph = pad_dec(h, 2);
    let pmi = pad_dec(mi, 2);
    let ps = pad_dec(sec, 2);
    let date = py + seq!['-'] + pmo + seq!['-'] + pd;
    let time = ph + seq![':'] + pmi + seq![':'] + ps;
    assert(datetime_text(y, mo, d, h, mi, sec) =~= date + seq!['T'] + time);
    lemma_digits_free(y, 4, 'T');
    lemma_digits_free(mo, 2, 'T');
    lemma_digits_free(d, 2, 'T');
    lemma_digits_free(h, 2, 'T');
    lemma_digits_free(mi, 2, 'T');
    lemma_digits_free(sec, 2, 'T');
    lemma_digits_free(y, 4, '-');
    lemma_digits_free(mo, 2, '-');
    lemma_digits_free(d, 2, '-');
    lemma_digits_free(h, 2, ':');
    lemma_digits_free(mi, 2, ':');
    lemma_digits_free(sec, 2, ':');
    lemma_no_sep_in_fields(py, pmo, pd, '-', 'T');
    lemma_no_sep_in_fields(ph, pmi, ps, ':', 'T');
    lemma_split_char_concat(date, time, 'T');
    lemma_split_char_free(date, 'T');
    lemma_split_char_free(time, 'T');
    assert(seq![date] + seq![time] =~= seq![date, time]);
    lemma_three_fields(py, pmo, pd, '-');
    lemma_three_fields(ph, pmi, ps, ':');
    let mx = u32::MAX as nat;
    lemma_parse_pad_dec(y, 4, mx);
    lemma_parse_pad_dec(mo, 2, mx);
    lemma_parse_pad_dec(d, 2, mx);
    lemma_parse_pad_dec(h, 2, mx);
    lemma_parse_pad_dec(mi, 2, mx);
    lemma_parse_pad_dec(sec, 2, mx);
}

/// The calendar fields of the NTP time of valid fields are those fields.
proof fn lemma_fields_of_ntp(y: nat, mo: nat, d: nat, h: nat, mi: nat, sec: nat)
    requires
        valid_datetime(y, mo, d, h, mi, sec),
    ensures
        unix_fields(ntp_unix(ntp_of(y, mo, d, h, mi, sec))) == (
            y as int,
            mo as int,
            d as int,
            h as int,
            mi as int,
            sec as int,
        ),
{
    let yi = y as int;
    let moi = mo as int;
    lemma_months_fill_year(yi);
    lemma_days_before_month_mono(yi, moi, moi + 1);
    lemma_days_before_month_mono(yi, moi + 1, 13);
    let r = days_before_month(yi, moi) + d - 1;
    assert(r < year_len(yi));
    let days = civil_days(yi, moi, d as int);
    let t = days * 86400 + h * 3600 + mi * 60 + sec;
    assert(ntp_unix(ntp_of(y, mo, d, h, mi, sec)) == t);
    lemma_time_of_day(t, days, h as int, mi as int, sec as int);
    lemma_year_split_at(1970, yi, r as nat);
    assert(days_before_year(1970) == 0);
    lemma_month_split_at(yi, 1, moi, (d - 1) as nat);
    assert(days_before_month(yi, 1) == 0);
}

/// Any NTP time from 1970 up to the end of 2100 is the NTP time of valid
/// fields, namely its own calendar fields.
proof fn lemma_ntp_fields_valid(ntp: nat)
    requires
        NTP_UNIX_OFFSET <= ntp < ntp_end(),
    ensures
        ({
            let f = unix_fields(ntp_unix(ntp));
            &&& f.0 >= 0 && f.1 >= 0 && f.2 >= 0 && f.3 >= 0 && f.4 >= 0 && f.5 >= 0
            &&& valid_datetime(f.0 as nat, f.1 as nat, f.2 as nat, f.3 as nat, f.4 as nat, f.5 as nat)
            &&& ntp_of(f.0 as nat, f.1 as nat, f.2 as nat, f.3 as nat, f.4 as nat, f.5 as nat) == ntp
        }),
{
    let t = (ntp - NTP_UNIX_OFFSET) as nat;
    assert(ntp_unix(ntp) == t);
    lemma_time_of_day_parts(t as int);
    let days = t / 86400;
    assert(days < days_before_year(2101)) by (nonlinear_arith)
        requires
            t < days_before_year(2101) * 86400,
            days == t / 86400,
    ;
    lemma_year_split_inv(1970, days);
    let ys = year_split(1970, days);
    assert(days_before_year(1970) == 0);
    if ys.0 > 2100 {
        lemma_days_before_year_mono(2101, ys.0);
    }
    lemma_months_fill_year(ys.0);
    assert(days_before_month(ys.0, 1) == 0);
    lemma_month_split_inv(ys.0, 1, ys.1);
}

/// Formatting then reading an NTP time gives it back, for every NTP time
/// from 1970-01-01T00:00:00 to 2100-12-31T23:59:59.
pub proof fn law_ntp_datetime_roundtrip(ntp: nat)
    requires
        NTP_UNIX_OFFSET <= ntp < ntp_end(),
    ensures
        spec_datetime_to_ntp(spec_ntp_to_datetime(ntp)) == Some(ntp),
{
    lemma_ntp_fields_valid(ntp);
    let f = unix_fields(ntp_unix(ntp));
    lemma_parse_datetime_text(f.0 as nat, f.1 as nat, f.2 as nat, f.3 as nat, f.4 as nat, f.5 as nat);
}

/// Reading then formatting a date and time gives the text back, for every
/// valid date from 1970 to 2100 written `YYYY-MM-DDTHH:MM:SS`.
pub proof fn law_datetime_ntp_roundtrip(y: nat, mo: nat, d: nat, h: nat, mi: nat, sec: nat)
    requires
        valid_datetime(y, mo, d, h, mi, sec),
    ensures
        spec_datetime_to_ntp(datetime_text(y, mo, d, h, mi, sec)) == Some(
            ntp_of(y, mo, d, h, mi, sec),
        ),
        spec_ntp_to_datetime(ntp_of(y, mo, d, h, mi, sec)) == datetime_text(y, mo, d, h, mi, sec),
{
    lemma_parse_datetime_text(y, mo, d, h, mi, sec);
    lemma_fields_of_ntp(y, mo, d, h, mi, sec);
}

/// Every NTP time up to the Unix epoch formats as the epoch itself,
/// `1970-01-01T00:00:00`.
pub proof fn law_ntp_before_epoch(ntp: nat)
    requires
        ntp <= NTP_UNIX_OFFSET,
    ensures
        spec_ntp_to_datetime(ntp) == datetime_text(1970, 1, 1, 0, 0, 0),
{
    law_datetime_ntp_roundtrip(1970, 1, 1, 0, 0, 0);
    assert(ntp_unix(ntp) == ntp_unix(ntp_of(1970, 1, 1, 0, 0, 0)));
}

proof fn lemma_codes_slash_free(mp: MediaParam)
    ensures
        !spec_stream_format_id(mp.stream_type).contains('/'),
        !spec_video_format_id(mp.video_encoding).contains('/'),
        !spec_audio_format_id(mp.audio_encoding).contains('/'),
        !spec_audio_rate_id(mp.audio_encoding).contains('/'),
{
    reveal_strlit("1");
    reveal_strlit("2");
    reveal_strlit("3");
    reveal_strlit("4");
    reveal_strlit("5");
    reveal_strlit("8");
    reveal_strlit("16");
    reveal_strlit("48");
    let s = spec_stream_format_id(mp.stream_type);
    let v = spec_video_format_id(mp.video_encoding);
    let a = spec_audio_format_id(mp.audio_encoding);
    let r = spec_audio_rate_id(mp.audio_encoding);
    if s.contains('/') {
        let i = choose|i: int| 0 <= i < s.len() && s[i] == '/';
    }
    if v.contains('/') {
        let i = choose|i: int| 0 <= i < v.len() && v[i] == '/';
    }
    if a.contains('/') {
        let i = choose|i: int| 0 <= i < a.len() && a[i] == '/';
    }
    if r.contains('/') {
        let i = choose|i: int| 0 <= i < r.len() && r[i] == '/';
    }
}

/// Reading the `f=` line written for `mp` gives back the codes of its
/// stream type and encodings.
#[verifier::spinoff_prover]
#[verifier::rlimit(60)]
pub proof fn law_f_line_roundtrip(mp: MediaParam)
    ensures
        spec_parse_media_format(spec_f_line(mp)) == Some(
            SpecParsedMediaFormat {
                stream_type: spec_stream_format_id(mp.stream_type),
                video_encoding: spec_video_format_id(mp.video_encoding),
                audio_encoding: spec_audio_format_id(mp.audio_encoding),
                audio_sample_rate: spec_audio_rate_id(mp.audio_encoding),
            },
        ),
{
    reveal_strlit("v/");
    reveal_strlit("/");
    reveal_strlit("///a/");
    reveal_strlit("///");
    reveal_strlit("v");
    reveal_strlit("a");
    let st = spec_stream_format_id(mp.stream_type);
    let ve = spec_video_format_id(mp.video_encoding);
    let au = spec_audio_format_id(mp.audio_encoding);
    let ra = spec_audio_rate_id(mp.audio_encoding);
    let e = Seq::<char>::empty();
    let pieces = seq![seq!['v'], st, ve, e, e, seq!['a'], au, ra, e, e, e];
    lemma_codes_slash_free(mp);
    assert forall|i: int| 0 <= i < pieces.len() implies !(#[trigger] pieces[i]).contains('/') by {
        if i == 0 || i == 5 {
            if pieces[i].contains('/') {
                let k = choose|k: int| 0 <= k < pieces[i].len() && pieces[i][k] == '/';
            }
        }
    }
    reveal_with_fuel(join_char, 12);
    assert(join_char(pieces, '/') =~= spec_f_line(mp));
    lemma_split_join(pieces, '/');
    assert("v"@ =~= seq!['v']);
    assert("a"@ =~= seq!['a']);
}

/// The stream type read back from a GB28181 session built for `mp` is the
/// stream type of `mp`.
pub proof fn law_stream_type_roundtrip(
    name: Seq<char>,
    device_id: Seq<char>,
    ip: Seq<char>,
    port: u16,
    mp: MediaParam,
    start: u64,
    stop: u64,
    direction: Seq<char>,
    speed: Option<u32>,
)
    ensures
        spec_stream_type(
            spec_gb_session(name, device_id, ip, port, mp, start, stop, direction, speed),
        ) == Some(mp.stream_type),
{
    law_f_line_roundtrip(mp);
    reveal_strlit("1");
    reveal_strlit("2");
    reveal_strlit("3");
    assert("1"@ != "2"@ && "1"@ != "3"@ && "2"@ != "3"@) by {
        assert("1"@[0] != "2"@[0]);
        assert("1"@[0] != "3"@[0]);
        assert("2"@[0] != "3"@[0]);
    }
}

/// The time range read back from a playback or download session built from
/// two valid times is those times, as written.
pub proof fn law_time_range_roundtrip(
    name: Seq<char>,
    device_id: Seq<char>,
    ip: Seq<char>,
    port: u16,
    mp: MediaParam,
    start: (nat, nat, nat, nat, nat, nat),
    end: (nat, nat, nat, nat, nat, nat),
    direction: Seq<char>,
    speed: Option<u32>,
)
    requires
        valid_datetime(start.0, start.1, start.2, start.3, start.4, start.5),
        valid_datetime(end.0, end.1, end.2, end.3, end.4, end.5),
    ensures
        ({
            let st = datetime_text(start.0, start.1, start.2, start.3, start.4, start.5);
            let et = datetime_text(end.0, end.1, end.2, end.3, end.4, end.5);
            let sd = spec_gb_session(
                name,
                device_id,
                ip,
                port,
                mp,
                ntp_or_zero(st),
                ntp_or_zero(et),
                direction,
                speed,
            );
            &&& time_range_fits(sd)
            &&& spec_time_range(sd) == Some((st, et))
        }),
{
    law_datetime_ntp_roundtrip(start.0, start.1, start.2, start.3, start.4, start.5);
    law_datetime_ntp_roundtrip(end.0, end.1, end.2, end.3, end.4, end.5);
    let ns = ntp_of(start.0, start.1, start.2, start.3, start.4, start.5);
    let ne = ntp_of(end.0, end.1, end.2, end.3, end.4, end.5);
    lemma_ntp_of_bound(start.0, start.1, start.2, start.3, start.4, start.5);
    lemma_ntp_of_bound(end.0, end.1, end.2, end.3, end.4, end.5);
    lemma_fields_of_ntp(start.0, start.1, start.2, start.3, start.4, start.5);
    lemma_fields_of_ntp(end.0, end.1, end.2, end.3, end.4, end.5);
    let st = datetime_text(start.0, start.1, start.2, start.3, start.4, start.5);
    let et = datetime_text(end.0, end.1, end.2, end.3, end.4, end.5);
    assert(ntp_or_zero(st) as nat == ns);
    assert(ntp_or_zero(et) as nat == ne);
    let tds = seq![
        SpecTimeDescription {
            start_time: ntp_or_zero(st),
            stop_time: ntp_or_zero(et),
            repeat_times: Seq::empty(),
        },
    ];
    assert(first_timed(tds) == Some(tds[0]));
}

proof fn lemma_ntp_of_bound(y: nat, mo: nat, d: nat, h: nat, mi: nat, sec: nat)
    requires
        valid_datetime(y, mo, d, h, mi, sec),
    ensures
        NTP_UNIX_OFFSET <= ntp_of(y, mo, d, h, mi, sec) < 0x1_0000_0000_0000,
{
    lemma_days_before_year_bound(y as int);
    lemma_days_before_month_bound(y as int, mo as int);
}

} // verus!

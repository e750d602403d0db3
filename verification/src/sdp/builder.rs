//! SDP builder and serialisation.
//!
//! `SdpBuilder` assembles a `SessionDescription` step by step;
//! `SessionDescription::to_sdp_string` renders it as RFC 4566 text with one
//! `\r\n`-terminated line per field, in the order the RFC prescribes, followed
//! by the GB28181 `y=` and `f=` lines.
use vstd::prelude::*;

use crate::sdp::types::{
    attributes_view, bandwidths_view, opt_conn_view, opt_enc_view, spec_attribute_text,
    spec_media_type_name, strings_view, Attribute, Bandwidth, Connection, Encryption,
    MediaDescription, MediaType, Origin, RepeatTime, SessionDescription, SpecAttribute,
    SpecBandwidth, SpecConnection, SpecEncryption, SpecMediaDescription, SpecOrigin,
    SpecRepeatTime, SpecSessionDescription, SpecTimeDescription, TimeDescription,
};
use crate::text::{copy_str, dec, opt_view, push_dec, push_str};

verus! {

// ---------------------------------------------------------------------------
// Text of each field
// ---------------------------------------------------------------------------

pub open spec fn crlf() -> Seq<char> {
    "\r\n"@
}

pub open spec fn spec_origin_text(o: SpecOrigin) -> Seq<char> {
    o.username + " "@ + dec(o.session_id as nat) + " "@ + dec(o.session_version as nat) + " "@
        + o.network_type + " "@ + o.address_type + " "@ + o.unicast_address
}

pub open spec fn spec_connection_text(c: SpecConnection) -> Seq<char> {
    c.network_type + " "@ + c.address_type + " "@ + c.connection_address + match c.ttl {
        Some(t) => "/"@ + dec(t as nat) + match c.number_of_addresses {
            Some(n) => "/"@ + dec(n as nat),
            None => Seq::empty(),
        },
        None => Seq::empty(),
    }
}

pub open spec fn spec_bandwidth_text(b: SpecBandwidth) -> Seq<char> {
    b.bandwidth_type + ":"@ + dec(b.bandwidth as nat)
}

pub open spec fn spec_offsets_text(s: Seq<u64>) -> Seq<char>
    decreases s.len(),
{
    if s.len() == 0 {
        Seq::empty()
    } else {
        spec_offsets_text(s.drop_last()) + " "@ + dec(s.last() as nat)
    }
}

pub open spec fn spec_repeat_text(r: SpecRepeatTime) -> Seq<char> {
    dec(r.repeat_interval as nat) + " "@ + dec(r.active_duration as nat) + spec_offsets_text(
        r.offsets,
    )
}

pub open spec fn spec_encryption_text(e: SpecEncryption) -> Seq<char> {
    e.method + match e.encryption_key {
        Some(k) => ":"@ + k,
        None => Seq::empty(),
    }
}

pub open spec fn spec_formats_text(s: Seq<Seq<char>>) -> Seq<char>
    decreases s.len(),
{
    if s.len() == 0 {
        Seq::empty()
    } else {
        spec_formats_text(s.drop_last()) + " "@ + s.last()
    }
}

/// Text of an `m=` line after `m=`.
pub open spec fn spec_media_line_text(m: SpecMediaDescription) -> Seq<char> {
    spec_media_type_name(m.media) + " "@ + dec(m.port as nat) + match m.number_of_ports {
        Some(n) => "/"@ + dec(n as nat),
        None => Seq::empty(),
    } + " "@ + m.proto + spec_formats_text(m.formats)
}

// ---------------------------------------------------------------------------
// Lines
// ---------------------------------------------------------------------------

pub open spec fn opt_line(tag: Seq<char>, o: Option<Seq<char>>) -> Seq<char> {
    match o {
        Some(v) => tag + v + crlf(),
        None => Seq::empty(),
    }
}

pub open spec fn conn_line(c: Option<SpecConnection>) -> Seq<char> {
    match c {
        Some(x) => "c="@ + spec_connection_text(x) + crlf(),
        None => Seq::empty(),
    }
}

pub open spec fn enc_line(e: Option<SpecEncryption>) -> Seq<char> {
    match e {
        Some(x) => "k="@ + spec_encryption_text(x) + crlf(),
        None => Seq::empty(),
    }
}

pub open spec fn bandwidth_lines(s: Seq<SpecBandwidth>) -> Seq<char>
    decreases s.len(),
{
    if s.len() == 0 {
        Seq::empty()
    } else {
        bandwidth_lines(s.drop_last()) + "b="@ + spec_bandwidth_text(s.last()) + crlf()
    }
}

pub open spec fn repeat_lines(s: Seq<SpecRepeatTime>) -> Seq<char>
    decreases s.len(),
{
    if s.len() == 0 {
        Seq::empty()
    } else {
        repeat_lines(s.drop_last()) + "r="@ + spec_repeat_text(s.last()) + crlf()
    }
}

pub open spec fn time_section(t: SpecTimeDescription) -> Seq<char> {
    "t="@ + dec(t.start_time as nat) + " "@ + dec(t.stop_time as nat) + crlf() + repeat_lines(
        t.repeat_times,
    )
}

pub open spec fn time_lines(s: Seq<SpecTimeDescription>) -> Seq<char>
    decreases s.len(),
{
    if s.len() == 0 {
        Seq::empty()
    } else {
        time_lines(s.drop_last()) + time_section(s.last())
    }
}

pub open spec fn attribute_lines(s: Seq<SpecAttribute>) -> Seq<char>
    decreases s.len(),
{
    if s.len() == 0 {
        Seq::empty()
    } else {
        attribute_lines(s.drop_last()) + "a="@ + spec_attribute_text(s.last()) + crlf()
    }
}

pub open spec fn media_section(m: SpecMediaDescription) -> Seq<char> {
    "m="@ + spec_media_line_text(m) + crlf() + opt_line("i="@, m.title) + conn_line(m.connection)
        + bandwidth_lines(m.bandwidth) + enc_line(m.encryption) + attribute_lines(m.attributes)
}

pub open spec fn media_sections(s: Seq<SpecMediaDescription>) -> Seq<char>
    decreases s.len(),
{
    if s.len() == 0 {
        Seq::empty()
    } else {
        media_sections(s.drop_last()) + media_section(s.last())
    }
}

/// The SDP text of a session description.
pub open spec fn sdp_text(sd: SpecSessionDescription) -> Seq<char> {
    "v="@ + dec(sd.version as nat) + crlf() + "o="@ + spec_origin_text(sd.origin) + crlf() + "s="@
        + sd.session_name + crlf() + opt_line("i="@, sd.session_info) + opt_line("u="@, sd.uri)
        + opt_line("e="@, sd.email) + opt_line("p="@, sd.phone) + conn_line(sd.connection)
        + bandwidth_lines(sd.bandwidth) + time_lines(sd.time_descriptions) + opt_line(
        "z="@,
        sd.timezone,
    ) + enc_line(sd.encryption) + attribute_lines(sd.attributes) + media_sections(
        sd.media_descriptions,
    ) + opt_line("y="@, sd.ssrc) + opt_line("f="@, sd.media_format)
}

/// A session description with no optional field, version 0.
pub open spec fn spec_empty_session(origin: SpecOrigin, name: Seq<char>) -> SpecSessionDescription {
    SpecSessionDescription {
        version: 0,
        origin,
        session_name: name,
        session_info: None,
        uri: None,
        email: None,
        phone: None,
        connection: None,
        bandwidth: Seq::empty(),
        time_descriptions: Seq::empty(),
        timezone: None,
        encryption: None,
        attributes: Seq::empty(),
        media_descriptions: Seq::empty(),
        ssrc: None,
        media_format: None,
    }
}

// ---------------------------------------------------------------------------
// Rendering of single fields
// ---------------------------------------------------------------------------

impl Origin {
    /// Text of the origin after `o=`.
    pub fn to_text(&self) -> (s: String)
        ensures
            s@ == spec_origin_text(self@),
    {
        let mut s = String::new();
        push_str(&mut s, self.username.as_str());
        push_str(&mut s, " ");
        push_dec(&mut s, self.session_id);
        push_str(&mut s, " ");
        push_dec(&mut s, self.session_version);
        push_str(&mut s, " ");
        push_str(&mut s, self.network_type.as_str());
        push_str(&mut s, " ");
        push_str(&mut s, self.address_type.as_str());
        push_str(&mut s, " ");
        push_str(&mut s, self.unicast_address.as_str());
        s
    }
}

impl Origin {
    /// IPv4 origin (`<username> <now> <now> IN IP4 <address>`) whose session
    /// id and version are both `now`, a Unix time in seconds.
    pub fn ipv4_at(username: &str, address: &str, now: u64) -> (o: Origin)
        ensures
            o@ == (SpecOrigin {
                username: username@,
                session_id: now,
                session_version: now,
                network_type: "IN"@,
                address_type: "IP4"@,
                unicast_address: address@,
            }),
    {
        Origin {
            username: copy_str(username),
            session_id: now,
            session_version: now,
            network_type: copy_str("IN"),
            address_type: copy_str("IP4"),
            unicast_address: copy_str(address),
        }
    }

    /// IPv4 origin whose session id and version are both the current Unix
    /// time in seconds (0 when the clock is before the epoch); see
    /// `ipv4_at`.
    pub fn ipv4(username: &str, address: &str) -> (o: Origin)
        ensures
            o.session_id == o.session_version,
            o@ == (SpecOrigin {
                username: username@,
                session_id: o.session_id,
                session_version: o.session_id,
                network_type: "IN"@,
                address_type: "IP4"@,
                unicast_address: address@,
            }),
    {
        let now = crate::clock::unix_now_secs();
        Origin::ipv4_at(username, address, now)
    }
}

impl Connection {
    /// Text of the connection after `c=`.
    pub fn to_text(&self) -> (s: String)
        ensures
            s@ == spec_connection_text(self@),
    {
        let mut s = String::new();
        push_str(&mut s, self.network_type.as_str());
        push_str(&mut s, " ");
        push_str(&mut s, self.address_type.as_str());
        push_str(&mut s, " ");
        push_str(&mut s, self.connection_address.as_str());
        match self.ttl {
            Some(t) => {
                push_str(&mut s, "/");
                push_dec(&mut s, t as u64);
                match self.number_of_addresses {
                    Some(n) => {
                        push_str(&mut s, "/");
                        push_dec(&mut s, n as u64);
                    },
                    None => {},
                }
            },
            None => {},
        }
        assert(s@ =~= spec_connection_text(self@));
        s
    }

    /// IPv4 connection data (`IN IP4 <address>`).
    pub fn ipv4(address: &str) -> (c: Connection)
        ensures
            c@ == (SpecConnection {
                network_type: "IN"@,
                address_type: "IP4"@,
                connection_address: address@,
                ttl: None,
                number_of_addresses: None,
            }),
    {
        Connection {
            network_type: copy_str("IN"),
            address_type: copy_str("IP4"),
            connection_address: copy_str(address),
            ttl: None,
            number_of_addresses: None,
        }
    }

    /// IPv6 connection data (`IN IP6 <address>`).
    pub fn ipv6(address: &str) -> (c: Connection)
        ensures
            c@ == (SpecConnection {
                network_type: "IN"@,
                address_type: "IP6"@,
                connection_address: address@,
                ttl: None,
                number_of_addresses: None,
            }),
    {
        Connection {
            network_type: copy_str("IN"),
            address_type: copy_str("IP6"),
            connection_address: copy_str(address),
            ttl: None,
            number_of_addresses: None,
        }
    }
}

impl Bandwidth {
    /// Text of the bandwidth after `b=`.
    pub fn to_text(&self) -> (s: String)
        ensures
            s@ == spec_bandwidth_text(self@),
    {
        let mut s = String::new();
        push_str(&mut s, self.bandwidth_type.as_str());
        push_str(&mut s, ":");
        push_dec(&mut s, self.bandwidth);
        s
    }
}

impl RepeatTime {
    /// Text of the repeat times after `r=`.
    pub fn to_text(&self) -> (s: String)
        ensures
            s@ == spec_repeat_text(self@),
    {
        let mut s = String::new();
        push_dec(&mut s, self.repeat_interval);
        push_str(&mut s, " ");
        push_dec(&mut s, self.active_duration);
        let ghost base = s@;
        let mut i: usize = 0;
        while i < self.offsets.len()
            invariant
                i <= self.offsets@.len(),
                s@ == base + spec_offsets_text(self.offsets@.take(i as int)),
            decreases self.offsets@.len() - i,
        {
            assert(self.offsets@.take(i + 1).drop_last() == self.offsets@.take(i as int));
            push_str(&mut s, " ");
            push_dec(&mut s, self.offsets[i]);
            i += 1;
        }
        assert(self.offsets@.take(self.offsets@.len() as int) == self.offsets@);
        s
    }
}

impl Encryption {
    /// Text of the key after `k=`.
    pub fn to_text(&self) -> (s: String)
        ensures
            s@ == spec_encryption_text(self@),
    {
        let mut s = String::new();
        push_str(&mut s, self.method.as_str());
        match &self.encryption_key {
            Some(k) => {
                push_str(&mut s, ":");
                push_str(&mut s, k.as_str());
            },
            None => {},
        }
        assert(s@ =~= spec_encryption_text(self@));
        s
    }
}

impl MediaDescription {
    /// Text of the media line after `m=`.
    pub fn to_text(&self) -> (s: String)
        ensures
            s@ == spec_media_line_text(self@),
    {
        let mut s = self.media.name();
        push_str(&mut s, " ");
        push_dec(&mut s, self.port as u64);
        match self.number_of_ports {
            Some(n) => {
                push_str(&mut s, "/");
                push_dec(&mut s, n as u64);
            },
            None => {},
        }
        push_str(&mut s, " ");
        push_str(&mut s, self.proto.as_str());
        let ghost base = s@;
        let mut i: usize = 0;
        while i < self.formats.len()
            invariant
                i <= self.formats@.len(),
                s@ == base + spec_formats_text(strings_view(self.formats@).take(i as int)),
            decreases self.formats@.len() - i,
        {
            assert(strings_view(self.formats@).take(i + 1).drop_last() == strings_view(
                self.formats@,
            ).take(i as int));
            push_str(&mut s, " ");
            push_str(&mut s, self.formats[i].as_str());
            i += 1;
        }
        assert(strings_view(self.formats@).take(self.formats@.len() as int) == strings_view(
            self.formats@,
        ));
        assert(s@ =~= spec_media_line_text(self@));
        s
    }
}

// ---------------------------------------------------------------------------
// Serialisation of the whole description
// ---------------------------------------------------------------------------

fn push_opt_line(out: &mut String, tag: &str, o: &Option<String>)
    ensures
        final(out)@ == old(out)@ + opt_line(tag@, opt_view(*o)),
{
    match o {
        Some(v) => {
            push_str(out, tag);
            push_str(out, v.as_str());
            push_str(out, "\r\n");
        },
        None => {},
    }
    assert(out@ =~= old(out)@ + opt_line(tag@, opt_view(*o)));
}

fn push_conn_line(out: &mut String, c: &Option<Connection>)
    ensures
        final(out)@ == old(out)@ + conn_line(opt_conn_view(*c)),
{
    match c {
        Some(x) => {
            push_str(out, "c=");
            let t = x.to_text();
            push_str(out, t.as_str());
            push_str(out, "\r\n");
        },
        None => {},
    }
    assert(out@ =~= old(out)@ + conn_line(opt_conn_view(*c)));
}

fn push_enc_line(out: &mut String, e: &Option<Encryption>)
    ensures
        final(out)@ == old(out)@ + enc_line(opt_enc_view(*e)),
{
    match e {
        Some(x) => {
            push_str(out, "k=");
            let t = x.to_text();
            push_str(out, t.as_str());
            push_str(out, "\r\n");
        },
        None => {},
    }
    assert(out@ =~= old(out)@ + enc_line(opt_enc_view(*e)));
}

fn push_bandwidth_lines(out: &mut String, bs: &Vec<Bandwidth>)
    ensures
        final(out)@ == old(out)@ + bandwidth_lines(bandwidths_view(bs@)),
{
    let ghost base = out@;
    let mut i: usize = 0;
    while i < bs.len()
        invariant
            i <= bs@.len(),
            out@ == base + bandwidth_lines(bandwidths_view(bs@).take(i as int)),
        decreases bs@.len() - i,
    {
        assert(bandwidths_view(bs@).take(i + 1).drop_last() == bandwidths_view(bs@).take(i as int));
        push_str(out, "b=");
        let t = bs[i].to_text();
        push_str(out, t.as_str());
        push_str(out, "\r\n");
        i += 1;
    }
    assert(bandwidths_view(bs@).take(bs@.len() as int) == bandwidths_view(bs@));
}

fn push_attribute_lines(out: &mut String, attrs: &Vec<Attribute>)
    ensures
        final(out)@ == old(out)@ + attribute_lines(attributes_view(attrs@)),
{
    let ghost base = out@;
    let mut i: usize = 0;
    while i < attrs.len()
        invariant
            i <= attrs@.len(),
            out@ == base + attribute_lines(attributes_view(attrs@).take(i as int)),
        decreases attrs@.len() - i,
    {
        assert(attributes_view(attrs@).take(i + 1).drop_last() == attributes_view(attrs@).take(
            i as int,
        ));
        push_str(out, "a=");
        let t = attrs[i].to_attribute_value();
        push_str(out, t.as_str());
        push_str(out, "\r\n");
        i += 1;
    }
    assert(attributes_view(attrs@).take(attrs@.len() as int) == attributes_view(attrs@));
}

fn push_time_section(out: &mut String, td: &TimeDescription)
    ensures
        final(out)@ == old(out)@ + time_section(td@),
{
    push_str(out, "t=");
    push_dec(out, td.start_time);
    push_str(out, " ");
    push_dec(out, td.stop_time);
    push_str(out, "\r\n");
    let ghost base = out@;
    let ghost rv = td.repeat_times@.map_values(|r: RepeatTime| r@);
    let mut i: usize = 0;
    while i < td.repeat_times.len()
        invariant
            i <= td.repeat_times@.len(),
            rv == td.repeat_times@.map_values(|r: RepeatTime| r@),
            out@ == base + repeat_lines(rv.take(i as int)),
        decreases td.repeat_times@.len() - i,
    {
        assert(rv.take(i + 1).drop_last() == rv.take(i as int));
        push_str(out, "r=");
        let t = td.repeat_times[i].to_text();
        push_str(out, t.as_str());
        push_str(out, "\r\n");
        i += 1;
    }
    assert(rv.take(td.repeat_times@.len() as int) == rv);
    assert(out@ =~= old(out)@ + time_section(td@));
}

fn push_media_section(out: &mut String, m: &MediaDescription)
    ensures
        final(out)@ == old(out)@ + media_section(m@),
{
    let ghost o0 = out@;
    let ghost mv = m@;
    push_str(out, "m=");
    let t = m.to_text();
    push_str(out, t.as_str());
    push_str(out, "\r\n");
    let ghost a = "m="@ + spec_media_line_text(mv) + crlf();
    assert(out@ =~= o0 + a);
    push_opt_line(out, "i=", &m.title);
    let ghost b = a + opt_line("i="@, mv.title);
    assert(out@ =~= o0 + b);
    push_conn_line(out, &m.connection);
    let ghost c = b + conn_line(mv.connection);
    assert(out@ =~= o0 + c);
    push_bandwidth_lines(out, &m.bandwidth);
    let ghost d = c + bandwidth_lines(mv.bandwidth);
    assert(out@ =~= o0 + d);
    push_enc_line(out, &m.encryption);
    let ghost e = d + enc_line(mv.encryption);
    assert(out@ =~= o0 + e);
    push_attribute_lines(out, &m.attributes);
    let ghost f = e + attribute_lines(mv.attributes);
    assert(out@ =~= o0 + f);
    assert(f == media_section(mv));
}

impl SessionDescription {
    /// Renders the description as SDP text; every line ends with `\r\n`.
    pub fn to_sdp_string(&self) -> (s: String)
        ensures
            s@ == sdp_text(self@),
    {
        let mut out = String::new();
        push_str(&mut out, "v=");
        push_dec(&mut out, self.version as u64);
        push_str(&mut out, "\r\n");
        push_str(&mut out, "o=");
        let o = self.origin.to_text();
        push_str(&mut out, o.as_str());
        push_str(&mut out, "\r\n");
        push_str(&mut out, "s=");
        push_str(&mut out, self.session_name.as_str());
        push_str(&mut out, "\r\n");
        push_opt_line(&mut out, "i=", &self.session_info);
        push_opt_line(&mut out, "u=", &self.uri);
        push_opt_line(&mut out, "e=", &self.email);
        push_opt_line(&mut out, "p=", &self.phone);
        push_conn_line(&mut out, &self.connection);
        push_bandwidth_lines(&mut out, &self.bandwidth);
        let ghost base = out@;
        let ghost tv = self.time_descriptions@.map_values(|t: TimeDescription| t@);
        let mut i: usize = 0;
        while i < self.time_descriptions.len()
            invariant
                i <= self.time_descriptions@.len(),
                tv == self.time_descriptions@.map_values(|t: TimeDescription| t@),
                out@ == base + time_lines(tv.take(i as int)),
            decreases self.time_descriptions@.len() - i,
        {
            assert(tv.take(i + 1).drop_last() == tv.take(i as int));
            push_time_section(&mut out, &self.time_descriptions[i]);
            i += 1;
        }
        assert(tv.take(self.time_descriptions@.len() as int) == tv);
        push_opt_line(&mut out, "z=", &self.timezone);
        push_enc_line(&mut out, &self.encryption);
        push_attribute_lines(&mut out, &self.attributes);
        let ghost base2 = out@;
        let ghost mv = self.media_descriptions@.map_values(|m: MediaDescription| m@);
        let mut j: usize = 0;
        while j < self.media_descriptions.len()
            invariant
                j <= self.media_descriptions@.len(),
                mv == self.media_descriptions@.map_values(|m: MediaDescription| m@),
                out@ == base2 + media_sections(mv.take(j as int)),
            decreases self.media_descriptions@.len() - j,
        {
            assert(mv.take(j + 1).drop_last() == mv.take(j as int));
            push_media_section(&mut out, &self.media_descriptions[j]);
            j += 1;
        }
        assert(mv.take(self.media_descriptions@.len() as int) == mv);
        push_opt_line(&mut out, "y=", &self.ssrc);
        push_opt_line(&mut out, "f=", &self.media_format);
        assert(out@ =~= sdp_text(self@));
        out
    }
}

// ---------------------------------------------------------------------------
// Builder
// ---------------------------------------------------------------------------

/// Builds a `SessionDescription` field by field.
pub struct SdpBuilder {
    sdp: SessionDescription,
}

impl View for SdpBuilder {
    type V = SpecSessionDescription;

    closed spec fn view(&self) -> SpecSessionDescription {
        self.sdp@
    }
}

impl SdpBuilder {
    /// Starts a description with the given origin and session name (`s=`),
    /// version 0 and no other field.
    pub fn new(origin: Origin, session_name: &str) -> (b: Self)
        ensures
            b@ == spec_empty_session(origin@, session_name@),
    {
        let b = SdpBuilder {
            sdp: SessionDescription {
                version: 0,
                origin,
                session_name: copy_str(session_name),
                session_info: None,
                uri: None,
                email: None,
                phone: None,
                connection: None,
                bandwidth: Vec::new(),
                time_descriptions: Vec::new(),
                timezone: None,
                encryption: None,
                attributes: Vec::new(),
                media_descriptions: Vec::new(),
                ssrc: None,
                media_format: None,
            },
        };
        assert(b@ =~= spec_empty_session(origin@, session_name@));
        b
    }

    /// Sets the protocol version (`v=`).
    pub fn version(self, v: u32) -> (b: Self)
        ensures
            b@ == after_call(self@, BuildCall::Version(v)),
            b@ == (SpecSessionDescription { version: v, ..self@ }),
    {
        let mut b = self;
        b.sdp.version = v;
        b
    }

    /// Sets the session information (`i=`).
    pub fn session_info(self, info: &str) -> (b: Self)
        ensures
            b@ == after_call(self@, BuildCall::SessionInfo(info@)),
            b@ == (SpecSessionDescription { session_info: Some(info@), ..self@ }),
    {
        let mut b = self;
        b.sdp.session_info = Some(copy_str(info));
        b
    }

    /// Sets the URI (`u=`).
    pub fn uri(self, uri: &str) -> (b: Self)
        ensures
            b@ == after_call(self@, BuildCall::Uri(uri@)),
            b@ == (SpecSessionDescription { uri: Some(uri@), ..self@ }),
    {
        let mut b = self;
        b.sdp.uri = Some(copy_str(uri));
        b
    }

    /// Sets the e-mail address (`e=`).
    pub fn email(self, email: &str) -> (b: Self)
        ensures
            b@ == after_call(self@, BuildCall::Email(email@)),
            b@ == (SpecSessionDescription { email: Some(email@), ..self@ }),
    {
        let mut b = self;
        b.sdp.email = Some(copy_str(email));
        b
    }

    /// Sets the phone number (`p=`).
    pub fn phone(self, phone: &str) -> (b: Self)
        ensures
            b@ == after_call(self@, BuildCall::Phone(phone@)),
            b@ == (SpecSessionDescription { phone: Some(phone@), ..self@ }),
    {
        let mut b = self;
        b.sdp.phone = Some(copy_str(phone));
        b
    }

    /// Sets the session-level connection data (`c=`).
    pub fn connection(self, c: Connection) -> (b: Self)
        ensures
            b@ == after_call(self@, BuildCall::Connection(c@)),
            b@ == (SpecSessionDescription { connection: Some(c@), ..self@ }),
    {
        let mut b = self;
        b.sdp.connection = Some(c);
        b
    }

    /// Appends a session-level bandwidth line (`b=`).
    pub fn bandwidth(self, bw_type: &str, bandwidth: u64) -> (b: Self)
        ensures
            b@ == after_call(self@, BuildCall::Bandwidth(SpecBandwidth { bandwidth_type: bw_type@, bandwidth })),
            b@ == (SpecSessionDescription {
                bandwidth: self@.bandwidth.push(
                    SpecBandwidth { bandwidth_type: bw_type@, bandwidth },
                ),
                ..self@
            }),
    {
        let mut b = self;
        let ghost old_v = b.sdp.bandwidth@;
        b.sdp.bandwidth.push(Bandwidth { bandwidth_type: copy_str(bw_type), bandwidth });
        assert(bandwidths_view(b.sdp.bandwidth@) =~= bandwidths_view(old_v).push(
            SpecBandwidth { bandwidth_type: bw_type@, bandwidth },
        ));
        b
    }

    /// Appends a time description (`t=`) without repeat times.
    pub fn time(self, start: u64, stop: u64) -> (b: Self)
        ensures
            b@ == after_call(self@, BuildCall::Time(SpecTimeDescription { start_time: start, stop_time: stop, repeat_times: Seq::empty() })),
            b@ == (SpecSessionDescription {
                time_descriptions: self@.time_descriptions.push(
                    SpecTimeDescription {
                        start_time: start,
                        stop_time: stop,
                        repeat_times: Seq::empty(),
                    },
                ),
                ..self@
            }),
    {
        let mut b = self;
        let ghost old_v = b.sdp.time_descriptions@;
        let td = TimeDescription { start_time: start, stop_time: stop, repeat_times: Vec::new() };
        assert(td@ =~= SpecTimeDescription {
            start_time: start,
            stop_time: stop,
            repeat_times: Seq::empty(),
        });
        b.sdp.time_descriptions.push(td);
        assert(b.sdp.time_descriptions@.map_values(|t: TimeDescription| t@) =~= old_v.map_values(
            |t: TimeDescription| t@,
        ).push(td@));
        b
    }

    /// Appends a time description (`t=`) with one repeat line (`r=`).
    pub fn time_with_repeat(
        self,
        start: u64,
        stop: u64,
        repeat_interval: u64,
        active_duration: u64,
        offsets: Vec<u64>,
    ) -> (b: Self)
        ensures
            b@ == after_call(
                self@,
                BuildCall::Time(
                    SpecTimeDescription {
                        start_time: start,
                        stop_time: stop,
                        repeat_times: seq![
                            SpecRepeatTime { repeat_interval, active_duration, offsets: offsets@ },
                        ],
                    },
                ),
            ),
            b@ == (SpecSessionDescription {
                time_descriptions: self@.time_descriptions.push(
                    SpecTimeDescription {
                        start_time: start,
                        stop_time: stop,
                        repeat_times: seq![
                            SpecRepeatTime { repeat_interval, active_duration, offsets: offsets@ },
                        ],
                    },
                ),
                ..self@
            }),
    {
        let mut b = self;
        let ghost old_v = b.sdp.time_descriptions@;
        let ghost ov = offsets@;
        let mut reps: Vec<RepeatTime> = Vec::new();
        reps.push(RepeatTime { repeat_interval, active_duration, offsets });
        let td = TimeDescription { start_time: start, stop_time: stop, repeat_times: reps };
        assert(td@ =~= SpecTimeDescription {
            start_time: start,
            stop_time: stop,
            repeat_times: seq![SpecRepeatTime { repeat_interval, active_duration, offsets: ov }],
        });
        b.sdp.time_descriptions.push(td);
        assert(b.sdp.time_descriptions@.map_values(|t: TimeDescription| t@) =~= old_v.map_values(
            |t: TimeDescription| t@,
        ).push(td@));
        b
    }

    /// Sets the time zone adjustments (`z=`).
    pub fn timezone(self, tz: &str) -> (b: Self)
        ensures
            b@ == after_call(self@, BuildCall::Timezone(tz@)),
            b@ == (SpecSessionDescription { timezone: Some(tz@), ..self@ }),
    {
        let mut b = self;
        b.sdp.timezone = Some(copy_str(tz));
        b
    }

    /// Sets the session-level encryption key (`k=`).
    pub fn encryption(self, enc: Encryption) -> (b: Self)
        ensures
            b@ == after_call(self@, BuildCall::Encryption(enc@)),
            b@ == (SpecSessionDescription { encryption: Some(enc@), ..self@ }),
    {
        let mut b = self;
        b.sdp.encryption = Some(enc);
        b
    }

    /// Appends a session-level attribute (`a=`).
    pub fn attribute(self, name: &str, value: Option<String>) -> (b: Self)
        ensures
            b@ == after_call(self@, BuildCall::Attribute(SpecAttribute { name: name@, value: opt_view(value) })),
            b@ == (SpecSessionDescription {
                attributes: self@.attributes.push(
                    SpecAttribute { name: name@, value: opt_view(value) },
                ),
                ..self@
            }),
    {
        let mut b = self;
        let ghost old_v = b.sdp.attributes@;
        let a = Attribute { name: copy_str(name), value };
        b.sdp.attributes.push(a);
        assert(attributes_view(b.sdp.attributes@) =~= attributes_view(old_v).push(
            SpecAttribute { name: name@, value: opt_view(value) },
        ));
        b
    }

    /// Appends a media description (`m=` and its lines).
    pub fn media(self, media: MediaDescription) -> (b: Self)
        ensures
            b@ == after_call(self@, BuildCall::Media(media@)),
            b@ == (SpecSessionDescription {
                media_descriptions: self@.media_descriptions.push(media@),
                ..self@
            }),
    {
        let mut b = self;
        let ghost old_v = b.sdp.media_descriptions@;
        let ghost mview = media@;
        b.sdp.media_descriptions.push(media);
        assert(b.sdp.media_descriptions@.map_values(|m: MediaDescription| m@) =~= old_v.map_values(
            |m: MediaDescription| m@,
        ).push(mview));
        b
    }

    /// Sets the GB28181 device code (`y=`).
    pub fn ssrc(self, ssrc: &str) -> (b: Self)
        ensures
            b@ == after_call(self@, BuildCall::Ssrc(ssrc@)),
            b@ == (SpecSessionDescription { ssrc: Some(ssrc@), ..self@ }),
    {
        let mut b = self;
        b.sdp.ssrc = Some(copy_str(ssrc));
        b
    }

    /// Sets the GB28181 media format (`f=`).
    pub fn media_format(self, format: &str) -> (b: Self)
        ensures
            b@ == after_call(self@, BuildCall::MediaFormat(format@)),
            b@ == (SpecSessionDescription { media_format: Some(format@), ..self@ }),
    {
        let mut b = self;
        b.sdp.media_format = Some(copy_str(format));
        b
    }

    /// The description built so far.
    pub fn build(self) -> (sd: SessionDescription)
        ensures
            sd@ == self@,
    {
        self.sdp
    }
}

// ---------------------------------------------------------------------------
// Media description helpers
// ---------------------------------------------------------------------------

impl MediaDescription {
    /// A media description with no format and no optional line.
    pub fn new(media: MediaType, port: u32, proto: &str) -> (m: MediaDescription)
        ensures
            m@ == (SpecMediaDescription {
                media: media@,
                port,
                number_of_ports: None,
                proto: proto@,
                formats: Seq::empty(),
                title: None,
                connection: None,
                bandwidth: Seq::empty(),
                encryption: None,
                attributes: Seq::empty(),
            }),
    {
        let m = MediaDescription {
            media,
            port,
            number_of_ports: None,
            proto: copy_str(proto),
            formats: Vec::new(),
            title: None,
            connection: None,
            bandwidth: Vec::new(),
            encryption: None,
            attributes: Vec::new(),
        };
        assert(m@ =~= SpecMediaDescription {
            media: media@,
            port,
            number_of_ports: None,
            proto: proto@,
            formats: Seq::empty(),
            title: None,
            connection: None,
            bandwidth: Seq::empty(),
            encryption: None,
            attributes: Seq::empty(),
        });
        m
    }

    /// Appends a format.
    pub fn with_format(self, fmt: &str) -> (m: Self)
        ensures
            m@ == (SpecMediaDescription { formats: self@.formats.push(fmt@), ..self@ }),
    {
        let mut m = self;
        let ghost old_v = m.formats@;
        m.formats.push(copy_str(fmt));
        assert(strings_view(m.formats@) =~= strings_view(old_v).push(fmt@));
        m
    }

    /// Appends several formats, in order.
    pub fn with_formats(self, fmts: Vec<String>) -> (m: Self)
        ensures
            m@ == (SpecMediaDescription {
                formats: self@.formats + strings_view(fmts@),
                ..self@
            }),
    {
        let mut m = self;
        let ghost old_v = m.formats@;
        let mut fmts = fmts;
        let ghost all = fmts@;
        m.formats.append(&mut fmts);
        assert(m.formats@ =~= old_v + all);
        assert(strings_view(m.formats@) =~= strings_view(old_v) + strings_view(all));
        m
    }

    /// Appends an attribute.
    pub fn with_attribute(self, name: &str, value: Option<String>) -> (m: Self)
        ensures
            m@ == (SpecMediaDescription {
                attributes: self@.attributes.push(
                    SpecAttribute { name: name@, value: opt_view(value) },
                ),
                ..self@
            }),
    {
        let mut m = self;
        let ghost old_v = m.attributes@;
        m.attributes.push(Attribute { name: copy_str(name), value });
        assert(attributes_view(m.attributes@) =~= attributes_view(old_v).push(
            SpecAttribute { name: name@, value: opt_view(value) },
        ));
        m
    }

    /// Appends `a=rtpmap:<payload> <encoding>`.
    pub fn with_rtpmap(self, payload: u32, encoding: &str) -> (m: Self)
        ensures
            m@ == (SpecMediaDescription {
                attributes: self@.attributes.push(
                    SpecAttribute {
                        name: "rtpmap"@,
                        value: Some(dec(payload as nat) + " "@ + encoding@),
                    },
                ),
                ..self@
            }),
    {
        let mut m = self;
        let ghost old_v = m.attributes@;
        let mut v = String::new();
        push_dec(&mut v, payload as u64);
        push_str(&mut v, " ");
        push_str(&mut v, encoding);
        let a = Attribute { name: copy_str("rtpmap"), value: Some(v) };
        m.attributes.push(a);
        assert(attributes_view(m.attributes@) =~= attributes_view(old_v).push(
            SpecAttribute { name: "rtpmap"@, value: Some(dec(payload as nat) + " "@ + encoding@) },
        ));
        m
    }

    /// Sets the media-level connection data.
    pub fn with_connection(self, conn: Connection) -> (m: Self)
        ensures
            m@ == (SpecMediaDescription { connection: Some(conn@), ..self@ }),
    {
        let mut m = self;
        m.connection = Some(conn);
        m
    }

    /// Appends a media-level bandwidth line.
    pub fn with_bandwidth(self, bw_type: &str, bandwidth: u64) -> (m: Self)
        ensures
            m@ == (SpecMediaDescription {
                bandwidth: self@.bandwidth.push(
                    SpecBandwidth { bandwidth_type: bw_type@, bandwidth },
                ),
                ..self@
            }),
    {
        let mut m = self;
        let ghost old_v = m.bandwidth@;
        m.bandwidth.push(Bandwidth { bandwidth_type: copy_str(bw_type), bandwidth });
        assert(bandwidths_view(m.bandwidth@) =~= bandwidths_view(old_v).push(
            SpecBandwidth { bandwidth_type: bw_type@, bandwidth },
        ));
        m
    }
}

// ---------------------------------------------------------------------------
// Chains of builder calls
// ---------------------------------------------------------------------------

/// One call on an `SdpBuilder`, by the field it sets or the list it
/// appends to, with the value it brings (`time_with_repeat` is a `Time`
/// call whose description has its repeat).
pub enum BuildCall {
    Version(u32),
    SessionInfo(Seq<char>),
    Uri(Seq<char>),
    Email(Seq<char>),
    Phone(Seq<char>),
    Connection(SpecConnection),
    Timezone(Seq<char>),
    Encryption(SpecEncryption),
    Ssrc(Seq<char>),
    MediaFormat(Seq<char>),
    Bandwidth(SpecBandwidth),
    Time(SpecTimeDescription),
    Attribute(SpecAttribute),
    Media(SpecMediaDescription),
}

/// The description after one call: a setter replaces its field, an adder
/// appends to its list.
pub open spec fn after_call(sd: SpecSessionDescription, c: BuildCall) -> SpecSessionDescription {
    match c {
        BuildCall::Version(v) => SpecSessionDescription { version: v, ..sd },
        BuildCall::SessionInfo(v) => SpecSessionDescription { session_info: Some(v), ..sd },
        BuildCall::Uri(v) => SpecSessionDescription { uri: Some(v), ..sd },
        BuildCall::Email(v) => SpecSessionDescription { email: Some(v), ..sd },
        BuildCall::Phone(v) => SpecSessionDescription { phone: Some(v), ..sd },
        BuildCall::Connection(v) => SpecSessionDescription { connection: Some(v), ..sd },
        BuildCall::Timezone(v) => SpecSessionDescription { timezone: Some(v), ..sd },
        BuildCall::Encryption(v) => SpecSessionDescription { encryption: Some(v), ..sd },
        BuildCall::Ssrc(v) => SpecSessionDescription { ssrc: Some(v), ..sd },
        BuildCall::MediaFormat(v) => SpecSessionDescription { media_format: Some(v), ..sd },
        BuildCall::Bandwidth(v) => SpecSessionDescription { bandwidth: sd.bandwidth.push(v), ..sd },
        BuildCall::Time(v) => SpecSessionDescription {
            time_descriptions: sd.time_descriptions.push(v),
            ..sd
        },
        BuildCall::Attribute(v) => SpecSessionDescription { attributes: sd.attributes.push(v), ..sd },
        BuildCall::Media(v) => SpecSessionDescription {
            media_descriptions: sd.media_descriptions.push(v),
            ..sd
        },
    }
}

/// The description after the calls `cs`, in order.
pub open spec fn after_calls(sd: SpecSessionDescription, cs: Seq<BuildCall>) -> SpecSessionDescription
    decreases cs.len(),
{
    if cs.len() == 0 {
        sd
    } else {
        after_call(after_calls(sd, cs.drop_last()), cs.last())
    }
}

/// Whether `c` sets a field (rather than appending to a list).
pub open spec fn is_setter(c: BuildCall) -> bool {
    !(c is Bandwidth || c is Time || c is Attribute || c is Media)
}

/// Whether `c` and `d` are calls of the same builder method.
pub open spec fn same_method(c: BuildCall, d: BuildCall) -> bool {
    match (c, d) {
        (BuildCall::Version(_), BuildCall::Version(_)) => true,
        (BuildCall::SessionInfo(_), BuildCall::SessionInfo(_)) => true,
        (BuildCall::Uri(_), BuildCall::Uri(_)) => true,
        (BuildCall::Email(_), BuildCall::Email(_)) => true,
        (BuildCall::Phone(_), BuildCall::Phone(_)) => true,
        (BuildCall::Connection(_), BuildCall::Connection(_)) => true,
        (BuildCall::Timezone(_), BuildCall::Timezone(_)) => true,
        (BuildCall::Encryption(_), BuildCall::Encryption(_)) => true,
        (BuildCall::Ssrc(_), BuildCall::Ssrc(_)) => true,
        (BuildCall::MediaFormat(_), BuildCall::MediaFormat(_)) => true,
        (BuildCall::Bandwidth(_), BuildCall::Bandwidth(_)) => true,
        (BuildCall::Time(_), BuildCall::Time(_)) => true,
        (BuildCall::Attribute(_), BuildCall::Attribute(_)) => true,
        (BuildCall::Media(_), BuildCall::Media(_)) => true,
        _ => false,
    }
}

/// Whether `sd` holds in the field that setter call `c` sets the value `c`
/// brings.
pub open spec fn holds_setting(sd: SpecSessionDescription, c: BuildCall) -> bool {
    match c {
        BuildCall::Version(v) => sd.version == v,
        BuildCall::SessionInfo(v) => sd.session_info == Some(v),
        BuildCall::Uri(v) => sd.uri == Some(v),
        BuildCall::Email(v) => sd.email == Some(v),
        BuildCall::Phone(v) => sd.phone == Some(v),
        BuildCall::Connection(v) => sd.connection == Some(v),
        BuildCall::Timezone(v) => sd.timezone == Some(v),
        BuildCall::Encryption(v) => sd.encryption == Some(v),
        BuildCall::Ssrc(v) => sd.ssrc == Some(v),
        BuildCall::MediaFormat(v) => sd.media_format == Some(v),
        _ => true,
    }
}

/// The attributes that the attribute calls among `cs` bring, in order.
pub open spec fn added_attributes(cs: Seq<BuildCall>) -> Seq<SpecAttribute>
    decreases cs.len(),
{
    if cs.len() == 0 {
        Seq::empty()
    } else {
        let rest = added_attributes(cs.drop_last());
        match cs.last() {
            BuildCall::Attribute(a) => rest.push(a),
            _ => rest,
        }
    }
}

/// The bandwidth lines that the bandwidth calls among `cs` bring, in order.
pub open spec fn added_bandwidths(cs: Seq<BuildCall>) -> Seq<SpecBandwidth>
    decreases cs.len(),
{
    if cs.len() == 0 {
        Seq::empty()
    } else {
        let rest = added_bandwidths(cs.drop_last());
        match cs.last() {
            BuildCall::Bandwidth(b) => rest.push(b),
            _ => rest,
        }
    }
}

/// The time descriptions that the time calls among `cs` bring, in order.
pub open spec fn added_times(cs: Seq<BuildCall>) -> Seq<SpecTimeDescription>
    decreases cs.len(),
{
    if cs.len() == 0 {
        Seq::empty()
    } else {
        let rest = added_times(cs.drop_last());
        match cs.last() {
            BuildCall::Time(t) => rest.push(t),
            _ => rest,
        }
    }
}

/// The media descriptions that the media calls among `cs` bring, in order.
pub open spec fn added_media(cs: Seq<BuildCall>) -> Seq<SpecMediaDescription>
    decreases cs.len(),
{
    if cs.len() == 0 {
        Seq::empty()
    } else {
        let rest = added_media(cs.drop_last());
        match cs.last() {
            BuildCall::Media(m) => rest.push(m),
            _ => rest,
        }
    }
}

/// In any chain of builder calls, the last call of each setter decides
/// its field: the value of setter call `cs[i]` stands at the end when no
/// later call is of the same method.
pub proof fn law_builder_last_setter_wins(sd: SpecSessionDescription, cs: Seq<BuildCall>, i: int)
    requires
        0 <= i < cs.len(),
        is_setter(cs[i]),
        forall|j: int| i < j < cs.len() ==> !same_method(#[trigger] cs[j], cs[i]),
    ensures
        holds_setting(after_calls(sd, cs), cs[i]),
    decreases cs.len(),
{
    if i < cs.len() - 1 {
        let init = cs.drop_last();
        assert forall|j: int| i < j < init.len() implies !same_method(#[trigger] init[j], cs[i]) by {
            assert(init[j] == cs[j]);
        }
        law_builder_last_setter_wins(sd, init, i);
        assert(init[i] == cs[i]);
        assert(!same_method(cs[cs.len() - 1], cs[i]));
    }
}

/// In any chain of builder calls, each adder appends: the attribute,
/// bandwidth, time and media lists end as they began followed by what the
/// calls of that adder brought, in call order.
pub proof fn law_builder_adders_append(sd: SpecSessionDescription, cs: Seq<BuildCall>)
    ensures
        after_calls(sd, cs).attributes == sd.attributes + added_attributes(cs),
        after_calls(sd, cs).bandwidth == sd.bandwidth + added_bandwidths(cs),
        after_calls(sd, cs).time_descriptions == sd.time_descriptions + added_times(cs),
        after_calls(sd, cs).media_descriptions == sd.media_descriptions + added_media(cs),
    decreases cs.len(),
{
    if cs.len() > 0 {
        law_builder_adders_append(sd, cs.drop_last());
        let prev = after_calls(sd, cs.drop_last());
        assert(sd.attributes + added_attributes(cs.drop_last()).push(
            cs.last()->Attribute_0,
        ) =~= (sd.attributes + added_attributes(cs.drop_last())).push(cs.last()->Attribute_0));
        assert(sd.bandwidth + added_bandwidths(cs.drop_last()).push(cs.last()->Bandwidth_0) =~= (
        sd.bandwidth + added_bandwidths(cs.drop_last())).push(cs.last()->Bandwidth_0));
        assert(sd.time_descriptions + added_times(cs.drop_last()).push(cs.last()->Time_0) =~= (
        sd.time_descriptions + added_times(cs.drop_last())).push(cs.last()->Time_0));
        assert(sd.media_descriptions + added_media(cs.drop_last()).push(cs.last()->Media_0) =~= (
        sd.media_descriptions + added_media(cs.drop_last())).push(cs.last()->Media_0));
    } else {
        assert(sd.attributes + Seq::<SpecAttribute>::empty() =~= sd.attributes);
        assert(sd.bandwidth + Seq::<SpecBandwidth>::empty() =~= sd.bandwidth);
        assert(sd.time_descriptions + Seq::<SpecTimeDescription>::empty() =~= sd.time_descriptions);
        assert(sd.media_descriptions + Seq::<SpecMediaDescription>::empty() =~= sd.media_descriptions);
    }
}

} // verus!

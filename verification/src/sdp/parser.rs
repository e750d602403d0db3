//! SDP parser (RFC 4566 text format, GB28181 `y=` and `f=` lines included).
//!
//! The input is cut into lines at `\n`; trailing `\r` characters are removed
//! and empty lines dropped.  Each line has the form `<type>=<value>`.  An
//! `m=` line opens a media description and the `i=`, `c=`, `b=`, `k=` and `a=`
//! lines after it belong to that description; `r=` lines belong to the
//! latest `t=` line.  Unknown line types are ignored.
use vstd::prelude::*;

use crate::sdp::types::{
    Attribute, Bandwidth, Connection, Encryption, MediaDescription, MediaType, Origin,
    RepeatTime, SdpError, SdpResult, SessionDescription, SpecAttribute, SpecBandwidth,
    SpecConnection, SpecEncryption, SpecMediaDescription, SpecOrigin, SpecRepeatTime,
    SpecSdpError, SpecSessionDescription, SpecTimeDescription, TimeDescription,
    attributes_view, bandwidths_view, spec_media_type,
    spec_parse_attribute, strings_view,
};
use crate::text::{
    utf8_width, utf8_width_of, chars_of, copy_str, dec, find_in, lemma_deep_chars, nonempty, parse_uint, parse_uint_vec, push_chars,
    push_dec, push_str, split_char, split_once, split_vec, split_ws, split_ws_vec,
    string_of, strip_trailing, strip_trailing_vec, trim, trim_vec,
};

verus! {

// ---------------------------------------------------------------------------
// Lines
// ---------------------------------------------------------------------------

/// The lines of an SDP text: split at `\n`, trailing `\r` removed, empty
/// lines dropped.
pub open spec fn spec_sdp_lines(input: Seq<char>) -> Seq<Seq<char>> {
    nonempty(split_char(input, '\n').map_values(|l: Seq<char>| strip_trailing(l, '\r')))
}

pub open spec fn parse_err<T>(line_no: nat, detail: Seq<char>) -> Result<T, SpecSdpError> {
    Err(SpecSdpError::ParseError { line_no: line_no as usize, detail })
}

/// `<msg><v>'` where `msg` ends with an opening quote.
pub open spec fn quoted(msg: Seq<char>, v: Seq<char>) -> Seq<char> {
    msg + v + "'"@
}

/// `<msg><n>: '<v>'`.
pub open spec fn counted(msg: Seq<char>, n: nat, v: Seq<char>) -> Seq<char> {
    msg + dec(n) + ": '"@ + v + "'"@
}

/// Type character and value of a line: the value starts at byte 2 of the
/// UTF-8 text, so after the `=` when the type character is ASCII, at the
/// `=` when it takes two bytes; a type character of three or more bytes
/// leaves byte 2 inside it, and the line is refused.
pub open spec fn spec_line_type(line: Seq<char>, ln: nat) -> Result<(char, Seq<char>), SpecSdpError> {
    if line.len() < 2 {
        parse_err(ln, quoted("line too short: '"@, line))
    } else if line[1] != '=' {
        parse_err(ln, quoted("expected '=' after type character, found '"@, seq![line[1]]))
    } else if utf8_width(line[0]) == 1 {
        Ok((line[0], line.skip(2)))
    } else if utf8_width(line[0]) == 2 {
        Ok((line[0], line.skip(1)))
    } else {
        parse_err(ln, quoted("invalid type character: '"@, seq![line[0]]))
    }
}

// ---------------------------------------------------------------------------
// Fields
// ---------------------------------------------------------------------------

pub open spec fn u32_max() -> nat {
    0xffff_ffff
}

pub open spec fn u64_max() -> nat {
    0xffff_ffff_ffff_ffff
}

pub open spec fn spec_parse_version(value: Seq<char>, ln: nat) -> Result<u32, SpecSdpError> {
    match parse_uint(trim(value), u32_max()) {
        Some(n) => Ok(n as u32),
        None => parse_err(ln, quoted("invalid version: '"@, value)),
    }
}

pub open spec fn spec_parse_origin(value: Seq<char>, ln: nat) -> Result<SpecOrigin, SpecSdpError> {
    let p = split_ws(value);
    if p.len() != 6 {
        parse_err(ln, counted("origin line requires 6 fields, found "@, p.len(), value))
    } else {
        match parse_uint(p[1], u64_max()) {
            None => parse_err(ln, quoted("invalid session-id: '"@, p[1])),
            Some(id) => match parse_uint(p[2], u64_max()) {
                None => parse_err(ln, quoted("invalid session-version: '"@, p[2])),
                Some(ver) => Ok(
                    SpecOrigin {
                        username: p[0],
                        session_id: id as u64,
                        session_version: ver as u64,
                        network_type: p[3],
                        address_type: p[4],
                        unicast_address: p[5],
                    },
                ),
            },
        }
    }
}

pub open spec fn spec_parse_conn_addr(spec: Seq<char>, ln: nat) -> Result<
    (Seq<char>, Option<u32>, Option<u32>),
    SpecSdpError,
> {
    let p = split_char(spec, '/');
    if p.len() == 1 {
        Ok((p[0], None, None))
    } else if p.len() == 2 {
        match parse_uint(p[1], u32_max()) {
            None => parse_err(ln, quoted("invalid TTL: '"@, p[1])),
            Some(t) => Ok((p[0], Some(t as u32), None)),
        }
    } else if p.len() == 3 {
        match parse_uint(p[1], u32_max()) {
            None => parse_err(ln, quoted("invalid TTL: '"@, p[1])),
            Some(t) => match parse_uint(p[2], u32_max()) {
                None => parse_err(ln, quoted("invalid number of addresses: '"@, p[2])),
                Some(n) => Ok((p[0], Some(t as u32), Some(n as u32))),
            },
        }
    } else {
        parse_err(ln, quoted("invalid connection address: '"@, spec))
    }
}

pub open spec fn spec_parse_connection(value: Seq<char>, ln: nat) -> Result<
    SpecConnection,
    SpecSdpError,
> {
    let p = split_ws(value);
    if p.len() < 3 {
        parse_err(
            ln,
            counted("connection line requires at least 3 fields, found "@, p.len(), value),
        )
    } else {
        match spec_parse_conn_addr(p[2], ln) {
            Err(e) => Err(e),
            Ok((a, t, n)) => Ok(
                SpecConnection {
                    network_type: p[0],
                    address_type: p[1],
                    connection_address: a,
                    ttl: t,
                    number_of_addresses: n,
                },
            ),
        }
    }
}

pub open spec fn spec_parse_bandwidth(value: Seq<char>, ln: nat) -> Result<
    SpecBandwidth,
    SpecSdpError,
> {
    match split_once(value, ':') {
        None => parse_err(ln, quoted("bandwidth line missing ':': '"@, value)),
        Some((t, v)) => match parse_uint(trim(v), u64_max()) {
            None => parse_err(ln, quoted("invalid bandwidth value: '"@, v)),
            Some(b) => Ok(SpecBandwidth { bandwidth_type: trim(t), bandwidth: b as u64 }),
        },
    }
}

pub open spec fn spec_parse_time(value: Seq<char>, ln: nat) -> Result<
    SpecTimeDescription,
    SpecSdpError,
> {
    let p = split_ws(value);
    if p.len() != 2 {
        parse_err(ln, counted("time line requires 2 fields, found "@, p.len(), value))
    } else {
        match parse_uint(p[0], u64_max()) {
            None => parse_err(ln, quoted("invalid start-time: '"@, p[0])),
            Some(s) => match parse_uint(p[1], u64_max()) {
                None => parse_err(ln, quoted("invalid stop-time: '"@, p[1])),
                Some(e) => Ok(
                    SpecTimeDescription {
                        start_time: s as u64,
                        stop_time: e as u64,
                        repeat_times: Seq::empty(),
                    },
                ),
            },
        }
    }
}

/// Offsets of an `r=` line (the fields from the third on); an invalid one is
/// reported with its 1-based field position.
pub open spec fn spec_parse_offsets(offs: Seq<Seq<char>>, ln: nat) -> Result<
    Seq<u64>,
    SpecSdpError,
>
    decreases offs.len(),
{
    if offs.len() == 0 {
        Ok(Seq::empty())
    } else {
        match spec_parse_offsets(offs.drop_last(), ln) {
            Err(e) => Err(e),
            Ok(v) => match parse_uint(offs.last(), u64_max()) {
                None => parse_err(
                    ln,
                    "invalid offset at position "@ + dec((offs.len() + 2) as nat) + ": '"@
                        + offs.last() + "'"@,
                ),
                Some(n) => Ok(v.push(n as u64)),
            },
        }
    }
}

pub open spec fn spec_parse_repeat(value: Seq<char>, ln: nat) -> Result<
    SpecRepeatTime,
    SpecSdpError,
> {
    let p = split_ws(value);
    if p.len() < 2 {
        parse_err(ln, counted("repeat line requires at least 2 fields, found "@, p.len(), value))
    } else {
        match parse_uint(p[0], u64_max()) {
            None => parse_err(ln, quoted("invalid repeat-interval: '"@, p[0])),
            Some(iv) => match parse_uint(p[1], u64_max()) {
                None => parse_err(ln, quoted("invalid active-duration: '"@, p[1])),
                Some(d) => match spec_parse_offsets(p.skip(2), ln) {
                    Err(e) => Err(e),
                    Ok(offs) => Ok(
                        SpecRepeatTime {
                            repeat_interval: iv as u64,
                            active_duration: d as u64,
                            offsets: offs,
                        },
                    ),
                },
            },
        }
    }
}

pub open spec fn spec_parse_encryption(value: Seq<char>) -> SpecEncryption {
    match split_once(value, ':') {
        Some((m, k)) => SpecEncryption { method: trim(m), encryption_key: Some(trim(k)) },
        None => SpecEncryption { method: trim(value), encryption_key: None },
    }
}

pub open spec fn spec_parse_port(spec: Seq<char>, ln: nat) -> Result<
    (u32, Option<u32>),
    SpecSdpError,
> {
    match split_once(spec, '/') {
        Some((ps, ns)) => match parse_uint(ps, u32_max()) {
            None => parse_err(ln, quoted("invalid port: '"@, ps)),
            Some(port) => match parse_uint(ns, u32_max()) {
                None => parse_err(ln, quoted("invalid number of ports: '"@, ns)),
                Some(n) => Ok((port as u32, Some(n as u32))),
            },
        },
        None => match parse_uint(spec, u32_max()) {
            None => parse_err(ln, quoted("invalid port: '"@, spec)),
            Some(port) => Ok((port as u32, None)),
        },
    }
}

pub open spec fn spec_parse_media(value: Seq<char>, ln: nat) -> Result<
    SpecMediaDescription,
    SpecSdpError,
> {
    let p = split_ws(value);
    if p.len() < 4 {
        parse_err(ln, counted("media line requires at least 4 fields, found "@, p.len(), value))
    } else {
        match spec_parse_port(p[1], ln) {
            Err(e) => Err(e),
            Ok((port, n)) => Ok(
                SpecMediaDescription {
                    media: spec_media_type(p[0]),
                    port,
                    number_of_ports: n,
                    proto: p[2],
                    formats: p.skip(3),
                    title: None,
                    connection: None,
                    bandwidth: Seq::empty(),
                    encryption: None,
                    attributes: Seq::empty(),
                },
            ),
        }
    }
}

// ---------------------------------------------------------------------------
// The line-by-line state machine
// ---------------------------------------------------------------------------

/// The description being filled, the open media description and the open
/// time description.
#[verifier::ext_equal]
pub struct SpecParseState {
    pub sdp: SpecSessionDescription,
    pub media: Option<SpecMediaDescription>,
    pub time: Option<SpecTimeDescription>,
}

pub open spec fn blank_origin() -> SpecOrigin {
    SpecOrigin {
        username: Seq::empty(),
        session_id: 0,
        session_version: 0,
        network_type: Seq::empty(),
        address_type: Seq::empty(),
        unicast_address: Seq::empty(),
    }
}

pub open spec fn initial_state() -> SpecParseState {
    SpecParseState {
        sdp: SpecSessionDescription {
            version: 0,
            origin: blank_origin(),
            session_name: Seq::empty(),
            session_info: None,
            uri: None,
            email: None,
            phone: None,
            connection: None,
            bandwidth: Seq::empty(),
            time_descriptions: Seq::empty(),
            timezone: None,
            encryption: None,
            attributes: Seq::empty(),
            media_descriptions: Seq::empty(),
            ssrc: None,
            media_format: None,
        },
        media: None,
        time: None,
    }
}

/// Effect of one line `t=v` (line number `ln`) on the state.
pub open spec fn spec_apply(st: SpecParseState, t: char, v: Seq<char>, ln: nat) -> Result<
    SpecParseState,
    SpecSdpError,
> {
    let sd = st.sdp;
    if t == 'v' {
        match spec_parse_version(v, ln) {
            Err(e) => Err(e),
            Ok(n) => Ok(SpecParseState { sdp: SpecSessionDescription { version: n, ..sd }, ..st }),
        }
    } else if t == 'o' {
        match spec_parse_origin(v, ln) {
            Err(e) => Err(e),
            Ok(o) => Ok(SpecParseState { sdp: SpecSessionDescription { origin: o, ..sd }, ..st }),
        }
    } else if t == 's' {
        Ok(SpecParseState { sdp: SpecSessionDescription { session_name: v, ..sd }, ..st })
    } else if t == 'i' {
        match st.media {
            Some(m) => Ok(
                SpecParseState { media: Some(SpecMediaDescription { title: Some(v), ..m }), ..st },
            ),
            None => Ok(
                SpecParseState { sdp: SpecSessionDescription { session_info: Some(v), ..sd }, ..st },
            ),
        }
    } else if t == 'u' {
        Ok(SpecParseState { sdp: SpecSessionDescription { uri: Some(v), ..sd }, ..st })
    } else if t == 'e' {
        Ok(SpecParseState { sdp: SpecSessionDescription { email: Some(v), ..sd }, ..st })
    } else if t == 'p' {
        Ok(SpecParseState { sdp: SpecSessionDescription { phone: Some(v), ..sd }, ..st })
    } else if t == 'c' {
        match spec_parse_connection(v, ln) {
            Err(e) => Err(e),
            Ok(c) => match st.media {
                Some(m) => Ok(
                    SpecParseState {
                        media: Some(SpecMediaDescription { connection: Some(c), ..m }),
                        ..st
                    },
                ),
                None => Ok(
                    SpecParseState {
                        sdp: SpecSessionDescription { connection: Some(c), ..sd },
                        ..st
                    },
                ),
            },
        }
    } else if t == 'b' {
        match spec_parse_bandwidth(v, ln) {
            Err(e) => Err(e),
            Ok(b) => match st.media {
                Some(m) => Ok(
                    SpecParseState {
                        media: Some(SpecMediaDescription { bandwidth: m.bandwidth.push(b), ..m }),
                        ..st
                    },
                ),
                None => Ok(
                    SpecParseState {
                        sdp: SpecSessionDescription { bandwidth: sd.bandwidth.push(b), ..sd },
                        ..st
                    },
                ),
            },
        }
    } else if t == 't' {
        match spec_parse_time(v, ln) {
            Err(e) => Err(e),
            Ok(td) => {
                let sd2 = match st.time {
                    Some(old) => SpecSessionDescription {
                        time_descriptions: sd.time_descriptions.push(old),
                        ..sd
                    },
                    None => sd,
                };
                Ok(SpecParseState { sdp: sd2, time: Some(td), ..st })
            },
        }
    } else if t == 'r' {
        match spec_parse_repeat(v, ln) {
            Err(e) => Err(e),
            Ok(r) => match st.time {
                Some(td) => Ok(
                    SpecParseState {
                        time: Some(
                            SpecTimeDescription { repeat_times: td.repeat_times.push(r), ..td },
                        ),
                        ..st
                    },
                ),
                None => parse_err(ln, "r= line without preceding t= line"@),
            },
        }
    } else if t == 'z' {
        Ok(SpecParseState { sdp: SpecSessionDescription { timezone: Some(v), ..sd }, ..st })
    } else if t == 'k' {
        let enc = spec_parse_encryption(v);
        match st.media {
            Some(m) => Ok(
                SpecParseState {
                    media: Some(SpecMediaDescription { encryption: Some(enc), ..m }),
                    ..st
                },
            ),
            None => Ok(
                SpecParseState { sdp: SpecSessionDescription { encryption: Some(enc), ..sd }, ..st },
            ),
        }
    } else if t == 'a' {
        let a = spec_parse_attribute(v);
        match st.media {
            Some(m) => Ok(
                SpecParseState {
                    media: Some(SpecMediaDescription { attributes: m.attributes.push(a), ..m }),
                    ..st
                },
            ),
            None => Ok(
                SpecParseState {
                    sdp: SpecSessionDescription { attributes: sd.attributes.push(a), ..sd },
                    ..st
                },
            ),
        }
    } else if t == 'm' {
        match spec_parse_media(v, ln) {
            Err(e) => Err(e),
            Ok(nm) => {
                let sd2 = match st.media {
                    Some(old) => SpecSessionDescription {
                        media_descriptions: sd.media_descriptions.push(old),
                        ..sd
                    },
                    None => sd,
                };
                Ok(SpecParseState { sdp: sd2, media: Some(nm), ..st })
            },
        }
    } else if t == 'y' || t == 'f' {
        let a = SpecAttribute { name: seq![t], value: Some(v) };
        let m2 = match st.media {
            Some(m) => Some(SpecMediaDescription { attributes: m.attributes.push(a), ..m }),
            None => None,
        };
        let sd2 = if t == 'y' {
            SpecSessionDescription { ssrc: Some(v), ..sd }
        } else {
            SpecSessionDescription { media_format: Some(v), ..sd }
        };
        Ok(SpecParseState { sdp: sd2, media: m2, ..st })
    } else {
        Ok(st)
    }
}

/// Effect of one line (line number `ln`).
pub open spec fn spec_step(st: SpecParseState, line: Seq<char>, ln: nat) -> Result<
    SpecParseState,
    SpecSdpError,
> {
    match spec_line_type(line, ln) {
        Err(e) => Err(e),
        Ok((t, v)) => spec_apply(st, t, v, ln),
    }
}

/// State after the first `n` lines.
pub open spec fn spec_run(lines: Seq<Seq<char>>, n: nat) -> Result<SpecParseState, SpecSdpError>
    decreases n,
{
    if n == 0 {
        Ok(initial_state())
    } else {
        match spec_run(lines, (n - 1) as nat) {
            Err(e) => Err(e),
            Ok(st) => spec_step(st, lines[n - 1], n),
        }
    }
}

/// The description once the open time and media descriptions are closed.
pub open spec fn spec_finish(st: SpecParseState) -> SpecSessionDescription {
    let sd1 = match st.time {
        Some(td) => SpecSessionDescription {
            time_descriptions: st.sdp.time_descriptions.push(td),
            ..st.sdp
        },
        None => st.sdp,
    };
    match st.media {
        Some(m) => SpecSessionDescription { media_descriptions: sd1.media_descriptions.push(m), ..sd1 },
        None => sd1,
    }
}

pub open spec fn spec_validate(sd: SpecSessionDescription) -> Result<
    SpecSessionDescription,
    SpecSdpError,
> {
    if sd.session_name.len() == 0 {
        Err(SpecSdpError::MissingField { field: "session_name (s=)"@ })
    } else if sd.time_descriptions.len() == 0 {
        Err(SpecSdpError::MissingField { field: "time_description (t=)"@ })
    } else {
        Ok(sd)
    }
}

/// Meaning of `SdpParser::parse`.
pub open spec fn spec_sdp_parse(input: Seq<char>) -> Result<SpecSessionDescription, SpecSdpError> {
    let lines = spec_sdp_lines(input);
    match spec_run(lines, lines.len()) {
        Err(e) => Err(e),
        Ok(st) => spec_validate(spec_finish(st)),
    }
}


// ---------------------------------------------------------------------------
// Executable parser: error construction
// ---------------------------------------------------------------------------

fn perr(ln: usize, detail: String) -> (e: SdpError)
    ensures
        e@ == (SpecSdpError::ParseError { line_no: ln, detail: detail@ }),
{
    SdpError::ParseError { line_no: ln, detail }
}

fn quoted_s(msg: &str, v: &Vec<char>) -> (s: String)
    ensures
        s@ == quoted(msg@, v@),
{
    let mut s = copy_str(msg);
    push_chars(&mut s, v);
    push_str(&mut s, "'");
    s
}

fn counted_s(msg: &str, n: usize, v: &Vec<char>) -> (s: String)
    ensures
        s@ == counted(msg@, n as nat, v@),
{
    let mut s = copy_str(msg);
    push_dec(&mut s, n as u64);
    push_str(&mut s, ": '");
    push_chars(&mut s, v);
    push_str(&mut s, "'");
    s
}

// ---------------------------------------------------------------------------
// Executable parser: fields
// ---------------------------------------------------------------------------

fn parse_u32(v: &Vec<char>) -> (r: Option<u32>)
    ensures
        match r {
            Some(n) => parse_uint(v@, u32_max()) == Some(n as nat),
            None => parse_uint(v@, u32_max()) is None,
        },
{
    match parse_uint_vec(v, 0xffff_ffff) {
        Some(n) => Some(n as u32),
        None => None,
    }
}

fn parse_u64(v: &Vec<char>) -> (r: Option<u64>)
    ensures
        match r {
            Some(n) => parse_uint(v@, u64_max()) == Some(n as nat),
            None => parse_uint(v@, u64_max()) is None,
        },
{
    parse_uint_vec(v, 0xffff_ffff_ffff_ffff)
}

fn parse_line_type(line: &Vec<char>, ln: usize) -> (r: SdpResult<(char, Vec<char>)>)
    ensures
        match r {
            Ok((t, v)) => spec_line_type(line@, ln as nat) == Ok::<(char, Seq<char>), SpecSdpError>(
                (t, v@),
            ),
            Err(e) => spec_line_type(line@, ln as nat) == Err::<(char, Seq<char>), SpecSdpError>(
                e@,
            ),
        },
{
    if line.len() < 2 {
        return Err(perr(ln, quoted_s("line too short: '", line)));
    }
    let t = line[0];
    let sep = line[1];
    if sep != '=' {
        let mut sv: Vec<char> = Vec::new();
        sv.push(sep);
        assert(sv@ == seq![line@[1]]);
        return Err(perr(ln, quoted_s("expected '=' after type character, found '", &sv)));
    }
    let w = utf8_width_of(t);
    if w > 2 {
        let mut tv: Vec<char> = Vec::new();
        tv.push(t);
        assert(tv@ == seq![line@[0]]);
        return Err(perr(ln, quoted_s("invalid type character: '", &tv)));
    }
    let start: usize = if w == 1 {
        2
    } else {
        1
    };
    let v = crate::text::sub_vec(line, start, line.len());
    assert(v@ == line@.skip(start as int));
    Ok((t, v))
}

fn parse_version(value: &Vec<char>, ln: usize) -> (r: SdpResult<u32>)
    ensures
        match r {
            Ok(n) => spec_parse_version(value@, ln as nat) == Ok::<u32, SpecSdpError>(n),
            Err(e) => spec_parse_version(value@, ln as nat) == Err::<u32, SpecSdpError>(e@),
        },
{
    let t = trim_vec(value);
    match parse_u32(&t) {
        Some(n) => Ok(n),
        None => Err(perr(ln, quoted_s("invalid version: '", value))),
    }
}

fn parse_origin(value: &Vec<char>, ln: usize) -> (r: SdpResult<Origin>)
    ensures
        match r {
            Ok(o) => spec_parse_origin(value@, ln as nat) == Ok::<SpecOrigin, SpecSdpError>(o@),
            Err(e) => spec_parse_origin(value@, ln as nat) == Err::<SpecOrigin, SpecSdpError>(e@),
        },
{
    let p = split_ws_vec(value);
    proof {
        lemma_deep_chars(p);
    }
    if p.len() != 6 {
        return Err(perr(ln, counted_s("origin line requires 6 fields, found ", p.len(), value)));
    }
    let id = match parse_u64(&p[1]) {
        Some(n) => n,
        None => {
            return Err(perr(ln, quoted_s("invalid session-id: '", &p[1])));
        },
    };
    let ver = match parse_u64(&p[2]) {
        Some(n) => n,
        None => {
            return Err(perr(ln, quoted_s("invalid session-version: '", &p[2])));
        },
    };
    Ok(
        Origin {
            username: string_of(&p[0]),
            session_id: id,
            session_version: ver,
            network_type: string_of(&p[3]),
            address_type: string_of(&p[4]),
            unicast_address: string_of(&p[5]),
        },
    )
}

fn parse_connection_address(spec: &Vec<char>, ln: usize) -> (r: SdpResult<
    (String, Option<u32>, Option<u32>),
>)
    ensures
        match r {
            Ok((a, t, n)) => spec_parse_conn_addr(spec@, ln as nat) == Ok::<
                (Seq<char>, Option<u32>, Option<u32>),
                SpecSdpError,
            >((a@, t, n)),
            Err(e) => spec_parse_conn_addr(spec@, ln as nat) == Err::<
                (Seq<char>, Option<u32>, Option<u32>),
                SpecSdpError,
            >(e@),
        },
{
    let p = split_vec(spec, '/');
    proof {
        lemma_deep_chars(p);
    }
    if p.len() == 1 {
        Ok((string_of(&p[0]), None, None))
    } else if p.len() == 2 {
        match parse_u32(&p[1]) {
            None => Err(perr(ln, quoted_s("invalid TTL: '", &p[1]))),
            Some(t) => Ok((string_of(&p[0]), Some(t), None)),
        }
    } else if p.len() == 3 {
        match parse_u32(&p[1]) {
            None => Err(perr(ln, quoted_s("invalid TTL: '", &p[1]))),
            Some(t) => match parse_u32(&p[2]) {
                None => Err(perr(ln, quoted_s("invalid number of addresses: '", &p[2]))),
                Some(n) => Ok((string_of(&p[0]), Some(t), Some(n))),
            },
        }
    } else {
        Err(perr(ln, quoted_s("invalid connection address: '", spec)))
    }
}

fn parse_connection(value: &Vec<char>, ln: usize) -> (r: SdpResult<Connection>)
    ensures
        match r {
            Ok(c) => spec_parse_connection(value@, ln as nat) == Ok::<SpecConnection, SpecSdpError>(
                c@,
            ),
            Err(e) => spec_parse_connection(value@, ln as nat) == Err::<
                SpecConnection,
                SpecSdpError,
            >(e@),
        },
{
    let p = split_ws_vec(value);
    proof {
        lemma_deep_chars(p);
    }
    if p.len() < 3 {
        return Err(
            perr(ln, counted_s("connection line requires at least 3 fields, found ", p.len(), value)),
        );
    }
    let (a, t, n) = parse_connection_address(&p[2], ln)?;
    Ok(
        Connection {
            network_type: string_of(&p[0]),
            address_type: string_of(&p[1]),
            connection_address: a,
            ttl: t,
            number_of_addresses: n,
        },
    )
}

fn parse_bandwidth(value: &Vec<char>, ln: usize) -> (r: SdpResult<Bandwidth>)
    ensures
        match r {
            Ok(b) => spec_parse_bandwidth(value@, ln as nat) == Ok::<SpecBandwidth, SpecSdpError>(
                b@,
            ),
            Err(e) => spec_parse_bandwidth(value@, ln as nat) == Err::<SpecBandwidth, SpecSdpError>(
                e@,
            ),
        },
{
    let len = value.len();
    match find_in(value, ':') {
        None => Err(perr(ln, quoted_s("bandwidth line missing ':': '", value))),
        Some(i) => {
            let t = crate::text::sub_vec(value, 0, i);
            let v = crate::text::sub_vec(value, i + 1, len);
            assert(t@ == value@.take(i as int));
            assert(v@ == value@.skip(i + 1));
            let vt = trim_vec(&v);
            match parse_u64(&vt) {
                None => Err(perr(ln, quoted_s("invalid bandwidth value: '", &v))),
                Some(b) => {
                    let tt = trim_vec(&t);
                    Ok(Bandwidth { bandwidth_type: string_of(&tt), bandwidth: b })
                },
            }
        },
    }
}

fn parse_time(value: &Vec<char>, ln: usize) -> (r: SdpResult<TimeDescription>)
    ensures
        match r {
            Ok(t) => spec_parse_time(value@, ln as nat) == Ok::<SpecTimeDescription, SpecSdpError>(
                t@,
            ),
            Err(e) => spec_parse_time(value@, ln as nat) == Err::<
                SpecTimeDescription,
                SpecSdpError,
            >(e@),
        },
{
    let p = split_ws_vec(value);
    proof {
        lemma_deep_chars(p);
    }
    if p.len() != 2 {
        return Err(perr(ln, counted_s("time line requires 2 fields, found ", p.len(), value)));
    }
    let s = match parse_u64(&p[0]) {
        Some(n) => n,
        None => {
            return Err(perr(ln, quoted_s("invalid start-time: '", &p[0])));
        },
    };
    let e = match parse_u64(&p[1]) {
        Some(n) => n,
        None => {
            return Err(perr(ln, quoted_s("invalid stop-time: '", &p[1])));
        },
    };
    let td = TimeDescription { start_time: s, stop_time: e, repeat_times: Vec::new() };
    assert(td@ =~= SpecTimeDescription { start_time: s, stop_time: e, repeat_times: Seq::empty() });
    Ok(td)
}

fn parse_repeat(value: &Vec<char>, ln: usize) -> (r: SdpResult<RepeatTime>)
    ensures
        match r {
            Ok(t) => spec_parse_repeat(value@, ln as nat) == Ok::<SpecRepeatTime, SpecSdpError>(
                t@,
            ),
            Err(e) => spec_parse_repeat(value@, ln as nat) == Err::<SpecRepeatTime, SpecSdpError>(
                e@,
            ),
        },
{
    let p = split_ws_vec(value);
    proof {
        lemma_deep_chars(p);
    }
    if p.len() < 2 {
        return Err(
            perr(ln, counted_s("repeat line requires at least 2 fields, found ", p.len(), value)),
        );
    }
    let iv = match parse_u64(&p[0]) {
        Some(n) => n,
        None => {
            return Err(perr(ln, quoted_s("invalid repeat-interval: '", &p[0])));
        },
    };
    let d = match parse_u64(&p[1]) {
        Some(n) => n,
        None => {
            return Err(perr(ln, quoted_s("invalid active-duration: '", &p[1])));
        },
    };
    let ghost offs = p.deep_view().skip(2);
    let mut offsets: Vec<u64> = Vec::new();
    let mut i: usize = 2;
    while i < p.len()
        invariant
            2 <= i <= p@.len(),
            p.deep_view().len() == p@.len(),
            forall|j: int| 0 <= j < p@.len() ==> #[trigger] p@[j]@ == p.deep_view()[j],
            offs == p.deep_view().skip(2),
            p.deep_view() == split_ws(value@),
            p@.len() >= 2,
            parse_uint(p.deep_view()[0], u64_max()) == Some(iv as nat),
            parse_uint(p.deep_view()[1], u64_max()) == Some(d as nat),
            spec_parse_offsets(offs.take(i - 2), ln as nat) == Ok::<Seq<u64>, SpecSdpError>(
                offsets@,
            ),
        decreases p@.len() - i,
    {
        assert(offs.take(i - 1).drop_last() == offs.take(i - 2));
        assert(offs.take(i - 1).last() == p@[i as int]@);
        match parse_u64(&p[i]) {
            Some(n) => {
                offsets.push(n);
            },
            None => {
                let mut d = copy_str("invalid offset at position ");
                push_dec(&mut d, (i + 1) as u64);
                push_str(&mut d, ": '");
                push_chars(&mut d, &p[i]);
                push_str(&mut d, "'");
                proof {
                    let pre = offs.take(i - 1);
                    assert(pre.len() == i - 1);
                    assert(((pre.len() + 2) as nat) == ((i + 1) as u64) as nat);
                    assert(spec_parse_offsets(pre, ln as nat) == Err::<Seq<u64>, SpecSdpError>(
                        SpecSdpError::ParseError { line_no: ln, detail: d@ },
                    ));
                    lemma_offsets_err_prefix(offs, (i - 1) as nat, ln as nat);
                }
                return Err(perr(ln, d));
            },
        }
        i += 1;
    }
    assert(offs.take(p@.len() - 2) == offs);
    Ok(RepeatTime { repeat_interval: iv, active_duration: d, offsets })
}

/// An error in the offsets of a prefix is the error of the whole list.
proof fn lemma_offsets_err_prefix(offs: Seq<Seq<char>>, k: nat, ln: nat)
    requires
        k <= offs.len(),
        spec_parse_offsets(offs.take(k as int), ln) is Err,
    ensures
        spec_parse_offsets(offs, ln) == spec_parse_offsets(offs.take(k as int), ln),
    decreases offs.len() - k,
{
    if k < offs.len() {
        assert(offs.take(k as int + 1).drop_last() == offs.take(k as int));
        lemma_offsets_err_prefix(offs, k + 1, ln);
    } else {
        assert(offs.take(k as int) == offs);
    }
}

fn parse_encryption(value: &Vec<char>) -> (e: Encryption)
    ensures
        e@ == spec_parse_encryption(value@),
{
    let len = value.len();
    match find_in(value, ':') {
        Some(i) => {
            let m = crate::text::sub_vec(value, 0, i);
            let k = crate::text::sub_vec(value, i + 1, len);
            assert(m@ == value@.take(i as int));
            assert(k@ == value@.skip(i + 1));
            let mt = trim_vec(&m);
            let kt = trim_vec(&k);
            Encryption { method: string_of(&mt), encryption_key: Some(string_of(&kt)) }
        },
        None => {
            let mt = trim_vec(value);
            Encryption { method: string_of(&mt), encryption_key: None }
        },
    }
}

fn parse_port(spec: &Vec<char>, ln: usize) -> (r: SdpResult<(u32, Option<u32>)>)
    ensures
        match r {
            Ok((p, n)) => spec_parse_port(spec@, ln as nat) == Ok::<(u32, Option<u32>), SpecSdpError>(
                (p, n),
            ),
            Err(e) => spec_parse_port(spec@, ln as nat) == Err::<(u32, Option<u32>), SpecSdpError>(
                e@,
            ),
        },
{
    let len = spec.len();
    match find_in(spec, '/') {
        Some(i) => {
            let ps = crate::text::sub_vec(spec, 0, i);
            let ns = crate::text::sub_vec(spec, i + 1, len);
            assert(ps@ == spec@.take(i as int));
            assert(ns@ == spec@.skip(i + 1));
            match parse_u32(&ps) {
                None => Err(perr(ln, quoted_s("invalid port: '", &ps))),
                Some(port) => match parse_u32(&ns) {
                    None => Err(perr(ln, quoted_s("invalid number of ports: '", &ns))),
                    Some(n) => Ok((port, Some(n))),
                },
            }
        },
        None => match parse_u32(spec) {
            None => Err(perr(ln, quoted_s("invalid port: '", spec))),
            Some(port) => Ok((port, None)),
        },
    }
}

fn parse_media(value: &Vec<char>, ln: usize) -> (r: SdpResult<MediaDescription>)
    ensures
        match r {
            Ok(m) => spec_parse_media(value@, ln as nat) == Ok::<SpecMediaDescription, SpecSdpError>(
                m@,
            ),
            Err(e) => spec_parse_media(value@, ln as nat) == Err::<
                SpecMediaDescription,
                SpecSdpError,
            >(e@),
        },
{
    let p = split_ws_vec(value);
    proof {
        lemma_deep_chars(p);
    }
    if p.len() < 4 {
        return Err(
            perr(ln, counted_s("media line requires at least 4 fields, found ", p.len(), value)),
        );
    }
    let media = MediaType::from_token(&p[0]);
    let (port, number_of_ports) = parse_port(&p[1], ln)?;
    let proto = string_of(&p[2]);
    let mut formats: Vec<String> = Vec::new();
    let mut i: usize = 3;
    while i < p.len()
        invariant
            3 <= i <= p@.len(),
            p.deep_view().len() == p@.len(),
            forall|j: int| 0 <= j < p@.len() ==> #[trigger] p@[j]@ == p.deep_view()[j],
            strings_view(formats@) == p.deep_view().subrange(3, i as int),
        decreases p@.len() - i,
    {
        let ghost old_f = formats@;
        formats.push(string_of(&p[i]));
        assert(strings_view(formats@) =~= strings_view(old_f).push(p@[i as int]@));
        assert(p.deep_view().subrange(3, i + 1) =~= p.deep_view().subrange(3, i as int).push(
            p.deep_view()[i as int],
        ));
        i += 1;
    }
    assert(p.deep_view().subrange(3, p@.len() as int) == p.deep_view().skip(3));
    let m = MediaDescription {
        media,
        port,
        number_of_ports,
        proto,
        formats,
        title: None,
        connection: None,
        bandwidth: Vec::new(),
        encryption: None,
        attributes: Vec::new(),
    };
    assert(m@ =~= SpecMediaDescription {
        media: spec_media_type(p.deep_view()[0]),
        port,
        number_of_ports,
        proto: p.deep_view()[2],
        formats: p.deep_view().skip(3),
        title: None,
        connection: None,
        bandwidth: Seq::empty(),
        encryption: None,
        attributes: Seq::empty(),
    });
    Ok(m)
}

// ---------------------------------------------------------------------------
// Executable parser: the state machine
// ---------------------------------------------------------------------------

struct ParseState {
    sdp: SessionDescription,
    media: Option<MediaDescription>,
    time: Option<TimeDescription>,
}

pub open spec fn opt_media_view(m: Option<MediaDescription>) -> Option<SpecMediaDescription> {
    match m {
        Some(x) => Some(x@),
        None => None,
    }
}

pub open spec fn opt_time_view(t: Option<TimeDescription>) -> Option<SpecTimeDescription> {
    match t {
        Some(x) => Some(x@),
        None => None,
    }
}

impl View for ParseState {
    type V = SpecParseState;

    closed spec fn view(&self) -> SpecParseState {
        SpecParseState {
            sdp: self.sdp@,
            media: opt_media_view(self.media),
            time: opt_time_view(self.time),
        }
    }
}

fn push_time(sd: &mut SessionDescription, td: TimeDescription)
    ensures
        final(sd)@ == (SpecSessionDescription {
            time_descriptions: old(sd)@.time_descriptions.push(td@),
            ..old(sd)@
        }),
{
    let ghost old_v = sd.time_descriptions@;
    let ghost tv = td@;
    sd.time_descriptions.push(td);
    assert(sd.time_descriptions@.map_values(|t: TimeDescription| t@) =~= old_v.map_values(
        |t: TimeDescription| t@,
    ).push(tv));
    assert(sd@ =~= SpecSessionDescription {
        time_descriptions: old(sd)@.time_descriptions.push(tv),
        ..old(sd)@
    });
}

fn push_media(sd: &mut SessionDescription, m: MediaDescription)
    ensures
        final(sd)@ == (SpecSessionDescription {
            media_descriptions: old(sd)@.media_descriptions.push(m@),
            ..old(sd)@
        }),
{
    let ghost old_v = sd.media_descriptions@;
    let ghost mv = m@;
    sd.media_descriptions.push(m);
    assert(sd.media_descriptions@.map_values(|x: MediaDescription| x@) =~= old_v.map_values(
        |x: MediaDescription| x@,
    ).push(mv));
    assert(sd@ =~= SpecSessionDescription {
        media_descriptions: old(sd)@.media_descriptions.push(mv),
        ..old(sd)@
    });
}

fn push_attr(v: &mut Vec<Attribute>, a: Attribute)
    ensures
        attributes_view(final(v)@) == attributes_view(old(v)@).push(a@),
{
    let ghost old_v = v@;
    let ghost av = a@;
    v.push(a);
    assert(attributes_view(v@) =~= attributes_view(old_v).push(av));
}

fn push_bw(v: &mut Vec<Bandwidth>, b: Bandwidth)
    ensures
        bandwidths_view(final(v)@) == bandwidths_view(old(v)@).push(b@),
{
    let ghost old_v = v@;
    let ghost bv = b@;
    v.push(b);
    assert(bandwidths_view(v@) =~= bandwidths_view(old_v).push(bv));
}

fn apply(st: ParseState, t: char, v: &Vec<char>, ln: usize) -> (r: SdpResult<ParseState>)
    ensures
        match r {
            Ok(s2) => spec_apply(st@, t, v@, ln as nat) == Ok::<SpecParseState, SpecSdpError>(s2@),
            Err(e) => spec_apply(st@, t, v@, ln as nat) == Err::<SpecParseState, SpecSdpError>(e@),
        },
{
    let ghost s0 = st@;
    let mut st = st;
    if t == 'v' {
        let n = parse_version(v, ln)?;
        st.sdp.version = n;
        assert(st@ =~= SpecParseState { sdp: SpecSessionDescription { version: n, ..s0.sdp }, ..s0 });
        Ok(st)
    } else if t == 'o' {
        let o = parse_origin(v, ln)?;
        let ghost ov = o@;
        st.sdp.origin = o;
        assert(st@ =~= SpecParseState { sdp: SpecSessionDescription { origin: ov, ..s0.sdp }, ..s0 });
        Ok(st)
    } else if t == 's' {
        st.sdp.session_name = string_of(v);
        assert(st@ =~= SpecParseState {
            sdp: SpecSessionDescription { session_name: v@, ..s0.sdp },
            ..s0
        });
        Ok(st)
    } else if t == 'i' {
        match st.media.take() {
            Some(m) => {
                let mut m = m;
                let ghost m0 = m@;
                m.title = Some(string_of(v));
                assert(m@ =~= SpecMediaDescription { title: Some(v@), ..m0 });
                st.media = Some(m);
            },
            None => {
                st.sdp.session_info = Some(string_of(v));
            },
        }
        proof {
            match s0.media {
                Some(m0) => {
                    assert(st@ =~= SpecParseState {
                        media: Some(SpecMediaDescription { title: Some(v@), ..m0 }),
                        ..s0
                    });
                },
                None => {
                    assert(st@ =~= SpecParseState {
                        sdp: SpecSessionDescription { session_info: Some(v@), ..s0.sdp },
                        ..s0
                    });
                },
            }
        }
        Ok(st)
    } else if t == 'u' {
        st.sdp.uri = Some(string_of(v));
        assert(st@ =~= SpecParseState { sdp: SpecSessionDescription { uri: Some(v@), ..s0.sdp }, ..s0 });
        Ok(st)
    } else if t == 'e' {
        st.sdp.email = Some(string_of(v));
        assert(st@ =~= SpecParseState {
            sdp: SpecSessionDescription { email: Some(v@), ..s0.sdp },
            ..s0
        });
        Ok(st)
    } else if t == 'p' {
        st.sdp.phone = Some(string_of(v));
        assert(st@ =~= SpecParseState {
            sdp: SpecSessionDescription { phone: Some(v@), ..s0.sdp },
            ..s0
        });
        Ok(st)
    } else if t == 'c' {
        let c = parse_connection(v, ln)?;
        let ghost cv = c@;
        match st.media.take() {
            Some(m) => {
                let mut m = m;
                let ghost m0 = m@;
                m.connection = Some(c);
                assert(m@ =~= SpecMediaDescription { connection: Some(cv), ..m0 });
                st.media = Some(m);
            },
            None => {
                st.sdp.connection = Some(c);
            },
        }
        proof {
            match s0.media {
                Some(m0) => {
                    assert(st@ =~= SpecParseState {
                        media: Some(SpecMediaDescription { connection: Some(cv), ..m0 }),
                        ..s0
                    });
                },
                None => {
                    assert(st@ =~= SpecParseState {
                        sdp: SpecSessionDescription { connection: Some(cv), ..s0.sdp },
                        ..s0
                    });
                },
            }
        }
        Ok(st)
    } else if t == 'b' {
        let b = parse_bandwidth(v, ln)?;
        let ghost bv = b@;
        match st.media.take() {
            Some(m) => {
                let mut m = m;
                let ghost m0 = m@;
                push_bw(&mut m.bandwidth, b);
                assert(m@ =~= SpecMediaDescription { bandwidth: m0.bandwidth.push(bv), ..m0 });
                st.media = Some(m);
            },
            None => {
                push_bw(&mut st.sdp.bandwidth, b);
            },
        }
        proof {
            match s0.media {
                Some(m0) => {
                    assert(st@ =~= SpecParseState {
                        media: Some(SpecMediaDescription { bandwidth: m0.bandwidth.push(bv), ..m0 }),
                        ..s0
                    });
                },
                None => {
                    assert(st@ =~= SpecParseState {
                        sdp: SpecSessionDescription { bandwidth: s0.sdp.bandwidth.push(bv), ..s0.sdp },
                        ..s0
                    });
                },
            }
        }
        Ok(st)
    } else if t == 't' {
        let td = parse_time(v, ln)?;
        let ghost tdv = td@;
        match st.time.take() {
            Some(old) => {
                push_time(&mut st.sdp, old);
            },
            None => {},
        }
        st.time = Some(td);
        proof {
            let sd2 = match s0.time {
                Some(old) => SpecSessionDescription {
                    time_descriptions: s0.sdp.time_descriptions.push(old),
                    ..s0.sdp
                },
                None => s0.sdp,
            };
            assert(st@ =~= SpecParseState { sdp: sd2, time: Some(tdv), ..s0 });
        }
        Ok(st)
    } else if t == 'r' {
        let rp = parse_repeat(v, ln)?;
        let ghost rv = rp@;
        match st.time.take() {
            Some(td) => {
                let mut td = td;
                let ghost t0 = td@;
                let ghost old_r = td.repeat_times@;
                td.repeat_times.push(rp);
                assert(td.repeat_times@.map_values(|x: RepeatTime| x@) =~= old_r.map_values(
                    |x: RepeatTime| x@,
                ).push(rv));
                assert(td@ =~= SpecTimeDescription { repeat_times: t0.repeat_times.push(rv), ..t0 });
                st.time = Some(td);
                assert(st@ =~= SpecParseState {
                    time: Some(SpecTimeDescription { repeat_times: t0.repeat_times.push(rv), ..t0 }),
                    ..s0
                });
                Ok(st)
            },
            None => {
                let d = copy_str("r= line without preceding t= line");
                Err(perr(ln, d))
            },
        }
    } else if t == 'z' {
        st.sdp.timezone = Some(string_of(v));
        assert(st@ =~= SpecParseState {
            sdp: SpecSessionDescription { timezone: Some(v@), ..s0.sdp },
            ..s0
        });
        Ok(st)
    } else if t == 'k' {
        let enc = parse_encryption(v);
        let ghost ev = enc@;
        match st.media.take() {
            Some(m) => {
                let mut m = m;
                let ghost m0 = m@;
                m.encryption = Some(enc);
                assert(m@ =~= SpecMediaDescription { encryption: Some(ev), ..m0 });
                st.media = Some(m);
            },
            None => {
                st.sdp.encryption = Some(enc);
            },
        }
        proof {
            match s0.media {
                Some(m0) => {
                    assert(st@ =~= SpecParseState {
                        media: Some(SpecMediaDescription { encryption: Some(ev), ..m0 }),
                        ..s0
                    });
                },
                None => {
                    assert(st@ =~= SpecParseState {
                        sdp: SpecSessionDescription { encryption: Some(ev), ..s0.sdp },
                        ..s0
                    });
                },
            }
        }
        Ok(st)
    } else if t == 'a' {
        let a = Attribute::parse(v);
        let ghost av = a@;
        match st.media.take() {
            Some(m) => {
                let mut m = m;
                let ghost m0 = m@;
                push_attr(&mut m.attributes, a);
                assert(m@ =~= SpecMediaDescription { attributes: m0.attributes.push(av), ..m0 });
                st.media = Some(m);
            },
            None => {
                push_attr(&mut st.sdp.attributes, a);
            },
        }
        proof {
            match s0.media {
                Some(m0) => {
                    assert(st@ =~= SpecParseState {
                        media: Some(SpecMediaDescription { attributes: m0.attributes.push(av), ..m0 }),
                        ..s0
                    });
                },
                None => {
                    assert(st@ =~= SpecParseState {
                        sdp: SpecSessionDescription {
                            attributes: s0.sdp.attributes.push(av),
                            ..s0.sdp
                        },
                        ..s0
                    });
                },
            }
        }
        Ok(st)
    } else if t == 'm' {
        let nm = parse_media(v, ln)?;
        let ghost nv = nm@;
        match st.media.take() {
            Some(old) => {
                push_media(&mut st.sdp, old);
            },
            None => {},
        }
        st.media = Some(nm);
        proof {
            let sd2 = match s0.media {
                Some(old) => SpecSessionDescription {
                    media_descriptions: s0.sdp.media_descriptions.push(old),
                    ..s0.sdp
                },
                None => s0.sdp,
            };
            assert(st@ =~= SpecParseState { sdp: sd2, media: Some(nv), ..s0 });
        }
        Ok(st)
    } else if t == 'y' || t == 'f' {
        let mut nm: Vec<char> = Vec::new();
        nm.push(t);
        let ghost av = SpecAttribute { name: seq![t], value: Some(v@) };
        match st.media.take() {
            Some(m) => {
                let mut m = m;
                let ghost m0 = m@;
                let a = Attribute { name: string_of(&nm), value: Some(string_of(v)) };
                assert(a@ =~= av);
                push_attr(&mut m.attributes, a);
                assert(m@ =~= SpecMediaDescription { attributes: m0.attributes.push(av), ..m0 });
                st.media = Some(m);
            },
            None => {},
        }
        if t == 'y' {
            st.sdp.ssrc = Some(string_of(v));
        } else {
            st.sdp.media_format = Some(string_of(v));
        }
        proof {
            let m2 = match s0.media {
                Some(m) => Some(SpecMediaDescription { attributes: m.attributes.push(av), ..m }),
                None => None,
            };
            let sd2 = if t == 'y' {
                SpecSessionDescription { ssrc: Some(v@), ..s0.sdp }
            } else {
                SpecSessionDescription { media_format: Some(v@), ..s0.sdp }
            };
            assert(st@ =~= SpecParseState { sdp: sd2, media: m2, ..s0 });
        }
        Ok(st)
    } else {
        Ok(st)
    }
}

fn initial_parse_state() -> (st: ParseState)
    ensures
        st@ == initial_state(),
{
    let st = ParseState {
        sdp: SessionDescription {
            version: 0,
            origin: Origin {
                username: String::new(),
                session_id: 0,
                session_version: 0,
                network_type: String::new(),
                address_type: String::new(),
                unicast_address: String::new(),
            },
            session_name: String::new(),
            session_info: None,
            uri: None,
            email: None,
            phone: None,
            connection: None,
            bandwidth: Vec::new(),
            time_descriptions: Vec::new(),
            timezone: None,
            encryption: None,
            attributes: Vec::new(),
            media_descriptions: Vec::new(),
            ssrc: None,
            media_format: None,
        },
        media: None,
        time: None,
    };
    assert(st@ =~= initial_state());
    st
}

/// Once the state machine has failed, later lines do not change the outcome.
proof fn lemma_run_err_persists(lines: Seq<Seq<char>>, k: nat, n: nat)
    requires
        k <= n,
        spec_run(lines, k) is Err,
    ensures
        spec_run(lines, n) == spec_run(lines, k),
    decreases n - k,
{
    if k < n {
        lemma_run_err_persists(lines, k, (n - 1) as nat);
    }
}

fn split_lines(input: &Vec<char>) -> (r: Vec<Vec<char>>)
    ensures
        r.deep_view() == spec_sdp_lines(input@),
{
    let segs = split_vec(input, '\n');
    proof {
        lemma_deep_chars(segs);
    }
    let ghost mapped = split_char(input@, '\n').map_values(|l: Seq<char>| strip_trailing(l, '\r'));
    let mut out: Vec<Vec<char>> = Vec::new();
    let mut i: usize = 0;
    while i < segs.len()
        invariant
            i <= segs@.len(),
            segs.deep_view() == split_char(input@, '\n'),
            segs.deep_view().len() == segs@.len(),
            forall|j: int| 0 <= j < segs@.len() ==> #[trigger] segs@[j]@ == segs.deep_view()[j],
            mapped == split_char(input@, '\n').map_values(|l: Seq<char>| strip_trailing(l, '\r')),
            out.deep_view() == nonempty(mapped.take(i as int)),
        decreases segs@.len() - i,
    {
        let l = strip_trailing_vec(&segs[i], '\r');
        assert(mapped.take(i + 1).drop_last() == mapped.take(i as int));
        assert(mapped.take(i + 1).last() == l@);
        if l.len() > 0 {
            let ghost old_dv = out.deep_view();
            let ghost lv = l.deep_view();
            assert(lv =~= l@);
            out.push(l);
            assert(out.deep_view() =~= old_dv.push(lv));
        }
        i += 1;
    }
    assert(mapped.take(segs@.len() as int) == mapped);
    out
}

/// Parses SDP text.
pub struct SdpParser;

impl SdpParser {
    /// Parses an SDP text whose lines end in `\r\n` or `\n`.
    ///
    /// Fails with `ParseError` on the first malformed line (numbered from 1
    /// among the non-empty lines), and with `MissingField` when the session
    /// name (`s=`) is empty or no `t=` line is present.
    pub fn parse(input: &str) -> (r: SdpResult<SessionDescription>)
        ensures
            match r {
                Ok(sd) => spec_sdp_parse(input@) == Ok::<SpecSessionDescription, SpecSdpError>(
                    sd@,
                ),
                Err(e) => spec_sdp_parse(input@) == Err::<SpecSessionDescription, SpecSdpError>(
                    e@,
                ),
            },
    {
        let chars = chars_of(input);
        let lines = split_lines(&chars);
        proof {
            lemma_deep_chars(lines);
        }
        let ghost ls = lines.deep_view();
        let mut st = initial_parse_state();
        let mut i: usize = 0;
        while i < lines.len()
            invariant
                i <= lines@.len(),
                ls == lines.deep_view(),
                ls == spec_sdp_lines(input@),
                ls.len() == lines@.len(),
                forall|j: int| 0 <= j < lines@.len() ==> #[trigger] lines@[j]@ == ls[j],
                spec_run(ls, i as nat) == Ok::<SpecParseState, SpecSdpError>(st@),
            decreases lines@.len() - i,
        {
            let ln = i + 1;
            assert(lines@[i as int]@ == ls[i as int]);
            match parse_line_type(&lines[i], ln) {
                Err(e) => {
                    proof {
                        assert(spec_run(ls, ln as nat) == Err::<SpecParseState, SpecSdpError>(e@));
                        lemma_run_err_persists(ls, ln as nat, ls.len());
                    }
                    return Err(e);
                },
                Ok((t, v)) => {
                    match apply(st, t, &v, ln) {
                        Err(e) => {
                            proof {
                                assert(spec_run(ls, ln as nat) == Err::<SpecParseState, SpecSdpError>(
                                    e@,
                                ));
                                lemma_run_err_persists(ls, ln as nat, ls.len());
                            }
                            return Err(e);
                        },
                        Ok(s2) => {
                            st = s2;
                        },
                    }
                },
            }
            i += 1;
        }
        let ghost fin = st@;
        let mut sd = st.sdp;
        match st.time {
            Some(td) => {
                push_time(&mut sd, td);
            },
            None => {},
        }
        match st.media {
            Some(m) => {
                push_media(&mut sd, m);
            },
            None => {},
        }
        assert(sd@ =~= spec_finish(fin));
        if sd.session_name.as_str().is_empty() {
            return Err(SdpError::MissingField { field: copy_str("session_name (s=)") });
        }
        if sd.time_descriptions.len() == 0 {
            return Err(SdpError::MissingField { field: copy_str("time_description (t=)") });
        }
        Ok(sd)
    }
}


} // verus!

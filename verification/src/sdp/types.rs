//! SDP data model (RFC 4566 with the GB28181 `y=` and `f=` lines).
//!
//! Every executable type has a view into a spec type made of sequences and
//! integers; contracts of the SDP layer are stated over those views.
use vstd::prelude::*;

use crate::text::{
    copy_str, copy_string, find_in, opt_view, push_str, split_once, string_of, string_of_range,
    vec_eq_str,
};

verus! {

// ---------------------------------------------------------------------------
// Executable types
// ---------------------------------------------------------------------------

/// Origin line (`o=`).
#[derive(Debug, Clone, PartialEq, Eq)]
pub struct Origin {
    pub username: String,
    pub session_id: u64,
    pub session_version: u64,
    pub network_type: String,
    pub address_type: String,
    pub unicast_address: String,
}

/// Connection data (`c=`).
#[derive(Debug, Clone, PartialEq, Eq)]
pub struct Connection {
    pub network_type: String,
    pub address_type: String,
    pub connection_address: String,
    pub ttl: Option<u32>,
    pub number_of_addresses: Option<u32>,
}

/// Bandwidth line (`b=`).
#[derive(Debug, Clone, PartialEq, Eq)]
pub struct Bandwidth {
    pub bandwidth_type: String,
    pub bandwidth: u64,
}

/// Repeat times (`r=`).
#[derive(Debug, Clone, PartialEq, Eq)]
pub struct RepeatTime {
    pub repeat_interval: u64,
    pub active_duration: u64,
    pub offsets: Vec<u64>,
}

/// Time description (`t=` and its `r=` lines).
#[derive(Debug, Clone, PartialEq, Eq)]
pub struct TimeDescription {
    pub start_time: u64,
    pub stop_time: u64,
    pub repeat_times: Vec<RepeatTime>,
}

/// Encryption key (`k=`).
#[derive(Debug, Clone, PartialEq, Eq)]
pub struct Encryption {
    pub method: String,
    pub encryption_key: Option<String>,
}

/// Attribute line (`a=name` or `a=name:value`).
#[derive(Debug, Clone, PartialEq, Eq)]
pub struct Attribute {
    pub name: String,
    pub value: Option<String>,
}

/// Media type of an `m=` line.
#[derive(Debug, Clone, PartialEq, Eq)]
pub enum MediaType {
    Audio,
    Video,
    Text,
    Application,
    Message,
    Other(String),
}

/// Media description (`m=` and the lines that belong to it).
#[derive(Debug, Clone, PartialEq, Eq)]
pub struct MediaDescription {
    pub media: MediaType,
    pub port: u32,
    pub number_of_ports: Option<u32>,
    pub proto: String,
    pub formats: Vec<String>,
    pub title: Option<String>,
    pub connection: Option<Connection>,
    pub bandwidth: Vec<Bandwidth>,
    pub encryption: Option<Encryption>,
    pub attributes: Vec<Attribute>,
}

/// A complete session description.
#[derive(Debug, Clone, PartialEq, Eq)]
pub struct SessionDescription {
    pub version: u32,
    pub origin: Origin,
    pub session_name: String,
    pub session_info: Option<String>,
    pub uri: Option<String>,
    pub email: Option<String>,
    pub phone: Option<String>,
    pub connection: Option<Connection>,
    pub bandwidth: Vec<Bandwidth>,
    pub time_descriptions: Vec<TimeDescription>,
    pub timezone: Option<String>,
    pub encryption: Option<Encryption>,
    pub attributes: Vec<Attribute>,
    pub media_descriptions: Vec<MediaDescription>,
    /// GB28181 `y=` line.
    pub ssrc: Option<String>,
    /// GB28181 `f=` line.
    pub media_format: Option<String>,
}

/// Errors of the SDP parser.
#[derive(Debug, Clone, PartialEq, Eq)]
pub enum SdpError {
    /// A line could not be parsed; `line_no` counts non-empty lines from 1.
    ParseError { line_no: usize, detail: String },
    /// A mandatory line is absent.
    MissingField { field: String },
}

pub type SdpResult<T> = Result<T, SdpError>;

// ---------------------------------------------------------------------------
// Spec model
// ---------------------------------------------------------------------------

#[verifier::ext_equal]
pub struct SpecOrigin {
    pub username: Seq<char>,
    pub session_id: u64,
    pub session_version: u64,
    pub network_type: Seq<char>,
    pub address_type: Seq<char>,
    pub unicast_address: Seq<char>,
}

#[verifier::ext_equal]
pub struct SpecConnection {
    pub network_type: Seq<char>,
    pub address_type: Seq<char>,
    pub connection_address: Seq<char>,
    pub ttl: Option<u32>,
    pub number_of_addresses: Option<u32>,
}

#[verifier::ext_equal]
pub struct SpecBandwidth {
    pub bandwidth_type: Seq<char>,
    pub bandwidth: u64,
}

#[verifier::ext_equal]
pub struct SpecRepeatTime {
    pub repeat_interval: u64,
    pub active_duration: u64,
    pub offsets: Seq<u64>,
}

#[verifier::ext_equal]
pub struct SpecTimeDescription {
    pub start_time: u64,
    pub stop_time: u64,
    pub repeat_times: Seq<SpecRepeatTime>,
}

#[verifier::ext_equal]
pub struct SpecEncryption {
    pub method: Seq<char>,
    pub encryption_key: Option<Seq<char>>,
}

#[verifier::ext_equal]
pub struct SpecAttribute {
    pub name: Seq<char>,
    pub value: Option<Seq<char>>,
}

#[verifier::ext_equal]
pub enum SpecMediaType {
    Audio,
    Video,
    Text,
    Application,
    Message,
    Other(Seq<char>),
}

#[verifier::ext_equal]
pub struct SpecMediaDescription {
    pub media: SpecMediaType,
    pub port: u32,
    pub number_of_ports: Option<u32>,
    pub proto: Seq<char>,
    pub formats: Seq<Seq<char>>,
    pub title: Option<Seq<char>>,
    pub connection: Option<SpecConnection>,
    pub bandwidth: Seq<SpecBandwidth>,
    pub encryption: Option<SpecEncryption>,
    pub attributes: Seq<SpecAttribute>,
}

#[verifier::ext_equal]
pub struct SpecSessionDescription {
    pub version: u32,
    pub origin: SpecOrigin,
    pub session_name: Seq<char>,
    pub session_info: Option<Seq<char>>,
    pub uri: Option<Seq<char>>,
    pub email: Option<Seq<char>>,
    pub phone: Option<Seq<char>>,
    pub connection: Option<SpecConnection>,
    pub bandwidth: Seq<SpecBandwidth>,
    pub time_descriptions: Seq<SpecTimeDescription>,
    pub timezone: Option<Seq<char>>,
    pub encryption: Option<SpecEncryption>,
    pub attributes: Seq<SpecAttribute>,
    pub media_descriptions: Seq<SpecMediaDescription>,
    pub ssrc: Option<Seq<char>>,
    pub media_format: Option<Seq<char>>,
}

#[verifier::ext_equal]
pub enum SpecSdpError {
    ParseError { line_no: usize, detail: Seq<char> },
    MissingField { field: Seq<char> },
}

// ---------------------------------------------------------------------------
// Views
// ---------------------------------------------------------------------------

impl View for Origin {
    type V = SpecOrigin;

    open spec fn view(&self) -> SpecOrigin {
        SpecOrigin {
            username: self.username@,
            session_id: self.session_id,
            session_version: self.session_version,
            network_type: self.network_type@,
            address_type: self.address_type@,
            unicast_address: self.unicast_address@,
        }
    }
}

impl View for Connection {
    type V = SpecConnection;

    open spec fn view(&self) -> SpecConnection {
        SpecConnection {
            network_type: self.network_type@,
            address_type: self.address_type@,
            connection_address: self.connection_address@,
            ttl: self.ttl,
            number_of_addresses: self.number_of_addresses,
        }
    }
}

impl View for Bandwidth {
    type V = SpecBandwidth;

    open spec fn view(&self) -> SpecBandwidth {
        SpecBandwidth { bandwidth_type: self.bandwidth_type@, bandwidth: self.bandwidth }
    }
}

impl View for RepeatTime {
    type V = SpecRepeatTime;

    open spec fn view(&self) -> SpecRepeatTime {
        SpecRepeatTime {
            repeat_interval: self.repeat_interval,
            active_duration: self.active_duration,
            offsets: self.offsets@,
        }
    }
}

impl View for TimeDescription {
    type V = SpecTimeDescription;

    open spec fn view(&self) -> SpecTimeDescription {
        SpecTimeDescription {
            start_time: self.start_time,
            stop_time: self.stop_time,
            repeat_times: self.repeat_times@.map_values(|r: RepeatTime| r@),
        }
    }
}

impl View for Encryption {
    type V = SpecEncryption;

    open spec fn view(&self) -> SpecEncryption {
        SpecEncryption { method: self.method@, encryption_key: opt_view(self.encryption_key) }
    }
}

impl View for Attribute {
    type V = SpecAttribute;

    open spec fn view(&self) -> SpecAttribute {
        SpecAttribute { name: self.name@, value: opt_view(self.value) }
    }
}

impl View for MediaType {
    type V = SpecMediaType;

    open spec fn view(&self) -> SpecMediaType {
        match self {
            MediaType::Audio => SpecMediaType::Audio,
            MediaType::Video => SpecMediaType::Video,
            MediaType::Text => SpecMediaType::Text,
            MediaType::Application => SpecMediaType::Application,
            MediaType::Message => SpecMediaType::Message,
            MediaType::Other(s) => SpecMediaType::Other(s@),
        }
    }
}

pub open spec fn opt_conn_view(c: Option<Connection>) -> Option<SpecConnection> {
    match c {
        Some(x) => Some(x@),
        None => None,
    }
}

pub open spec fn opt_enc_view(e: Option<Encryption>) -> Option<SpecEncryption> {
    match e {
        Some(x) => Some(x@),
        None => None,
    }
}

pub open spec fn strings_view(v: Seq<String>) -> Seq<Seq<char>> {
    v.map_values(|s: String| s@)
}

pub open spec fn bandwidths_view(v: Seq<Bandwidth>) -> Seq<SpecBandwidth> {
    v.map_values(|b: Bandwidth| b@)
}

pub open spec fn attributes_view(v: Seq<Attribute>) -> Seq<SpecAttribute> {
    v.map_values(|a: Attribute| a@)
}

impl View for MediaDescription {
    type V = SpecMediaDescription;

    open spec fn view(&self) -> SpecMediaDescription {
        SpecMediaDescription {
            media: self.media@,
            port: self.port,
            number_of_ports: self.number_of_ports,
            proto: self.proto@,
            formats: strings_view(self.formats@),
            title: opt_view(self.title),
            connection: opt_conn_view(self.connection),
            bandwidth: bandwidths_view(self.bandwidth@),
            encryption: opt_enc_view(self.encryption),
            attributes: attributes_view(self.attributes@),
        }
    }
}

impl View for SessionDescription {
    type V = SpecSessionDescription;

    open spec fn view(&self) -> SpecSessionDescription {
        SpecSessionDescription {
            version: self.version,
            origin: self.origin@,
            session_name: self.session_name@,
            session_info: opt_view(self.session_info),
            uri: opt_view(self.uri),
            email: opt_view(self.email),
            phone: opt_view(self.phone),
            connection: opt_conn_view(self.connection),
            bandwidth: bandwidths_view(self.bandwidth@),
            time_descriptions: self.time_descriptions@.map_values(|t: TimeDescription| t@),
            timezone: opt_view(self.timezone),
            encryption: opt_enc_view(self.encryption),
            attributes: attributes_view(self.attributes@),
            media_descriptions: self.media_descriptions@.map_values(|m: MediaDescription| m@),
            ssrc: opt_view(self.ssrc),
            media_format: opt_view(self.media_format),
        }
    }
}

impl View for SdpError {
    type V = SpecSdpError;

    open spec fn view(&self) -> SpecSdpError {
        match self {
            SdpError::ParseError { line_no, detail } => SpecSdpError::ParseError {
                line_no: *line_no,
                detail: detail@,
            },
            SdpError::MissingField { field } => SpecSdpError::MissingField { field: field@ },
        }
    }
}

// ---------------------------------------------------------------------------
// Attribute and media type helpers
// ---------------------------------------------------------------------------

/// Spec of `Attribute::parse`: the text before the first `:` is the name,
/// the text after it the value; without `:` the whole text is the name.
pub open spec fn spec_parse_attribute(v: Seq<char>) -> SpecAttribute {
    match split_once(v, ':') {
        Some((n, val)) => SpecAttribute { name: n, value: Some(val) },
        None => SpecAttribute { name: v, value: None },
    }
}

/// Text of an attribute after `a=`.
pub open spec fn spec_attribute_text(a: SpecAttribute) -> Seq<char> {
    match a.value {
        Some(v) => a.name + ":"@ + v,
        None => a.name,
    }
}

/// Spec of parsing an `m=` media token.
pub open spec fn spec_media_type(s: Seq<char>) -> SpecMediaType {
    if s == "audio"@ {
        SpecMediaType::Audio
    } else if s == "video"@ {
        SpecMediaType::Video
    } else if s == "text"@ {
        SpecMediaType::Text
    } else if s == "application"@ {
        SpecMediaType::Application
    } else if s == "message"@ {
        SpecMediaType::Message
    } else {
        SpecMediaType::Other(s)
    }
}

/// Spec of the media type's name in an `m=` line.
pub open spec fn spec_media_type_name(m: SpecMediaType) -> Seq<char> {
    match m {
        SpecMediaType::Audio => "audio"@,
        SpecMediaType::Video => "video"@,
        SpecMediaType::Text => "text"@,
        SpecMediaType::Application => "application"@,
        SpecMediaType::Message => "message"@,
        SpecMediaType::Other(s) => s,
    }
}

impl Attribute {
    /// Creates an attribute with a value.
    pub fn new(name: &str, value: &str) -> (a: Attribute)
        ensures
            a@ == (SpecAttribute { name: name@, value: Some(value@) }),
    {
        Attribute { name: copy_str(name), value: Some(copy_str(value)) }
    }

    /// Parses the text after `a=`.
    pub fn parse(value: &Vec<char>) -> (a: Attribute)
        ensures
            a@ == spec_parse_attribute(value@),
    {
        let len = value.len();
        match find_in(value, ':') {
            Some(i) => {
                assert(i < len);
                let name = string_of_range(value, 0, i);
                let val = string_of_range(value, i + 1, len);
                assert(value@.take(i as int) == value@.subrange(0, i as int));
                assert(value@.skip(i + 1) == value@.subrange(i + 1, value@.len() as int));
                Attribute { name, value: Some(val) }
            },
            None => Attribute { name: string_of(value), value: None },
        }
    }

    /// Text of the attribute after `a=`.
    pub fn to_attribute_value(&self) -> (s: String)
        ensures
            s@ == spec_attribute_text(self@),
    {
        let mut s = copy_string(&self.name);
        match &self.value {
            Some(v) => {
                push_str(&mut s, ":");
                push_str(&mut s, v.as_str());
            },
            None => {},
        }
        s
    }
}

impl MediaType {
    /// Media type named by an `m=` token.
    pub fn from_token(s: &Vec<char>) -> (m: MediaType)
        ensures
            m@ == spec_media_type(s@),
    {
        if vec_eq_str(s, "audio") {
            MediaType::Audio
        } else if vec_eq_str(s, "video") {
            MediaType::Video
        } else if vec_eq_str(s, "text") {
            MediaType::Text
        } else if vec_eq_str(s, "application") {
            MediaType::Application
        } else if vec_eq_str(s, "message") {
            MediaType::Message
        } else {
            MediaType::Other(string_of(s))
        }
    }

    /// Name of the media type as written in an `m=` line.
    pub fn name(&self) -> (s: String)
        ensures
            s@ == spec_media_type_name(self@),
    {
        match self {
            MediaType::Audio => copy_str("audio"),
            MediaType::Video => copy_str("video"),
            MediaType::Text => copy_str("text"),
            MediaType::Application => copy_str("application"),
            MediaType::Message => copy_str("message"),
            MediaType::Other(s) => copy_string(s),
        }
    }
}

} // verus!

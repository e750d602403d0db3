//! Errors of the SIP message layer.
use vstd::prelude::*;

verus! {

/// Why a piece of SIP text could not be read.
#[derive(Debug, Clone, PartialEq, Eq)]
pub enum ParseError {
    /// A SIP URI, or a part of one, is malformed.
    InvalidUri { detail: String },
    /// A request or status line is malformed.
    InvalidStartLine { detail: String },
    /// The SIP version is not `SIP/2.0`.
    InvalidVersion { version: String },
    /// The status code is no number (then `code` is 0) or lies outside
    /// 100..=699.
    InvalidStatusCode { code: u16 },
    /// The value of header `name` is malformed.
    InvalidHeader { name: String, detail: String },
    /// The message has `size` bytes, more than the limit `max`.
    MessageTooLarge { size: usize, max: usize },
}

/// What a `ParseError` carries.
pub enum SpecParseError {
    InvalidUri { detail: Seq<char> },
    InvalidStartLine { detail: Seq<char> },
    InvalidVersion { version: Seq<char> },
    InvalidStatusCode { code: u16 },
    InvalidHeader { name: Seq<char>, detail: Seq<char> },
    MessageTooLarge { size: usize, max: usize },
}

impl View for ParseError {
    type V = SpecParseError;

    open spec fn view(&self) -> SpecParseError {
        match self {
            ParseError::InvalidUri { detail } => SpecParseError::InvalidUri { detail: detail@ },
            ParseError::InvalidStartLine { detail } => SpecParseError::InvalidStartLine {
                detail: detail@,
            },
            ParseError::InvalidVersion { version } => SpecParseError::InvalidVersion {
                version: version@,
            },
            ParseError::InvalidStatusCode { code } => SpecParseError::InvalidStatusCode {
                code: *code,
            },
            ParseError::InvalidHeader { name, detail } => SpecParseError::InvalidHeader {
                name: name@,
                detail: detail@,
            },
            ParseError::MessageTooLarge { size, max } => SpecParseError::MessageTooLarge {
                size: *size,
                max: *max,
            },
        }
    }
}

} // verus!

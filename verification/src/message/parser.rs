//! Framing of SIP messages: the start line, the header block and the body
//! are separated at line breaks and at the first empty line.
use vstd::prelude::*;

use crate::message::error::{ParseError, SpecParseError};
use crate::message::headers::{header_kind, unfold, unfold_headers, HeaderName};
use crate::text::{
    chars_of, copy_str, find_char, find_in, find_seq, find_seq_in, lemma_deep_chars, parse_uint,
    parse_uint_vec, push_str, split_char, split_once, split_vec, starts_with, string_of,
    string_of_range, sub_vec, trim, trim_vec, utf8_len, utf8_offset, vec_eq_str,
    vec_starts_with,
};

verus! {

/// Largest message `MessageParser::default_parser` accepts, in bytes (64 KiB).
pub const DEFAULT_MAX_MESSAGE_SIZE: usize = 65536;

/// Parser of SIP messages with a limit on their size.
pub struct MessageParser {
    max_message_size: usize,
}

impl View for MessageParser {
    type V = usize;

    closed spec fn view(&self) -> usize {
        self.max_message_size
    }
}

impl MessageParser {
    /// A parser that refuses messages longer than `max_message_size` bytes.
    pub fn new(max_message_size: usize) -> (p: MessageParser)
        ensures
            p@ == max_message_size,
    {
        MessageParser { max_message_size }
    }

    /// A parser with the default limit of 64 KiB.
    pub fn default_parser() -> (p: MessageParser)
        ensures
            p@ == DEFAULT_MAX_MESSAGE_SIZE,
    {
        MessageParser::new(DEFAULT_MAX_MESSAGE_SIZE)
    }
}

impl Default for MessageParser {
    fn default() -> (p: MessageParser)
        ensures
            p@ == DEFAULT_MAX_MESSAGE_SIZE,
    {
        MessageParser::default_parser()
    }
}

// ---------------------------------------------------------------------------
// Line and block boundaries
// ---------------------------------------------------------------------------

/// Character index of the first line break: the first `\r\n`, else the
/// first `\n`.
pub open spec fn line_break_index(s: Seq<char>) -> Option<nat> {
    match find_seq(s, "\r\n"@) {
        Some(i) => Some(i),
        None => find_char(s, '\n'),
    }
}

/// Character index of the empty line ending the headers: the first
/// `\r\n\r\n`, else the first `\n\n`.
pub open spec fn blank_line_index(s: Seq<char>) -> Option<nat> {
    match find_seq(s, "\r\n\r\n"@) {
        Some(i) => Some(i),
        None => find_seq(s, "\n\n"@),
    }
}

/// Byte offset, in UTF-8, of the first line break.
pub open spec fn spec_find_crlf(s: Seq<char>) -> Option<nat> {
    match line_break_index(s) {
        Some(i) => Some(utf8_len(s.take(i as int))),
        None => None,
    }
}

/// Byte offset, in UTF-8, of the empty line ending the headers.
pub open spec fn spec_find_header_end(s: Seq<char>) -> Option<nat> {
    match blank_line_index(s) {
        Some(i) => Some(utf8_len(s.take(i as int))),
        None => None,
    }
}

fn line_break_in(v: &Vec<char>) -> (r: Option<usize>)
    ensures
        match r {
            Some(i) => line_break_index(v@) == Some(i as nat) && i < v@.len(),
            None => line_break_index(v@) is None,
        },
{
    proof {
        reveal_strlit("\r\n");
    }
    match find_seq_in(v, "\r\n") {
        Some(i) => Some(i),
        None => find_in(v, '\n'),
    }
}

fn blank_line_in(v: &Vec<char>) -> (r: Option<usize>)
    ensures
        match r {
            Some(i) => blank_line_index(v@) == Some(i as nat) && i < v@.len(),
            None => blank_line_index(v@) is None,
        },
{
    proof {
        reveal_strlit("\r\n\r\n");
        reveal_strlit("\n\n");
    }
    match find_seq_in(v, "\r\n\r\n") {
        Some(i) => Some(i),
        None => find_seq_in(v, "\n\n"),
    }
}

/// Byte offset of the first line break (`\r\n`, else `\n`).
pub fn find_crlf(text: &str) -> (r: Option<usize>)
    requires
        utf8_len(text@) <= usize::MAX,
    ensures
        match r {
            Some(n) => spec_find_crlf(text@) == Some(n as nat),
            None => spec_find_crlf(text@) is None,
        },
{
    let v = chars_of(text);
    match line_break_in(&v) {
        Some(i) => Some(utf8_offset(&v, i)),
        None => None,
    }
}

/// Byte offset of the empty line ending the headers (`\r\n\r\n`, else `\n\n`).
pub fn find_header_end(text: &str) -> (r: Option<usize>)
    requires
        utf8_len(text@) <= usize::MAX,
    ensures
        match r {
            Some(n) => spec_find_header_end(text@) == Some(n as nat),
            None => spec_find_header_end(text@) is None,
        },
{
    let v = chars_of(text);
    match blank_line_in(&v) {
        Some(i) => Some(utf8_offset(&v, i)),
        None => None,
    }
}

// ---------------------------------------------------------------------------
// Framing a message in a stream
// ---------------------------------------------------------------------------

/// The name and value of a header line: the line trimmed, cut at its first
/// `:`, each side trimmed; `None` for an empty line or one without `:`.
pub open spec fn header_line_parts(l: Seq<char>) -> Option<(Seq<char>, Seq<char>)> {
    let t = trim(l);
    if t.len() == 0 {
        None
    } else {
        match split_once(t, ':') {
            Some((n, v)) => Some((trim(n), trim(v))),
            None => None,
        }
    }
}

/// The value of the first Content-Length header among the lines `ls`.
pub open spec fn first_content_length(ls: Seq<Seq<char>>) -> Option<Seq<char>>
    decreases ls.len(),
{
    if ls.len() == 0 {
        None
    } else {
        match header_line_parts(ls[0]) {
            Some((n, v)) => if header_kind(n) == Some(HeaderName::ContentLength) {
                Some(v)
            } else {
                first_content_length(ls.drop_first())
            },
            None => first_content_length(ls.drop_first()),
        }
    }
}

/// The body length a header block announces: the value of its first
/// Content-Length header (after unfolding continuation lines) read as a
/// `usize`; 0 when there is none or it is no number.
pub open spec fn announced_length(headers: Seq<char>) -> nat {
    match first_content_length(split_char(unfold(headers), '\n')) {
        Some(v) => match parse_uint(trim(v), usize::MAX as nat) {
            Some(n) => n,
            None => 0,
        },
        None => 0,
    }
}

/// The header block of a message at the front of `s` whose start line
/// ends at character `i` and whose header block ends at character `j`: it
/// starts two characters after the line break's start, and is empty when
/// the empty line comes sooner.
pub open spec fn header_block(s: Seq<char>, i: nat, j: nat) -> Seq<char> {
    if i + 2 <= j {
        s.subrange(i + 2int, j as int)
    } else {
        Seq::empty()
    }
}

/// Bytes of a message at the front of `s` whose start line ends at
/// character `i` and header block at character `j`: up to the header
/// block's end, four bytes more, and the announced body length.
pub open spec fn framed_length(s: Seq<char>, i: nat, j: nat) -> nat {
    utf8_len(s.take(j as int)) + 4 + announced_length(header_block(s, i, j))
}

/// Whether the length of a framed message fits in a `usize`.
pub open spec fn frame_fits(s: Seq<char>) -> bool {
    match (line_break_index(s), blank_line_index(s)) {
        (Some(i), Some(j)) => framed_length(s, i, j) <= usize::MAX,
        _ => true,
    }
}

/// Meaning of `MessageParser::frame`: a text of more than `max` bytes is
/// too large; without a line break or without an empty line, or with fewer
/// bytes than the headers announce, the message is not complete yet
/// (`None`); otherwise the message takes the first `framed_length` bytes.
pub open spec fn spec_frame(max: usize, s: Seq<char>) -> Result<Option<nat>, SpecParseError> {
    if utf8_len(s) > max {
        Err(SpecParseError::MessageTooLarge { size: utf8_len(s) as usize, max })
    } else {
        match (line_break_index(s), blank_line_index(s)) {
            (Some(i), Some(j)) => if utf8_len(s) < framed_length(s, i, j) {
                Ok(None)
            } else {
                Ok(Some(framed_length(s, i, j)))
            },
            _ => Ok(None),
        }
    }
}

/// The value of the first Content-Length header among `ls`; see
/// `first_content_length`.
fn first_content_length_in(ls: &Vec<Vec<char>>) -> (r: Option<Vec<char>>)
    ensures
        match first_content_length(ls.deep_view()) {
            Some(v) => r matches Some(x) && x@ == v,
            None => r is None,
        },
{
    let ghost all = ls.deep_view();
    let mut k: usize = 0;
    assert(all.skip(0) =~= all);
    while k < ls.len()
        invariant
            k <= ls@.len(),
            all == ls.deep_view(),
            first_content_length(all) == first_content_length(all.skip(k as int)),
        decreases ls@.len() - k,
    {
        let ghost rest = all.skip(k as int);
        assert(rest[0] == all[k as int]);
        assert(rest.drop_first() == all.skip(k + 1));
        assert(all[k as int] == ls@[k as int]@);
        let t = trim_vec(&ls[k]);
        if t.len() > 0 {
            match find_in(&t, ':') {
                Some(c) => {
                    let n = trim_vec(&sub_vec(&t, 0, c));
                    let v = trim_vec(&sub_vec(&t, c + 1, t.len()));
                    assert(t@.subrange(0, c as int) == t@.take(c as int));
                    assert(t@.subrange(c + 1, t@.len() as int) == t@.skip(c + 1));
                    let name = string_of(&n);
                    let h = HeaderName::from_str_case_insensitive(name.as_str());
                    match h {
                        HeaderName::ContentLength => {
                            return Some(v);
                        },
                        _ => {},
                    }
                },
                None => {},
            }
        }
        k += 1;
    }
    assert(all.skip(k as int).len() == 0);
    None
}

/// The body length that `headers` announce; see `announced_length`.
fn announced_length_of(headers: &Vec<char>) -> (n: usize)
    ensures
        n as nat == announced_length(headers@),
{
    let text = string_of(headers);
    let unfolded = unfold_headers(text.as_str());
    let u = chars_of(unfolded.as_str());
    let lines = split_vec(&u, '\n');
    proof {
        lemma_deep_chars(lines);
    }
    match first_content_length_in(&lines) {
        Some(v) => {
            let t = trim_vec(&v);
            match parse_uint_vec(&t, usize::MAX as u64) {
                Some(n) => n as usize,
                None => 0,
            }
        },
        None => 0,
    }
}

impl MessageParser {
    /// Finds where the first message of a stream of text ends: refuses a
    /// text longer than the limit (`MessageTooLarge`), answers `None` while
    /// the start line, the empty line after the headers or the announced
    /// body is missing, and otherwise the number of bytes the message
    /// takes; see `spec_frame`.
    pub fn frame(&self, text: &str) -> (r: Result<Option<usize>, ParseError>)
        requires
            utf8_len(text@) <= usize::MAX,
            utf8_len(text@) <= self@ ==> frame_fits(text@),
        ensures
            match spec_frame(self@, text@) {
                Ok(Some(n)) => r == Ok::<Option<usize>, ParseError>(Some(n as usize)),
                Ok(None) => r == Ok::<Option<usize>, ParseError>(None),
                Err(e) => r matches Err(x) && x@ == e,
            },
    {
        let v = chars_of(text);
        let size = utf8_offset(&v, v.len());
        assert(v@.take(v@.len() as int) == v@);
        if size > self.max_message_size {
            return Err(ParseError::MessageTooLarge { size, max: self.max_message_size });
        }
        let i = match line_break_in(&v) {
            Some(i) => i,
            None => {
                return Ok(None);
            },
        };
        let j = match blank_line_in(&v) {
            Some(j) => j,
            None => {
                return Ok(None);
            },
        };
        let headers = if i <= j && j - i >= 2 {
            sub_vec(&v, i + 2, j)
        } else {
            Vec::new()
        };
        assert(headers@ == header_block(v@, i as nat, j as nat));
        let body = announced_length_of(&headers);
        let head = utf8_offset(&v, j);
        let total = head + 4 + body;
        if size < total {
            Ok(None)
        } else {
            Ok(Some(total))
        }
    }
}

/// The start line and the rest: cut at the first line break, the rest
/// starting two characters after the break's start (nothing is left when
/// that is past the end); no break leaves the whole text as the line.
pub open spec fn spec_split_first_line(s: Seq<char>) -> (Seq<char>, Seq<char>) {
    match line_break_index(s) {
        Some(i) => (
            s.take(i as int),
            if i + 2 <= s.len() {
                s.skip(i as int + 2)
            } else {
                Seq::empty()
            },
        ),
        None => (s, Seq::empty()),
    }
}

/// Splits off the start line.
pub fn split_first_line(text: &str) -> (r: (String, String))
    ensures
        r.0@ == spec_split_first_line(text@).0,
        r.1@ == spec_split_first_line(text@).1,
{
    let v = chars_of(text);
    let n = v.len();
    proof {
        reveal_strlit("\r\n");
    }
    match line_break_in(&v) {
        Some(i) => {
            if find_seq_in(&v, "\r\n").is_none() {
                assert(find_char(v@, '\n') == Some(i as nat));
            }
            let line = string_of_range(&v, 0, i);
            assert(v@.subrange(0, i as int) == v@.take(i as int));
            if n - i >= 2 {
                let rest = string_of_range(&v, i + 2, n);
                assert(v@.subrange(i + 2, v@.len() as int) == v@.skip(i + 2));
                (line, rest)
            } else {
                (line, String::new())
            }
        },
        None => (string_of(&v), String::new()),
    }
}

/// Headers and body: cut at the first empty line (`\r\n\r\n`, else
/// `\n\n`); without one, everything is headers.
pub open spec fn spec_split_headers_body(s: Seq<char>) -> (Seq<char>, Seq<char>) {
    match find_seq(s, "\r\n\r\n"@) {
        Some(i) => (s.take(i as int), s.skip(i as int + 4)),
        None => match find_seq(s, "\n\n"@) {
            Some(i) => (s.take(i as int), s.skip(i as int + 2)),
            None => (s, Seq::empty()),
        },
    }
}

/// Splits the text after the start line into headers and body.
pub fn split_headers_body(text: &str) -> (r: (String, String))
    ensures
        r.0@ == spec_split_headers_body(text@).0,
        r.1@ == spec_split_headers_body(text@).1,
{
    let v = chars_of(text);
    let n = v.len();
    proof {
        reveal_strlit("\r\n\r\n");
        reveal_strlit("\n\n");
    }
    match find_seq_in(&v, "\r\n\r\n") {
        Some(i) => {
            let h = string_of_range(&v, 0, i);
            let b = string_of_range(&v, i + 4, n);
            assert(v@.subrange(0, i as int) == v@.take(i as int));
            assert(v@.subrange(i + 4, v@.len() as int) == v@.skip(i + 4));
            (h, b)
        },
        None => match find_seq_in(&v, "\n\n") {
            Some(i) => {
                let h = string_of_range(&v, 0, i);
                let b = string_of_range(&v, i + 2, n);
                assert(v@.subrange(0, i as int) == v@.take(i as int));
                assert(v@.subrange(i + 2, v@.len() as int) == v@.skip(i + 2));
                (h, b)
            },
            None => (string_of(&v), String::new()),
        },
    }
}

/// Whether a start line is a status line: trimmed, it begins with `SIP/`.
pub fn is_status_line(line: &str) -> (b: bool)
    ensures
        b == starts_with(trim(line@), "SIP/"@),
{
    let v = chars_of(line);
    let t = trim_vec(&v);
    vec_starts_with(&t, "SIP/")
}


// ---------------------------------------------------------------------------
// Status line
// ---------------------------------------------------------------------------

/// `SIP/2.0 code reason`.
#[derive(Debug, Clone, PartialEq, Eq)]
pub struct StatusLine {
    pub status_code: u16,
    pub reason_phrase: String,
}

/// `str::splitn(3, ' ')` of `l`: the text before the first space, the
/// text between the first and the second, and the rest after the second
/// (the last two when there are such spaces).
pub open spec fn split3(l: Seq<char>) -> (Seq<char>, Option<Seq<char>>, Option<Seq<char>>) {
    match find_char(l, ' ') {
        None => (l, None, None),
        Some(i) => {
            let after = l.skip(i + 1int);
            match find_char(after, ' ') {
                Some(j) => (l.take(i as int), Some(after.take(j as int)), Some(after.skip(j + 1int))),
                None => (l.take(i as int), Some(after), None),
            }
        },
    }
}

/// Reading of a status line, after trimming: the version must be
/// `SIP/2.0`, the code a number in 100..=699 (0 is reported for one that
/// is no number), the reason phrase is the trimmed rest.
pub open spec fn spec_parse_status_line(line: Seq<char>) -> Result<(u16, Seq<char>), SpecParseError> {
    let l = trim(line);
    let (v, code, reason) = split3(l);
    match code {
        None => Err(SpecParseError::InvalidStartLine { detail: "invalid status line format: "@ + l }),
        Some(cs) => if trim(v) != "SIP/2.0"@ {
            Err(SpecParseError::InvalidVersion { version: trim(v) })
        } else {
            match parse_uint(trim(cs), 65535) {
                None => Err(SpecParseError::InvalidStatusCode { code: 0 }),
                Some(n) => if n < 100 || n > 699 {
                    Err(SpecParseError::InvalidStatusCode { code: n as u16 })
                } else {
                    Ok(
                        (
                            n as u16,
                            match reason {
                                Some(r) => trim(r),
                                None => Seq::empty(),
                            },
                        ),
                    )
                },
            }
        },
    }
}

/// Reads a status line such as `SIP/2.0 200 OK`; see `spec_parse_status_line`.
pub fn parse_status_line(line: &str) -> (r: Result<StatusLine, ParseError>)
    ensures
        match spec_parse_status_line(line@) {
            Ok((code, reason)) => r matches Ok(sl) && sl.status_code == code && sl.reason_phrase@
                == reason,
            Err(e) => r matches Err(x) && x@ == e,
        },
{
    let v = chars_of(line);
    let l = trim_vec(&v);
    let n = l.len();
    let i = match find_in(&l, ' ') {
        Some(i) => i,
        None => {
            let mut detail = copy_str("invalid status line format: ");
            let ls = string_of(&l);
            push_str(&mut detail, ls.as_str());
            return Err(ParseError::InvalidStartLine { detail });
        },
    };
    let after = sub_vec(&l, i + 1, n);
    assert(after@ == l@.skip(i + 1));
    let first = sub_vec(&l, 0, i);
    assert(first@ == l@.take(i as int));
    let (code_v, reason_v) = match find_in(&after, ' ') {
        Some(j) => {
            let c = sub_vec(&after, 0, j);
            let r = sub_vec(&after, j + 1, after.len());
            assert(c@ == after@.take(j as int));
            assert(r@ == after@.skip(j + 1));
            (c, Some(r))
        },
        None => (after, None),
    };
    let version = trim_vec(&first);
    if !vec_eq_str(&version, "SIP/2.0") {
        return Err(ParseError::InvalidVersion { version: string_of(&version) });
    }
    let code_t = trim_vec(&code_v);
    let code = match parse_uint_vec(&code_t, 65535) {
        Some(c) => c,
        None => {
            return Err(ParseError::InvalidStatusCode { code: 0 });
        },
    };
    if code < 100 || code > 699 {
        return Err(ParseError::InvalidStatusCode { code: code as u16 });
    }
    let reason_phrase = match reason_v {
        Some(r) => {
            let t = trim_vec(&r);
            string_of(&t)
        },
        None => String::new(),
    };
    Ok(StatusLine { status_code: code as u16, reason_phrase })
}

} // verus!

//! SIP header names, the unfolding of continuation lines, and the reading
//! of header values.
use vstd::prelude::*;

use crate::message::error::{ParseError, SpecParseError};
use crate::message::name_addr::{
    spec_parse_contact, spec_parse_from_to, ContactHeader, FromToHeader, SpecContact, SpecFromTo,
};
use crate::text::{
    ascii_lower, chars_of, copy_str, copy_string, eq_ascii_ci, lowercase_is, lowers_to, parse_uint,
    parse_uint_vec, push_char, push_str, string_of, trim, trim_vec, vec_eq, vec_lowercase_is,
};

verus! {

/// SIP header name: the headers of RFC 3261 and common extensions, with
/// any other name kept as it was written.
#[derive(Debug, Clone, PartialEq, Eq, Hash)]
pub enum HeaderName {
    Via,
    From,
    To,
    CallId,
    CSeq,
    Contact,
    MaxForwards,
    ContentType,
    ContentLength,
    Route,
    RecordRoute,
    Expires,
    Allow,
    Supported,
    Require,
    Authorization,
    ProxyAuthorization,
    WwwAuthenticate,
    ProxyAuthenticate,
    Date,
    MinExpires,
    Subject,
    UserAgent,
    Server,
    Reason,
    Warning,
    Extension(String),
}

/// The known header that `s` names, after `to_lowercase`, including the
/// compact forms `i`, `m`, `c`, `l`, `k` and `s`.
pub open spec fn header_kind(s: Seq<char>) -> Option<HeaderName> {
    if lowercase_is(s, "via"@) {
        Some(HeaderName::Via)
    } else if lowercase_is(s, "from"@) {
        Some(HeaderName::From)
    } else if lowercase_is(s, "to"@) {
        Some(HeaderName::To)
    } else if lowercase_is(s, "call-id"@) || lowercase_is(s, "i"@) {
        Some(HeaderName::CallId)
    } else if lowercase_is(s, "cseq"@) {
        Some(HeaderName::CSeq)
    } else if lowercase_is(s, "contact"@) || lowercase_is(s, "m"@) {
        Some(HeaderName::Contact)
    } else if lowercase_is(s, "max-forwards"@) {
        Some(HeaderName::MaxForwards)
    } else if lowercase_is(s, "content-type"@) || lowercase_is(s, "c"@) {
        Some(HeaderName::ContentType)
    } else if lowercase_is(s, "content-length"@) || lowercase_is(s, "l"@) {
        Some(HeaderName::ContentLength)
    } else if lowercase_is(s, "route"@) {
        Some(HeaderName::Route)
    } else if lowercase_is(s, "record-route"@) {
        Some(HeaderName::RecordRoute)
    } else if lowercase_is(s, "expires"@) {
        Some(HeaderName::Expires)
    } else if lowercase_is(s, "allow"@) {
        Some(HeaderName::Allow)
    } else if lowercase_is(s, "supported"@) || lowercase_is(s, "k"@) {
        Some(HeaderName::Supported)
    } else if lowercase_is(s, "require"@) {
        Some(HeaderName::Require)
    } else if lowercase_is(s, "authorization"@) {
        Some(HeaderName::Authorization)
    } else if lowercase_is(s, "proxy-authorization"@) {
        Some(HeaderName::ProxyAuthorization)
    } else if lowercase_is(s, "www-authenticate"@) {
        Some(HeaderName::WwwAuthenticate)
    } else if lowercase_is(s, "proxy-authenticate"@) {
        Some(HeaderName::ProxyAuthenticate)
    } else if lowercase_is(s, "date"@) {
        Some(HeaderName::Date)
    } else if lowercase_is(s, "min-expires"@) {
        Some(HeaderName::MinExpires)
    } else if lowercase_is(s, "subject"@) || lowercase_is(s, "s"@) {
        Some(HeaderName::Subject)
    } else if lowercase_is(s, "user-agent"@) {
        Some(HeaderName::UserAgent)
    } else if lowercase_is(s, "server"@) {
        Some(HeaderName::Server)
    } else if lowercase_is(s, "reason"@) {
        Some(HeaderName::Reason)
    } else if lowercase_is(s, "warning"@) {
        Some(HeaderName::Warning)
    } else {
        None
    }
}

/// The canonical spelling of a header name.
pub open spec fn header_text(h: HeaderName) -> Seq<char> {
    match h {
        HeaderName::Via => "Via"@,
        HeaderName::From => "From"@,
        HeaderName::To => "To"@,
        HeaderName::CallId => "Call-ID"@,
        HeaderName::CSeq => "CSeq"@,
        HeaderName::Contact => "Contact"@,
        HeaderName::MaxForwards => "Max-Forwards"@,
        HeaderName::ContentType => "Content-Type"@,
        HeaderName::ContentLength => "Content-Length"@,
        HeaderName::Route => "Route"@,
        HeaderName::RecordRoute => "Record-Route"@,
        HeaderName::Expires => "Expires"@,
        HeaderName::Allow => "Allow"@,
        HeaderName::Supported => "Supported"@,
        HeaderName::Require => "Require"@,
        HeaderName::Authorization => "Authorization"@,
        HeaderName::ProxyAuthorization => "Proxy-Authorization"@,
        HeaderName::WwwAuthenticate => "WWW-Authenticate"@,
        HeaderName::ProxyAuthenticate => "Proxy-Authenticate"@,
        HeaderName::Date => "Date"@,
        HeaderName::MinExpires => "Min-Expires"@,
        HeaderName::Subject => "Subject"@,
        HeaderName::UserAgent => "User-Agent"@,
        HeaderName::Server => "Server"@,
        HeaderName::Reason => "Reason"@,
        HeaderName::Warning => "Warning"@,
        HeaderName::Extension(n) => n@,
    }
}

impl HeaderName {
    /// The header that `s` names, ignoring case; any other name becomes an
    /// extension header spelled as given.
    pub fn from_str_case_insensitive(s: &str) -> (h: HeaderName)
        ensures
            match header_kind(s@) {
                Some(k) => h == k,
                None => h matches HeaderName::Extension(n) && n@ == s@,
            },
    {
        let v = chars_of(s);
        if vec_lowercase_is(&v, "via") {
            HeaderName::Via
        } else if vec_lowercase_is(&v, "from") {
            HeaderName::From
        } else if vec_lowercase_is(&v, "to") {
            HeaderName::To
        } else if vec_lowercase_is(&v, "call-id") || vec_lowercase_is(&v, "i") {
            HeaderName::CallId
        } else if vec_lowercase_is(&v, "cseq") {
            HeaderName::CSeq
        } else if vec_lowercase_is(&v, "contact") || vec_lowercase_is(&v, "m") {
            HeaderName::Contact
        } else if vec_lowercase_is(&v, "max-forwards") {
            HeaderName::MaxForwards
        } else if vec_lowercase_is(&v, "content-type") || vec_lowercase_is(&v, "c") {
            HeaderName::ContentType
        } else if vec_lowercase_is(&v, "content-length") || vec_lowercase_is(&v, "l") {
            HeaderName::ContentLength
        } else if vec_lowercase_is(&v, "route") {
            HeaderName::Route
        } else if vec_lowercase_is(&v, "record-route") {
            HeaderName::RecordRoute
        } else if vec_lowercase_is(&v, "expires") {
            HeaderName::Expires
        } else if vec_lowercase_is(&v, "allow") {
            HeaderName::Allow
        } else if vec_lowercase_is(&v, "supported") || vec_lowercase_is(&v, "k") {
            HeaderName::Supported
        } else if vec_lowercase_is(&v, "require") {
            HeaderName::Require
        } else if vec_lowercase_is(&v, "authorization") {
            HeaderName::Authorization
        } else if vec_lowercase_is(&v, "proxy-authorization") {
            HeaderName::ProxyAuthorization
        } else if vec_lowercase_is(&v, "www-authenticate") {
            HeaderName::WwwAuthenticate
        } else if vec_lowercase_is(&v, "proxy-authenticate") {
            HeaderName::ProxyAuthenticate
        } else if vec_lowercase_is(&v, "date") {
            HeaderName::Date
        } else if vec_lowercase_is(&v, "min-expires") {
            HeaderName::MinExpires
        } else if vec_lowercase_is(&v, "subject") || vec_lowercase_is(&v, "s") {
            HeaderName::Subject
        } else if vec_lowercase_is(&v, "user-agent") {
            HeaderName::UserAgent
        } else if vec_lowercase_is(&v, "server") {
            HeaderName::Server
        } else if vec_lowercase_is(&v, "reason") {
            HeaderName::Reason
        } else if vec_lowercase_is(&v, "warning") {
            HeaderName::Warning
        } else {
            HeaderName::Extension(copy_str(s))
        }
    }

    /// The header name as written in a message.
    pub fn to_string(&self) -> (s: String)
        ensures
            s@ == header_text(*self),
    {
        match self {
            HeaderName::Via => copy_str("Via"),
            HeaderName::From => copy_str("From"),
            HeaderName::To => copy_str("To"),
            HeaderName::CallId => copy_str("Call-ID"),
            HeaderName::CSeq => copy_str("CSeq"),
            HeaderName::Contact => copy_str("Contact"),
            HeaderName::MaxForwards => copy_str("Max-Forwards"),
            HeaderName::ContentType => copy_str("Content-Type"),
            HeaderName::ContentLength => copy_str("Content-Length"),
            HeaderName::Route => copy_str("Route"),
            HeaderName::RecordRoute => copy_str("Record-Route"),
            HeaderName::Expires => copy_str("Expires"),
            HeaderName::Allow => copy_str("Allow"),
            HeaderName::Supported => copy_str("Supported"),
            HeaderName::Require => copy_str("Require"),
            HeaderName::Authorization => copy_str("Authorization"),
            HeaderName::ProxyAuthorization => copy_str("Proxy-Authorization"),
            HeaderName::WwwAuthenticate => copy_str("WWW-Authenticate"),
            HeaderName::ProxyAuthenticate => copy_str("Proxy-Authenticate"),
            HeaderName::Date => copy_str("Date"),
            HeaderName::MinExpires => copy_str("Min-Expires"),
            HeaderName::Subject => copy_str("Subject"),
            HeaderName::UserAgent => copy_str("User-Agent"),
            HeaderName::Server => copy_str("Server"),
            HeaderName::Reason => copy_str("Reason"),
            HeaderName::Warning => copy_str("Warning"),
            HeaderName::Extension(n) => crate::text::copy_string(n),
        }
    }
}

/// A header line that could not be read; its raw value is kept.
#[derive(Debug, Clone)]
pub struct ParseWarning {
    pub name: String,
    pub detail: String,
    pub raw_value: String,
}

// ---------------------------------------------------------------------------
// Line folding
// ---------------------------------------------------------------------------

pub open spec fn is_blank(c: char) -> bool {
    c == ' ' || c == '\t'
}

/// `s` without its leading spaces and tabs.
pub open spec fn skip_blanks(s: Seq<char>) -> Seq<char>
    decreases s.len(),
{
    if s.len() > 0 && is_blank(s[0]) {
        skip_blanks(s.drop_first())
    } else {
        s
    }
}

pub proof fn lemma_skip_blanks_len(s: Seq<char>)
    ensures
        skip_blanks(s).len() <= s.len(),
        skip_blanks(s).len() == 0 || !is_blank(skip_blanks(s)[0]),
    decreases s.len(),
{
    if s.len() > 0 && is_blank(s[0]) {
        lemma_skip_blanks_len(s.drop_first());
    }
}

/// Header text with folded lines joined: a line break (`\r\n` or a lone
/// `\n`) followed by spaces or tabs becomes one space; other `\r\n` and
/// `\n` are kept.
pub open spec fn unfold(s: Seq<char>) -> Seq<char>
    decreases s.len(),
{
    if s.len() == 0 {
        Seq::empty()
    } else if s[0] == '\r' && s.len() > 1 && s[1] == '\n' {
        let rest = s.skip(2);
        if rest.len() > 0 && is_blank(rest[0]) {
            proof {
                lemma_skip_blanks_len(rest);
            }
            seq![' '] + unfold(skip_blanks(rest))
        } else {
            "\r\n"@ + unfold(rest)
        }
    } else if s[0] == '\n' {
        let rest = s.skip(1);
        if rest.len() > 0 && is_blank(rest[0]) {
            proof {
                lemma_skip_blanks_len(rest);
            }
            seq![' '] + unfold(skip_blanks(rest))
        } else {
            seq!['\n'] + unfold(rest)
        }
    } else {
        seq![s[0]] + unfold(s.skip(1))
    }
}

/// Index of the first character at or after `i` that is not a space or tab.
fn skip_blanks_from(v: &Vec<char>, i: usize) -> (j: usize)
    requires
        i <= v@.len(),
    ensures
        i <= j <= v@.len(),
        v@.skip(j as int) == skip_blanks(v@.skip(i as int)),
{
    let mut j = i;
    while j < v.len() && (v[j] == ' ' || v[j] == '\t')
        invariant
            i <= j <= v@.len(),
            skip_blanks(v@.skip(j as int)) == skip_blanks(v@.skip(i as int)),
        decreases v@.len() - j,
    {
        assert(v@.skip(j as int).drop_first() == v@.skip(j + 1));
        j += 1;
    }
    j
}

/// Joins folded header lines (RFC 3261 section 7.3.1).
pub fn unfold_headers(text: &str) -> (r: String)
    ensures
        r@ == unfold(text@),
{
    let v = chars_of(text);
    let mut out = String::new();
    let mut i: usize = 0;
    assert(v@.skip(0) == v@);
    while i < v.len()
        invariant
            i <= v@.len(),
            v@ == text@,
            out@ + unfold(v@.skip(i as int)) == unfold(text@),
        decreases v@.len() - i,
    {
        let ghost rest = v@.skip(i as int);
        let ghost o = out@;
        let c = v[i];
        assert(rest[0] == c);
        if c == '\r' && i + 1 < v.len() && v[i + 1] == '\n' {
            assert(rest[1] == '\n');
            assert(rest.skip(2) == v@.skip(i + 2));
            if i + 2 < v.len() && (v[i + 2] == ' ' || v[i + 2] == '\t') {
                let j = skip_blanks_from(&v, i + 2);
                push_char(&mut out, ' ');
                assert(out@ + unfold(v@.skip(j as int)) =~= o + unfold(rest));
                i = j;
            } else {
                push_str(&mut out, "\r\n");
                assert(out@ + unfold(v@.skip(i + 2)) =~= o + unfold(rest));
                i = i + 2;
            }
        } else if c == '\n' {
            assert(rest.skip(1) == v@.skip(i + 1));
            if i + 1 < v.len() && (v[i + 1] == ' ' || v[i + 1] == '\t') {
                let j = skip_blanks_from(&v, i + 1);
                push_char(&mut out, ' ');
                assert(out@ + unfold(v@.skip(j as int)) =~= o + unfold(rest));
                i = j;
            } else {
                push_char(&mut out, '\n');
                assert(out@ + unfold(v@.skip(i + 1)) =~= o + unfold(rest));
                i = i + 1;
            }
        } else {
            assert(rest.skip(1) == v@.skip(i + 1));
            push_char(&mut out, c);
            assert(out@ + unfold(v@.skip(i + 1)) =~= o + unfold(rest));
            i = i + 1;
        }
    }
    assert(v@.skip(i as int).len() == 0);
    assert(out@ =~= out@ + unfold(v@.skip(i as int)));
    out
}

/// The ASCII lower-case form of `s`.
pub open spec fn ascii_lower_seq(s: Seq<char>) -> Seq<char> {
    Seq::new(s.len(), |i: int| ascii_lower(s[i]))
}

/// Whether every character of `s` is ASCII.
pub open spec fn all_ascii(s: Seq<char>) -> bool {
    forall|i: int| 0 <= i < s.len() ==> (#[trigger] s[i] as u32) < 128
}

proof fn lemma_lowers_to_ascii(c: char, k: char)
    requires
        (c as u32) < 128,
    ensures
        lowers_to(c, k) ==> ascii_lower(k) == ascii_lower(c),
        k == ascii_lower(c) ==> lowers_to(c, k),
{
}

/// A text equal to `t` up to ASCII case lower-cases to a keyword exactly
/// when `t` does.
proof fn lemma_case_variant(s: Seq<char>, t: Seq<char>)
    requires
        eq_ascii_ci(s, t),
        all_ascii(t),
    ensures
        forall|kw: Seq<char>| #[trigger] lowercase_is(s, kw) ==> ascii_lower_seq(kw) == ascii_lower_seq(t),
        lowercase_is(s, ascii_lower_seq(t)),
{
    assert forall|i: int| 0 <= i < s.len() implies (#[trigger] s[i] as u32) < 128 by {
        assert(ascii_lower(s[i]) == ascii_lower(t[i]));
        assert((t[i] as u32) < 128);
    }
    assert forall|kw: Seq<char>| #[trigger] lowercase_is(s, kw) implies ascii_lower_seq(kw)
        == ascii_lower_seq(t) by {
        assert forall|i: int| 0 <= i < kw.len() implies ascii_lower_seq(kw)[i] == ascii_lower_seq(t)[i] by {
            lemma_lowers_to_ascii(s[i], kw[i]);
            assert(ascii_lower(s[i]) == ascii_lower(t[i]));
        }
        assert(ascii_lower_seq(kw) =~= ascii_lower_seq(t));
    }
    assert forall|i: int| 0 <= i < s.len() implies lowers_to(#[trigger] s[i], ascii_lower_seq(t)[i]) by {
        lemma_lowers_to_ascii(s[i], ascii_lower_seq(t)[i]);
        assert(ascii_lower(s[i]) == ascii_lower(t[i]));
    }
}

/// Every spelling of a known header name that differs from the canonical
/// one only in ASCII case names that header: `via`, `VIA` and `Via` all
/// name Via, `call-id` names Call-ID.
#[verifier::spinoff_prover]
#[verifier::rlimit(100)]
pub proof fn law_header_name_any_case(h: HeaderName, s: Seq<char>)
    requires
        !(h is Extension),
        eq_ascii_ci(s, header_text(h)),
    ensures
        header_kind(s) == Some(h),
{
    let t = header_text(h);
    match h {
        HeaderName::Via => {
            reveal_strlit("Via");
            reveal_strlit("via");
            assert(ascii_lower_seq("Via"@) =~= "via"@);
        },
        HeaderName::From => {
            reveal_strlit("From");
            reveal_strlit("from");
            assert(ascii_lower_seq("From"@) =~= "from"@);
            reveal_strlit("via");
            assert(ascii_lower_seq("via"@) =~= "via"@);
            assert("via"@ != "from"@);
        },
        HeaderName::To => {
            reveal_strlit("To");
            reveal_strlit("to");
            assert(ascii_lower_seq("To"@) =~= "to"@);
            reveal_strlit("via");
            assert(ascii_lower_seq("via"@) =~= "via"@);
            assert("via"@ != "to"@);
            reveal_strlit("from");
            assert(ascii_lower_seq("from"@) =~= "from"@);
            assert("from"@ != "to"@);
        },
        HeaderName::CallId => {
            reveal_strlit("Call-ID");
            reveal_strlit("call-id");
            assert(ascii_lower_seq("Call-ID"@) =~= "call-id"@);
            reveal_strlit("via");
            assert(ascii_lower_seq("via"@) =~= "via"@);
            assert("via"@ != "call-id"@);
            reveal_strlit("from");
            assert(ascii_lower_seq("from"@) =~= "from"@);
            assert("from"@ != "call-id"@);
            reveal_strlit("to");
            assert(ascii_lower_seq("to"@) =~= "to"@);
            assert("to"@ != "call-id"@);
        },
        HeaderName::CSeq => {
            reveal_strlit("CSeq");
            reveal_strlit("cseq");
            assert(ascii_lower_seq("CSeq"@) =~= "cseq"@);
            reveal_strlit("via");
            assert(ascii_lower_seq("via"@) =~= "via"@);
            assert("via"@ != "cseq"@);
            reveal_strlit("from");
            assert(ascii_lower_seq("from"@) =~= "from"@);
            assert("from"@[0] != "cseq"@[0]);
            reveal_strlit("to");
            assert(ascii_lower_seq("to"@) =~= "to"@);
            assert("to"@ != "cseq"@);
            reveal_strlit("call-id");
            assert(ascii_lower_seq("call-id"@) =~= "call-id"@);
            assert("call-id"@ != "cseq"@);
            reveal_strlit("i");
            assert(ascii_lower_seq("i"@) =~= "i"@);
            assert("i"@ != "cseq"@);
        },
        HeaderName::Contact => {
            reveal_strlit("Contact");
            reveal_strlit("contact");
            assert(ascii_lower_seq("Contact"@) =~= "contact"@);
            reveal_strlit("via");
            assert(ascii_lower_seq("via"@) =~= "via"@);
            assert("via"@ != "contact"@);
            reveal_strlit("from");
            assert(ascii_lower_seq("from"@) =~= "from"@);
            assert("from"@ != "contact"@);
            reveal_strlit("to");
            assert(ascii_lower_seq("to"@) =~= "to"@);
            assert("to"@ != "contact"@);
            reveal_strlit("call-id");
            assert(ascii_lower_seq("call-id"@) =~= "call-id"@);
            assert("call-id"@[1] != "contact"@[1]);
            reveal_strlit("i");
            assert(ascii_lower_seq("i"@) =~= "i"@);
            assert("i"@ != "contact"@);
            reveal_strlit("cseq");
            assert(ascii_lower_seq("cseq"@) =~= "cseq"@);
            assert("cseq"@ != "contact"@);
        },
        HeaderName::MaxForwards => {
            reveal_strlit("Max-Forwards");
            reveal_strlit("max-forwards");
            assert(ascii_lower_seq("Max-Forwards"@) =~= "max-forwards"@);
            reveal_strlit("via");
            assert(ascii_lower_seq("via"@) =~= "via"@);
            assert("via"@ != "max-forwards"@);
            reveal_strlit("from");
            assert(ascii_lower_seq("from"@) =~= "from"@);
            assert("from"@ != "max-forwards"@);
            reveal_strlit("to");
            assert(ascii_lower_seq("to"@) =~= "to"@);
            assert("to"@ != "max-forwards"@);
            reveal_strlit("call-id");
            assert(ascii_lower_seq("call-id"@) =~= "call-id"@);
            assert("call-id"@ != "max-forwards"@);
            reveal_strlit("i");
            assert(ascii_lower_seq("i"@) =~= "i"@);
            assert("i"@ != "max-forwards"@);
            reveal_strlit("cseq");
            assert(ascii_lower_seq("cseq"@) =~= "cseq"@);
            assert("cseq"@ != "max-forwards"@);
            reveal_strlit("contact");
            assert(ascii_lower_seq("contact"@) =~= "contact"@);
            assert("contact"@ != "max-forwards"@);
            reveal_strlit("m");
            assert(ascii_lower_seq("m"@) =~= "m"@);
            assert("m"@ != "max-forwards"@);
        },
        HeaderName::ContentType => {
            reveal_strlit("Content-Type");
            reveal_strlit("content-type");
            assert(ascii_lower_seq("Content-Type"@) =~= "content-type"@);
            reveal_strlit("via");
            assert(ascii_lower_seq("via"@) =~= "via"@);
            assert("via"@ != "content-type"@);
            reveal_strlit("from");
            assert(ascii_lower_seq("from"@) =~= "from"@);
            assert("from"@ != "content-type"@);
            reveal_strlit("to");
            assert(ascii_lower_seq("to"@) =~= "to"@);
            assert("to"@ != "content-type"@);
            reveal_strlit("call-id");
            assert(ascii_lower_seq("call-id"@) =~= "call-id"@);
            assert("call-id"@ != "content-type"@);
            reveal_strlit("i");
            assert(ascii_lower_seq("i"@) =~= "i"@);
            assert("i"@ != "content-type"@);
            reveal_strlit("cseq");
            assert(ascii_lower_seq("cseq"@) =~= "cseq"@);
            assert("cseq"@ != "content-type"@);
            reveal_strlit("contact");
            assert(ascii_lower_seq("contact"@) =~= "contact"@);
            assert("contact"@ != "content-type"@);
            reveal_strlit("m");
            assert(ascii_lower_seq("m"@) =~= "m"@);
            assert("m"@ != "content-type"@);
            reveal_strlit("max-forwards");
            assert(ascii_lower_seq("max-forwards"@) =~= "max-forwards"@);
            assert("max-forwards"@[0] != "content-type"@[0]);
        },
        HeaderName::ContentLength => {
            reveal_strlit("Content-Length");
            reveal_strlit("content-length");
            assert(ascii_lower_seq("Content-Length"@) =~= "content-length"@);
            reveal_strlit("via");
            assert(ascii_lower_seq("via"@) =~= "via"@);
            assert("via"@ != "content-length"@);
            reveal_strlit("from");
            assert(ascii_lower_seq("from"@) =~= "from"@);
            assert("from"@ != "content-length"@);
            reveal_strlit("to");
            assert(ascii_lower_seq("to"@) =~= "to"@);
            assert("to"@ != "content-length"@);
            reveal_strlit("call-id");
            assert(ascii_lower_seq("call-id"@) =~= "call-id"@);
            assert("call-id"@ != "content-length"@);
            reveal_strlit("i");
            assert(ascii_lower_seq("i"@) =~= "i"@);
            assert("i"@ != "content-length"@);
            reveal_strlit("cseq");
            assert(ascii_lower_seq("cseq"@) =~= "cseq"@);
            assert("cseq"@ != "content-length"@);
            reveal_strlit("contact");
            assert(ascii_lower_seq("contact"@) =~= "contact"@);
            assert("contact"@ != "content-length"@);
            reveal_strlit("m");
            assert(ascii_lower_seq("m"@) =~= "m"@);
            assert("m"@ != "content-length"@);
            reveal_strlit("max-forwards");
            assert(ascii_lower_seq("max-forwards"@) =~= "max-forwards"@);
            assert("max-forwards"@ != "content-length"@);
            reveal_strlit("content-type");
            assert(ascii_lower_seq("content-type"@) =~= "content-type"@);
            assert("content-type"@ != "content-length"@);
            reveal_strlit("c");
            assert(ascii_lower_seq("c"@) =~= "c"@);
            assert("c"@ != "content-length"@);
        },
        HeaderName::Route => {
            reveal_strlit("Route");
            reveal_strlit("route");
            assert(ascii_lower_seq("Route"@) =~= "route"@);
            reveal_strlit("via");
            assert(ascii_lower_seq("via"@) =~= "via"@);
            assert("via"@ != "route"@);
            reveal_strlit("from");
            assert(ascii_lower_seq("from"@) =~= "from"@);
            assert("from"@ != "route"@);
            reveal_strlit("to");
            assert(ascii_lower_seq("to"@) =~= "to"@);
            assert("to"@ != "route"@);
            reveal_strlit("call-id");
            assert(ascii_lower_seq("call-id"@) =~= "call-id"@);
            assert("call-id"@ != "route"@);
            reveal_strlit("i");
            assert(ascii_lower_seq("i"@) =~= "i"@);
            assert("i"@ != "route"@);
            reveal_strlit("cseq");
            assert(ascii_lower_seq("cseq"@) =~= "cseq"@);
            assert("cseq"@ != "route"@);
            reveal_strlit("contact");
            assert(ascii_lower_seq("contact"@) =~= "contact"@);
            assert("contact"@ != "route"@);
            reveal_strlit("m");
            assert(ascii_lower_seq("m"@) =~= "m"@);
            assert("m"@ != "route"@);
            reveal_strlit("max-forwards");
            assert(ascii_lower_seq("max-forwards"@) =~= "max-forwards"@);
            assert("max-forwards"@ != "route"@);
            reveal_strlit("content-type");
            assert(ascii_lower_seq("content-type"@) =~= "content-type"@);
            assert("content-type"@ != "route"@);
            reveal_strlit("c");
            assert(ascii_lower_seq("c"@) =~= "c"@);
            assert("c"@ != "route"@);
            reveal_strlit("content-length");
            assert(ascii_lower_seq("content-length"@) =~= "content-length"@);
            assert("content-length"@ != "route"@);
            reveal_strlit("l");
            assert(ascii_lower_seq("l"@) =~= "l"@);
            assert("l"@ != "route"@);
        },
        HeaderName::RecordRoute => {
            reveal_strlit("Record-Route");
            reveal_strlit("record-route");
            assert(ascii_lower_seq("Record-Route"@) =~= "record-route"@);
            reveal_strlit("via");
            assert(ascii_lower_seq("via"@) =~= "via"@);
            assert("via"@ != "record-route"@);
            reveal_strlit("from");
            assert(ascii_lower_seq("from"@) =~= "from"@);
            assert("from"@ != "record-route"@);
            reveal_strlit("to");
            assert(ascii_lower_seq("to"@) =~= "to"@);
            assert("to"@ != "record-route"@);
            reveal_strlit("call-id");
            assert(ascii_lower_seq("call-id"@) =~= "call-id"@);
            assert("call-id"@ != "record-route"@);
            reveal_strlit("i");
            assert(ascii_lower_seq("i"@) =~= "i"@);
            assert("i"@ != "record-route"@);
            reveal_strlit("cseq");
            assert(ascii_lower_seq("cseq"@) =~= "cseq"@);
            assert("cseq"@ != "record-route"@);
            reveal_strlit("contact");
            assert(ascii_lower_seq("contact"@) =~= "contact"@);
            assert("contact"@ != "record-route"@);
            reveal_strlit("m");
            assert(ascii_lower_seq("m"@) =~= "m"@);
            assert("m"@ != "record-route"@);
            reveal_strlit("max-forwards");
            assert(ascii_lower_seq("max-forwards"@) =~= "max-forwards"@);
            assert("max-forwards"@[0] != "record-route"@[0]);
            reveal_strlit("content-type");
            assert(ascii_lower_seq("content-type"@) =~= "content-type"@);
            assert("content-type"@[0] != "record-route"@[0]);
            reveal_strlit("c");
            assert(ascii_lower_seq("c"@) =~= "c"@);
            assert("c"@ != "record-route"@);
            reveal_strlit("content-length");
            assert(ascii_lower_seq("content-length"@) =~= "content-length"@);
            assert("content-length"@ != "record-route"@);
            reveal_strlit("l");
            assert(ascii_lower_seq("l"@) =~= "l"@);
            assert("l"@ != "record-route"@);
            reveal_strlit("route");
            assert(ascii_lower_seq("route"@) =~= "route"@);
            assert("route"@ != "record-route"@);
        },
        HeaderName::Expires => {
            reveal_strlit("Expires");
            reveal_strlit("expires");
            assert(ascii_lower_seq("Expires"@) =~= "expires"@);
            reveal_strlit("via");
            assert(ascii_lower_seq("via"@) =~= "via"@);
            assert("via"@ != "expires"@);
            reveal_strlit("from");
            assert(ascii_lower_seq("from"@) =~= "from"@);
            assert("from"@ != "expires"@);
            reveal_strlit("to");
            assert(ascii_lower_seq("to"@) =~= "to"@);
            assert("to"@ != "expires"@);
            reveal_strlit("call-id");
            assert(ascii_lower_seq("call-id"@) =~= "call-id"@);
            assert("call-id"@[0] != "expires"@[0]);
            reveal_strlit("i");
            assert(ascii_lower_seq("i"@) =~= "i"@);
            assert("i"@ != "expires"@);
            reveal_strlit("cseq");
            assert(ascii_lower_seq("cseq"@) =~= "cseq"@);
            assert("cseq"@ != "expires"@);
            reveal_strlit("contact");
            assert(ascii_lower_seq("contact"@) =~= "contact"@);
            assert("contact"@[0] != "expires"@[0]);
            reveal_strlit("m");
            assert(ascii_lower_seq("m"@) =~= "m"@);
            assert("m"@ != "expires"@);
            reveal_strlit("max-forwards");
            assert(ascii_lower_seq("max-forwards"@) =~= "max-forwards"@);
            assert("max-forwards"@ != "expires"@);
            reveal_strlit("content-type");
            assert(ascii_lower_seq("content-type"@) =~= "content-type"@);
            assert("content-type"@ != "expires"@);
            reveal_strlit("c");
            assert(ascii_lower_seq("c"@) =~= "c"@);
            assert("c"@ != "expires"@);
            reveal_strlit("content-length");
            assert(ascii_lower_seq("content-length"@) =~= "content-length"@);
            assert("content-length"@ != "expires"@);
            reveal_strlit("l");
            assert(ascii_lower_seq("l"@) =~= "l"@);
            assert("l"@ != "expires"@);
            reveal_strlit("route");
            assert(ascii_lower_seq("route"@) =~= "route"@);
            assert("route"@ != "expires"@);
            reveal_strlit("record-route");
            assert(ascii_lower_seq("record-route"@) =~= "record-route"@);
            assert("record-route"@ != "expires"@);
        },
        HeaderName::Allow => {
            reveal_strlit("Allow");
            reveal_strlit("allow");
            assert(ascii_lower_seq("Allow"@) =~= "allow"@);
            reveal_strlit("via");
            assert(ascii_lower_seq("via"@) =~= "via"@);
            assert("via"@ != "allow"@);
            reveal_strlit("from");
            assert(ascii_lower_seq("from"@) =~= "from"@);
            assert("from"@ != "allow"@);
            reveal_strlit("to");
            assert(ascii_lower_seq("to"@) =~= "to"@);
            assert("to"@ != "allow"@);
            reveal_strlit("call-id");
            assert(ascii_lower_seq("call-id"@) =~= "call-id"@);
            assert("call-id"@ != "allow"@);
            reveal_strlit("i");
            assert(ascii_lower_seq("i"@) =~= "i"@);
            assert("i"@ != "allow"@);
            reveal_strlit("cseq");
            assert(ascii_lower_seq("cseq"@) =~= "cseq"@);
            assert("cseq"@ != "allow"@);
            reveal_strlit("contact");
            assert(ascii_lower_seq("contact"@) =~= "contact"@);
            assert("contact"@ != "allow"@);
            reveal_strlit("m");
            assert(ascii_lower_seq("m"@) =~= "m"@);
            assert("m"@ != "allow"@);
            reveal_strlit("max-forwards");
            assert(ascii_lower_seq("max-forwards"@) =~= "max-forwards"@);
            assert("max-forwards"@ != "allow"@);
            reveal_strlit("content-type");
            assert(ascii_lower_seq("content-type"@) =~= "content-type"@);
            assert("content-type"@ != "allow"@);
            reveal_strlit("c");
            assert(ascii_lower_seq("c"@) =~= "c"@);
            assert("c"@ != "allow"@);
            reveal_strlit("content-length");
            assert(ascii_lower_seq("content-length"@) =~= "content-length"@);
            assert("content-length"@ != "allow"@);
            reveal_strlit("l");
            assert(ascii_lower_seq("l"@) =~= "l"@);
            assert("l"@ != "allow"@);
            reveal_strlit("route");
            assert(ascii_lower_seq("route"@) =~= "route"@);
            assert("route"@[0] != "allow"@[0]);
            reveal_strlit("record-route");
            assert(ascii_lower_seq("record-route"@) =~= "record-route"@);
            assert("record-route"@ != "allow"@);
            reveal_strlit("expires");
            assert(ascii_lower_seq("expires"@) =~= "expires"@);
            assert("expires"@ != "allow"@);
        },
        HeaderName::Supported => {
            reveal_strlit("Supported");
            reveal_strlit("supported");
            assert(ascii_lower_seq("Supported"@) =~= "supported"@);
            reveal_strlit("via");
            assert(ascii_lower_seq("via"@) =~= "via"@);
            assert("via"@ != "supported"@);
            reveal_strlit("from");
            assert(ascii_lower_seq("from"@) =~= "from"@);
            assert("from"@ != "supported"@);
            reveal_strlit("to");
            assert(ascii_lower_seq("to"@) =~= "to"@);
            assert("to"@ != "supported"@);
            reveal_strlit("call-id");
            assert(ascii_lower_seq("call-id"@) =~= "call-id"@);
            assert("call-id"@ != "supported"@);
            reveal_strlit("i");
            assert(ascii_lower_seq("i"@) =~= "i"@);
            assert("i"@ != "supported"@);
            reveal_strlit("cseq");
            assert(ascii_lower_seq("cseq"@) =~= "cseq"@);
            assert("cseq"@ != "supported"@);
            reveal_strlit("contact");
            assert(ascii_lower_seq("contact"@) =~= "contact"@);
            assert("contact"@ != "supported"@);
            reveal_strlit("m");
            assert(ascii_lower_seq("m"@) =~= "m"@);
            assert("m"@ != "supported"@);
            reveal_strlit("max-forwards");
            assert(ascii_lower_seq("max-forwards"@) =~= "max-forwards"@);
            assert("max-forwards"@ != "supported"@);
            reveal_strlit("content-type");
            assert(ascii_lower_seq("content-type"@) =~= "content-type"@);
            assert("content-type"@ != "supported"@);
            reveal_strlit("c");
            assert(ascii_lower_seq("c"@) =~= "c"@);
            assert("c"@ != "supported"@);
            reveal_strlit("content-length");
            assert(ascii_lower_seq("content-length"@) =~= "content-length"@);
            assert("content-length"@ != "supported"@);
            reveal_strlit("l");
            assert(ascii_lower_seq("l"@) =~= "l"@);
            assert("l"@ != "supported"@);
            reveal_strlit("route");
            assert(ascii_lower_seq("route"@) =~= "route"@);
            assert("route"@ != "supported"@);
            reveal_strlit("record-route");
            assert(ascii_lower_seq("record-route"@) =~= "record-route"@);
            assert("record-route"@ != "supported"@);
            reveal_strlit("expires");
            assert(ascii_lower_seq("expires"@) =~= "expires"@);
            assert("expires"@ != "supported"@);
            reveal_strlit("allow");
            assert(ascii_lower_seq("allow"@) =~= "allow"@);
            assert("allow"@ != "supported"@);
        },
        HeaderName::Require => {
            reveal_strlit("Require");
            reveal_strlit("require");
            assert(ascii_lower_seq("Require"@) =~= "require"@);
            reveal_strlit("via");
            assert(ascii_lower_seq("via"@) =~= "via"@);
            assert("via"@ != "require"@);
            reveal_strlit("from");
            assert(ascii_lower_seq("from"@) =~= "from"@);
            assert("from"@ != "require"@);
            reveal_strlit("to");
            assert(ascii_lower_seq("to"@) =~= "to"@);
            assert("to"@ != "require"@);
            reveal_strlit("call-id");
            assert(ascii_lower_seq("call-id"@) =~= "call-id"@);
            assert("call-id"@[0] != "require"@[0]);
            reveal_strlit("i");
            assert(ascii_lower_seq("i"@) =~= "i"@);
            assert("i"@ != "require"@);
            reveal_strlit("cseq");
            assert(ascii_lower_seq("cseq"@) =~= "cseq"@);
            assert("cseq"@ != "require"@);
            reveal_strlit("contact");
            assert(ascii_lower_seq("contact"@) =~= "contact"@);
            assert("contact"@[0] != "require"@[0]);
            reveal_strlit("m");
            assert(ascii_lower_seq("m"@) =~= "m"@);
            assert("m"@ != "require"@);
            reveal_strlit("max-forwards");
            assert(ascii_lower_seq("max-forwards"@) =~= "max-forwards"@);
            assert("max-forwards"@ != "require"@);
            reveal_strlit("content-type");
            assert(ascii_lower_seq("content-type"@) =~= "content-type"@);
            assert("content-type"@ != "require"@);
            reveal_strlit("c");
            assert(ascii_lower_seq("c"@) =~= "c"@);
            assert("c"@ != "require"@);
            reveal_strlit("content-length");
            assert(ascii_lower_seq("content-length"@) =~= "content-length"@);
            assert("content-length"@ != "require"@);
            reveal_strlit("l");
            assert(ascii_lower_seq("l"@) =~= "l"@);
            assert("l"@ != "require"@);
            reveal_strlit("route");
            assert(ascii_lower_seq("route"@) =~= "route"@);
            assert("route"@ != "require"@);
            reveal_strlit("record-route");
            assert(ascii_lower_seq("record-route"@) =~= "record-route"@);
            assert("record-route"@ != "require"@);
            reveal_strlit("expires");
            assert(ascii_lower_seq("expires"@) =~= "expires"@);
            assert("expires"@[0] != "require"@[0]);
            reveal_strlit("allow");
            assert(ascii_lower_seq("allow"@) =~= "allow"@);
            assert("allow"@ != "require"@);
            reveal_strlit("supported");
            assert(ascii_lower_seq("supported"@) =~= "supported"@);
            assert("supported"@ != "require"@);
            reveal_strlit("k");
            assert(ascii_lower_seq("k"@) =~= "k"@);
            assert("k"@ != "require"@);
        },
        HeaderName::Authorization => {
            reveal_strlit("Authorization");
            reveal_strlit("authorization");
            assert(ascii_lower_seq("Authorization"@) =~= "authorization"@);
            reveal_strlit("via");
            assert(ascii_lower_seq("via"@) =~= "via"@);
            assert("via"@ != "authorization"@);
            reveal_strlit("from");
            assert(ascii_lower_seq("from"@) =~= "from"@);
            assert("from"@ != "authorization"@);
            reveal_strlit("to");
            assert(ascii_lower_seq("to"@) =~= "to"@);
            assert("to"@ != "authorization"@);
            reveal_strlit("call-id");
            assert(ascii_lower_seq("call-id"@) =~= "call-id"@);
            assert("call-id"@ != "authorization"@);
            reveal_strlit("i");
            assert(ascii_lower_seq("i"@) =~= "i"@);
            assert("i"@ != "authorization"@);
            reveal_strlit("cseq");
            assert(ascii_lower_seq("cseq"@) =~= "cseq"@);
            assert("cseq"@ != "authorization"@);
            reveal_strlit("contact");
            assert(ascii_lower_seq("contact"@) =~= "contact"@);
            assert("contact"@ != "authorization"@);
            reveal_strlit("m");
            assert(ascii_lower_seq("m"@) =~= "m"@);
            assert("m"@ != "authorization"@);
            reveal_strlit("max-forwards");
            assert(ascii_lower_seq("max-forwards"@) =~= "max-forwards"@);
            assert("max-forwards"@ != "authorization"@);
            reveal_strlit("content-type");
            assert(ascii_lower_seq("content-type"@) =~= "content-type"@);
            assert("content-type"@ != "authorization"@);
            reveal_strlit("c");
            assert(ascii_lower_seq("c"@) =~= "c"@);
            assert("c"@ != "authorization"@);
            reveal_strlit("content-length");
            assert(ascii_lower_seq("content-length"@) =~= "content-length"@);
            assert("content-length"@ != "authorization"@);
            reveal_strlit("l");
            assert(ascii_lower_seq("l"@) =~= "l"@);
            assert("l"@ != "authorization"@);
            reveal_strlit("route");
            assert(ascii_lower_seq("route"@) =~= "route"@);
            assert("route"@ != "authorization"@);
            reveal_strlit("record-route");
            assert(ascii_lower_seq("record-route"@) =~= "record-route"@);
            assert("record-route"@ != "authorization"@);
            reveal_strlit("expires");
            assert(ascii_lower_seq("expires"@) =~= "expires"@);
            assert("expires"@ != "authorization"@);
            reveal_strlit("allow");
            assert(ascii_lower_seq("allow"@) =~= "allow"@);
            assert("allow"@ != "authorization"@);
            reveal_strlit("supported");
            assert(ascii_lower_seq("supported"@) =~= "supported"@);
            assert("supported"@ != "authorization"@);
            reveal_strlit("k");
            assert(ascii_lower_seq("k"@) =~= "k"@);
            assert("k"@ != "authorization"@);
            reveal_strlit("require");
            assert(ascii_lower_seq("require"@) =~= "require"@);
            assert("require"@ != "authorization"@);
        },
        HeaderName::ProxyAuthorization => {
            reveal_strlit("Proxy-Authorization");
            reveal_strlit("proxy-authorization");
            assert(ascii_lower_seq("Proxy-Authorization"@) =~= "proxy-authorization"@);
            reveal_strlit("via");
            assert(ascii_lower_seq("via"@) =~= "via"@);
            assert("via"@ != "proxy-authorization"@);
            reveal_strlit("from");
            assert(ascii_lower_seq("from"@) =~= "from"@);
            assert("from"@ != "proxy-authorization"@);
            reveal_strlit("to");
            assert(ascii_lower_seq("to"@) =~= "to"@);
            assert("to"@ != "proxy-authorization"@);
            reveal_strlit("call-id");
            assert(ascii_lower_seq("call-id"@) =~= "call-id"@);
            assert("call-id"@ != "proxy-authorization"@);
            reveal_strlit("i");
            assert(ascii_lower_seq("i"@) =~= "i"@);
            assert("i"@ != "proxy-authorization"@);
            reveal_strlit("cseq");
            assert(ascii_lower_seq("cseq"@) =~= "cseq"@);
            assert("cseq"@ != "proxy-authorization"@);
            reveal_strlit("contact");
            assert(ascii_lower_seq("contact"@) =~= "contact"@);
            assert("contact"@ != "proxy-authorization"@);
            reveal_strlit("m");
            assert(ascii_lower_seq("m"@) =~= "m"@);
            assert("m"@ != "proxy-authorization"@);
            reveal_strlit("max-forwards");
            assert(ascii_lower_seq("max-forwards"@) =~= "max-forwards"@);
            assert("max-forwards"@ != "proxy-authorization"@);
            reveal_strlit("content-type");
            assert(ascii_lower_seq("content-type"@) =~= "content-type"@);
            assert("content-type"@ != "proxy-authorization"@);
            reveal_strlit("c");
            assert(ascii_lower_seq("c"@) =~= "c"@);
            assert("c"@ != "proxy-authorization"@);
            reveal_strlit("content-length");
            assert(ascii_lower_seq("content-length"@) =~= "content-length"@);
            assert("content-length"@ != "proxy-authorization"@);
            reveal_strlit("l");
            assert(ascii_lower_seq("l"@) =~= "l"@);
            assert("l"@ != "proxy-authorization"@);
            reveal_strlit("route");
            assert(ascii_lower_seq("route"@) =~= "route"@);
            assert("route"@ != "proxy-authorization"@);
            reveal_strlit("record-route");
            assert(ascii_lower_seq("record-route"@) =~= "record-route"@);
            assert("record-route"@ != "proxy-authorization"@);
            reveal_strlit("expires");
            assert(ascii_lower_seq("expires"@) =~= "expires"@);
            assert("expires"@ != "proxy-authorization"@);
            reveal_strlit("allow");
            assert(ascii_lower_seq("allow"@) =~= "allow"@);
            assert("allow"@ != "proxy-authorization"@);
            reveal_strlit("supported");
            assert(ascii_lower_seq("supported"@) =~= "supported"@);
            assert("supported"@ != "proxy-authorization"@);
            reveal_strlit("k");
            assert(ascii_lower_seq("k"@) =~= "k"@);
            assert("k"@ != "proxy-authorization"@);
            reveal_strlit("require");
            assert(ascii_lower_seq("require"@) =~= "require"@);
            assert("require"@ != "proxy-authorization"@);
            reveal_strlit("authorization");
            assert(ascii_lower_seq("authorization"@) =~= "authorization"@);
            assert("authorization"@ != "proxy-authorization"@);
        },
        HeaderName::WwwAuthenticate => {
            reveal_strlit("WWW-Authenticate");
            reveal_strlit("www-authenticate");
            assert(ascii_lower_seq("WWW-Authenticate"@) =~= "www-authenticate"@);
            reveal_strlit("via");
            assert(ascii_lower_seq("via"@) =~= "via"@);
            assert("via"@ != "www-authenticate"@);
            reveal_strlit("from");
            assert(ascii_lower_seq("from"@) =~= "from"@);
            assert("from"@ != "www-authenticate"@);
            reveal_strlit("to");
            assert(ascii_lower_seq("to"@) =~= "to"@);
            assert("to"@ != "www-authenticate"@);
            reveal_strlit("call-id");
            assert(ascii_lower_seq("call-id"@) =~= "call-id"@);
            assert("call-id"@ != "www-authenticate"@);
            reveal_strlit("i");
            assert(ascii_lower_seq("i"@) =~= "i"@);
            assert("i"@ != "www-authenticate"@);
            reveal_strlit("cseq");
            assert(ascii_lower_seq("cseq"@) =~= "cseq"@);
            assert("cseq"@ != "www-authenticate"@);
            reveal_strlit("contact");
            assert(ascii_lower_seq("contact"@) =~= "contact"@);
            assert("contact"@ != "www-authenticate"@);
            reveal_strlit("m");
            assert(ascii_lower_seq("m"@) =~= "m"@);
            assert("m"@ != "www-authenticate"@);
            reveal_strlit("max-forwards");
            assert(ascii_lower_seq("max-forwards"@) =~= "max-forwards"@);
            assert("max-forwards"@ != "www-authenticate"@);
            reveal_strlit("content-type");
            assert(ascii_lower_seq("content-type"@) =~= "content-type"@);
            assert("content-type"@ != "www-authenticate"@);
            reveal_strlit("c");
            assert(ascii_lower_seq("c"@) =~= "c"@);
            assert("c"@ != "www-authenticate"@);
            reveal_strlit("content-length");
            assert(ascii_lower_seq("content-length"@) =~= "content-length"@);
            assert("content-length"@ != "www-authenticate"@);
            reveal_strlit("l");
            assert(ascii_lower_seq("l"@) =~= "l"@);
            assert("l"@ != "www-authenticate"@);
            reveal_strlit("route");
            assert(ascii_lower_seq("route"@) =~= "route"@);
            assert("route"@ != "www-authenticate"@);
            reveal_strlit("record-route");
            assert(ascii_lower_seq("record-route"@) =~= "record-route"@);
            assert("record-route"@ != "www-authenticate"@);
            reveal_strlit("expires");
            assert(ascii_lower_seq("expires"@) =~= "expires"@);
            assert("expires"@ != "www-authenticate"@);
            reveal_strlit("allow");
            assert(ascii_lower_seq("allow"@) =~= "allow"@);
            assert("allow"@ != "www-authenticate"@);
            reveal_strlit("supported");
            assert(ascii_lower_seq("supported"@) =~= "supported"@);
            assert("supported"@ != "www-authenticate"@);
            reveal_strlit("k");
            assert(ascii_lower_seq("k"@) =~= "k"@);
            assert("k"@ != "www-authenticate"@);
            reveal_strlit("require");
            assert(ascii_lower_seq("require"@) =~= "require"@);
            assert("require"@ != "www-authenticate"@);
            reveal_strlit("authorization");
            assert(ascii_lower_seq("authorization"@) =~= "authorization"@);
            assert("authorization"@ != "www-authenticate"@);
            reveal_strlit("proxy-authorization");
            assert(ascii_lower_seq("proxy-authorization"@) =~= "proxy-authorization"@);
            assert("proxy-authorization"@ != "www-authenticate"@);
        },
        HeaderName::ProxyAuthenticate => {
            reveal_strlit("Proxy-Authenticate");
            reveal_strlit("proxy-authenticate");
            assert(ascii_lower_seq("Proxy-Authenticate"@) =~= "proxy-authenticate"@);
            reveal_strlit("via");
            assert(ascii_lower_seq("via"@) =~= "via"@);
            assert("via"@ != "proxy-authenticate"@);
            reveal_strlit("from");
            assert(ascii_lower_seq("from"@) =~= "from"@);
            assert("from"@ != "proxy-authenticate"@);
            reveal_strlit("to");
            assert(ascii_lower_seq("to"@) =~= "to"@);
            assert("to"@ != "proxy-authenticate"@);
            reveal_strlit("call-id");
            assert(ascii_lower_seq("call-id"@) =~= "call-id"@);
            assert("call-id"@ != "proxy-authenticate"@);
            reveal_strlit("i");
            assert(ascii_lower_seq("i"@) =~= "i"@);
            assert("i"@ != "proxy-authenticate"@);
            reveal_strlit("cseq");
            assert(ascii_lower_seq("cseq"@) =~= "cseq"@);
            assert("cseq"@ != "proxy-authenticate"@);
            reveal_strlit("contact");
            assert(ascii_lower_seq("contact"@) =~= "contact"@);
            assert("contact"@ != "proxy-authenticate"@);
            reveal_strlit("m");
            assert(ascii_lower_seq("m"@) =~= "m"@);
            assert("m"@ != "proxy-authenticate"@);
            reveal_strlit("max-forwards");
            assert(ascii_lower_seq("max-forwards"@) =~= "max-forwards"@);
            assert("max-forwards"@ != "proxy-authenticate"@);
            reveal_strlit("content-type");
            assert(ascii_lower_seq("content-type"@) =~= "content-type"@);
            assert("content-type"@ != "proxy-authenticate"@);
            reveal_strlit("c");
            assert(ascii_lower_seq("c"@) =~= "c"@);
            assert("c"@ != "proxy-authenticate"@);
            reveal_strlit("content-length");
            assert(ascii_lower_seq("content-length"@) =~= "content-length"@);
            assert("content-length"@ != "proxy-authenticate"@);
            reveal_strlit("l");
            assert(ascii_lower_seq("l"@) =~= "l"@);
            assert("l"@ != "proxy-authenticate"@);
            reveal_strlit("route");
            assert(ascii_lower_seq("route"@) =~= "route"@);
            assert("route"@ != "proxy-authenticate"@);
            reveal_strlit("record-route");
            assert(ascii_lower_seq("record-route"@) =~= "record-route"@);
            assert("record-route"@ != "proxy-authenticate"@);
            reveal_strlit("expires");
            assert(ascii_lower_seq("expires"@) =~= "expires"@);
            assert("expires"@ != "proxy-authenticate"@);
            reveal_strlit("allow");
            assert(ascii_lower_seq("allow"@) =~= "allow"@);
            assert("allow"@ != "proxy-authenticate"@);
            reveal_strlit("supported");
            assert(ascii_lower_seq("supported"@) =~= "supported"@);
            assert("supported"@ != "proxy-authenticate"@);
            reveal_strlit("k");
            assert(ascii_lower_seq("k"@) =~= "k"@);
            assert("k"@ != "proxy-authenticate"@);
            reveal_strlit("require");
            assert(ascii_lower_seq("require"@) =~= "require"@);
            assert("require"@ != "proxy-authenticate"@);
            reveal_strlit("authorization");
            assert(ascii_lower_seq("authorization"@) =~= "authorization"@);
            assert("authorization"@ != "proxy-authenticate"@);
            reveal_strlit("proxy-authorization");
            assert(ascii_lower_seq("proxy-authorization"@) =~= "proxy-authorization"@);
            assert("proxy-authorization"@ != "proxy-authenticate"@);
            reveal_strlit("www-authenticate");
            assert(ascii_lower_seq("www-authenticate"@) =~= "www-authenticate"@);
            assert("www-authenticate"@ != "proxy-authenticate"@);
        },
        HeaderName::Date => {
            reveal_strlit("Date");
            reveal_strlit("date");
            assert(ascii_lower_seq("Date"@) =~= "date"@);
            reveal_strlit("via");
            assert(ascii_lower_seq("via"@) =~= "via"@);
            assert("via"@ != "date"@);
            reveal_strlit("from");
            assert(ascii_lower_seq("from"@) =~= "from"@);
            assert("from"@[0] != "date"@[0]);
            reveal_strlit("to");
            assert(ascii_lower_seq("to"@) =~= "to"@);
            assert("to"@ != "date"@);
            reveal_strlit("call-id");
            assert(ascii_lower_seq("call-id"@) =~= "call-id"@);
            assert("call-id"@ != "date"@);
            reveal_strlit("i");
            assert(ascii_lower_seq("i"@) =~= "i"@);
            assert("i"@ != "date"@);
            reveal_strlit("cseq");
            assert(ascii_lower_seq("cseq"@) =~= "cseq"@);
            assert("cseq"@[0] != "date"@[0]);
            reveal_strlit("contact");
            assert(ascii_lower_seq("contact"@) =~= "contact"@);
            assert("contact"@ != "date"@);
            reveal_strlit("m");
            assert(ascii_lower_seq("m"@) =~= "m"@);
            assert("m"@ != "date"@);
            reveal_strlit("max-forwards");
            assert(ascii_lower_seq("max-forwards"@) =~= "max-forwards"@);
            assert("max-forwards"@ != "date"@);
            reveal_strlit("content-type");
            assert(ascii_lower_seq("content-type"@) =~= "content-type"@);
            assert("content-type"@ != "date"@);
            reveal_strlit("c");
            assert(ascii_lower_seq("c"@) =~= "c"@);
            assert("c"@ != "date"@);
            reveal_strlit("content-length");
            assert(ascii_lower_seq("content-length"@) =~= "content-length"@);
            assert("content-length"@ != "date"@);
            reveal_strlit("l");
            assert(ascii_lower_seq("l"@) =~= "l"@);
            assert("l"@ != "date"@);
            reveal_strlit("route");
            assert(ascii_lower_seq("route"@) =~= "route"@);
            assert("route"@ != "date"@);
            reveal_strlit("record-route");
            assert(ascii_lower_seq("record-route"@) =~= "record-route"@);
            assert("record-route"@ != "date"@);
            reveal_strlit("expires");
            assert(ascii_lower_seq("expires"@) =~= "expires"@);
            assert("expires"@ != "date"@);
            reveal_strlit("allow");
            assert(ascii_lower_seq("allow"@) =~= "allow"@);
            assert("allow"@ != "date"@);
            reveal_strlit("supported");
            assert(ascii_lower_seq("supported"@) =~= "supported"@);
            assert("supported"@ != "date"@);
            reveal_strlit("k");
            assert(ascii_lower_seq("k"@) =~= "k"@);
            assert("k"@ != "date"@);
            reveal_strlit("require");
            assert(ascii_lower_seq("require"@) =~= "require"@);
            assert("require"@ != "date"@);
            reveal_strlit("authorization");
            assert(ascii_lower_seq("authorization"@) =~= "authorization"@);
            assert("authorization"@ != "date"@);
            reveal_strlit("proxy-authorization");
            assert(ascii_lower_seq("proxy-authorization"@) =~= "proxy-authorization"@);
            assert("proxy-authorization"@ != "date"@);
            reveal_strlit("www-authenticate");
            assert(ascii_lower_seq("www-authenticate"@) =~= "www-authenticate"@);
            assert("www-authenticate"@ != "date"@);
            reveal_strlit("proxy-authenticate");
            assert(ascii_lower_seq("proxy-authenticate"@) =~= "proxy-authenticate"@);
            assert("proxy-authenticate"@ != "date"@);
        },
        HeaderName::MinExpires => {
            reveal_strlit("Min-Expires");
            reveal_strlit("min-expires");
            assert(ascii_lower_seq("Min-Expires"@) =~= "min-expires"@);
            reveal_strlit("via");
            assert(ascii_lower_seq("via"@) =~= "via"@);
            assert("via"@ != "min-expires"@);
            reveal_strlit("from");
            assert(ascii_lower_seq("from"@) =~= "from"@);
            assert("from"@ != "min-expires"@);
            reveal_strlit("to");
            assert(ascii_lower_seq("to"@) =~= "to"@);
            assert("to"@ != "min-expires"@);
            reveal_strlit("call-id");
            assert(ascii_lower_seq("call-id"@) =~= "call-id"@);
            assert("call-id"@ != "min-expires"@);
            reveal_strlit("i");
            assert(ascii_lower_seq("i"@) =~= "i"@);
            assert("i"@ != "min-expires"@);
            reveal_strlit("cseq");
            assert(ascii_lower_seq("cseq"@) =~= "cseq"@);
            assert("cseq"@ != "min-expires"@);
            reveal_strlit("contact");
            assert(ascii_lower_seq("contact"@) =~= "contact"@);
            assert("contact"@ != "min-expires"@);
            reveal_strlit("m");
            assert(ascii_lower_seq("m"@) =~= "m"@);
            assert("m"@ != "min-expires"@);
            reveal_strlit("max-forwards");
            assert(ascii_lower_seq("max-forwards"@) =~= "max-forwards"@);
            assert("max-forwards"@ != "min-expires"@);
            reveal_strlit("content-type");
            assert(ascii_lower_seq("content-type"@) =~= "content-type"@);
            assert("content-type"@ != "min-expires"@);
            reveal_strlit("c");
            assert(ascii_lower_seq("c"@) =~= "c"@);
            assert("c"@ != "min-expires"@);
            reveal_strlit("content-length");
            assert(ascii_lower_seq("content-length"@) =~= "content-length"@);
            assert("content-length"@ != "min-expires"@);
            reveal_strlit("l");
            assert(ascii_lower_seq("l"@) =~= "l"@);
            assert("l"@ != "min-expires"@);
            reveal_strlit("route");
            assert(ascii_lower_seq("route"@) =~= "route"@);
            assert("route"@ != "min-expires"@);
            reveal_strlit("record-route");
            assert(ascii_lower_seq("record-route"@) =~= "record-route"@);
            assert("record-route"@ != "min-expires"@);
            reveal_strlit("expires");
            assert(ascii_lower_seq("expires"@) =~= "expires"@);
            assert("expires"@ != "min-expires"@);
            reveal_strlit("allow");
            assert(ascii_lower_seq("allow"@) =~= "allow"@);
            assert("allow"@ != "min-expires"@);
            reveal_strlit("supported");
            assert(ascii_lower_seq("supported"@) =~= "supported"@);
            assert("supported"@ != "min-expires"@);
            reveal_strlit("k");
            assert(ascii_lower_seq("k"@) =~= "k"@);
            assert("k"@ != "min-expires"@);
            reveal_strlit("require");
            assert(ascii_lower_seq("require"@) =~= "require"@);
            assert("require"@ != "min-expires"@);
            reveal_strlit("authorization");
            assert(ascii_lower_seq("authorization"@) =~= "authorization"@);
            assert("authorization"@ != "min-expires"@);
            reveal_strlit("proxy-authorization");
            assert(ascii_lower_seq("proxy-authorization"@) =~= "proxy-authorization"@);
            assert("proxy-authorization"@ != "min-expires"@);
            reveal_strlit("www-authenticate");
            assert(ascii_lower_seq("www-authenticate"@) =~= "www-authenticate"@);
            assert("www-authenticate"@ != "min-expires"@);
            reveal_strlit("proxy-authenticate");
            assert(ascii_lower_seq("proxy-authenticate"@) =~= "proxy-authenticate"@);
            assert("proxy-authenticate"@ != "min-expires"@);
            reveal_strlit("date");
            assert(ascii_lower_seq("date"@) =~= "date"@);
            assert("date"@ != "min-expires"@);
        },
        HeaderName::Subject => {
            reveal_strlit("Subject");
            reveal_strlit("subject");
            assert(ascii_lower_seq("Subject"@) =~= "subject"@);
            reveal_strlit("via");
            assert(ascii_lower_seq("via"@) =~= "via"@);
            assert("via"@ != "subject"@);
            reveal_strlit("from");
            assert(ascii_lower_seq("from"@) =~= "from"@);
            assert("from"@ != "subject"@);
            reveal_strlit("to");
            assert(ascii_lower_seq("to"@) =~= "to"@);
            assert("to"@ != "subject"@);
            reveal_strlit("call-id");
            assert(ascii_lower_seq("call-id"@) =~= "call-id"@);
            assert("call-id"@[0] != "subject"@[0]);
            reveal_strlit("i");
            assert(ascii_lower_seq("i"@) =~= "i"@);
            assert("i"@ != "subject"@);
            reveal_strlit("cseq");
            assert(ascii_lower_seq("cseq"@) =~= "cseq"@);
            assert("cseq"@ != "subject"@);
            reveal_strlit("contact");
            assert(ascii_lower_seq("contact"@) =~= "contact"@);
            assert("contact"@[0] != "subject"@[0]);
            reveal_strlit("m");
            assert(ascii_lower_seq("m"@) =~= "m"@);
            assert("m"@ != "subject"@);
            reveal_strlit("max-forwards");
            assert(ascii_lower_seq("max-forwards"@) =~= "max-forwards"@);
            assert("max-forwards"@ != "subject"@);
            reveal_strlit("content-type");
            assert(ascii_lower_seq("content-type"@) =~= "content-type"@);
            assert("content-type"@ != "subject"@);
            reveal_strlit("c");
            assert(ascii_lower_seq("c"@) =~= "c"@);
            assert("c"@ != "subject"@);
            reveal_strlit("content-length");
            assert(ascii_lower_seq("content-length"@) =~= "content-length"@);
            assert("content-length"@ != "subject"@);
            reveal_strlit("l");
            assert(ascii_lower_seq("l"@) =~= "l"@);
            assert("l"@ != "subject"@);
            reveal_strlit("route");
            assert(ascii_lower_seq("route"@) =~= "route"@);
            assert("route"@ != "subject"@);
            reveal_strlit("record-route");
            assert(ascii_lower_seq("record-route"@) =~= "record-route"@);
            assert("record-route"@ != "subject"@);
            reveal_strlit("expires");
            assert(ascii_lower_seq("expires"@) =~= "expires"@);
            assert("expires"@[0] != "subject"@[0]);
            reveal_strlit("allow");
            assert(ascii_lower_seq("allow"@) =~= "allow"@);
            assert("allow"@ != "subject"@);
            reveal_strlit("supported");
            assert(ascii_lower_seq("supported"@) =~= "supported"@);
            assert("supported"@ != "subject"@);
            reveal_strlit("k");
            assert(ascii_lower_seq("k"@) =~= "k"@);
            assert("k"@ != "subject"@);
            reveal_strlit("require");
            assert(ascii_lower_seq("require"@) =~= "require"@);
            assert("require"@[0] != "subject"@[0]);
            reveal_strlit("authorization");
            assert(ascii_lower_seq("authorization"@) =~= "authorization"@);
            assert("authorization"@ != "subject"@);
            reveal_strlit("proxy-authorization");
            assert(ascii_lower_seq("proxy-authorization"@) =~= "proxy-authorization"@);
            assert("proxy-authorization"@ != "subject"@);
            reveal_strlit("www-authenticate");
            assert(ascii_lower_seq("www-authenticate"@) =~= "www-authenticate"@);
            assert("www-authenticate"@ != "subject"@);
            reveal_strlit("proxy-authenticate");
            assert(ascii_lower_seq("proxy-authenticate"@) =~= "proxy-authenticate"@);
            assert("proxy-authenticate"@ != "subject"@);
            reveal_strlit("date");
            assert(ascii_lower_seq("date"@) =~= "date"@);
            assert("date"@ != "subject"@);
            reveal_strlit("min-expires");
            assert(ascii_lower_seq("min-expires"@) =~= "min-expires"@);
            assert("min-expires"@ != "subject"@);
        },
        HeaderName::UserAgent => {
            reveal_strlit("User-Agent");
            reveal_strlit("user-agent");
            assert(ascii_lower_seq("User-Agent"@) =~= "user-agent"@);
            reveal_strlit("via");
            assert(ascii_lower_seq("via"@) =~= "via"@);
            assert("via"@ != "user-agent"@);
            reveal_strlit("from");
            assert(ascii_lower_seq("from"@) =~= "from"@);
            assert("from"@ != "user-agent"@);
            reveal_strlit("to");
            assert(ascii_lower_seq("to"@) =~= "to"@);
            assert("to"@ != "user-agent"@);
            reveal_strlit("call-id");
            assert(ascii_lower_seq("call-id"@) =~= "call-id"@);
            assert("call-id"@ != "user-agent"@);
            reveal_strlit("i");
            assert(ascii_lower_seq("i"@) =~= "i"@);
            assert("i"@ != "user-agent"@);
            reveal_strlit("cseq");
            assert(ascii_lower_seq("cseq"@) =~= "cseq"@);
            assert("cseq"@ != "user-agent"@);
            reveal_strlit("contact");
            assert(ascii_lower_seq("contact"@) =~= "contact"@);
            assert("contact"@ != "user-agent"@);
            reveal_strlit("m");
            assert(ascii_lower_seq("m"@) =~= "m"@);
            assert("m"@ != "user-agent"@);
            reveal_strlit("max-forwards");
            assert(ascii_lower_seq("max-forwards"@) =~= "max-forwards"@);
            assert("max-forwards"@ != "user-agent"@);
            reveal_strlit("content-type");
            assert(ascii_lower_seq("content-type"@) =~= "content-type"@);
            assert("content-type"@ != "user-agent"@);
            reveal_strlit("c");
            assert(ascii_lower_seq("c"@) =~= "c"@);
            assert("c"@ != "user-agent"@);
            reveal_strlit("content-length");
            assert(ascii_lower_seq("content-length"@) =~= "content-length"@);
            assert("content-length"@ != "user-agent"@);
            reveal_strlit("l");
            assert(ascii_lower_seq("l"@) =~= "l"@);
            assert("l"@ != "user-agent"@);
            reveal_strlit("route");
            assert(ascii_lower_seq("route"@) =~= "route"@);
            assert("route"@ != "user-agent"@);
            reveal_strlit("record-route");
            assert(ascii_lower_seq("record-route"@) =~= "record-route"@);
            assert("record-route"@ != "user-agent"@);
            reveal_strlit("expires");
            assert(ascii_lower_seq("expires"@) =~= "expires"@);
            assert("expires"@ != "user-agent"@);
            reveal_strlit("allow");
            assert(ascii_lower_seq("allow"@) =~= "allow"@);
            assert("allow"@ != "user-agent"@);
            reveal_strlit("supported");
            assert(ascii_lower_seq("supported"@) =~= "supported"@);
            assert("supported"@ != "user-agent"@);
            reveal_strlit("k");
            assert(ascii_lower_seq("k"@) =~= "k"@);
            assert("k"@ != "user-agent"@);
            reveal_strlit("require");
            assert(ascii_lower_seq("require"@) =~= "require"@);
            assert("require"@ != "user-agent"@);
            reveal_strlit("authorization");
            assert(ascii_lower_seq("authorization"@) =~= "authorization"@);
            assert("authorization"@ != "user-agent"@);
            reveal_strlit("proxy-authorization");
            assert(ascii_lower_seq("proxy-authorization"@) =~= "proxy-authorization"@);
            assert("proxy-authorization"@ != "user-agent"@);
            reveal_strlit("www-authenticate");
            assert(ascii_lower_seq("www-authenticate"@) =~= "www-authenticate"@);
            assert("www-authenticate"@ != "user-agent"@);
            reveal_strlit("proxy-authenticate");
            assert(ascii_lower_seq("proxy-authenticate"@) =~= "proxy-authenticate"@);
            assert("proxy-authenticate"@ != "user-agent"@);
            reveal_strlit("date");
            assert(ascii_lower_seq("date"@) =~= "date"@);
            assert("date"@ != "user-agent"@);
            reveal_strlit("min-expires");
            assert(ascii_lower_seq("min-expires"@) =~= "min-expires"@);
            assert("min-expires"@ != "user-agent"@);
            reveal_strlit("subject");
            assert(ascii_lower_seq("subject"@) =~= "subject"@);
            assert("subject"@ != "user-agent"@);
            reveal_strlit("s");
            assert(ascii_lower_seq("s"@) =~= "s"@);
            assert("s"@ != "user-agent"@);
        },
        HeaderName::Server => {
            reveal_strlit("Server");
            reveal_strlit("server");
            assert(ascii_lower_seq("Server"@) =~= "server"@);
            reveal_strlit("via");
            assert(ascii_lower_seq("via"@) =~= "via"@);
            assert("via"@ != "server"@);
            reveal_strlit("from");
            assert(ascii_lower_seq("from"@) =~= "from"@);
            assert("from"@ != "server"@);
            reveal_strlit("to");
            assert(ascii_lower_seq("to"@) =~= "to"@);
            assert("to"@ != "server"@);
            reveal_strlit("call-id");
            assert(ascii_lower_seq("call-id"@) =~= "call-id"@);
            assert("call-id"@ != "server"@);
            reveal_strlit("i");
            assert(ascii_lower_seq("i"@) =~= "i"@);
            assert("i"@ != "server"@);
            reveal_strlit("cseq");
            assert(ascii_lower_seq("cseq"@) =~= "cseq"@);
            assert("cseq"@ != "server"@);
            reveal_strlit("contact");
            assert(ascii_lower_seq("contact"@) =~= "contact"@);
            assert("contact"@ != "server"@);
            reveal_strlit("m");
            assert(ascii_lower_seq("m"@) =~= "m"@);
            assert("m"@ != "server"@);
            reveal_strlit("max-forwards");
            assert(ascii_lower_seq("max-forwards"@) =~= "max-forwards"@);
            assert("max-forwards"@ != "server"@);
            reveal_strlit("content-type");
            assert(ascii_lower_seq("content-type"@) =~= "content-type"@);
            assert("content-type"@ != "server"@);
            reveal_strlit("c");
            assert(ascii_lower_seq("c"@) =~= "c"@);
            assert("c"@ != "server"@);
            reveal_strlit("content-length");
            assert(ascii_lower_seq("content-length"@) =~= "content-length"@);
            assert("content-length"@ != "server"@);
            reveal_strlit("l");
            assert(ascii_lower_seq("l"@) =~= "l"@);
            assert("l"@ != "server"@);
            reveal_strlit("route");
            assert(ascii_lower_seq("route"@) =~= "route"@);
            assert("route"@ != "server"@);
            reveal_strlit("record-route");
            assert(ascii_lower_seq("record-route"@) =~= "record-route"@);
            assert("record-route"@ != "server"@);
            reveal_strlit("expires");
            assert(ascii_lower_seq("expires"@) =~= "expires"@);
            assert("expires"@ != "server"@);
            reveal_strlit("allow");
            assert(ascii_lower_seq("allow"@) =~= "allow"@);
            assert("allow"@ != "server"@);
            reveal_strlit("supported");
            assert(ascii_lower_seq("supported"@) =~= "supported"@);
            assert("supported"@ != "server"@);
            reveal_strlit("k");
            assert(ascii_lower_seq("k"@) =~= "k"@);
            assert("k"@ != "server"@);
            reveal_strlit("require");
            assert(ascii_lower_seq("require"@) =~= "require"@);
            assert("require"@ != "server"@);
            reveal_strlit("authorization");
            assert(ascii_lower_seq("authorization"@) =~= "authorization"@);
            assert("authorization"@ != "server"@);
            reveal_strlit("proxy-authorization");
            assert(ascii_lower_seq("proxy-authorization"@) =~= "proxy-authorization"@);
            assert("proxy-authorization"@ != "server"@);
            reveal_strlit("www-authenticate");
            assert(ascii_lower_seq("www-authenticate"@) =~= "www-authenticate"@);
            assert("www-authenticate"@ != "server"@);
            reveal_strlit("proxy-authenticate");
            assert(ascii_lower_seq("proxy-authenticate"@) =~= "proxy-authenticate"@);
            assert("proxy-authenticate"@ != "server"@);
            reveal_strlit("date");
            assert(ascii_lower_seq("date"@) =~= "date"@);
            assert("date"@ != "server"@);
            reveal_strlit("min-expires");
            assert(ascii_lower_seq("min-expires"@) =~= "min-expires"@);
            assert("min-expires"@ != "server"@);
            reveal_strlit("subject");
            assert(ascii_lower_seq("subject"@) =~= "subject"@);
            assert("subject"@ != "server"@);
            reveal_strlit("s");
            assert(ascii_lower_seq("s"@) =~= "s"@);
            assert("s"@ != "server"@);
            reveal_strlit("user-agent");
            assert(ascii_lower_seq("user-agent"@) =~= "user-agent"@);
            assert("user-agent"@ != "server"@);
        },
        HeaderName::Reason => {
            reveal_strlit("Reason");
            reveal_strlit("reason");
            assert(ascii_lower_seq("Reason"@) =~= "reason"@);
            reveal_strlit("via");
            assert(ascii_lower_seq("via"@) =~= "via"@);
            assert("via"@ != "reason"@);
            reveal_strlit("from");
            assert(ascii_lower_seq("from"@) =~= "from"@);
            assert("from"@ != "reason"@);
            reveal_strlit("to");
            assert(ascii_lower_seq("to"@) =~= "to"@);
            assert("to"@ != "reason"@);
            reveal_strlit("call-id");
            assert(ascii_lower_seq("call-id"@) =~= "call-id"@);
            assert("call-id"@ != "reason"@);
            reveal_strlit("i");
            assert(ascii_lower_seq("i"@) =~= "i"@);
            assert("i"@ != "reason"@);
            reveal_strlit("cseq");
            assert(ascii_lower_seq("cseq"@) =~= "cseq"@);
            assert("cseq"@ != "reason"@);
            reveal_strlit("contact");
            assert(ascii_lower_seq("contact"@) =~= "contact"@);
            assert("contact"@ != "reason"@);
            reveal_strlit("m");
            assert(ascii_lower_seq("m"@) =~= "m"@);
            assert("m"@ != "reason"@);
            reveal_strlit("max-forwards");
            assert(ascii_lower_seq("max-forwards"@) =~= "max-forwards"@);
            assert("max-forwards"@ != "reason"@);
            reveal_strlit("content-type");
            assert(ascii_lower_seq("content-type"@) =~= "content-type"@);
            assert("content-type"@ != "reason"@);
            reveal_strlit("c");
            assert(ascii_lower_seq("c"@) =~= "c"@);
            assert("c"@ != "reason"@);
            reveal_strlit("content-length");
            assert(ascii_lower_seq("content-length"@) =~= "content-length"@);
            assert("content-length"@ != "reason"@);
            reveal_strlit("l");
            assert(ascii_lower_seq("l"@) =~= "l"@);
            assert("l"@ != "reason"@);
            reveal_strlit("route");
            assert(ascii_lower_seq("route"@) =~= "route"@);
            assert("route"@ != "reason"@);
            reveal_strlit("record-route");
            assert(ascii_lower_seq("record-route"@) =~= "record-route"@);
            assert("record-route"@ != "reason"@);
            reveal_strlit("expires");
            assert(ascii_lower_seq("expires"@) =~= "expires"@);
            assert("expires"@ != "reason"@);
            reveal_strlit("allow");
            assert(ascii_lower_seq("allow"@) =~= "allow"@);
            assert("allow"@ != "reason"@);
            reveal_strlit("supported");
            assert(ascii_lower_seq("supported"@) =~= "supported"@);
            assert("supported"@ != "reason"@);
            reveal_strlit("k");
            assert(ascii_lower_seq("k"@) =~= "k"@);
            assert("k"@ != "reason"@);
            reveal_strlit("require");
            assert(ascii_lower_seq("require"@) =~= "require"@);
            assert("require"@ != "reason"@);
            reveal_strlit("authorization");
            assert(ascii_lower_seq("authorization"@) =~= "authorization"@);
            assert("authorization"@ != "reason"@);
            reveal_strlit("proxy-authorization");
            assert(ascii_lower_seq("proxy-authorization"@) =~= "proxy-authorization"@);
            assert("proxy-authorization"@ != "reason"@);
            reveal_strlit("www-authenticate");
            assert(ascii_lower_seq("www-authenticate"@) =~= "www-authenticate"@);
            assert("www-authenticate"@ != "reason"@);
            reveal_strlit("proxy-authenticate");
            assert(ascii_lower_seq("proxy-authenticate"@) =~= "proxy-authenticate"@);
            assert("proxy-authenticate"@ != "reason"@);
            reveal_strlit("date");
            assert(ascii_lower_seq("date"@) =~= "date"@);
            assert("date"@ != "reason"@);
            reveal_strlit("min-expires");
            assert(ascii_lower_seq("min-expires"@) =~= "min-expires"@);
            assert("min-expires"@ != "reason"@);
            reveal_strlit("subject");
            assert(ascii_lower_seq("subject"@) =~= "subject"@);
            assert("subject"@ != "reason"@);
            reveal_strlit("s");
            assert(ascii_lower_seq("s"@) =~= "s"@);
            assert("s"@ != "reason"@);
            reveal_strlit("user-agent");
            assert(ascii_lower_seq("user-agent"@) =~= "user-agent"@);
            assert("user-agent"@ != "reason"@);
            reveal_strlit("server");
            assert(ascii_lower_seq("server"@) =~= "server"@);
            assert("server"@[0] != "reason"@[0]);
        },
        HeaderName::Warning => {
            reveal_strlit("Warning");
            reveal_strlit("warning");
            assert(ascii_lower_seq("Warning"@) =~= "warning"@);
            reveal_strlit("via");
            assert(ascii_lower_seq("via"@) =~= "via"@);
            assert("via"@ != "warning"@);
            reveal_strlit("from");
            assert(ascii_lower_seq("from"@) =~= "from"@);
            assert("from"@ != "warning"@);
            reveal_strlit("to");
            assert(ascii_lower_seq("to"@) =~= "to"@);
            assert("to"@ != "warning"@);
            reveal_strlit("call-id");
            assert(ascii_lower_seq("call-id"@) =~= "call-id"@);
            assert("call-id"@[0] != "warning"@[0]);
            reveal_strlit("i");
            assert(ascii_lower_seq("i"@) =~= "i"@);
            assert("i"@ != "warning"@);
            reveal_strlit("cseq");
            assert(ascii_lower_seq("cseq"@) =~= "cseq"@);
            assert("cseq"@ != "warning"@);
            reveal_strlit("contact");
            assert(ascii_lower_seq("contact"@) =~= "contact"@);
            assert("contact"@[0] != "warning"@[0]);
            reveal_strlit("m");
            assert(ascii_lower_seq("m"@) =~= "m"@);
            assert("m"@ != "warning"@);
            reveal_strlit("max-forwards");
            assert(ascii_lower_seq("max-forwards"@) =~= "max-forwards"@);
            assert("max-forwards"@ != "warning"@);
            reveal_strlit("content-type");
            assert(ascii_lower_seq("content-type"@) =~= "content-type"@);
            assert("content-type"@ != "warning"@);
            reveal_strlit("c");
            assert(ascii_lower_seq("c"@) =~= "c"@);
            assert("c"@ != "warning"@);
            reveal_strlit("content-length");
            assert(ascii_lower_seq("content-length"@) =~= "content-length"@);
            assert("content-length"@ != "warning"@);
            reveal_strlit("l");
            assert(ascii_lower_seq("l"@) =~= "l"@);
            assert("l"@ != "warning"@);
            reveal_strlit("route");
            assert(ascii_lower_seq("route"@) =~= "route"@);
            assert("route"@ != "warning"@);
            reveal_strlit("record-route");
            assert(ascii_lower_seq("record-route"@) =~= "record-route"@);
            assert("record-route"@ != "warning"@);
            reveal_strlit("expires");
            assert(ascii_lower_seq("expires"@) =~= "expires"@);
            assert("expires"@[0] != "warning"@[0]);
            reveal_strlit("allow");
            assert(ascii_lower_seq("allow"@) =~= "allow"@);
            assert("allow"@ != "warning"@);
            reveal_strlit("supported");
            assert(ascii_lower_seq("supported"@) =~= "supported"@);
            assert("supported"@ != "warning"@);
            reveal_strlit("k");
            assert(ascii_lower_seq("k"@) =~= "k"@);
            assert("k"@ != "warning"@);
            reveal_strlit("require");
            assert(ascii_lower_seq("require"@) =~= "require"@);
            assert("require"@[0] != "warning"@[0]);
            reveal_strlit("authorization");
            assert(ascii_lower_seq("authorization"@) =~= "authorization"@);
            assert("authorization"@ != "warning"@);
            reveal_strlit("proxy-authorization");
            assert(ascii_lower_seq("proxy-authorization"@) =~= "proxy-authorization"@);
            assert("proxy-authorization"@ != "warning"@);
            reveal_strlit("www-authenticate");
            assert(ascii_lower_seq("www-authenticate"@) =~= "www-authenticate"@);
            assert("www-authenticate"@ != "warning"@);
            reveal_strlit("proxy-authenticate");
            assert(ascii_lower_seq("proxy-authenticate"@) =~= "proxy-authenticate"@);
            assert("proxy-authenticate"@ != "warning"@);
            reveal_strlit("date");
            assert(ascii_lower_seq("date"@) =~= "date"@);
            assert("date"@ != "warning"@);
            reveal_strlit("min-expires");
            assert(ascii_lower_seq("min-expires"@) =~= "min-expires"@);
            assert("min-expires"@ != "warning"@);
            reveal_strlit("subject");
            assert(ascii_lower_seq("subject"@) =~= "subject"@);
            assert("subject"@[0] != "warning"@[0]);
            reveal_strlit("s");
            assert(ascii_lower_seq("s"@) =~= "s"@);
            assert("s"@ != "warning"@);
            reveal_strlit("user-agent");
            assert(ascii_lower_seq("user-agent"@) =~= "user-agent"@);
            assert("user-agent"@ != "warning"@);
            reveal_strlit("server");
            assert(ascii_lower_seq("server"@) =~= "server"@);
            assert("server"@ != "warning"@);
            reveal_strlit("reason");
            assert(ascii_lower_seq("reason"@) =~= "reason"@);
            assert("reason"@ != "warning"@);
        },
        HeaderName::Extension(_) => {},
    }
    assert(all_ascii(t));
    lemma_case_variant(s, t);
}

/// Each compact form of RFC 3261, in either case, names its header: `i`
/// Call-ID, `m` Contact, `c` Content-Type, `l` Content-Length, `k`
/// Supported, `s` Subject.
#[verifier::spinoff_prover]
#[verifier::rlimit(100)]
pub proof fn law_header_compact_forms(s: Seq<char>)
    ensures
        eq_ascii_ci(s, "i"@) ==> header_kind(s) == Some(HeaderName::CallId),
        eq_ascii_ci(s, "m"@) ==> header_kind(s) == Some(HeaderName::Contact),
        eq_ascii_ci(s, "c"@) ==> header_kind(s) == Some(HeaderName::ContentType),
        eq_ascii_ci(s, "l"@) ==> header_kind(s) == Some(HeaderName::ContentLength),
        eq_ascii_ci(s, "k"@) ==> header_kind(s) == Some(HeaderName::Supported),
        eq_ascii_ci(s, "s"@) ==> header_kind(s) == Some(HeaderName::Subject),
{
    if eq_ascii_ci(s, "i"@) {
        reveal_strlit("i");
        assert(ascii_lower_seq("i"@) =~= "i"@);
        assert(all_ascii("i"@));
        lemma_case_variant(s, "i"@);
        reveal_strlit("via");
        assert(ascii_lower_seq("via"@) =~= "via"@);
        assert("via"@.len() != "i"@.len());
        reveal_strlit("from");
        assert(ascii_lower_seq("from"@) =~= "from"@);
        assert("from"@.len() != "i"@.len());
        reveal_strlit("to");
        assert(ascii_lower_seq("to"@) =~= "to"@);
        assert("to"@.len() != "i"@.len());
    }
    if eq_ascii_ci(s, "m"@) {
        reveal_strlit("m");
        assert(ascii_lower_seq("m"@) =~= "m"@);
        assert(all_ascii("m"@));
        lemma_case_variant(s, "m"@);
        reveal_strlit("via");
        assert(ascii_lower_seq("via"@) =~= "via"@);
        assert("via"@.len() != "m"@.len());
        reveal_strlit("from");
        assert(ascii_lower_seq("from"@) =~= "from"@);
        assert("from"@.len() != "m"@.len());
        reveal_strlit("to");
        assert(ascii_lower_seq("to"@) =~= "to"@);
        assert("to"@.len() != "m"@.len());
        reveal_strlit("call-id");
        assert(ascii_lower_seq("call-id"@) =~= "call-id"@);
        assert("call-id"@.len() != "m"@.len());
        reveal_strlit("i");
        assert(ascii_lower_seq("i"@) =~= "i"@);
        assert("i"@[0] != "m"@[0]);
        reveal_strlit("cseq");
        assert(ascii_lower_seq("cseq"@) =~= "cseq"@);
        assert("cseq"@.len() != "m"@.len());
    }
    if eq_ascii_ci(s, "c"@) {
        reveal_strlit("c");
        assert(ascii_lower_seq("c"@) =~= "c"@);
        assert(all_ascii("c"@));
        lemma_case_variant(s, "c"@);
        reveal_strlit("via");
        assert(ascii_lower_seq("via"@) =~= "via"@);
        assert("via"@.len() != "c"@.len());
        reveal_strlit("from");
        assert(ascii_lower_seq("from"@) =~= "from"@);
        assert("from"@.len() != "c"@.len());
        reveal_strlit("to");
        assert(ascii_lower_seq("to"@) =~= "to"@);
        assert("to"@.len() != "c"@.len());
        reveal_strlit("call-id");
        assert(ascii_lower_seq("call-id"@) =~= "call-id"@);
        assert("call-id"@.len() != "c"@.len());
        reveal_strlit("i");
        assert(ascii_lower_seq("i"@) =~= "i"@);
        assert("i"@[0] != "c"@[0]);
        reveal_strlit("cseq");
        assert(ascii_lower_seq("cseq"@) =~= "cseq"@);
        assert("cseq"@.len() != "c"@.len());
        reveal_strlit("contact");
        assert(ascii_lower_seq("contact"@) =~= "contact"@);
        assert("contact"@.len() != "c"@.len());
        reveal_strlit("m");
        assert(ascii_lower_seq("m"@) =~= "m"@);
        assert("m"@[0] != "c"@[0]);
        reveal_strlit("max-forwards");
        assert(ascii_lower_seq("max-forwards"@) =~= "max-forwards"@);
        assert("max-forwards"@.len() != "c"@.len());
    }
    if eq_ascii_ci(s, "l"@) {
        reveal_strlit("l");
        assert(ascii_lower_seq("l"@) =~= "l"@);
        assert(all_ascii("l"@));
        lemma_case_variant(s, "l"@);
        reveal_strlit("via");
        assert(ascii_lower_seq("via"@) =~= "via"@);
        assert("via"@.len() != "l"@.len());
        reveal_strlit("from");
        assert(ascii_lower_seq("from"@) =~= "from"@);
        assert("from"@.len() != "l"@.len());
        reveal_strlit("to");
        assert(ascii_lower_seq("to"@) =~= "to"@);
        assert("to"@.len() != "l"@.len());
        reveal_strlit("call-id");
        assert(ascii_lower_seq("call-id"@) =~= "call-id"@);
        assert("call-id"@.len() != "l"@.len());
        reveal_strlit("i");
        assert(ascii_lower_seq("i"@) =~= "i"@);
        assert("i"@[0] != "l"@[0]);
        reveal_strlit("cseq");
        assert(ascii_lower_seq("cseq"@) =~= "cseq"@);
        assert("cseq"@.len() != "l"@.len());
        reveal_strlit("contact");
        assert(ascii_lower_seq("contact"@) =~= "contact"@);
        assert("contact"@.len() != "l"@.len());
        reveal_strlit("m");
        assert(ascii_lower_seq("m"@) =~= "m"@);
        assert("m"@[0] != "l"@[0]);
        reveal_strlit("max-forwards");
        assert(ascii_lower_seq("max-forwards"@) =~= "max-forwards"@);
        assert("max-forwards"@.len() != "l"@.len());
        reveal_strlit("content-type");
        assert(ascii_lower_seq("content-type"@) =~= "content-type"@);
        assert("content-type"@.len() != "l"@.len());
        reveal_strlit("c");
        assert(ascii_lower_seq("c"@) =~= "c"@);
        assert("c"@[0] != "l"@[0]);
    }
    if eq_ascii_ci(s, "k"@) {
        reveal_strlit("k");
        assert(ascii_lower_seq("k"@) =~= "k"@);
        assert(all_ascii("k"@));
        lemma_case_variant(s, "k"@);
        reveal_strlit("via");
        assert(ascii_lower_seq("via"@) =~= "via"@);
        assert("via"@.len() != "k"@.len());
        reveal_strlit("from");
        assert(ascii_lower_seq("from"@) =~= "from"@);
        assert("from"@.len() != "k"@.len());
        reveal_strlit("to");
        assert(ascii_lower_seq("to"@) =~= "to"@);
        assert("to"@.len() != "k"@.len());
        reveal_strlit("call-id");
        assert(ascii_lower_seq("call-id"@) =~= "call-id"@);
        assert("call-id"@.len() != "k"@.len());
        reveal_strlit("i");
        assert(ascii_lower_seq("i"@) =~= "i"@);
        assert("i"@[0] != "k"@[0]);
        reveal_strlit("cseq");
        assert(ascii_lower_seq("cseq"@) =~= "cseq"@);
        assert("cseq"@.len() != "k"@.len());
        reveal_strlit("contact");
        assert(ascii_lower_seq("contact"@) =~= "contact"@);
        assert("contact"@.len() != "k"@.len());
        reveal_strlit("m");
        assert(ascii_lower_seq("m"@) =~= "m"@);
        assert("m"@[0] != "k"@[0]);
        reveal_strlit("max-forwards");
        assert(ascii_lower_seq("max-forwards"@) =~= "max-forwards"@);
        assert("max-forwards"@.len() != "k"@.len());
        reveal_strlit("content-type");
        assert(ascii_lower_seq("content-type"@) =~= "content-type"@);
        assert("content-type"@.len() != "k"@.len());
        reveal_strlit("c");
        assert(ascii_lower_seq("c"@) =~= "c"@);
        assert("c"@[0] != "k"@[0]);
        reveal_strlit("content-length");
        assert(ascii_lower_seq("content-length"@) =~= "content-length"@);
        assert("content-length"@.len() != "k"@.len());
        reveal_strlit("l");
        assert(ascii_lower_seq("l"@) =~= "l"@);
        assert("l"@[0] != "k"@[0]);
        reveal_strlit("route");
        assert(ascii_lower_seq("route"@) =~= "route"@);
        assert("route"@.len() != "k"@.len());
        reveal_strlit("record-route");
        assert(ascii_lower_seq("record-route"@) =~= "record-route"@);
        assert("record-route"@.len() != "k"@.len());
        reveal_strlit("expires");
        assert(ascii_lower_seq("expires"@) =~= "expires"@);
        assert("expires"@.len() != "k"@.len());
        reveal_strlit("allow");
        assert(ascii_lower_seq("allow"@) =~= "allow"@);
        assert("allow"@.len() != "k"@.len());
    }
    if eq_ascii_ci(s, "s"@) {
        reveal_strlit("s");
        assert(ascii_lower_seq("s"@) =~= "s"@);
        assert(all_ascii("s"@));
        lemma_case_variant(s, "s"@);
        reveal_strlit("via");
        assert(ascii_lower_seq("via"@) =~= "via"@);
        assert("via"@.len() != "s"@.len());
        reveal_strlit("from");
        assert(ascii_lower_seq("from"@) =~= "from"@);
        assert("from"@.len() != "s"@.len());
        reveal_strlit("to");
        assert(ascii_lower_seq("to"@) =~= "to"@);
        assert("to"@.len() != "s"@.len());
        reveal_strlit("call-id");
        assert(ascii_lower_seq("call-id"@) =~= "call-id"@);
        assert("call-id"@.len() != "s"@.len());
        reveal_strlit("i");
        assert(ascii_lower_seq("i"@) =~= "i"@);
        assert("i"@[0] != "s"@[0]);
        reveal_strlit("cseq");
        assert(ascii_lower_seq("cseq"@) =~= "cseq"@);
        assert("cseq"@.len() != "s"@.len());
        reveal_strlit("contact");
        assert(ascii_lower_seq("contact"@) =~= "contact"@);
        assert("contact"@.len() != "s"@.len());
        reveal_strlit("m");
        assert(ascii_lower_seq("m"@) =~= "m"@);
        assert("m"@[0] != "s"@[0]);
        reveal_strlit("max-forwards");
        assert(ascii_lower_seq("max-forwards"@) =~= "max-forwards"@);
        assert("max-forwards"@.len() != "s"@.len());
        reveal_strlit("content-type");
        assert(ascii_lower_seq("content-type"@) =~= "content-type"@);
        assert("content-type"@.len() != "s"@.len());
        reveal_strlit("c");
        assert(ascii_lower_seq("c"@) =~= "c"@);
        assert("c"@[0] != "s"@[0]);
        reveal_strlit("content-length");
        assert(ascii_lower_seq("content-length"@) =~= "content-length"@);
        assert("content-length"@.len() != "s"@.len());
        reveal_strlit("l");
        assert(ascii_lower_seq("l"@) =~= "l"@);
        assert("l"@[0] != "s"@[0]);
        reveal_strlit("route");
        assert(ascii_lower_seq("route"@) =~= "route"@);
        assert("route"@.len() != "s"@.len());
        reveal_strlit("record-route");
        assert(ascii_lower_seq("record-route"@) =~= "record-route"@);
        assert("record-route"@.len() != "s"@.len());
        reveal_strlit("expires");
        assert(ascii_lower_seq("expires"@) =~= "expires"@);
        assert("expires"@.len() != "s"@.len());
        reveal_strlit("allow");
        assert(ascii_lower_seq("allow"@) =~= "allow"@);
        assert("allow"@.len() != "s"@.len());
        reveal_strlit("supported");
        assert(ascii_lower_seq("supported"@) =~= "supported"@);
        assert("supported"@.len() != "s"@.len());
        reveal_strlit("k");
        assert(ascii_lower_seq("k"@) =~= "k"@);
        assert("k"@[0] != "s"@[0]);
        reveal_strlit("require");
        assert(ascii_lower_seq("require"@) =~= "require"@);
        assert("require"@.len() != "s"@.len());
        reveal_strlit("authorization");
        assert(ascii_lower_seq("authorization"@) =~= "authorization"@);
        assert("authorization"@.len() != "s"@.len());
        reveal_strlit("proxy-authorization");
        assert(ascii_lower_seq("proxy-authorization"@) =~= "proxy-authorization"@);
        assert("proxy-authorization"@.len() != "s"@.len());
        reveal_strlit("www-authenticate");
        assert(ascii_lower_seq("www-authenticate"@) =~= "www-authenticate"@);
        assert("www-authenticate"@.len() != "s"@.len());
        reveal_strlit("proxy-authenticate");
        assert(ascii_lower_seq("proxy-authenticate"@) =~= "proxy-authenticate"@);
        assert("proxy-authenticate"@.len() != "s"@.len());
        reveal_strlit("date");
        assert(ascii_lower_seq("date"@) =~= "date"@);
        assert("date"@.len() != "s"@.len());
        reveal_strlit("min-expires");
        assert(ascii_lower_seq("min-expires"@) =~= "min-expires"@);
        assert("min-expires"@.len() != "s"@.len());
    }
}

// ---------------------------------------------------------------------------
// Header values
// ---------------------------------------------------------------------------

/// A header value as this library reads it: From/To and Contact values,
/// Call-ID, the numbers of Max-Forwards, Content-Length and Expires, the
/// Content-Type text, and the raw text of any other header or of a value
/// that could not be read.
#[derive(Debug, Clone)]
pub enum HeaderValue {
    FromTo(FromToHeader),
    CallId(String),
    Contact(ContactHeader),
    MaxForwards(u32),
    ContentType(String),
    ContentLength(usize),
    Expires(u32),
    Raw(String),
}

/// What a `HeaderValue` carries.
pub enum SpecHeaderValue {
    FromTo(SpecFromTo),
    CallId(Seq<char>),
    Contact(SpecContact),
    MaxForwards(u32),
    ContentType(Seq<char>),
    ContentLength(usize),
    Expires(u32),
    Raw(Seq<char>),
}

impl View for HeaderValue {
    type V = SpecHeaderValue;

    open spec fn view(&self) -> SpecHeaderValue {
        match self {
            HeaderValue::FromTo(h) => SpecHeaderValue::FromTo(h@),
            HeaderValue::CallId(c) => SpecHeaderValue::CallId(c@),
            HeaderValue::Contact(c) => SpecHeaderValue::Contact(c@),
            HeaderValue::MaxForwards(n) => SpecHeaderValue::MaxForwards(*n),
            HeaderValue::ContentType(t) => SpecHeaderValue::ContentType(t@),
            HeaderValue::ContentLength(n) => SpecHeaderValue::ContentLength(*n),
            HeaderValue::Expires(n) => SpecHeaderValue::Expires(*n),
            HeaderValue::Raw(t) => SpecHeaderValue::Raw(t@),
        }
    }
}

impl HeaderValue {
    /// The From or To value, if this is one.
    pub fn as_from_to(&self) -> (r: Option<&FromToHeader>)
        ensures
            match self@ {
                SpecHeaderValue::FromTo(h) => r matches Some(x) && x@ == h,
                _ => r is None,
            },
    {
        match self {
            HeaderValue::FromTo(h) => Some(h),
            _ => None,
        }
    }

    /// The Call-ID, if this is one.
    pub fn as_call_id(&self) -> (r: Option<&String>)
        ensures
            match self@ {
                SpecHeaderValue::CallId(c) => r matches Some(x) && x@ == c,
                _ => r is None,
            },
    {
        match self {
            HeaderValue::CallId(c) => Some(c),
            _ => None,
        }
    }

    /// The Contact value, if this is one.
    pub fn as_contact(&self) -> (r: Option<&ContactHeader>)
        ensures
            match self@ {
                SpecHeaderValue::Contact(c) => r matches Some(x) && x@ == c,
                _ => r is None,
            },
    {
        match self {
            HeaderValue::Contact(c) => Some(c),
            _ => None,
        }
    }

    /// The Max-Forwards number, if this is one.
    pub fn as_max_forwards(&self) -> (r: Option<u32>)
        ensures
            match self@ {
                SpecHeaderValue::MaxForwards(n) => r == Some(n),
                _ => r is None,
            },
    {
        match self {
            HeaderValue::MaxForwards(n) => Some(*n),
            _ => None,
        }
    }

    /// The Content-Length number, if this is one.
    pub fn as_content_length(&self) -> (r: Option<usize>)
        ensures
            match self@ {
                SpecHeaderValue::ContentLength(n) => r == Some(n),
                _ => r is None,
            },
    {
        match self {
            HeaderValue::ContentLength(n) => Some(*n),
            _ => None,
        }
    }
}

/// What a `ParseWarning` carries.
pub struct SpecWarning {
    pub name: Seq<char>,
    pub detail: Seq<char>,
    pub raw_value: Seq<char>,
}

impl View for ParseWarning {
    type V = SpecWarning;

    open spec fn view(&self) -> SpecWarning {
        SpecWarning { name: self.name@, detail: self.detail@, raw_value: self.raw_value@ }
    }
}

pub open spec fn warnings_view(ws: Seq<ParseWarning>) -> Seq<SpecWarning> {
    ws.map_values(|w: ParseWarning| w@)
}

/// The text an error gives as its reason: the detail of a malformed URI,
/// start line or header, the version of a wrong version, for a status code
/// its number, and for a message too large its size.
pub open spec fn error_detail(e: SpecParseError) -> Seq<char> {
    match e {
        SpecParseError::InvalidUri { detail } => detail,
        SpecParseError::InvalidStartLine { detail } => detail,
        SpecParseError::InvalidVersion { version } => version,
        SpecParseError::InvalidStatusCode { code } => crate::text::dec(code as nat),
        SpecParseError::InvalidHeader { detail, .. } => detail,
        SpecParseError::MessageTooLarge { size, .. } => crate::text::dec(size as nat),
    }
}

/// The reason text of `e`; see `error_detail`.
pub fn error_detail_text(e: &ParseError) -> (s: String)
    ensures
        s@ == error_detail(e@),
{
    match e {
        ParseError::InvalidUri { detail } => copy_string(detail),
        ParseError::InvalidStartLine { detail } => copy_string(detail),
        ParseError::InvalidVersion { version } => copy_string(version),
        ParseError::InvalidStatusCode { code } => crate::text::dec_string(*code as u64),
        ParseError::InvalidHeader { detail, .. } => copy_string(detail),
        ParseError::MessageTooLarge { size, .. } => crate::text::dec_string(*size as u64),
    }
}

/// The value of header `name` kept raw, with a warning saying why.
pub open spec fn raw_with_warning(name: HeaderName, value: Seq<char>, detail: Seq<char>) -> (
    SpecHeaderValue,
    Option<SpecWarning>,
) {
    (
        SpecHeaderValue::Raw(value),
        Some(SpecWarning { name: header_text(name), detail, raw_value: value }),
    )
}

/// Whether the values of header `name` have a grammar this library does
/// not read: Via, CSeq, Route, Record-Route, Allow and the authentication
/// headers. Since it cannot tell a good value of these from a bad one, it
/// keeps every such value raw and says so in a warning.
pub open spec fn value_type_elsewhere(name: HeaderName) -> bool {
    match name {
        HeaderName::Via | HeaderName::CSeq | HeaderName::Route | HeaderName::RecordRoute
        | HeaderName::Allow | HeaderName::Authorization | HeaderName::ProxyAuthorization
        | HeaderName::WwwAuthenticate | HeaderName::ProxyAuthenticate => true,
        _ => false,
    }
}

/// How the value text `value` of header `name` is read, with the warning
/// it gives when it cannot be: From and To values and Contact values by
/// their grammar, Max-Forwards and Expires as `u32` and Content-Length as
/// `usize` after trimming, Content-Type as its trimmed text, Call-ID as
/// it stands, any other header raw. A value that cannot be read is kept
/// raw, with a warning under the header's name; so are the values of the
/// headers whose grammar is not read here (`value_type_elsewhere`).
pub open spec fn read_header_value(name: HeaderName, value: Seq<char>) -> (
    SpecHeaderValue,
    Option<SpecWarning>,
) {
    if value_type_elsewhere(name) {
        raw_with_warning(name, value, "value kept raw"@)
    } else {
        match name {
            HeaderName::From | HeaderName::To => match spec_parse_from_to(value) {
                Ok(h) => (SpecHeaderValue::FromTo(h), None),
                Err(e) => raw_with_warning(name, value, error_detail(e)),
            },
            HeaderName::Contact => match spec_parse_contact(value) {
                Ok(c) => (SpecHeaderValue::Contact(c), None),
                Err(e) => raw_with_warning(name, value, error_detail(e)),
            },
            HeaderName::CallId => (SpecHeaderValue::CallId(value), None),
            HeaderName::MaxForwards => match parse_uint(trim(value), u32::MAX as nat) {
                Some(n) => (SpecHeaderValue::MaxForwards(n as u32), None),
                None => raw_with_warning(name, value, "invalid Max-Forwards value"@),
            },
            HeaderName::ContentType => (SpecHeaderValue::ContentType(trim(value)), None),
            HeaderName::ContentLength => match parse_uint(trim(value), usize::MAX as nat) {
                Some(n) => (SpecHeaderValue::ContentLength(n as usize), None),
                None => raw_with_warning(name, value, "invalid Content-Length value"@),
            },
            HeaderName::Expires => match parse_uint(trim(value), u32::MAX as nat) {
                Some(n) => (SpecHeaderValue::Expires(n as u32), None),
                None => raw_with_warning(name, value, "invalid Expires value"@),
            },
            _ => (SpecHeaderValue::Raw(value), None),
        }
    }
}

/// The warnings `ws` with `w` appended, if there is one.
pub open spec fn with_warning(ws: Seq<SpecWarning>, w: Option<SpecWarning>) -> Seq<SpecWarning> {
    match w {
        Some(x) => ws.push(x),
        None => ws,
    }
}

/// Reads the value text `value` of header `name`, appending to `warnings`
/// the warning it gives, if any; see `read_header_value`.
pub fn parse_header_value(name: &HeaderName, value: &str, warnings: &mut Vec<ParseWarning>) -> (r:
    HeaderValue)
    ensures
        r@ == read_header_value(*name, value@).0,
        warnings_view(final(warnings)@) == with_warning(
            warnings_view(old(warnings)@),
            read_header_value(*name, value@).1,
        ),
{
    match name {
        HeaderName::Via | HeaderName::CSeq | HeaderName::Route | HeaderName::RecordRoute
        | HeaderName::Allow | HeaderName::Authorization | HeaderName::ProxyAuthorization
        | HeaderName::WwwAuthenticate | HeaderName::ProxyAuthenticate => {
            push_warning(warnings, name, copy_str("value kept raw"), value);
            HeaderValue::Raw(copy_str(value))
        },
        HeaderName::From | HeaderName::To => match FromToHeader::parse(value) {
            Ok(h) => HeaderValue::FromTo(h),
            Err(e) => {
                let detail = error_detail_text(&e);
                push_warning(warnings, name, detail, value);
                HeaderValue::Raw(copy_str(value))
            },
        },
        HeaderName::Contact => match ContactHeader::parse(value) {
            Ok(c) => HeaderValue::Contact(c),
            Err(e) => {
                let detail = error_detail_text(&e);
                push_warning(warnings, name, detail, value);
                HeaderValue::Raw(copy_str(value))
            },
        },
        HeaderName::CallId => HeaderValue::CallId(copy_str(value)),
        HeaderName::MaxForwards => {
            let t = trim_vec(&chars_of(value));
            match parse_uint_vec(&t, 0xffff_ffff) {
                Some(n) => HeaderValue::MaxForwards(n as u32),
                None => {
                    push_warning(warnings, name, copy_str("invalid Max-Forwards value"), value);
                    HeaderValue::Raw(copy_str(value))
                },
            }
        },
        HeaderName::ContentType => {
            let t = trim_vec(&chars_of(value));
            HeaderValue::ContentType(string_of(&t))
        },
        HeaderName::ContentLength => {
            let t = trim_vec(&chars_of(value));
            match parse_uint_vec(&t, usize::MAX as u64) {
                Some(n) => HeaderValue::ContentLength(n as usize),
                None => {
                    push_warning(warnings, name, copy_str("invalid Content-Length value"), value);
                    HeaderValue::Raw(copy_str(value))
                },
            }
        },
        HeaderName::Expires => {
            let t = trim_vec(&chars_of(value));
            match parse_uint_vec(&t, 0xffff_ffff) {
                Some(n) => HeaderValue::Expires(n as u32),
                None => {
                    push_warning(warnings, name, copy_str("invalid Expires value"), value);
                    HeaderValue::Raw(copy_str(value))
                },
            }
        },
        _ => HeaderValue::Raw(copy_str(value)),
    }
}

/// Appends the warning that the value `value` of header `name` was kept
/// raw, for `detail`.
fn push_warning(warnings: &mut Vec<ParseWarning>, name: &HeaderName, detail: String, value: &str)
    ensures
        warnings_view(final(warnings)@) == warnings_view(old(warnings)@).push(
            SpecWarning { name: header_text(*name), detail: detail@, raw_value: value@ },
        ),
{
    let w = ParseWarning { name: name.to_string(), detail, raw_value: copy_str(value) };
    let ghost before = warnings@;
    warnings.push(w);
    assert(warnings_view(warnings@) =~= warnings_view(before).push(w@));
}

// ---------------------------------------------------------------------------
// Header collections
// ---------------------------------------------------------------------------

/// A header name as the collection compares them: a known header, or an
/// extension header by its spelling.
pub enum SpecHeaderName {
    Known(HeaderName),
    Other(Seq<char>),
}

pub open spec fn name_view(h: HeaderName) -> SpecHeaderName {
    match h {
        HeaderName::Extension(n) => SpecHeaderName::Other(n@),
        _ => SpecHeaderName::Known(h),
    }
}

/// The header name that the text `s` gives (see `from_str_case_insensitive`).
pub open spec fn spec_header_name(s: Seq<char>) -> SpecHeaderName {
    match header_kind(s) {
        Some(k) => SpecHeaderName::Known(k),
        None => SpecHeaderName::Other(s),
    }
}

pub open spec fn known_index(h: HeaderName) -> u8 {
    match h {
        HeaderName::Via => 0,
        HeaderName::From => 1,
        HeaderName::To => 2,
        HeaderName::CallId => 3,
        HeaderName::CSeq => 4,
        HeaderName::Contact => 5,
        HeaderName::MaxForwards => 6,
        HeaderName::ContentType => 7,
        HeaderName::ContentLength => 8,
        HeaderName::Route => 9,
        HeaderName::RecordRoute => 10,
        HeaderName::Expires => 11,
        HeaderName::Allow => 12,
        HeaderName::Supported => 13,
        HeaderName::Require => 14,
        HeaderName::Authorization => 15,
        HeaderName::ProxyAuthorization => 16,
        HeaderName::WwwAuthenticate => 17,
        HeaderName::ProxyAuthenticate => 18,
        HeaderName::Date => 19,
        HeaderName::MinExpires => 20,
        HeaderName::Subject => 21,
        HeaderName::UserAgent => 22,
        HeaderName::Server => 23,
        HeaderName::Reason => 24,
        HeaderName::Warning => 25,
        HeaderName::Extension(_) => 26,
    }
}

fn known_index_of(h: &HeaderName) -> (r: u8)
    ensures
        r == known_index(*h),
{
    match h {
        HeaderName::Via => 0,
        HeaderName::From => 1,
        HeaderName::To => 2,
        HeaderName::CallId => 3,
        HeaderName::CSeq => 4,
        HeaderName::Contact => 5,
        HeaderName::MaxForwards => 6,
        HeaderName::ContentType => 7,
        HeaderName::ContentLength => 8,
        HeaderName::Route => 9,
        HeaderName::RecordRoute => 10,
        HeaderName::Expires => 11,
        HeaderName::Allow => 12,
        HeaderName::Supported => 13,
        HeaderName::Require => 14,
        HeaderName::Authorization => 15,
        HeaderName::ProxyAuthorization => 16,
        HeaderName::WwwAuthenticate => 17,
        HeaderName::ProxyAuthenticate => 18,
        HeaderName::Date => 19,
        HeaderName::MinExpires => 20,
        HeaderName::Subject => 21,
        HeaderName::UserAgent => 22,
        HeaderName::Server => 23,
        HeaderName::Reason => 24,
        HeaderName::Warning => 25,
        HeaderName::Extension(_) => 26,
    }
}

/// Whether `a` and `b` name the same header: the same known header, or
/// extension headers spelled alike.
pub fn same_name(a: &HeaderName, b: &HeaderName) -> (r: bool)
    ensures
        r == (name_view(*a) == name_view(*b)),
{
    match (a, b) {
        (HeaderName::Extension(x), HeaderName::Extension(y)) => {
            let xv = chars_of(x.as_str());
            let yv = chars_of(y.as_str());
            vec_eq(&xv, &yv)
        },
        (HeaderName::Extension(_), _) => false,
        (_, HeaderName::Extension(_)) => false,
        _ => known_index_of(a) == known_index_of(b),
    }
}

/// The ordered headers of a message; headers of one name (several Via
/// headers, say) keep the order in which they were added.
#[derive(Debug, Clone)]
pub struct HeaderCollection {
    headers: Vec<(HeaderName, HeaderValue)>,
}

pub open spec fn entry_view(p: (HeaderName, HeaderValue)) -> (SpecHeaderName, SpecHeaderValue) {
    (name_view(p.0), p.1@)
}

impl View for HeaderCollection {
    type V = Seq<(SpecHeaderName, SpecHeaderValue)>;

    closed spec fn view(&self) -> Seq<(SpecHeaderName, SpecHeaderValue)> {
        self.headers@.map_values(|p: (HeaderName, HeaderValue)| entry_view(p))
    }
}

/// The value of the first header named `n` in `es`.
pub open spec fn first_named(es: Seq<(SpecHeaderName, SpecHeaderValue)>, n: SpecHeaderName) -> Option<
    SpecHeaderValue,
>
    decreases es.len(),
{
    if es.len() == 0 {
        None
    } else if es[0].0 == n {
        Some(es[0].1)
    } else {
        first_named(es.drop_first(), n)
    }
}

/// The values of the headers named `n` in `es`, in order.
pub open spec fn all_named(es: Seq<(SpecHeaderName, SpecHeaderValue)>, n: SpecHeaderName) -> Seq<
    SpecHeaderValue,
>
    decreases es.len(),
{
    if es.len() == 0 {
        Seq::empty()
    } else if es.last().0 == n {
        all_named(es.drop_last(), n).push(es.last().1)
    } else {
        all_named(es.drop_last(), n)
    }
}

/// The headers of `es` not named `n`, in order.
pub open spec fn without_named(es: Seq<(SpecHeaderName, SpecHeaderValue)>, n: SpecHeaderName) -> Seq<
    (SpecHeaderName, SpecHeaderValue),
>
    decreases es.len(),
{
    if es.len() == 0 {
        Seq::empty()
    } else if es.last().0 == n {
        without_named(es.drop_last(), n)
    } else {
        without_named(es.drop_last(), n).push(es.last())
    }
}

pub open spec fn has_named(es: Seq<(SpecHeaderName, SpecHeaderValue)>, n: SpecHeaderName) -> bool {
    exists|k: int| 0 <= k < es.len() && (#[trigger] es[k]).0 == n
}

impl HeaderCollection {
    /// An empty collection.
    pub fn new() -> (c: HeaderCollection)
        ensures
            c@ == Seq::<(SpecHeaderName, SpecHeaderValue)>::empty(),
    {
        let c = HeaderCollection { headers: Vec::new() };
        assert(c@ =~= Seq::<(SpecHeaderName, SpecHeaderValue)>::empty());
        c
    }

    /// The value of the first header named `name`.
    pub fn get(&self, name: &HeaderName) -> (r: Option<&HeaderValue>)
        ensures
            match first_named(self@, name_view(*name)) {
                Some(v) => r matches Some(x) && x@ == v,
                None => r is None,
            },
    {
        let ghost es = self@;
        let ghost n = name_view(*name);
        let mut i: usize = 0;
        assert(es.skip(0) =~= es);
        while i < self.headers.len()
            invariant
                i <= self.headers@.len(),
                es == self@,
                es.len() == self.headers@.len(),
                n == name_view(*name),
                first_named(es, n) == first_named(es.skip(i as int), n),
            decreases self.headers@.len() - i,
        {
            assert(es.skip(i as int)[0] == es[i as int]);
            assert(es.skip(i as int).drop_first() =~= es.skip(i + 1));
            assert(es[i as int] == entry_view(self.headers@[i as int]));
            if same_name(&self.headers[i].0, name) {
                return Some(&self.headers[i].1);
            }
            i += 1;
        }
        None
    }

    /// The values of all headers named `name`, in order.
    pub fn get_all(&self, name: &HeaderName) -> (r: Vec<&HeaderValue>)
        ensures
            r@.map_values(|v: &HeaderValue| v@) == all_named(self@, name_view(*name)),
    {
        let ghost es = self@;
        let ghost n = name_view(*name);
        let mut r: Vec<&HeaderValue> = Vec::new();
        let mut i: usize = 0;
        assert(es.take(0) =~= Seq::<(SpecHeaderName, SpecHeaderValue)>::empty());
        while i < self.headers.len()
            invariant
                i <= self.headers@.len(),
                es == self@,
                es.len() == self.headers@.len(),
                n == name_view(*name),
                r@.map_values(|v: &HeaderValue| v@) == all_named(es.take(i as int), n),
            decreases self.headers@.len() - i,
        {
            assert(es.take(i + 1).drop_last() =~= es.take(i as int));
            assert(es[i as int] == entry_view(self.headers@[i as int]));
            let ghost before = r@;
            if same_name(&self.headers[i].0, name) {
                r.push(&self.headers[i].1);
                assert(r@.map_values(|v: &HeaderValue| v@) =~= before.map_values(
                    |v: &HeaderValue| v@,
                ).push(es[i as int].1));
            }
            i += 1;
        }
        assert(es.take(i as int) =~= es);
        r
    }

    /// Adds a header after the others.
    pub fn insert(&mut self, name: HeaderName, value: HeaderValue)
        ensures
            final(self)@ == old(self)@.push((name_view(name), value@)),
    {
        let ghost before = self.headers@;
        self.headers.push((name, value));
        assert(self@ =~= before.map_values(|p: (HeaderName, HeaderValue)| entry_view(p)).push(
            (name_view(name), value@),
        ));
    }

    /// Drops every header named `name`.
    pub fn remove(&mut self, name: &HeaderName)
        ensures
            final(self)@ == without_named(old(self)@, name_view(*name)),
    {
        let ghost es = self@;
        let ghost n = name_view(*name);
        let ghost orig = self.headers@;
        let mut rest: Vec<(HeaderName, HeaderValue)> = Vec::new();
        std::mem::swap(&mut rest, &mut self.headers);
        let mut kept: Vec<(HeaderName, HeaderValue)> = Vec::new();
        let ghost mut k: int = 0;
        assert(es.take(0) =~= Seq::<(SpecHeaderName, SpecHeaderValue)>::empty());
        assert(orig.skip(0) =~= orig);
        while rest.len() > 0
            invariant
                0 <= k <= orig.len(),
                es == orig.map_values(|p: (HeaderName, HeaderValue)| entry_view(p)),
                n == name_view(*name),
                rest@ == orig.skip(k),
                kept@.map_values(|p: (HeaderName, HeaderValue)| entry_view(p)) == without_named(
                    es.take(k),
                    n,
                ),
            decreases rest@.len(),
        {
            let p = rest.remove(0);
            assert(p == orig[k]);
            assert(es.take(k + 1).drop_last() =~= es.take(k));
            assert(es.take(k + 1).last() == entry_view(p));
            let ghost kv = kept@;
            if !same_name(&p.0, name) {
                kept.push(p);
                assert(kept@.map_values(|q: (HeaderName, HeaderValue)| entry_view(q)) =~= kv.map_values(
                    |q: (HeaderName, HeaderValue)| entry_view(q),
                ).push(entry_view(p)));
            }
            proof {
                assert(rest@ =~= orig.skip(k + 1));
                k = k + 1;
            }
        }
        assert(es.take(k) =~= es);
        self.headers = kept;
    }

    /// The headers, in order.
    pub fn iter(&self) -> (r: Vec<(&HeaderName, &HeaderValue)>)
        ensures
            r@.map_values(|p: (&HeaderName, &HeaderValue)| (name_view(*p.0), p.1@)) == self@,
    {
        let ghost es = self@;
        let mut r: Vec<(&HeaderName, &HeaderValue)> = Vec::new();
        let mut i: usize = 0;
        while i < self.headers.len()
            invariant
                i <= self.headers@.len(),
                es == self@,
                es.len() == self.headers@.len(),
                r@.map_values(|p: (&HeaderName, &HeaderValue)| (name_view(*p.0), p.1@)) == es.take(
                    i as int,
                ),
            decreases self.headers@.len() - i,
        {
            assert(es[i as int] == entry_view(self.headers@[i as int]));
            let ghost before = r@;
            let entry = &self.headers[i];
            r.push((&entry.0, &entry.1));
            assert(es.take(i + 1) =~= es.take(i as int).push(es[i as int]));
            assert(r@.map_values(|p: (&HeaderName, &HeaderValue)| (name_view(*p.0), p.1@))
                =~= before.map_values(|p: (&HeaderName, &HeaderValue)| (name_view(*p.0), p.1@)).push(
                (name_view(entry.0), entry.1@),
            ));
            i += 1;
        }
        assert(es.take(i as int) =~= es);
        r
    }

    /// The number of headers.
    pub fn len(&self) -> (n: usize)
        ensures
            n == self@.len(),
    {
        self.headers.len()
    }

    /// Whether there is no header.
    pub fn is_empty(&self) -> (b: bool)
        ensures
            b == (self@.len() == 0),
    {
        self.headers.len() == 0
    }

    /// Whether a header named `name` is present.
    pub fn contains(&self, name: &HeaderName) -> (b: bool)
        ensures
            b == has_named(self@, name_view(*name)),
    {
        let ghost es = self@;
        let ghost n = name_view(*name);
        let mut i: usize = 0;
        while i < self.headers.len()
            invariant
                i <= self.headers@.len(),
                es == self@,
                es.len() == self.headers@.len(),
                n == name_view(*name),
                forall|j: int| 0 <= j < i ==> (#[trigger] es[j]).0 != n,
            decreases self.headers@.len() - i,
        {
            assert(es[i as int] == entry_view(self.headers@[i as int]));
            if same_name(&self.headers[i].0, name) {
                return true;
            }
            i += 1;
        }
        false
    }
}

impl Default for HeaderCollection {
    fn default() -> (c: HeaderCollection)
        ensures
            c@ == Seq::<(SpecHeaderName, SpecHeaderValue)>::empty(),
    {
        HeaderCollection::new()
    }
}

} // verus!

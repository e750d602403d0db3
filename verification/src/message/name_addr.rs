//! Headers of the form `Display-Name <uri>;params`: Contact (with its
//! `expires` parameter) and From/To (with the dialog `tag`).
use vstd::prelude::*;

use crate::message::error::{ParseError, SpecParseError};
use crate::message::uri::{spec_parse_uri, uri_text, SipUri, SpecSipUri};
use crate::text::{
    chars_of, copy_str, copy_string, dec, eq_ascii_ci, find_char, find_in, lemma_deep_chars,
    opt_view, parse_uint, parse_uint_vec, push_dec, push_str, split_char, split_vec,
    string_of, sub_vec, trim, trim_vec, vec_eq_ascii_ci,
};

verus! {

// ---------------------------------------------------------------------------
// Display name and URI
// ---------------------------------------------------------------------------

/// Reading of `Display-Name <uri>;params` for header `name`, after
/// trimming: the display name (quoted, or the text before `<`), the URI
/// (inside `<...>`, or up to the first `;`), and the parameter text (after
/// an optional leading `;`, trimmed).
pub open spec fn spec_name_addr(s: Seq<char>, name: Seq<char>) -> Result<
    (Option<Seq<char>>, SpecSipUri, Seq<char>),
    SpecParseError,
> {
    let l = trim(s);
    let dn_r: Result<(Option<Seq<char>>, Seq<char>), SpecParseError> = if l.len() > 0 && l[0]
        == '"' {
        match find_char(l.skip(1), '"') {
            Some(q) => Ok((Some(l.subrange(1, q + 1int)), trim(l.skip(q + 2int)))),
            None => Err(
                SpecParseError::InvalidHeader {
                    name,
                    detail: "unclosed quote in display name"@,
                },
            ),
        }
    } else if !(l.len() > 0 && l[0] == '<') {
        match find_char(l, '<') {
            Some(lt) => {
                let n = trim(l.take(lt as int));
                Ok(
                    (
                        if n.len() == 0 {
                            None
                        } else {
                            Some(n)
                        },
                        trim(l.skip(lt as int)),
                    ),
                )
            },
            None => Ok((None, l)),
        }
    } else {
        Ok((None, l))
    };
    match dn_r {
        Err(e) => Err(e),
        Ok((dn, rem)) => {
            let uri_r: Result<(Seq<char>, Seq<char>), SpecParseError> = if rem.len() > 0 && rem[0]
                == '<' {
                match find_char(rem, '>') {
                    Some(gt) => Ok((rem.subrange(1, gt as int), trim(rem.skip(gt + 1int)))),
                    None => Err(
                        SpecParseError::InvalidHeader { name, detail: "unclosed '<' in URI"@ },
                    ),
                }
            } else {
                let e: int = match find_char(rem, ';') {
                    Some(k) => k as int,
                    None => rem.len() as int,
                };
                Ok((rem.take(e), trim(rem.skip(e))))
            };
            match uri_r {
                Err(e) => Err(e),
                Ok((us, after)) => match spec_parse_uri(us) {
                    Err(d) => Err(SpecParseError::InvalidUri { detail: d }),
                    Ok(u) => Ok(
                        (
                            dn,
                            u,
                            if after.len() > 0 && after[0] == ';' {
                                trim(after.skip(1))
                            } else {
                                after
                            },
                        ),
                    ),
                },
            }
        },
    }
}

/// Reads the display name, URI and parameter text; see `spec_name_addr`.
fn parse_name_addr(s: &str, name: &str) -> (r: Result<(Option<String>, SipUri, Vec<char>), ParseError>)
    ensures
        match spec_name_addr(s@, name@) {
            Ok((dn, u, p)) => r matches Ok(x) && opt_view(x.0) == dn && x.1@ == u && x.2@ == p,
            Err(e) => r matches Err(x) && x@ == e,
        },
{
    let v = chars_of(s);
    let l = trim_vec(&v);
    let n = l.len();
    let mut display_name: Option<String> = None;
    let rem: Vec<char>;
    if n > 0 && l[0] == '"' {
        let tail = sub_vec(&l, 1, n);
        assert(tail@ == l@.skip(1));
        match find_in(&tail, '"') {
            Some(q) => {
                display_name = Some(string_of(&sub_vec(&l, 1, q + 1)));
                let after = sub_vec(&l, q + 2, n);
                assert(after@ == l@.skip(q + 2));
                rem = trim_vec(&after);
            },
            None => {
                return Err(
                    ParseError::InvalidHeader {
                        name: copy_str(name),
                        detail: copy_str("unclosed quote in display name"),
                    },
                );
            },
        }
    } else if !(n > 0 && l[0] == '<') {
        match find_in(&l, '<') {
            Some(lt) => {
                let before = sub_vec(&l, 0, lt);
                assert(before@ == l@.take(lt as int));
                let nm = trim_vec(&before);
                if nm.len() > 0 {
                    display_name = Some(string_of(&nm));
                }
                let after = sub_vec(&l, lt, n);
                assert(after@ == l@.skip(lt as int));
                rem = trim_vec(&after);
            },
            None => {
                rem = l;
            },
        }
    } else {
        rem = l;
    }
    let m = rem.len();
    let uri_v: Vec<char>;
    let after: Vec<char>;
    if m > 0 && rem[0] == '<' {
        match find_in(&rem, '>') {
            Some(gt) => {
                uri_v = sub_vec(&rem, 1, gt);
                let a = sub_vec(&rem, gt + 1, m);
                assert(a@ == rem@.skip(gt + 1));
                after = trim_vec(&a);
            },
            None => {
                return Err(
                    ParseError::InvalidHeader {
                        name: copy_str(name),
                        detail: copy_str("unclosed '<' in URI"),
                    },
                );
            },
        }
    } else {
        let e = match find_in(&rem, ';') {
            Some(k) => k,
            None => m,
        };
        uri_v = sub_vec(&rem, 0, e);
        assert(uri_v@ == rem@.take(e as int));
        let a = sub_vec(&rem, e, m);
        assert(a@ == rem@.skip(e as int));
        after = trim_vec(&a);
    }
    let us = string_of(&uri_v);
    let uri = match SipUri::parse(us.as_str()) {
        Ok(u) => u,
        Err(e) => {
            return Err(e);
        },
    };
    let params = if after.len() > 0 && after[0] == ';' {
        let a = sub_vec(&after, 1, after.len());
        assert(a@ == after@.skip(1));
        trim_vec(&a)
    } else {
        after
    };
    Ok((display_name, uri, params))
}

/// Whether a display name is written in quotes: it holds a space, a
/// comma or a semicolon.
pub open spec fn needs_quotes(n: Seq<char>) -> bool {
    n.contains(' ') || n.contains(',') || n.contains(';')
}

/// A display name as written, with the space before the URI; nothing
/// without one.
pub open spec fn display_text(dn: Option<Seq<char>>) -> Seq<char> {
    match dn {
        Some(n) => if needs_quotes(n) {
            "\""@ + n + "\""@ + " "@
        } else {
            n + " "@
        },
        None => Seq::empty(),
    }
}

fn has_quote_char(v: &Vec<char>) -> (b: bool)
    ensures
        b == needs_quotes(v@),
{
    let mut i: usize = 0;
    while i < v.len()
        invariant
            i <= v@.len(),
            forall|j: int| 0 <= j < i ==> v@[j] != ' ' && v@[j] != ',' && v@[j] != ';',
        decreases v@.len() - i,
    {
        if v[i] == ' ' || v[i] == ',' || v[i] == ';' {
            assert(v@.contains(v@[i as int]));
            return true;
        }
        i += 1;
    }
    false
}

/// Writes the display name and the URI in angle brackets.
fn push_name_addr(s: &mut String, dn: &Option<String>, uri: &SipUri)
    ensures
        final(s)@ == old(s)@ + display_text(opt_view(*dn)) + "<"@ + uri_text(uri@) + ">"@,
{
    let ghost start = s@;
    match dn {
        Some(n) => {
            let nv = chars_of(n.as_str());
            if has_quote_char(&nv) {
                push_str(s, "\"");
                push_str(s, n.as_str());
                push_str(s, "\"");
            } else {
                push_str(s, n.as_str());
            }
            push_str(s, " ");
        },
        None => {},
    }
    push_str(s, "<");
    let u = uri.to_string();
    push_str(s, u.as_str());
    push_str(s, ">");
    assert(s@ =~= start + display_text(opt_view(*dn)) + "<"@ + uri_text(uri@) + ">"@);
}

// ---------------------------------------------------------------------------
// Contact
// ---------------------------------------------------------------------------

/// `Display-Name <uri>;expires=n`.
#[derive(Debug, Clone, PartialEq, Eq)]
pub struct ContactHeader {
    pub display_name: Option<String>,
    pub uri: SipUri,
    /// Lifetime in seconds.
    pub expires: Option<u32>,
}

#[verifier::ext_equal]
pub struct SpecContact {
    pub display_name: Option<Seq<char>>,
    pub uri: SpecSipUri,
    pub expires: Option<u32>,
}

impl View for ContactHeader {
    type V = SpecContact;

    open spec fn view(&self) -> SpecContact {
        SpecContact {
            display_name: opt_view(self.display_name),
            uri: self.uri@,
            expires: self.expires,
        }
    }
}

/// One more parameter of a Contact: an `expires` key (in any case) sets
/// the lifetime, which must be a `u32`; others are passed over.
pub open spec fn expires_step(acc: Result<Option<u32>, Seq<char>>, piece: Seq<char>) -> Result<
    Option<u32>,
    Seq<char>,
> {
    match acc {
        Err(d) => Err(d),
        Ok(cur) => {
            let t = trim(piece);
            match find_char(t, '=') {
                Some(e) => if eq_ascii_ci(t.take(e as int), "expires"@) {
                    let v = t.skip(e + 1int);
                    match parse_uint(v, 4294967295) {
                        Some(n) => Ok(Some(n as u32)),
                        None => Err("invalid expires value: "@ + v),
                    }
                } else {
                    Ok(cur)
                },
                None => Ok(cur),
            }
        },
    }
}

/// The lifetime the `;`-separated parameters give: that of the last
/// `expires`, none without one; the message of the first bad one.
pub open spec fn expires_of(pieces: Seq<Seq<char>>) -> Result<Option<u32>, Seq<char>>
    decreases pieces.len(),
{
    if pieces.len() == 0 {
        Ok(None)
    } else {
        expires_step(expires_of(pieces.drop_last()), pieces.last())
    }
}

/// Reading of a Contact value; the wildcard `*` is refused.
pub open spec fn spec_parse_contact(s: Seq<char>) -> Result<SpecContact, SpecParseError> {
    if trim(s) == "*"@ {
        Err(
            SpecParseError::InvalidHeader {
                name: "Contact"@,
                detail: "wildcard Contact (*) is not representable as ContactHeader"@,
            },
        )
    } else {
        match spec_name_addr(s, "Contact"@) {
            Err(e) => Err(e),
            Ok((dn, u, p)) => match expires_of(split_char(p, ';')) {
                Err(d) => Err(SpecParseError::InvalidHeader { name: "Contact"@, detail: d }),
                Ok(ex) => Ok(SpecContact { display_name: dn, uri: u, expires: ex }),
            },
        }
    }
}

/// How a Contact value is written.
pub open spec fn contact_text(c: SpecContact) -> Seq<char> {
    display_text(c.display_name) + "<"@ + uri_text(c.uri) + ">"@ + match c.expires {
        Some(e) => ";expires="@ + dec(e as nat),
        None => Seq::empty(),
    }
}

impl ContactHeader {
    /// A Contact of `uri` without display name or lifetime.
    pub fn new(uri: SipUri) -> (c: ContactHeader)
        ensures
            c@ == (SpecContact { display_name: None, uri: uri@, expires: None }),
    {
        ContactHeader { display_name: None, uri, expires: None }
    }

    pub fn with_display_name(self, name: &str) -> (c: ContactHeader)
        ensures
            c@ == (SpecContact { display_name: Some(name@), ..self@ }),
    {
        ContactHeader { display_name: Some(copy_str(name)), ..self }
    }

    pub fn with_expires(self, expires: u32) -> (c: ContactHeader)
        ensures
            c@ == (SpecContact { expires: Some(expires), ..self@ }),
    {
        ContactHeader { expires: Some(expires), ..self }
    }

    /// Reads a Contact value such as `Alice <sip:alice@host>;expires=600`;
    /// see `spec_parse_contact`.
    pub fn parse(s: &str) -> (r: Result<ContactHeader, ParseError>)
        ensures
            match spec_parse_contact(s@) {
                Ok(c) => r matches Ok(x) && x@ == c,
                Err(e) => r matches Err(x) && x@ == e,
            },
    {
        let v = chars_of(s);
        let t = trim_vec(&v);
        if crate::text::vec_eq_str(&t, "*") {
            return Err(
                ParseError::InvalidHeader {
                    name: copy_str("Contact"),
                    detail: copy_str("wildcard Contact (*) is not representable as ContactHeader"),
                },
            );
        }
        let (display_name, uri, params) = match parse_name_addr(s, "Contact") {
            Ok(x) => x,
            Err(e) => {
                return Err(e);
            },
        };
        let pieces = split_vec(&params, ';');
        proof {
            lemma_deep_chars(pieces);
        }
        let ghost pv = pieces.deep_view();
        let mut expires: Option<u32> = None;
        let mut i: usize = 0;
        while i < pieces.len()
            invariant
                i <= pieces@.len(),
                pv == pieces.deep_view(),
                pv.len() == pieces@.len(),
                forall|j: int| 0 <= j < pieces@.len() ==> #[trigger] pieces@[j]@ == pv[j],
                expires_of(pv.take(i as int)) == Ok::<Option<u32>, Seq<char>>(expires),
                pv == split_char(params@, ';'),
                trim(s@) != "*"@,
                spec_name_addr(s@, "Contact"@) == Ok::<
                    (Option<Seq<char>>, SpecSipUri, Seq<char>),
                    SpecParseError,
                >((opt_view(display_name), uri@, params@)),
            decreases pieces@.len() - i,
        {
            assert(pv.take(i + 1).drop_last() == pv.take(i as int));
            assert(pv.take(i + 1).last() == pv[i as int]);
            let t = trim_vec(&pieces[i]);
            let tl = t.len();
            match find_in(&t, '=') {
                Some(e) => {
                    let key = sub_vec(&t, 0, e);
                    assert(key@ == t@.take(e as int));
                    let expires_key = chars_of("expires");
                    if vec_eq_ascii_ci(&key, &expires_key) {
                        let value = sub_vec(&t, e + 1, tl);
                        assert(value@ == t@.skip(e + 1));
                        match parse_uint_vec(&value, 4294967295) {
                            Some(n) => {
                                expires = Some(n as u32);
                            },
                            None => {
                                let mut detail = copy_str("invalid expires value: ");
                                let vs = string_of(&value);
                                push_str(&mut detail, vs.as_str());
                                proof {
                                    assert(t@ == trim(pv[i as int]));
                                    assert(expires_of(pv.take(i + 1)) == expires_step(
                                        Ok(expires),
                                        pv[i as int],
                                    ));
                                    assert(detail@ == "invalid expires value: "@ + value@);
                                    lemma_expires_err_sticks(pv, i as int + 1);
                                }
                                return Err(
                                    ParseError::InvalidHeader { name: copy_str("Contact"), detail },
                                );
                            },
                        }
                    }
                },
                None => {},
            }
            i += 1;
        }
        assert(pv.take(pv.len() as int) == pv);
        Ok(ContactHeader { display_name, uri, expires })
    }

    /// The value as written; see `contact_text`.
    pub fn to_string(&self) -> (s: String)
        ensures
            s@ == contact_text(self@),
    {
        let mut s = String::new();
        push_name_addr(&mut s, &self.display_name, &self.uri);
        match self.expires {
            Some(e) => {
                push_str(&mut s, ";expires=");
                push_dec(&mut s, e as u64);
            },
            None => {},
        }
        s
    }
}

/// Once a parameter is bad, the reading stays failed.
proof fn lemma_expires_err_sticks(pieces: Seq<Seq<char>>, k: int)
    requires
        0 <= k <= pieces.len(),
        expires_of(pieces.take(k)) is Err,
    ensures
        expires_of(pieces) == expires_of(pieces.take(k)),
    decreases pieces.len() - k,
{
    if k < pieces.len() {
        assert(pieces.take(k + 1).drop_last() == pieces.take(k));
        lemma_expires_err_sticks(pieces, k + 1);
    } else {
        assert(pieces.take(k) == pieces);
    }
}

// ---------------------------------------------------------------------------
// From and To
// ---------------------------------------------------------------------------

/// A dialog tag.
#[derive(Debug, Clone, PartialEq, Eq)]
pub struct Tag(pub String);

impl Tag {
    /// A fresh random tag (a version 4 UUID).
    pub fn new() -> (t: Tag)
        ensures
            crate::transaction::event::is_v4_uuid_text(t.0@),
    {
        Tag(crate::transaction::event::new_v4_string())
    }

    /// The tag's text.
    pub fn to_string(&self) -> (s: String)
        ensures
            s@ == self.0@,
    {
        copy_string(&self.0)
    }
}

/// `Display-Name <uri>;tag=t`.
#[derive(Debug, Clone, PartialEq, Eq)]
pub struct FromToHeader {
    pub display_name: Option<String>,
    pub uri: SipUri,
    pub tag: Option<Tag>,
}

#[verifier::ext_equal]
pub struct SpecFromTo {
    pub display_name: Option<Seq<char>>,
    pub uri: SpecSipUri,
    pub tag: Option<Seq<char>>,
}

pub open spec fn tag_view(t: Option<Tag>) -> Option<Seq<char>> {
    match t {
        Some(x) => Some(x.0@),
        None => None,
    }
}

impl View for FromToHeader {
    type V = SpecFromTo;

    open spec fn view(&self) -> SpecFromTo {
        SpecFromTo {
            display_name: opt_view(self.display_name),
            uri: self.uri@,
            tag: tag_view(self.tag),
        }
    }
}

/// The tag the `;`-separated parameters give: the value of the last `tag`
/// key (in any case), none without one.
pub open spec fn tag_of(pieces: Seq<Seq<char>>) -> Option<Seq<char>>
    decreases pieces.len(),
{
    if pieces.len() == 0 {
        None
    } else {
        let cur = tag_of(pieces.drop_last());
        let t = trim(pieces.last());
        match find_char(t, '=') {
            Some(e) => if eq_ascii_ci(t.take(e as int), "tag"@) {
                Some(t.skip(e + 1int))
            } else {
                cur
            },
            None => cur,
        }
    }
}

/// Reading of a From or To value.
pub open spec fn spec_parse_from_to(s: Seq<char>) -> Result<SpecFromTo, SpecParseError> {
    match spec_name_addr(s, "From/To"@) {
        Err(e) => Err(e),
        Ok((dn, u, p)) => Ok(SpecFromTo { display_name: dn, uri: u, tag: tag_of(split_char(p, ';')) }),
    }
}

/// How a From or To value is written.
pub open spec fn from_to_text(h: SpecFromTo) -> Seq<char> {
    display_text(h.display_name) + "<"@ + uri_text(h.uri) + ">"@ + match h.tag {
        Some(t) => ";tag="@ + t,
        None => Seq::empty(),
    }
}

impl FromToHeader {
    /// A header of `uri` without display name or tag.
    pub fn new(uri: SipUri) -> (h: FromToHeader)
        ensures
            h@ == (SpecFromTo { display_name: None, uri: uri@, tag: None }),
    {
        FromToHeader { display_name: None, uri, tag: None }
    }

    /// A header of `uri` with a fresh random tag.
    pub fn with_generated_tag(uri: SipUri) -> (h: FromToHeader)
        ensures
            h.display_name is None,
            h.uri@ == uri@,
            h.tag matches Some(t) && crate::transaction::event::is_v4_uuid_text(t.0@),
    {
        FromToHeader { display_name: None, uri, tag: Some(Tag::new()) }
    }

    pub fn with_display_name(self, name: &str) -> (h: FromToHeader)
        ensures
            h@ == (SpecFromTo { display_name: Some(name@), ..self@ }),
    {
        FromToHeader { display_name: Some(copy_str(name)), ..self }
    }

    pub fn with_tag(self, tag: Tag) -> (h: FromToHeader)
        ensures
            h@ == (SpecFromTo { tag: Some(tag.0@), ..self@ }),
    {
        FromToHeader { tag: Some(tag), ..self }
    }

    /// Reads a From or To value such as `"Alice Smith" <sip:a@host>;tag=x`;
    /// see `spec_parse_from_to`.
    pub fn parse(s: &str) -> (r: Result<FromToHeader, ParseError>)
        ensures
            match spec_parse_from_to(s@) {
                Ok(h) => r matches Ok(x) && x@ == h,
                Err(e) => r matches Err(x) && x@ == e,
            },
    {
        let (display_name, uri, params) = match parse_name_addr(s, "From/To") {
            Ok(x) => x,
            Err(e) => {
                return Err(e);
            },
        };
        let pieces = split_vec(&params, ';');
        proof {
            lemma_deep_chars(pieces);
        }
        let ghost pv = pieces.deep_view();
        let mut tag: Option<Tag> = None;
        let mut i: usize = 0;
        while i < pieces.len()
            invariant
                i <= pieces@.len(),
                pv == pieces.deep_view(),
                pv.len() == pieces@.len(),
                forall|j: int| 0 <= j < pieces@.len() ==> #[trigger] pieces@[j]@ == pv[j],
                tag_of(pv.take(i as int)) == tag_view(tag),
                pv == split_char(params@, ';'),
                spec_name_addr(s@, "From/To"@) == Ok::<
                    (Option<Seq<char>>, SpecSipUri, Seq<char>),
                    SpecParseError,
                >((opt_view(display_name), uri@, params@)),
            decreases pieces@.len() - i,
        {
            assert(pv.take(i + 1).drop_last() == pv.take(i as int));
            assert(pv.take(i + 1).last() == pv[i as int]);
            let t = trim_vec(&pieces[i]);
            let tl = t.len();
            match find_in(&t, '=') {
                Some(e) => {
                    let key = sub_vec(&t, 0, e);
                    assert(key@ == t@.take(e as int));
                    let tag_key = chars_of("tag");
                    if vec_eq_ascii_ci(&key, &tag_key) {
                        let value = sub_vec(&t, e + 1, tl);
                        assert(value@ == t@.skip(e + 1));
                        tag = Some(Tag(string_of(&value)));
                    }
                },
                None => {},
            }
            i += 1;
        }
        assert(pv.take(pv.len() as int) == pv);
        Ok(FromToHeader { display_name, uri, tag })
    }

    /// The value as written; see `from_to_text`.
    pub fn to_string(&self) -> (s: String)
        ensures
            s@ == from_to_text(self@),
    {
        let mut s = String::new();
        push_name_addr(&mut s, &self.display_name, &self.uri);
        match &self.tag {
            Some(t) => {
                push_str(&mut s, ";tag=");
                push_str(&mut s, t.0.as_str());
            },
            None => {},
        }
        s
    }
}

impl std::str::FromStr for ContactHeader {
    type Err = ParseError;

    fn from_str(s: &str) -> (r: Result<ContactHeader, ParseError>)
        ensures
            match spec_parse_contact(s@) {
                Ok(c) => r matches Ok(x) && x@ == c,
                Err(e) => r matches Err(x) && x@ == e,
            },
    {
        ContactHeader::parse(s)
    }
}

impl std::str::FromStr for FromToHeader {
    type Err = ParseError;

    fn from_str(s: &str) -> (r: Result<FromToHeader, ParseError>)
        ensures
            match spec_parse_from_to(s@) {
                Ok(h) => r matches Ok(x) && x@ == h,
                Err(e) => r matches Err(x) && x@ == e,
            },
    {
        FromToHeader::parse(s)
    }
}


// ---------------------------------------------------------------------------
// Reading back a written header
// ---------------------------------------------------------------------------

/// A display name that reads back as itself: a quoted one holds no `"`;
/// an unquoted one is not empty, starts and ends outside white space,
/// does not start with `"` and holds no `<`.
pub open spec fn readable_display(dn: Option<Seq<char>>) -> bool {
    match dn {
        None => true,
        Some(n) => if needs_quotes(n) {
            !n.contains('"')
        } else {
            n.len() > 0 && n[0] != '"' && !n.contains('<') && !crate::text::is_ws(n[0])
                && !crate::text::is_ws(n.last())
        },
    }
}

/// A URI that reads back as itself inside angle brackets: it is one that
/// was read, its text ends outside white space and holds no `>`.
pub open spec fn readable_uri(u: SpecSipUri) -> bool {
    &&& exists|s: Seq<char>| spec_parse_uri(s) == Ok::<SpecSipUri, Seq<char>>(u)
    &&& !crate::text::is_ws(uri_text(u).last())
    &&& !uri_text(u).contains('>')
}

proof fn lemma_uri_reads_back(u: SpecSipUri)
    requires
        readable_uri(u),
    ensures
        spec_parse_uri(uri_text(u)) == Ok::<SpecSipUri, Seq<char>>(u),
{
    let s = choose|s: Seq<char>| spec_parse_uri(s) == Ok::<SpecSipUri, Seq<char>>(u);
    crate::message::uri_roundtrip::law_uri_roundtrip(s);
}

/// Trimming a text whose ends lie outside white space, after a space.
proof fn lemma_trim_after_space(x: Seq<char>)
    requires
        x.len() > 0,
        !crate::text::is_ws(x[0]),
        !crate::text::is_ws(x.last()),
    ensures
        trim(" "@ + x) == x,
{
    reveal_strlit(" ");
    let y = " "@ + x;
    assert(y.drop_first() =~= x);
    assert(crate::text::trim_start(x) == x);
    assert(crate::text::trim_start(y) == x);
    crate::message::uri_roundtrip::lemma_trim_fixed(x);
}

/// The written display name, URI and parameter text `tail` (empty, or a
/// `;` and parameters ending outside white space) read back.
#[verifier::spinoff_prover]
#[verifier::rlimit(60)]
proof fn lemma_name_addr_reread(dn: Option<Seq<char>>, u: SpecSipUri, tail: Seq<char>, name: Seq<char>)
    requires
        readable_display(dn),
        readable_uri(u),
        tail.len() == 0 || (tail[0] == ';' && !crate::text::is_ws(tail.last())),
    ensures
        spec_name_addr(display_text(dn) + "<"@ + uri_text(u) + ">"@ + tail, name) == Ok::<
            (Option<Seq<char>>, SpecSipUri, Seq<char>),
            SpecParseError,
        >((dn, u, if tail.len() == 0 { tail } else { trim(tail.skip(1)) })),
{
    reveal_strlit("\"");
    reveal_strlit(" ");
    reveal_strlit("<");
    reveal_strlit(">");
    let uu = uri_text(u);
    lemma_uri_reads_back(u);
    let core = "<"@ + uu + ">"@ + tail;
    let w = display_text(dn) + core;
    assert(display_text(dn) + "<"@ + uu + ">"@ + tail =~= w);
    assert(core[0] == '<');
    assert(core.last() != ' ' && !crate::text::is_ws(core.last())) by {
        if tail.len() == 0 {
            assert(core.last() == '>');
        } else {
            assert(core.last() == tail.last());
        }
    }
    crate::message::uri_roundtrip::lemma_trim_fixed(core);
    // The URI and the tail, read from `core`.
    assert forall|j: int| 0 <= j < uu.len() + 1 implies core[j] != '>' by {
        if j > 0 {
            assert(core[j] == uu[j - 1]);
            if uu[j - 1] == '>' {
                assert(uu.contains('>'));
            }
        }
    }
    assert(core[uu.len() + 1int] == '>');
    crate::text::lemma_find_char_at(core, '>', (uu.len() + 1) as nat);
    assert(core.subrange(1, uu.len() + 1int) =~= uu);
    assert(core.skip(uu.len() + 2int) =~= tail);
    if tail.len() > 0 {
        assert(tail[0] != ' ');
        crate::message::uri_roundtrip::lemma_trim_fixed(tail);
    } else {
        assert(trim(tail) =~= tail);
    }
    match dn {
        None => {
            assert(w =~= core);
        },
        Some(n) => {
            if needs_quotes(n) {
                assert(w =~= "\""@ + n + "\""@ + " "@ + core);
                let l = w;
                assert(l[0] == '"');
                assert(l.last() == core.last());
                crate::message::uri_roundtrip::lemma_trim_fixed(l);
                let t1 = l.skip(1);
                assert forall|j: int| 0 <= j < n.len() implies t1[j] != '"' by {
                    assert(t1[j] == n[j]);
                    if n[j] == '"' {
                        assert(n.contains('"'));
                    }
                }
                assert(t1[n.len() as int] == '"');
                crate::text::lemma_find_char_at(t1, '"', n.len());
                assert(l.subrange(1, n.len() + 1int) =~= n);
                assert(l.skip(n.len() + 2int) =~= " "@ + core);
                lemma_trim_after_space(core);
            } else {
                assert(w =~= n + " "@ + core);
                let l = w;
                assert(l[0] == n[0]);
                assert(l.last() == core.last());
                crate::message::uri_roundtrip::lemma_trim_fixed(l);
                assert forall|j: int| 0 <= j < n.len() + 1 implies l[j] != '<' by {
                    if j < n.len() {
                        assert(l[j] == n[j]);
                        if n[j] == '<' {
                            assert(n.contains('<'));
                        }
                    } else {
                        assert(l[j] == ' ');
                    }
                }
                assert(l[n.len() + 1int] == '<');
                crate::text::lemma_find_char_at(l, '<', (n.len() + 1) as nat);
                assert(l.take(n.len() + 1int) =~= n + " "@);
                assert(l.skip(n.len() + 1int) =~= core);
                let nn = n + " "@;
                assert(nn.drop_last() =~= n);
                assert(crate::text::trim_end(nn) == crate::text::trim_end(n));
                assert(crate::text::trim_start(nn) == nn);
                assert(crate::text::trim_end(n) == n);
            }
        },
    }
}

/// Reading back a written Contact value gives the value, whenever its
/// display name and URI read back (see `readable_display` and
/// `readable_uri`).
pub proof fn law_contact_roundtrip(c: SpecContact)
    requires
        readable_display(c.display_name),
        readable_uri(c.uri),
    ensures
        spec_parse_contact(contact_text(c)) == Ok::<SpecContact, SpecParseError>(c),
{
    reveal_strlit(";expires=");
    reveal_strlit("expires=");
    reveal_strlit("expires");
    reveal_strlit("*");
    let tail = match c.expires {
        Some(e) => ";expires="@ + dec(e as nat),
        None => Seq::<char>::empty(),
    };
    match c.expires {
        Some(e) => {
            crate::text::lemma_dec_digits(e as nat);
            assert(tail.last() == dec(e as nat).last());
            assert(crate::text::is_digit(dec(e as nat)[dec(e as nat).len() - 1]));
        },
        None => {},
    }
    lemma_name_addr_reread(c.display_name, c.uri, tail, "Contact"@);
    let w = contact_text(c);
    assert(w =~= display_text(c.display_name) + "<"@ + uri_text(c.uri) + ">"@ + tail);
    lemma_text_not_star(w, c);
    match c.expires {
        Some(e) => {
            let p = "expires="@ + dec(e as nat);
            assert(tail.skip(1) =~= p);
            assert(p[0] == 'e');
            assert(p.last() == dec(e as nat).last());
            crate::message::uri_roundtrip::lemma_trim_fixed(p);
            assert forall|j: int| 0 <= j < p.len() implies p[j] != ';' by {
                if j >= 8 {
                    assert(p[j] == dec(e as nat)[j - 8]);
                    assert(crate::text::is_digit(dec(e as nat)[j - 8]));
                }
            }
            assert(!p.contains(';'));
            crate::text::lemma_split_char_free(p, ';');
            assert(split_char(p, ';').drop_last() =~= Seq::<Seq<char>>::empty());
            assert forall|j: int| 0 <= j < 7 implies p[j] != '=' by {}
            crate::text::lemma_find_char_at(p, '=', 7);
            assert(p.take(7) =~= "expires"@);
            assert(p.skip(8) =~= dec(e as nat));
            crate::text::lemma_parse_pad_dec(e as nat, 0, 4294967295);
            assert((e as nat) as u32 == e);
            let ps = split_char(p, ';');
            assert(ps.last() == p);
            assert(expires_of(ps.drop_last()) == Ok::<Option<u32>, Seq<char>>(None));
            assert(crate::text::eq_ascii_ci(p.take(7), "expires"@));
            assert(expires_step(Ok(None), p) == Ok::<Option<u32>, Seq<char>>(Some(e)));
            assert(expires_of(ps) == Ok::<Option<u32>, Seq<char>>(Some(e)));
            assert(trim(tail.skip(1)) == p);
            assert(tail.len() != 0);
            assert(spec_name_addr(w, "Contact"@) == Ok::<
                (Option<Seq<char>>, SpecSipUri, Seq<char>),
                SpecParseError,
            >((c.display_name, c.uri, p)));
            assert(spec_parse_contact(w) == Ok::<SpecContact, SpecParseError>(
                SpecContact { display_name: c.display_name, uri: c.uri, expires: Some(e) },
            ));
        },
        None => {
            let ps = split_char(Seq::<char>::empty(), ';');
            assert(ps =~= seq![Seq::<char>::empty()]);
            assert(ps.drop_last() =~= Seq::<Seq<char>>::empty());
            assert(trim(Seq::<char>::empty()) =~= Seq::<char>::empty());
            assert(crate::text::find_char(Seq::<char>::empty(), '=') is None);
            assert(ps.last() == Seq::<char>::empty());
            assert(expires_of(ps.drop_last()) == Ok::<Option<u32>, Seq<char>>(None));
            assert(expires_step(Ok(None), Seq::<char>::empty()) == Ok::<Option<u32>, Seq<char>>(
                None,
            ));
            assert(expires_of(ps) == Ok::<Option<u32>, Seq<char>>(None));
            assert(spec_name_addr(w, "Contact"@) == Ok::<
                (Option<Seq<char>>, SpecSipUri, Seq<char>),
                SpecParseError,
            >((c.display_name, c.uri, Seq::<char>::empty())));
        },
    }
}

/// A written Contact value is never the wildcard.
proof fn lemma_text_not_star(w: Seq<char>, c: SpecContact)
    requires
        w == display_text(c.display_name) + "<"@ + uri_text(c.uri) + ">"@ + match c.expires {
            Some(e) => ";expires="@ + dec(e as nat),
            None => Seq::<char>::empty(),
        },
        readable_display(c.display_name),
    ensures
        trim(w) != "*"@,
{
    reveal_strlit("*");
    reveal_strlit("<");
    reveal_strlit(">");
    reveal_strlit("\"");
    reveal_strlit(" ");
    reveal_strlit(";expires=");
    let core = "<"@ + uri_text(c.uri) + ">"@;
    match c.display_name {
        None => {
            assert(w[0] == '<');
        },
        Some(n) => {
            if needs_quotes(n) {
                assert(w[0] == '"');
            } else {
                assert(w[0] == n[0]);
            }
        },
    }
    match c.expires {
        Some(e) => {
            crate::text::lemma_dec_digits(e as nat);
            assert(w.last() == dec(e as nat).last());
            assert(crate::text::is_digit(dec(e as nat)[dec(e as nat).len() - 1]));
        },
        None => {
            assert(w.last() == '>');
        },
    }
    crate::message::uri_roundtrip::lemma_trim_fixed(w);
    assert(w.len() >= 2);
}


/// A tag that reads back as itself: it holds no `;` and does not end in
/// white space.
pub open spec fn readable_tag(tag: Option<Seq<char>>) -> bool {
    match tag {
        Some(t) => !t.contains(';') && (t.len() > 0 ==> !crate::text::is_ws(t.last())),
        None => true,
    }
}

/// Reading back a written From or To value gives the value, whenever its
/// display name, URI and tag read back (see `readable_display`,
/// `readable_uri` and `readable_tag`).
pub proof fn law_from_to_roundtrip(h: SpecFromTo)
    requires
        readable_display(h.display_name),
        readable_uri(h.uri),
        readable_tag(h.tag),
    ensures
        spec_parse_from_to(from_to_text(h)) == Ok::<SpecFromTo, SpecParseError>(h),
{
    reveal_strlit(";tag=");
    reveal_strlit("tag=");
    reveal_strlit("tag");
    let tail = match h.tag {
        Some(t) => ";tag="@ + t,
        None => Seq::<char>::empty(),
    };
    match h.tag {
        Some(t) => {
            if t.len() > 0 {
                assert(tail.last() == t.last());
            } else {
                assert(tail.last() == '=');
            }
        },
        None => {},
    }
    lemma_name_addr_reread(h.display_name, h.uri, tail, "From/To"@);
    let w = from_to_text(h);
    assert(w =~= display_text(h.display_name) + "<"@ + uri_text(h.uri) + ">"@ + tail);
    match h.tag {
        Some(t) => {
            let p = "tag="@ + t;
            assert(tail.skip(1) =~= p);
            assert(p[0] == 't');
            if t.len() > 0 {
                assert(p.last() == t.last());
            } else {
                assert(p.last() == '=');
            }
            crate::message::uri_roundtrip::lemma_trim_fixed(p);
            assert forall|j: int| 0 <= j < p.len() implies p[j] != ';' by {
                if j >= 4 {
                    assert(p[j] == t[j - 4]);
                    if t[j - 4] == ';' {
                        assert(t.contains(';'));
                    }
                }
            }
            assert(!p.contains(';'));
            crate::text::lemma_split_char_free(p, ';');
            let ps = split_char(p, ';');
            assert(ps.drop_last() =~= Seq::<Seq<char>>::empty());
            assert(ps.last() == p);
            assert forall|j: int| 0 <= j < 3 implies p[j] != '=' by {}
            crate::text::lemma_find_char_at(p, '=', 3);
            assert(p.take(3) =~= "tag"@);
            assert(p.skip(4) =~= t);
            assert(crate::text::eq_ascii_ci(p.take(3), "tag"@));
            assert(tag_of(ps.drop_last()) is None);
            assert(tag_of(ps) == Some(t));
            assert(spec_name_addr(w, "From/To"@) == Ok::<
                (Option<Seq<char>>, SpecSipUri, Seq<char>),
                SpecParseError,
            >((h.display_name, h.uri, p)));
        },
        None => {
            let ps = split_char(Seq::<char>::empty(), ';');
            assert(ps =~= seq![Seq::<char>::empty()]);
            assert(ps.drop_last() =~= Seq::<Seq<char>>::empty());
            assert(ps.last() == Seq::<char>::empty());
            assert(trim(Seq::<char>::empty()) =~= Seq::<char>::empty());
            assert(crate::text::find_char(Seq::<char>::empty(), '=') is None);
            assert(tag_of(ps.drop_last()) is None);
            assert(tag_of(ps) is None);
            assert(spec_name_addr(w, "From/To"@) == Ok::<
                (Option<Seq<char>>, SpecSipUri, Seq<char>),
                SpecParseError,
            >((h.display_name, h.uri, Seq::<char>::empty())));
        },
    }
    assert(spec_parse_from_to(w)->Ok_0 =~= h);
}

} // verus!

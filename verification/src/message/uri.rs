//! Parts of a SIP URI (RFC 3261 section 19.1): scheme, user info, the
//! `;`-separated URI parameters and the `?`/`&`-separated URI headers,
//! with the splitting rules that keep IPv6 references (`[...]`) intact.
use vstd::prelude::*;

use crate::message::error::{ParseError, SpecParseError};
use crate::text::{
    chars_of, copy_str, copy_string, eq_ascii_ci, find_char, find_in, lemma_deep_chars,
    lowercase_is, opt_view, parse_uint, parse_uint_vec, push_str,
    rfind_char, rfind_in, split_char, split_vec, string_of, string_of_range, sub_vec, trim,
    trim_vec, vec_eq_ascii_ci, vec_lowercase_is,
};

verus! {

// ---------------------------------------------------------------------------
// Scheme
// ---------------------------------------------------------------------------

/// URI scheme: `sip`, `sips`, and the WebSocket schemes of RFC 7118.
#[derive(Debug, Clone, Copy, PartialEq, Eq, Hash, Structural)]
pub enum UriScheme {
    Sip,
    Sips,
    SipWs,
    SipWss,
}

pub open spec fn scheme_name(s: UriScheme) -> Seq<char> {
    match s {
        UriScheme::Sip => "sip"@,
        UriScheme::Sips => "sips"@,
        UriScheme::SipWs => "sip+ws"@,
        UriScheme::SipWss => "sip+wss"@,
    }
}

/// The scheme whose name `s` is, compared after `to_lowercase`.
pub open spec fn scheme_of(s: Seq<char>) -> Option<UriScheme> {
    if lowercase_is(s, "sip"@) {
        Some(UriScheme::Sip)
    } else if lowercase_is(s, "sips"@) {
        Some(UriScheme::Sips)
    } else if lowercase_is(s, "sip+ws"@) {
        Some(UriScheme::SipWs)
    } else if lowercase_is(s, "sip+wss"@) {
        Some(UriScheme::SipWss)
    } else {
        None
    }
}

impl UriScheme {
    /// The scheme's name, without the colon.
    pub fn to_string(&self) -> (s: String)
        ensures
            s@ == scheme_name(*self),
    {
        match self {
            UriScheme::Sip => copy_str("sip"),
            UriScheme::Sips => copy_str("sips"),
            UriScheme::SipWs => copy_str("sip+ws"),
            UriScheme::SipWss => copy_str("sip+wss"),
        }
    }

    /// Reads a scheme name, in any letter case.
    pub fn from_name(s: &str) -> (r: Result<UriScheme, ParseError>)
        ensures
            match scheme_of(s@) {
                Some(sc) => r == Ok::<UriScheme, ParseError>(sc),
                None => r matches Err(e) && e@ == (SpecParseError::InvalidUri {
                    detail: "unknown URI scheme: "@ + s@,
                }),
            },
    {
        let v = chars_of(s);
        if vec_lowercase_is(&v, "sip") {
            Ok(UriScheme::Sip)
        } else if vec_lowercase_is(&v, "sips") {
            Ok(UriScheme::Sips)
        } else if vec_lowercase_is(&v, "sip+ws") {
            Ok(UriScheme::SipWs)
        } else if vec_lowercase_is(&v, "sip+wss") {
            Ok(UriScheme::SipWss)
        } else {
            let mut detail = copy_str("unknown URI scheme: ");
            push_str(&mut detail, s);
            Err(ParseError::InvalidUri { detail })
        }
    }
}

impl std::str::FromStr for UriScheme {
    type Err = ParseError;

    fn from_str(s: &str) -> (r: Result<UriScheme, ParseError>)
        ensures
            match scheme_of(s@) {
                Some(sc) => r == Ok::<UriScheme, ParseError>(sc),
                None => r matches Err(e) && e@ == (SpecParseError::InvalidUri {
                    detail: "unknown URI scheme: "@ + s@,
                }),
            },
    {
        UriScheme::from_name(s)
    }
}

// ---------------------------------------------------------------------------
// User info
// ---------------------------------------------------------------------------

/// `user[:password]` before the `@` of a URI.
#[derive(Debug, Clone, PartialEq, Eq)]
pub struct UserInfo {
    pub user: String,
    pub password: Option<String>,
}

#[verifier::ext_equal]
pub struct SpecUserInfo {
    pub user: Seq<char>,
    pub password: Option<Seq<char>>,
}

impl View for UserInfo {
    type V = SpecUserInfo;

    open spec fn view(&self) -> SpecUserInfo {
        SpecUserInfo { user: self.user@, password: opt_view(self.password) }
    }
}

pub open spec fn user_info_text(u: SpecUserInfo) -> Seq<char> {
    match u.password {
        Some(p) => u.user + ":"@ + p,
        None => u.user,
    }
}

impl UserInfo {
    /// `user` or `user:password`.
    pub fn to_string(&self) -> (s: String)
        ensures
            s@ == user_info_text(self@),
    {
        let mut s = copy_string(&self.user);
        match &self.password {
            Some(p) => {
                push_str(&mut s, ":");
                push_str(&mut s, p.as_str());
            },
            None => {},
        }
        s
    }
}

// ---------------------------------------------------------------------------
// Lookup by key, ignoring ASCII case
// ---------------------------------------------------------------------------

/// Index of the first entry whose key equals `key` ignoring ASCII case.
pub open spec fn find_key<V>(entries: Seq<(Seq<char>, V)>, key: Seq<char>) -> Option<nat>
    decreases entries.len(),
{
    if entries.len() == 0 {
        None
    } else if eq_ascii_ci(entries[0].0, key) {
        Some(0)
    } else {
        match find_key(entries.drop_first(), key) {
            Some(i) => Some(i + 1),
            None => None,
        }
    }
}

/// Value of the first entry whose key equals `key` ignoring ASCII case.
pub open spec fn lookup<V>(entries: Seq<(Seq<char>, V)>, key: Seq<char>) -> Option<V> {
    match find_key(entries, key) {
        Some(i) => Some(entries[i as int].1),
        None => None,
    }
}

proof fn lemma_find_key_bound<V>(entries: Seq<(Seq<char>, V)>, key: Seq<char>)
    ensures
        find_key(entries, key) matches Some(i) ==> i < entries.len(),
    decreases entries.len(),
{
    if entries.len() > 0 {
        lemma_find_key_bound(entries.drop_first(), key);
    }
}

proof fn lemma_find_key_skip<V>(entries: Seq<(Seq<char>, V)>, key: Seq<char>, k: int)
    requires
        0 <= k <= entries.len(),
        forall|j: int| 0 <= j < k ==> !eq_ascii_ci(#[trigger] entries[j].0, key),
    ensures
        lookup(entries, key) == lookup(entries.skip(k), key),
    decreases k,
{
    if k > 0 {
        let d = entries.drop_first();
        assert(d.skip(k - 1) == entries.skip(k));
        assert forall|j: int| 0 <= j < k - 1 implies !eq_ascii_ci(#[trigger] d[j].0, key) by {
            assert(d[j] == entries[j + 1]);
        }
        lemma_find_key_skip(d, key, k - 1);
        assert(!eq_ascii_ci(entries[0].0, key));
        lemma_find_key_bound(d, key);
        match find_key(d, key) {
            Some(i) => {
                assert(d[i as int] == entries[i as int + 1]);
            },
            None => {},
        }
    } else {
        assert(entries.skip(0) == entries);
    }
}

proof fn lemma_lookup_head<V>(entries: Seq<(Seq<char>, V)>, key: Seq<char>)
    requires
        entries.len() > 0,
        eq_ascii_ci(entries[0].0, key),
    ensures
        lookup(entries, key) == Some(entries[0].1),
{
}

proof fn lemma_lookup_empty<V>(entries: Seq<(Seq<char>, V)>, key: Seq<char>)
    requires
        entries.len() == 0,
    ensures
        lookup(entries, key) is None,
{
}

// ---------------------------------------------------------------------------
// URI parameters
// ---------------------------------------------------------------------------

/// `;`-separated URI parameters, each `key` or `key=value`, in order.
#[derive(Debug, Clone, PartialEq, Eq)]
pub struct UriParams {
    params: Vec<(String, Option<String>)>,
}

pub open spec fn params_view(v: Seq<(String, Option<String>)>) -> Seq<(Seq<char>, Option<Seq<char>>)> {
    v.map_values(|p: (String, Option<String>)| (p.0@, opt_view(p.1)))
}

impl View for UriParams {
    type V = Seq<(Seq<char>, Option<Seq<char>>)>;

    closed spec fn view(&self) -> Seq<(Seq<char>, Option<Seq<char>>)> {
        params_view(self.params@)
    }
}

/// `;key` or `;key=value` for each parameter.
pub open spec fn params_text(ps: Seq<(Seq<char>, Option<Seq<char>>)>) -> Seq<char>
    decreases ps.len(),
{
    if ps.len() == 0 {
        Seq::empty()
    } else {
        let p = ps.last();
        params_text(ps.drop_last()) + ";"@ + p.0 + match p.1 {
            Some(v) => "="@ + v,
            None => Seq::empty(),
        }
    }
}

impl UriParams {
    /// No parameters.
    pub fn new() -> (r: UriParams)
        ensures
            r@ == Seq::<(Seq<char>, Option<Seq<char>>)>::empty(),
    {
        UriParams { params: Vec::new() }
    }

    /// Appends a parameter.
    pub fn insert(&mut self, key: &str, value: Option<String>)
        ensures
            final(self)@ == old(self)@.push((key@, opt_view(value))),
    {
        let k = copy_str(key);
        self.params.push((k, value));
        assert(self@ =~= old(self)@.push((key@, opt_view(value))));
    }

    /// The value of the first parameter called `key` (ASCII case ignored);
    /// `Some(None)` for a parameter without value.
    pub fn get(&self, key: &str) -> (r: Option<&Option<String>>)
        ensures
            match lookup(self@, key@) {
                Some(v) => r matches Some(x) && opt_view(*x) == v,
                None => r is None,
            },
    {
        let ghost es = self@;
        let kv = chars_of(key);
        let mut i: usize = 0;
        while i < self.params.len()
            invariant
                i <= self.params@.len(),
                es == self@,
                es == params_view(self.params@),
                kv@ == key@,
                forall|j: int| 0 <= j < i ==> !eq_ascii_ci(#[trigger] es[j].0, key@),
            decreases self.params@.len() - i,
        {
            let entry = &self.params[i];
            let k = chars_of(entry.0.as_str());
            assert(es[i as int] == (entry.0@, opt_view(entry.1)));
            if vec_eq_ascii_ci(&k, &kv) {
                proof {
                    lemma_find_key_skip(es, key@, i as int);
                    lemma_lookup_head(es.skip(i as int), key@);
                }
                return Some(&entry.1);
            }
            i += 1;
        }
        proof {
            lemma_find_key_skip(es, key@, i as int);
            lemma_lookup_empty(es.skip(i as int), key@);
        }
        None
    }

    /// Value of the `transport` parameter, when it has one.
    pub fn transport(&self) -> (r: Option<&str>)
        ensures
            match lookup(self@, "transport"@) {
                Some(Some(v)) => r matches Some(s) && s@ == v,
                _ => r is None,
            },
    {
        match self.get("transport") {
            Some(Some(s)) => Some(s.as_str()),
            _ => None,
        }
    }

    /// Whether there is an `lr` (loose routing) parameter.
    pub fn lr(&self) -> (b: bool)
        ensures
            b == lookup(self@, "lr"@) is Some,
    {
        self.get("lr").is_some()
    }

    pub fn len(&self) -> (n: usize)
        ensures
            n == self@.len(),
    {
        self.params.len()
    }

    pub fn is_empty(&self) -> (b: bool)
        ensures
            b == (self@.len() == 0),
    {
        self.params.len() == 0
    }

    /// The parameters, in order.
    pub fn iter(&self) -> (r: &Vec<(String, Option<String>)>)
        ensures
            params_view(r@) == self@,
    {
        &self.params
    }

    /// `;key` or `;key=value` for each parameter, in order.
    pub fn to_string(&self) -> (s: String)
        ensures
            s@ == params_text(self@),
    {
        let ghost es = self@;
        let mut s = String::new();
        let mut i: usize = 0;
        while i < self.params.len()
            invariant
                i <= self.params@.len(),
                es == params_view(self.params@),
                s@ == params_text(es.take(i as int)),
            decreases self.params@.len() - i,
        {
            assert(es.take(i + 1).drop_last() == es.take(i as int));
            let entry = &self.params[i];
            assert(es[i as int] == (entry.0@, opt_view(entry.1)));
            push_str(&mut s, ";");
            push_str(&mut s, entry.0.as_str());
            match &entry.1 {
                Some(v) => {
                    push_str(&mut s, "=");
                    push_str(&mut s, v.as_str());
                },
                None => {},
            }
            proof {
                let p = es.take(i + 1).last();
                assert(p == es[i as int]);
            }
            i += 1;
        }
        assert(es.take(es.len() as int) == es);
        s
    }
}

impl Default for UriParams {
    fn default() -> (r: UriParams)
        ensures
            r@ == Seq::<(Seq<char>, Option<Seq<char>>)>::empty(),
    {
        UriParams::new()
    }
}

// ---------------------------------------------------------------------------
// URI headers
// ---------------------------------------------------------------------------

/// `?`/`&`-separated URI headers `key=value`, in order.
#[derive(Debug, Clone, PartialEq, Eq)]
pub struct UriHeaders {
    headers: Vec<(String, String)>,
}

pub open spec fn headers_view(v: Seq<(String, String)>) -> Seq<(Seq<char>, Seq<char>)> {
    v.map_values(|h: (String, String)| (h.0@, h.1@))
}

impl View for UriHeaders {
    type V = Seq<(Seq<char>, Seq<char>)>;

    closed spec fn view(&self) -> Seq<(Seq<char>, Seq<char>)> {
        headers_view(self.headers@)
    }
}

/// `key=value` pairs joined by `&`.
pub open spec fn amp_join(hs: Seq<(Seq<char>, Seq<char>)>) -> Seq<char>
    decreases hs.len(),
{
    if hs.len() == 0 {
        Seq::empty()
    } else {
        let h = hs.last();
        let sep = if hs.len() == 1 {
            Seq::empty()
        } else {
            "&"@
        };
        amp_join(hs.drop_last()) + sep + h.0 + "="@ + h.1
    }
}

/// Empty for no headers, else `?` and the headers joined by `&`.
pub open spec fn headers_text(hs: Seq<(Seq<char>, Seq<char>)>) -> Seq<char> {
    if hs.len() == 0 {
        Seq::empty()
    } else {
        "?"@ + amp_join(hs)
    }
}

impl UriHeaders {
    /// No headers.
    pub fn new() -> (r: UriHeaders)
        ensures
            r@ == Seq::<(Seq<char>, Seq<char>)>::empty(),
    {
        UriHeaders { headers: Vec::new() }
    }

    /// Appends a header.
    pub fn insert(&mut self, key: &str, value: &str)
        ensures
            final(self)@ == old(self)@.push((key@, value@)),
    {
        let k = copy_str(key);
        let v = copy_str(value);
        self.headers.push((k, v));
        assert(self@ =~= old(self)@.push((key@, value@)));
    }

    /// Value of the first header called `key` (ASCII case ignored).
    pub fn get(&self, key: &str) -> (r: Option<&str>)
        ensures
            match lookup(self@, key@) {
                Some(v) => r matches Some(x) && x@ == v,
                None => r is None,
            },
    {
        let ghost es = self@;
        let kv = chars_of(key);
        let mut i: usize = 0;
        while i < self.headers.len()
            invariant
                i <= self.headers@.len(),
                es == self@,
                es == headers_view(self.headers@),
                kv@ == key@,
                forall|j: int| 0 <= j < i ==> !eq_ascii_ci(#[trigger] es[j].0, key@),
            decreases self.headers@.len() - i,
        {
            let entry = &self.headers[i];
            let k = chars_of(entry.0.as_str());
            assert(es[i as int] == (entry.0@, entry.1@));
            if vec_eq_ascii_ci(&k, &kv) {
                proof {
                    lemma_find_key_skip(es, key@, i as int);
                    lemma_lookup_head(es.skip(i as int), key@);
                }
                return Some(entry.1.as_str());
            }
            i += 1;
        }
        proof {
            lemma_find_key_skip(es, key@, i as int);
            lemma_lookup_empty(es.skip(i as int), key@);
        }
        None
    }

    pub fn len(&self) -> (n: usize)
        ensures
            n == self@.len(),
    {
        self.headers.len()
    }

    pub fn is_empty(&self) -> (b: bool)
        ensures
            b == (self@.len() == 0),
    {
        self.headers.len() == 0
    }

    /// The headers, in order.
    pub fn iter(&self) -> (r: &Vec<(String, String)>)
        ensures
            headers_view(r@) == self@,
    {
        &self.headers
    }

    /// `?k1=v1&k2=v2...`, or nothing when there are no headers.
    pub fn to_string(&self) -> (s: String)
        ensures
            s@ == headers_text(self@),
    {
        let ghost es = self@;
        let mut s = String::new();
        if self.headers.len() == 0 {
            return s;
        }
        push_str(&mut s, "?");
        let mut i: usize = 0;
        while i < self.headers.len()
            invariant
                i <= self.headers@.len(),
                es == headers_view(self.headers@),
                s@ == "?"@ + amp_join(es.take(i as int)),
            decreases self.headers@.len() - i,
        {
            assert(es.take(i + 1).drop_last() == es.take(i as int));
            let entry = &self.headers[i];
            assert(es[i as int] == (entry.0@, entry.1@));
            if i > 0 {
                push_str(&mut s, "&");
            }
            push_str(&mut s, entry.0.as_str());
            push_str(&mut s, "=");
            push_str(&mut s, entry.1.as_str());
            proof {
                assert(es.take(i + 1).last() == es[i as int]);
                assert(es.take(i + 1).len() == i + 1);
            }
            i += 1;
        }
        assert(es.take(es.len() as int) == es);
        s
    }
}

impl Default for UriHeaders {
    fn default() -> (r: UriHeaders)
        ensures
            r@ == Seq::<(Seq<char>, Seq<char>)>::empty(),
    {
        UriHeaders::new()
    }
}

// ---------------------------------------------------------------------------
// Splitting a URI into its parts
// ---------------------------------------------------------------------------

/// Whether position `i` of `s` lies inside an IPv6 reference: the last
/// bracket before it is `[`.
pub open spec fn in_brackets(s: Seq<char>, i: int) -> bool
    decreases i,
{
    if i <= 0 {
        false
    } else if s[i - 1] == '[' {
        true
    } else if s[i - 1] == ']' {
        false
    } else {
        in_brackets(s, i - 1)
    }
}

/// Index of the last `c` before position `n` that is not inside brackets.
pub open spec fn last_free(s: Seq<char>, c: char, n: int) -> Option<nat>
    decreases n,
{
    if n <= 0 {
        None
    } else if s[n - 1] == c && !in_brackets(s, n - 1) {
        Some((n - 1) as nat)
    } else {
        last_free(s, c, n - 1)
    }
}

/// Index of the first `c` from position `i` on that is not inside brackets.
pub open spec fn first_free(s: Seq<char>, c: char, i: int) -> Option<nat>
    decreases s.len() - i,
{
    if i < 0 || i >= s.len() {
        None
    } else if s[i] == c && !in_brackets(s, i) {
        Some(i as nat)
    } else {
        first_free(s, c, i + 1)
    }
}

/// Splits `user-info@host...` at its last `@` outside brackets; no user
/// info when there is none.
pub fn split_user_info_from_host(s: &str) -> (r: (Option<String>, String))
    ensures
        match last_free(s@, '@', s@.len() as int) {
            Some(p) => r.0 matches Some(u) && u@ == s@.take(p as int) && r.1@ == s@.skip(p as int + 1),
            None => r.0 is None && r.1@ == s@,
        },
{
    let v = chars_of(s);
    let mut in_br = false;
    let mut last: Option<usize> = None;
    let mut i: usize = 0;
    while i < v.len()
        invariant
            i <= v@.len(),
            in_br == in_brackets(v@, i as int),
            match last {
                Some(p) => last_free(v@, '@', i as int) == Some(p as nat) && p < i,
                None => last_free(v@, '@', i as int) is None,
            },
        decreases v@.len() - i,
    {
        let c = v[i];
        if c == '[' {
            in_br = true;
        } else if c == ']' {
            in_br = false;
        } else if c == '@' && !in_br {
            last = Some(i);
        }
        i += 1;
    }
    match last {
        Some(p) => {
            let u = string_of_range(&v, 0, p);
            let h = string_of_range(&v, p + 1, v.len());
            assert(v@.subrange(0, p as int) == v@.take(p as int));
            assert(v@.subrange(p + 1, v@.len() as int) == v@.skip(p as int + 1));
            (Some(u), h)
        },
        None => (None, string_of(&v)),
    }
}

/// Splits `host[:port];params` at its first `;` outside brackets.
pub fn split_params_from_host_port(s: &str) -> (r: (String, Option<String>))
    ensures
        match first_free(s@, ';', 0) {
            Some(p) => r.0@ == s@.take(p as int) && (r.1 matches Some(q) && q@ == s@.skip(p as int + 1)),
            None => r.0@ == s@ && r.1 is None,
        },
{
    let v = chars_of(s);
    let mut in_br = false;
    let mut i: usize = 0;
    while i < v.len()
        invariant
            i <= v@.len(),
            in_br == in_brackets(v@, i as int),
            v@ == s@,
            first_free(v@, ';', 0) == first_free(v@, ';', i as int),
        decreases v@.len() - i,
    {
        let c = v[i];
        if c == '[' {
            in_br = true;
        } else if c == ']' {
            in_br = false;
        } else if c == ';' && !in_br {
            assert(first_free(v@, ';', i as int) == Some(i as nat));
            let hp = string_of_range(&v, 0, i);
            let ps = string_of_range(&v, i + 1, v.len());
            assert(v@.subrange(0, i as int) == v@.take(i as int));
            assert(v@.subrange(i + 1, v@.len() as int) == v@.skip(i + 1));
            return (hp, Some(ps));
        }
        i += 1;
    }
    (string_of(&v), None)
}

/// `user[:password]`: the user must not be empty; an empty password counts
/// as none. On error, the message.
pub open spec fn spec_parse_user_info(s: Seq<char>) -> Result<SpecUserInfo, Seq<char>> {
    if s.len() == 0 {
        Err("empty user info"@)
    } else {
        match find_char(s, ':') {
            Some(p) => if p == 0 {
                Err("empty user name"@)
            } else {
                let pw = s.skip(p as int + 1);
                Ok(
                    SpecUserInfo {
                        user: s.take(p as int),
                        password: if pw.len() == 0 {
                            None
                        } else {
                            Some(pw)
                        },
                    },
                )
            },
            None => Ok(SpecUserInfo { user: s, password: None }),
        }
    }
}

/// Reads the user info of a URI.
pub fn parse_user_info(s: &str) -> (r: Result<UserInfo, ParseError>)
    ensures
        match spec_parse_user_info(s@) {
            Ok(u) => r matches Ok(x) && x@ == u,
            Err(d) => r matches Err(e) && e@ == (SpecParseError::InvalidUri { detail: d }),
        },
{
    let v = chars_of(s);
    if v.len() == 0 {
        return Err(ParseError::InvalidUri { detail: copy_str("empty user info") });
    }
    match find_in(&v, ':') {
        Some(p) => {
            let user = string_of_range(&v, 0, p);
            let password = string_of_range(&v, p + 1, v.len());
            assert(v@.subrange(0, p as int) == v@.take(p as int));
            assert(v@.subrange(p + 1, v@.len() as int) == v@.skip(p as int + 1));
            if p == 0 {
                return Err(ParseError::InvalidUri { detail: copy_str("empty user name") });
            }
            let pw = if p + 1 == v.len() {
                None
            } else {
                Some(password)
            };
            Ok(UserInfo { user, password: pw })
        },
        None => Ok(UserInfo { user: string_of(&v), password: None }),
    }
}

/// A parameter `key=value` split at its first `=`, or a bare `key`.
pub open spec fn param_entry(p: Seq<char>) -> (Seq<char>, Option<Seq<char>>) {
    match find_char(p, '=') {
        Some(e) => (p.take(e as int), Some(p.skip(e as int + 1))),
        None => (p, None),
    }
}

/// The trimmed, non-empty pieces as parameters, in order.
pub open spec fn params_of(pieces: Seq<Seq<char>>) -> Seq<(Seq<char>, Option<Seq<char>>)>
    decreases pieces.len(),
{
    if pieces.len() == 0 {
        Seq::empty()
    } else {
        let rest = params_of(pieces.drop_last());
        let t = trim(pieces.last());
        if t.len() == 0 {
            rest
        } else {
            rest.push(param_entry(t))
        }
    }
}

/// A header `key=value` split at its first `=`, or `key` with an empty value.
pub open spec fn header_entry(h: Seq<char>) -> (Seq<char>, Seq<char>) {
    match find_char(h, '=') {
        Some(e) => (h.take(e as int), h.skip(e as int + 1)),
        None => (h, Seq::empty()),
    }
}

/// The trimmed, non-empty pieces as headers, in order.
pub open spec fn headers_of(pieces: Seq<Seq<char>>) -> Seq<(Seq<char>, Seq<char>)>
    decreases pieces.len(),
{
    if pieces.len() == 0 {
        Seq::empty()
    } else {
        let rest = headers_of(pieces.drop_last());
        let t = trim(pieces.last());
        if t.len() == 0 {
            rest
        } else {
            rest.push(header_entry(t))
        }
    }
}

/// Reads `;`-separated URI parameters (the text after the first `;`).
/// Blank pieces are skipped; every input is accepted.
pub fn parse_uri_params(s: &str) -> (r: Result<UriParams, ParseError>)
    ensures
        r matches Ok(p) && p@ == params_of(split_char(s@, ';')),
{
    let mut params = UriParams::new();
    let v = chars_of(s);
    let pieces = split_vec(&v, ';');
    proof {
        lemma_deep_chars(pieces);
    }
    let ghost pv = pieces.deep_view();
    let mut i: usize = 0;
    while i < pieces.len()
        invariant
            i <= pieces@.len(),
            pv == pieces.deep_view(),
            pv.len() == pieces@.len(),
            forall|j: int| 0 <= j < pieces@.len() ==> #[trigger] pieces@[j]@ == pv[j],
            params@ == params_of(pv.take(i as int)),
        decreases pieces@.len() - i,
    {
        assert(pv.take(i + 1).drop_last() == pv.take(i as int));
        assert(pv.take(i + 1).last() == pv[i as int]);
        let t = trim_vec(&pieces[i]);
        if t.len() > 0 {
            match find_in(&t, '=') {
                Some(e) => {
                    let k = string_of_range(&t, 0, e);
                    let val = string_of_range(&t, e + 1, t.len());
                    assert(t@.subrange(0, e as int) == t@.take(e as int));
                    assert(t@.subrange(e + 1, t@.len() as int) == t@.skip(e as int + 1));
                    params.insert(k.as_str(), Some(val));
                },
                None => {
                    let k = string_of(&t);
                    params.insert(k.as_str(), None);
                },
            }
        }
        i += 1;
    }
    assert(pv.take(pv.len() as int) == pv);
    Ok(params)
}

/// Reads `&`-separated URI headers (the text after `?`). Blank pieces are
/// skipped; every input is accepted.
pub fn parse_uri_headers(s: &str) -> (r: Result<UriHeaders, ParseError>)
    ensures
        r matches Ok(h) && h@ == headers_of(split_char(s@, '&')),
{
    let mut headers = UriHeaders::new();
    let v = chars_of(s);
    let pieces = split_vec(&v, '&');
    proof {
        lemma_deep_chars(pieces);
    }
    let ghost pv = pieces.deep_view();
    let mut i: usize = 0;
    while i < pieces.len()
        invariant
            i <= pieces@.len(),
            pv == pieces.deep_view(),
            pv.len() == pieces@.len(),
            forall|j: int| 0 <= j < pieces@.len() ==> #[trigger] pieces@[j]@ == pv[j],
            headers@ == headers_of(pv.take(i as int)),
        decreases pieces@.len() - i,
    {
        assert(pv.take(i + 1).drop_last() == pv.take(i as int));
        assert(pv.take(i + 1).last() == pv[i as int]);
        let t = trim_vec(&pieces[i]);
        if t.len() > 0 {
            match find_in(&t, '=') {
                Some(e) => {
                    let k = string_of_range(&t, 0, e);
                    let val = string_of_range(&t, e + 1, t.len());
                    assert(t@.subrange(0, e as int) == t@.take(e as int));
                    assert(t@.subrange(e + 1, t@.len() as int) == t@.skip(e as int + 1));
                    headers.insert(k.as_str(), val.as_str());
                },
                None => {
                    let k = string_of(&t);
                    proof {
                        reveal_strlit("");
                        assert(""@ =~= Seq::<char>::empty());
                        assert(header_entry(t@) == (t@, Seq::<char>::empty()));
                    }
                    headers.insert(k.as_str(), "");
                },
            }
        }
        i += 1;
    }
    assert(pv.take(pv.len() as int) == pv);
    Ok(headers)
}

// ---------------------------------------------------------------------------
// Laws
// ---------------------------------------------------------------------------

/// Reading a scheme's name gives the scheme back.
pub proof fn law_scheme_name_roundtrip(sc: UriScheme)
    ensures
        scheme_of(scheme_name(sc)) == Some(sc),
{
    reveal_strlit("sip");
    reveal_strlit("sips");
    reveal_strlit("sip+ws");
    reveal_strlit("sip+wss");
    match sc {
        UriScheme::Sip => {
            assert(lowercase_is("sip"@, "sip"@));
        },
        UriScheme::Sips => {
            assert(!lowercase_is("sips"@, "sip"@));
            assert(lowercase_is("sips"@, "sips"@));
        },
        UriScheme::SipWs => {
            assert(!lowercase_is("sip+ws"@, "sip"@));
            assert(!lowercase_is("sip+ws"@, "sips"@));
            assert(lowercase_is("sip+ws"@, "sip+ws"@));
        },
        UriScheme::SipWss => {
            assert(!lowercase_is("sip+wss"@, "sip"@));
            assert(!lowercase_is("sip+wss"@, "sips"@));
            assert(!lowercase_is("sip+wss"@, "sip+ws"@));
            assert(lowercase_is("sip+wss"@, "sip+wss"@));
        },
    }
}

proof fn lemma_eq_ascii_ci_refl(k: Seq<char>)
    ensures
        eq_ascii_ci(k, k),
{
}

/// After an entry `key` is appended, looking up `key` (ignoring ASCII case)
/// gives the earlier entry if there was one, else the new value; other keys
/// read as before.
pub proof fn law_lookup_after_push<V>(entries: Seq<(Seq<char>, V)>, key: Seq<char>, value: V, other: Seq<char>)
    ensures
        lookup(entries.push((key, value)), key) == (match lookup(entries, key) {
            Some(v) => Some(v),
            None => Some(value),
        }),
        !eq_ascii_ci(key, other) ==> lookup(entries.push((key, value)), other) == lookup(entries, other),
    decreases entries.len(),
{
    let e2 = entries.push((key, value));
    lemma_eq_ascii_ci_refl(key);
    if entries.len() == 0 {
        assert(e2[0] == (key, value));
        assert(e2.drop_first().len() == 0);
    } else {
        assert(e2.drop_first() == entries.drop_first().push((key, value)));
        assert(e2[0] == entries[0]);
        law_lookup_after_push(entries.drop_first(), key, value, other);
        lemma_find_key_bound(entries.drop_first(), key);
        lemma_find_key_bound(entries.drop_first(), other);
        lemma_find_key_bound(e2.drop_first(), key);
        lemma_find_key_bound(e2.drop_first(), other);
        match find_key(entries.drop_first(), key) {
            Some(i) => {
                assert(entries.drop_first()[i as int] == entries[i as int + 1]);
                assert(e2.drop_first()[i as int] == e2[i as int + 1]);
            },
            None => {},
        }
        match find_key(e2.drop_first(), key) {
            Some(i) => {
                assert(e2.drop_first()[i as int] == e2[i as int + 1]);
            },
            None => {},
        }
        match find_key(entries.drop_first(), other) {
            Some(i) => {
                assert(entries.drop_first()[i as int] == entries[i as int + 1]);
                assert(e2.drop_first()[i as int] == e2[i as int + 1]);
            },
            None => {},
        }
        match find_key(e2.drop_first(), other) {
            Some(i) => {
                assert(e2.drop_first()[i as int] == e2[i as int + 1]);
            },
            None => {},
        }
    }
}


// ---------------------------------------------------------------------------
// Host and port
// ---------------------------------------------------------------------------

/// `host[:port]`: an IPv6 reference `[...]` with an optional `:port`, or a
/// name or IPv4 address with an optional port after its last `:`. The host
/// comes back as written, brackets included. On error, the message.
pub open spec fn spec_host_port(s: Seq<char>) -> Result<(Seq<char>, Option<u16>), Seq<char>> {
    if s.len() == 0 {
        Err("empty host"@)
    } else if s[0] == '[' {
        match find_char(s, ']') {
            None => Err("unclosed IPv6 bracket"@),
            Some(b) => {
                let host = s.take(b + 1int);
                let rest = s.skip(b + 1int);
                if rest.len() > 0 && rest[0] == ':' {
                    let ps = rest.skip(1);
                    if ps.len() == 0 {
                        Err("empty port after colon"@)
                    } else {
                        match parse_uint(ps, 65535) {
                            Some(n) => Ok((host, Some(n as u16))),
                            None => Err("invalid port: "@ + ps),
                        }
                    }
                } else if rest.len() == 0 {
                    Ok((host, None))
                } else {
                    Err("unexpected characters after IPv6 address: "@ + rest)
                }
            },
        }
    } else {
        match rfind_char(s, ':') {
            Some(c) => {
                let ps = s.skip(c + 1int);
                match parse_uint(ps, 65535) {
                    Some(n) => Ok((s.take(c as int), Some(n as u16))),
                    None => Err("invalid port: "@ + ps),
                }
            },
            None => Ok((s, None)),
        }
    }
}

/// `msg` followed by the characters `v[lo..hi]`.
fn message_with(msg: &str, v: &Vec<char>, lo: usize, hi: usize) -> (s: String)
    requires
        lo <= hi <= v@.len(),
    ensures
        s@ == msg@ + v@.subrange(lo as int, hi as int),
{
    let mut s = copy_str(msg);
    let tail = string_of_range(v, lo, hi);
    push_str(&mut s, tail.as_str());
    s
}

/// Splits `host[:port]`; see `spec_host_port`. Whether the host is a valid
/// name or address is left to the caller.
pub fn parse_host_port(s: &str) -> (r: Result<(String, Option<u16>), ParseError>)
    ensures
        match spec_host_port(s@) {
            Ok((h, p)) => r matches Ok(x) && x.0@ == h && x.1 == p,
            Err(d) => r matches Err(e) && e@ == (SpecParseError::InvalidUri { detail: d }),
        },
{
    let v = chars_of(s);
    let n = v.len();
    if n == 0 {
        return Err(ParseError::InvalidUri { detail: copy_str("empty host") });
    }
    if v[0] == '[' {
        match find_in(&v, ']') {
            None => Err(ParseError::InvalidUri { detail: copy_str("unclosed IPv6 bracket") }),
            Some(b) => {
                let host = string_of_range(&v, 0, b + 1);
                assert(v@.subrange(0, b + 1) == v@.take(b + 1));
                let ghost rest = v@.skip(b + 1);
                if b + 1 < n && v[b + 1] == ':' {
                    assert(rest[0] == ':');
                    let ghost ps = rest.skip(1);
                    assert(ps == v@.subrange(b + 2, n as int));
                    if b + 2 == n {
                        return Err(ParseError::InvalidUri { detail: copy_str("empty port after colon") });
                    }
                    let pv = sub_vec(&v, b + 2, n);
                    match parse_uint_vec(&pv, 65535) {
                        Some(p) => Ok((host, Some(p as u16))),
                        None => Err(ParseError::InvalidUri { detail: message_with("invalid port: ", &v, b + 2, n) }),
                    }
                } else if b + 1 == n {
                    assert(rest.len() == 0);
                    Ok((host, None))
                } else {
                    assert(rest == v@.subrange(b + 1, n as int));
                    Err(
                        ParseError::InvalidUri {
                            detail: message_with(
                                "unexpected characters after IPv6 address: ",
                                &v,
                                b + 1,
                                n,
                            ),
                        },
                    )
                }
            },
        }
    } else {
        match rfind_in(&v, ':') {
            Some(c) => {
                let pv = sub_vec(&v, c + 1, n);
                assert(pv@ == v@.skip(c + 1));
                match parse_uint_vec(&pv, 65535) {
                    Some(p) => {
                        let host = string_of_range(&v, 0, c);
                        assert(v@.subrange(0, c as int) == v@.take(c as int));
                        Ok((host, Some(p as u16)))
                    },
                    None => Err(ParseError::InvalidUri { detail: message_with("invalid port: ", &v, c + 1, n) }),
                }
            },
            None => Ok((string_of(&v), None)),
        }
    }
}


// ---------------------------------------------------------------------------
// SIP URI
// ---------------------------------------------------------------------------

/// `scheme:[user-info@]host[:port][;params][?headers]`. The host is kept
/// as written (an IPv6 reference with its brackets).
#[derive(Debug, Clone, PartialEq, Eq)]
pub struct SipUri {
    pub scheme: UriScheme,
    pub user_info: Option<UserInfo>,
    pub host: String,
    pub port: Option<u16>,
    pub params: UriParams,
    pub headers: UriHeaders,
}

#[verifier::ext_equal]
pub struct SpecSipUri {
    pub scheme: UriScheme,
    pub user_info: Option<SpecUserInfo>,
    pub host: Seq<char>,
    pub port: Option<u16>,
    pub params: Seq<(Seq<char>, Option<Seq<char>>)>,
    pub headers: Seq<(Seq<char>, Seq<char>)>,
}

pub open spec fn opt_user_info_view(u: Option<UserInfo>) -> Option<SpecUserInfo> {
    match u {
        Some(x) => Some(x@),
        None => None,
    }
}

impl View for SipUri {
    type V = SpecSipUri;

    open spec fn view(&self) -> SpecSipUri {
        SpecSipUri {
            scheme: self.scheme,
            user_info: opt_user_info_view(self.user_info),
            host: self.host@,
            port: self.port,
            params: self.params@,
            headers: self.headers@,
        }
    }
}

/// The text after `scheme:` and before the first `?`.
pub open spec fn uri_main(rest: Seq<char>) -> Seq<char> {
    match find_char(rest, '?') {
        Some(q) => rest.take(q as int),
        None => rest,
    }
}

/// The URI headers: those after the first `?`, none without one.
pub open spec fn uri_headers(rest: Seq<char>) -> Seq<(Seq<char>, Seq<char>)> {
    match find_char(rest, '?') {
        Some(q) => headers_of(split_char(rest.skip(q + 1int), '&')),
        None => Seq::empty(),
    }
}

/// The host part of the main text: after its last `@` outside brackets.
pub open spec fn uri_host_params(main: Seq<char>) -> Seq<char> {
    match last_free(main, '@', main.len() as int) {
        Some(p) => main.skip(p + 1int),
        None => main,
    }
}

/// The user info of the main text, read; `Ok(None)` when there is none.
pub open spec fn uri_user_info(main: Seq<char>) -> Result<Option<SpecUserInfo>, Seq<char>> {
    match last_free(main, '@', main.len() as int) {
        Some(p) => match spec_parse_user_info(main.take(p as int)) {
            Ok(u) => Ok(Some(u)),
            Err(d) => Err(d),
        },
        None => Ok(None),
    }
}

/// `host[:port]`: the host part before its first `;` outside brackets.
pub open spec fn uri_host_port(hp: Seq<char>) -> Seq<char> {
    match first_free(hp, ';', 0) {
        Some(p) => hp.take(p as int),
        None => hp,
    }
}

/// The URI parameters: those after the first `;` outside brackets.
pub open spec fn uri_params(hp: Seq<char>) -> Seq<(Seq<char>, Option<Seq<char>>)> {
    match first_free(hp, ';', 0) {
        Some(p) => params_of(split_char(hp.skip(p + 1int), ';')),
        None => Seq::empty(),
    }
}

/// Reading of a SIP URI, after trimming: the scheme before the first `:`,
/// then user info, host and port, parameters and headers. On error, the
/// message; the first error in that order is reported.
pub open spec fn spec_parse_uri(s: Seq<char>) -> Result<SpecSipUri, Seq<char>> {
    let t = trim(s);
    match find_char(t, ':') {
        None => Err("missing ':' after scheme"@),
        Some(c) => match scheme_of(t.take(c as int)) {
            None => Err("unknown URI scheme: "@ + t.take(c as int)),
            Some(scheme) => {
                let rest = t.skip(c + 1int);
                let main = uri_main(rest);
                let hp = uri_host_params(main);
                match uri_user_info(main) {
                    Err(d) => Err(d),
                    Ok(user_info) => match spec_host_port(uri_host_port(hp)) {
                        Err(d) => Err(d),
                        Ok((host, port)) => Ok(
                            SpecSipUri {
                                scheme,
                                user_info,
                                host,
                                port,
                                params: uri_params(hp),
                                headers: uri_headers(rest),
                            },
                        ),
                    },
                }
            },
        },
    }
}

/// How a URI is written.
pub open spec fn uri_text(u: SpecSipUri) -> Seq<char> {
    scheme_name(u.scheme) + ":"@ + match u.user_info {
        Some(x) => user_info_text(x) + "@"@,
        None => Seq::empty(),
    } + u.host + match u.port {
        Some(p) => ":"@ + crate::text::dec(p as nat),
        None => Seq::empty(),
    } + params_text(u.params) + headers_text(u.headers)
}

impl SipUri {
    /// Reads a SIP URI such as `sip:alice:password@example.com:5060;transport=tcp?h=v`
    /// or `sip:user@[::1]:5060`; see `spec_parse_uri`. Whether the host is
    /// a valid name or address is not checked.
    pub fn parse(s: &str) -> (r: Result<SipUri, ParseError>)
        ensures
            match spec_parse_uri(s@) {
                Ok(u) => r matches Ok(x) && x@ == u,
                Err(d) => r matches Err(e) && e@ == (SpecParseError::InvalidUri { detail: d }),
            },
    {
        let v = chars_of(s);
        let t = trim_vec(&v);
        let c = match find_in(&t, ':') {
            Some(c) => c,
            None => {
                return Err(ParseError::InvalidUri { detail: copy_str("missing ':' after scheme") });
            },
        };
        let name = string_of_range(&t, 0, c);
        assert(t@.subrange(0, c as int) == t@.take(c as int));
        let scheme = match UriScheme::from_name(name.as_str()) {
            Ok(sc) => sc,
            Err(e) => {
                return Err(e);
            },
        };
        let rest = sub_vec(&t, c + 1, t.len());
        assert(rest@ == t@.skip(c + 1));
        let (main, headers_text) = match find_in(&rest, '?') {
            Some(q) => {
                let m = string_of_range(&rest, 0, q);
                let h = string_of_range(&rest, q + 1, rest.len());
                assert(rest@.subrange(0, q as int) == rest@.take(q as int));
                assert(rest@.subrange(q + 1, rest@.len() as int) == rest@.skip(q + 1));
                (m, Some(h))
            },
            None => (string_of(&rest), None),
        };
        let (user_info_text, host_params) = split_user_info_from_host(main.as_str());
        let user_info = match user_info_text {
            Some(u) => match parse_user_info(u.as_str()) {
                Ok(x) => Some(x),
                Err(e) => {
                    return Err(e);
                },
            },
            None => None,
        };
        let (host_port, params_text) = split_params_from_host_port(host_params.as_str());
        let (host, port) = match parse_host_port(host_port.as_str()) {
            Ok(x) => x,
            Err(e) => {
                return Err(e);
            },
        };
        let params = match params_text {
            Some(p) => match parse_uri_params(p.as_str()) {
                Ok(x) => x,
                Err(e) => {
                    return Err(e);
                },
            },
            None => UriParams::new(),
        };
        let headers = match headers_text {
            Some(h) => match parse_uri_headers(h.as_str()) {
                Ok(x) => x,
                Err(e) => {
                    return Err(e);
                },
            },
            None => UriHeaders::new(),
        };
        let r = SipUri { scheme, user_info, host, port, params, headers };
        assert(r@ =~= spec_parse_uri(s@)->Ok_0);
        Ok(r)
    }

    /// Value of the `transport` parameter, when it has one.
    pub fn transport(&self) -> (r: Option<&str>)
        ensures
            match lookup(self@.params, "transport"@) {
                Some(Some(v)) => r matches Some(s) && s@ == v,
                _ => r is None,
            },
    {
        self.params.transport()
    }

    /// Whether there is an `lr` (loose routing) parameter.
    pub fn lr(&self) -> (b: bool)
        ensures
            b == lookup(self@.params, "lr"@) is Some,
    {
        self.params.lr()
    }

    /// The URI as text; see `uri_text`.
    pub fn to_string(&self) -> (s: String)
        ensures
            s@ == uri_text(self@),
    {
        let mut s = self.scheme.to_string();
        push_str(&mut s, ":");
        match &self.user_info {
            Some(ui) => {
                let t = ui.to_string();
                push_str(&mut s, t.as_str());
                push_str(&mut s, "@");
            },
            None => {},
        }
        push_str(&mut s, self.host.as_str());
        match self.port {
            Some(p) => {
                push_str(&mut s, ":");
                crate::text::push_dec(&mut s, p as u64);
            },
            None => {},
        }
        let ps = self.params.to_string();
        push_str(&mut s, ps.as_str());
        let hs = self.headers.to_string();
        push_str(&mut s, hs.as_str());
        assert(s@ =~= uri_text(self@));
        s
    }
}

impl std::str::FromStr for SipUri {
    type Err = ParseError;

    fn from_str(s: &str) -> (r: Result<SipUri, ParseError>)
        ensures
            match spec_parse_uri(s@) {
                Ok(u) => r matches Ok(x) && x@ == u,
                Err(d) => r matches Err(e) && e@ == (SpecParseError::InvalidUri { detail: d }),
            },
    {
        SipUri::parse(s)
    }
}

} // verus!

//! What parsing yields: every description that `SdpParser::parse` returns
//! is one its SDP text can carry, but for an origin that no `o=` line gave;
//! so writing a parsed description and parsing the text gives it back.
use vstd::prelude::*;

use crate::sdp::builder::sdp_text;
use crate::sdp::parser::{
    initial_state, spec_apply, spec_finish, spec_line_type,
    spec_parse_bandwidth, spec_parse_conn_addr, spec_parse_connection, spec_parse_encryption,
    spec_parse_media, spec_run, spec_sdp_lines, spec_sdp_parse, spec_step,
    spec_validate, SpecParseState,
};
use crate::sdp::roundtrip::{
    attr_ok, bw_ok, conn_ok, enc_ok, law_sdp_roundtrip, media_ok, opt_conn_ok,
    opt_enc_ok, opt_text_ok, origin_ok, sdp_wf, text_ok, token_ok, trimmed, with_gb_attrs,
};
use crate::sdp::types::{spec_parse_attribute, SpecAttribute, SpecSdpError, SpecSessionDescription};
use crate::text::{
    find_char, is_ws, lemma_find_char_props, lemma_split_char_nonempty, nonempty, split_char,
    split_once, split_ws, split_ws_raw, strip_trailing, trim, trim_end, trim_start,
};

verus! {

// ---------------------------------------------------------------------------
// Pieces of text
// ---------------------------------------------------------------------------

/// Every character of every piece of `split_char(s, c)` is a character of
/// `s` other than `c`; so it has every property that all characters of
/// `s` have.
proof fn lemma_split_char_all(s: Seq<char>, c: char, p: spec_fn(char) -> bool)
    requires
        forall|i: int| 0 <= i < s.len() ==> p(#[trigger] s[i]),
    ensures
        forall|k: int, j: int|
            0 <= k < split_char(s, c).len() && 0 <= j < split_char(s, c)[k].len() ==> p(
                #[trigger] split_char(s, c)[k][j],
            ) && split_char(s, c)[k][j] != c,
    decreases s.len(),
{
    if s.len() > 0 {
        let d = s.drop_last();
        assert forall|i: int| 0 <= i < d.len() implies p(#[trigger] d[i]) by {
            assert(d[i] == s[i]);
        }
        lemma_split_char_all(d, c, p);
        lemma_split_char_nonempty(d, c);
        let q = split_char(d, c);
        let r = split_char(s, c);
        assert(p(s[s.len() - 1]));
        assert forall|k: int, j: int| 0 <= k < r.len() && 0 <= j < r[k].len() implies p(
            #[trigger] r[k][j],
        ) && r[k][j] != c by {
            if s.last() != c && k == q.len() - 1 {
                if j < q[k].len() {
                    assert(r[k][j] == q[k][j]);
                } else {
                    assert(r[k][j] == s.last());
                }
            } else if k < q.len() {
                assert(r[k] == q[k]);
            }
        }
    }
}

/// A single piece is the whole text.
proof fn lemma_split_char_single(s: Seq<char>, c: char)
    requires
        split_char(s, c).len() == 1,
    ensures
        split_char(s, c)[0] == s,
    decreases s.len(),
{
    if s.len() > 0 {
        lemma_split_char_nonempty(s.drop_last(), c);
        lemma_split_char_single(s.drop_last(), c);
        assert(split_char(s, c)[0] =~= s);
    }
}

/// No piece of `split_ws_raw(s)` holds white space.
proof fn lemma_split_ws_raw_no_ws(s: Seq<char>)
    ensures
        forall|k: int, j: int|
            0 <= k < split_ws_raw(s).len() && 0 <= j < split_ws_raw(s)[k].len() ==> !is_ws(
                #[trigger] split_ws_raw(s)[k][j],
            ),
    decreases s.len(),
{
    if s.len() > 0 {
        let d = s.drop_last();
        lemma_split_ws_raw_no_ws(d);
        crate::text::lemma_split_ws_raw_nonempty(d);
        let q = split_ws_raw(d);
        let r = split_ws_raw(s);
        assert forall|k: int, j: int| 0 <= k < r.len() && 0 <= j < r[k].len() implies !is_ws(
            #[trigger] r[k][j],
        ) by {
            if !is_ws(s.last()) && k == q.len() - 1 {
                if j < q[k].len() {
                    assert(r[k][j] == q[k][j]);
                }
            } else if k < q.len() {
                assert(r[k] == q[k]);
            }
        }
    }
}

/// The pieces `nonempty` keeps are non-empty and have every property that
/// all pieces have.
proof fn lemma_nonempty_all(segs: Seq<Seq<char>>, p: spec_fn(Seq<char>) -> bool)
    requires
        forall|m: int| 0 <= m < segs.len() ==> p(#[trigger] segs[m]),
    ensures
        forall|k: int|
            0 <= k < nonempty(segs).len() ==> p(#[trigger] nonempty(segs)[k]) && nonempty(
                segs,
            )[k].len() > 0,
    decreases segs.len(),
{
    if segs.len() > 0 {
        let d = segs.drop_last();
        assert forall|m: int| 0 <= m < d.len() implies p(#[trigger] d[m]) by {
            assert(d[m] == segs[m]);
        }
        lemma_nonempty_all(d, p);
        assert(p(segs[segs.len() - 1]));
        let q = nonempty(d);
        let r = nonempty(segs);
        assert forall|k: int| 0 <= k < r.len() implies p(#[trigger] r[k]) && r[k].len() > 0 by {
            if segs.last().len() == 0 {
                assert(r == q);
            } else {
                assert(r == q.push(segs.last()));
                if k < q.len() {
                    assert(r[k] == q[k]);
                }
            }
        }
    }
}

/// The words of `s` are tokens.
proof fn lemma_split_ws_tokens(s: Seq<char>)
    ensures
        forall|k: int| 0 <= k < split_ws(s).len() ==> token_ok(#[trigger] split_ws(s)[k]),
{
    lemma_split_ws_raw_no_ws(s);
    let raw = split_ws_raw(s);
    let p = |w: Seq<char>| forall|j: int| 0 <= j < w.len() ==> !is_ws(#[trigger] w[j]);
    assert forall|m: int| 0 <= m < raw.len() implies p(#[trigger] raw[m]) by {
        assert forall|j: int| 0 <= j < raw[m].len() implies !is_ws(#[trigger] raw[m][j]) by {}
    }
    lemma_nonempty_all(raw, p);
    assert forall|k: int| 0 <= k < split_ws(s).len() implies token_ok(#[trigger] split_ws(s)[k]) by {
        assert(p(split_ws(s)[k]));
    }
}

/// `strip_trailing(l, c)` is a prefix of `l` that does not end in `c`.
proof fn lemma_strip_trailing(l: Seq<char>, c: char)
    ensures
        strip_trailing(l, c).len() <= l.len(),
        forall|j: int| 0 <= j < strip_trailing(l, c).len() ==> #[trigger] strip_trailing(l, c)[j] == l[j],
        strip_trailing(l, c).len() == 0 || strip_trailing(l, c).last() != c,
    decreases l.len(),
{
    if l.len() > 0 && l.last() == c {
        lemma_strip_trailing(l.drop_last(), c);
    }
}

/// `trim_start(s)` is a suffix of `s` that does not start with white space.
proof fn lemma_trim_start(s: Seq<char>)
    ensures
        trim_start(s).len() <= s.len(),
        forall|j: int| 0 <= j < trim_start(s).len() ==> #[trigger] trim_start(s)[j] == s[j + s.len() - trim_start(s).len()],
        trim_start(s).len() == 0 || !is_ws(trim_start(s)[0]),
    decreases s.len(),
{
    if s.len() > 0 && is_ws(s[0]) {
        lemma_trim_start(s.drop_first());
    }
}

/// `trim_end(s)` is a prefix of `s` that does not end with white space.
proof fn lemma_trim_end(s: Seq<char>)
    ensures
        trim_end(s).len() <= s.len(),
        forall|j: int| 0 <= j < trim_end(s).len() ==> #[trigger] trim_end(s)[j] == s[j],
        trim_end(s).len() == 0 || !is_ws(trim_end(s).last()),
    decreases s.len(),
{
    if s.len() > 0 && is_ws(s.last()) {
        lemma_trim_end(s.drop_last());
    }
}

/// The trimmed text keeps every property of the characters of `s`, is
/// trimmed, and does not end with `\r`.
proof fn lemma_trim(s: Seq<char>, p: spec_fn(char) -> bool)
    requires
        forall|i: int| 0 <= i < s.len() ==> p(#[trigger] s[i]),
    ensures
        forall|j: int| 0 <= j < trim(s).len() ==> p(#[trigger] trim(s)[j]),
        trimmed(trim(s)),
        trim(s).len() == 0 || trim(s).last() != '\r',
{
    let x = trim_start(s);
    let y = trim_end(x);
    lemma_trim_start(s);
    lemma_trim_end(x);
    assert forall|j: int| 0 <= j < y.len() implies p(#[trigger] y[j]) by {
        assert(y[j] == x[j]);
        assert(x[j] == s[j + s.len() - x.len()]);
    }
    if y.len() > 0 {
        assert(y[0] == x[0]);
        assert(trim_start(y) == y);
        assert(trim_end(y) == y);
    } else {
        assert(trim_start(y) == y);
    }
    assert(trim(y) == y);
}

/// A text all of whose characters avoid `c` does not contain `c`.
proof fn lemma_chars_free(s: Seq<char>, c: char)
    requires
        forall|i: int| 0 <= i < s.len() ==> #[trigger] s[i] != c,
    ensures
        !s.contains(c),
{
    if s.contains(c) {
        let i = choose|i: int| 0 <= i < s.len() && s[i] == c;
    }
}

/// The end of a one-line text is a one-line text.
proof fn lemma_suffix_text_ok(v: Seq<char>, k: int)
    requires
        text_ok(v),
        0 <= k <= v.len(),
    ensures
        text_ok(v.skip(k)),
{
    let w = v.skip(k);
    assert forall|j: int| 0 <= j < w.len() implies #[trigger] w[j] != '\n' by {
        assert(w[j] == v[j + k]);
        if v[j + k] == '\n' {
            assert(v.contains('\n'));
        }
    }
    lemma_chars_free(w, '\n');
    if w.len() > 0 {
        assert(w.last() == v.last());
    }
}

/// No character of a one-line text is a line break.
proof fn lemma_text_chars(v: Seq<char>)
    requires
        text_ok(v),
    ensures
        forall|i: int| 0 <= i < v.len() ==> #[trigger] v[i] != '\n',
{
    assert forall|i: int| 0 <= i < v.len() implies #[trigger] v[i] != '\n' by {
        if v[i] == '\n' {
            assert(v.contains('\n'));
        }
    }
}

/// The lines of an SDP text are non-empty one-line texts.
proof fn lemma_lines_ok(input: Seq<char>)
    ensures
        forall|k: int|
            0 <= k < spec_sdp_lines(input).len() ==> text_ok(#[trigger] spec_sdp_lines(input)[k])
                && spec_sdp_lines(input)[k].len() > 0,
{
    let pieces = split_char(input, '\n');
    let anything = |c: char| true;
    lemma_split_char_all(input, '\n', anything);
    let mapped = pieces.map_values(|l: Seq<char>| strip_trailing(l, '\r'));
    let p = |l: Seq<char>| text_ok(l);
    assert forall|m: int| 0 <= m < mapped.len() implies p(#[trigger] mapped[m]) by {
        let l = pieces[m];
        lemma_strip_trailing(l, '\r');
        let t = strip_trailing(l, '\r');
        assert(mapped[m] == t);
        assert forall|j: int| 0 <= j < t.len() implies #[trigger] t[j] != '\n' by {
            assert(t[j] == l[j]);
            assert(pieces[m][j] != '\n');
        }
        lemma_chars_free(t, '\n');
    }
    lemma_nonempty_all(mapped, p);
    assert forall|k: int| 0 <= k < spec_sdp_lines(input).len() implies text_ok(
        #[trigger] spec_sdp_lines(input)[k],
    ) && spec_sdp_lines(input)[k].len() > 0 by {
        assert(p(nonempty(mapped)[k]));
    }
}

/// The value of a line that splits is a one-line text.
proof fn lemma_value_ok(line: Seq<char>, ln: nat)
    requires
        text_ok(line),
        spec_line_type(line, ln) is Ok,
    ensures
        text_ok(spec_line_type(line, ln)->Ok_0.1),
{
    if crate::text::utf8_width(line[0]) == 1 {
        lemma_suffix_text_ok(line, 2);
    } else {
        lemma_suffix_text_ok(line, 1);
    }
}

/// The part of `v` before its first `c`, and what follows it.
proof fn lemma_split_once_parts(v: Seq<char>, c: char)
    requires
        text_ok(v),
    ensures
        match split_once(v, c) {
            Some((a, b)) => (forall|i: int| 0 <= i < a.len() ==> #[trigger] a[i] != c && a[i]
                != '\n') && text_ok(b),
            None => forall|i: int| 0 <= i < v.len() ==> #[trigger] v[i] != c && v[i] != '\n',
        },
{
    lemma_find_char_props(v, c);
    lemma_text_chars(v);
    match find_char(v, c) {
        Some(i) => {
            let a = v.take(i as int);
            assert forall|j: int| 0 <= j < a.len() implies #[trigger] a[j] != c && a[j] != '\n' by {
                assert(a[j] == v[j]);
            }
            lemma_suffix_text_ok(v, i as int + 1);
        },
        None => {},
    }
}

/// Trimming a text without `c` or line breaks gives a trimmed one-line
/// text without `c`.
proof fn lemma_trim_free(a: Seq<char>, c: char)
    requires
        forall|i: int| 0 <= i < a.len() ==> #[trigger] a[i] != c && a[i] != '\n',
    ensures
        text_ok(trim(a)),
        !trim(a).contains(c),
        trimmed(trim(a)),
{
    let p = |x: char| x != c && x != '\n';
    assert forall|i: int| 0 <= i < a.len() implies p(#[trigger] a[i]) by {}
    lemma_trim(a, p);
    let t = trim(a);
    assert forall|j: int| 0 <= j < t.len() implies #[trigger] t[j] != '\n' by {
        assert(p(t[j]));
    }
    assert forall|j: int| 0 <= j < t.len() implies #[trigger] t[j] != c by {
        assert(p(t[j]));
    }
    lemma_chars_free(t, '\n');
    lemma_chars_free(t, c);
}

// ---------------------------------------------------------------------------
// Each field
// ---------------------------------------------------------------------------

proof fn lemma_connection_ok(v: Seq<char>, ln: nat)
    requires
        spec_parse_connection(v, ln) is Ok,
    ensures
        conn_ok(spec_parse_connection(v, ln)->Ok_0),
{
    let p = split_ws(v);
    lemma_split_ws_tokens(v);
    assert(token_ok(p[0]) && token_ok(p[1]) && token_ok(p[2]));
    let t = p[2];
    let pieces = split_char(t, '/');
    let nows = |x: char| !is_ws(x);
    assert forall|i: int| 0 <= i < t.len() implies nows(#[trigger] t[i]) by {}
    lemma_split_char_all(t, '/', nows);
    let a = pieces[0];
    lemma_split_char_nonempty(t, '/');
    assert forall|i: int| 0 <= i < a.len() implies !is_ws(#[trigger] a[i]) && a[i] != '/' by {
        assert(nows(pieces[0][i]));
    }
    lemma_chars_free(a, '/');
    if pieces.len() == 1 {
        lemma_split_char_single(t, '/');
    }
    let c = spec_parse_connection(v, ln)->Ok_0;
    assert(spec_parse_conn_addr(t, ln) is Ok);
    assert(c.connection_address == a);
}

proof fn lemma_bandwidth_ok(v: Seq<char>, ln: nat)
    requires
        text_ok(v),
        spec_parse_bandwidth(v, ln) is Ok,
    ensures
        bw_ok(spec_parse_bandwidth(v, ln)->Ok_0),
{
    lemma_split_once_parts(v, ':');
    let (a, b) = split_once(v, ':')->Some_0;
    lemma_trim_free(a, ':');
}

proof fn lemma_encryption_ok(v: Seq<char>)
    requires
        text_ok(v),
    ensures
        enc_ok(spec_parse_encryption(v)),
{
    lemma_split_once_parts(v, ':');
    match split_once(v, ':') {
        Some((m, k)) => {
            lemma_trim_free(m, ':');
            lemma_text_chars(k);
            lemma_trim_free(k, '\n');
        },
        None => {
            lemma_trim_free(v, ':');
        },
    }
}

proof fn lemma_attribute_ok(v: Seq<char>)
    requires
        text_ok(v),
    ensures
        attr_ok(spec_parse_attribute(v)),
{
    lemma_split_once_parts(v, ':');
    match split_once(v, ':') {
        Some((n, val)) => {
            lemma_chars_free(n, ':');
            lemma_chars_free(n, '\n');
        },
        None => {
            lemma_chars_free(v, ':');
        },
    }
}

proof fn lemma_media_ok(v: Seq<char>, ln: nat)
    requires
        spec_parse_media(v, ln) is Ok,
    ensures
        media_ok(spec_parse_media(v, ln)->Ok_0),
{
    let p = split_ws(v);
    lemma_split_ws_tokens(v);
    let m = spec_parse_media(v, ln)->Ok_0;
    assert(token_ok(p[0]) && token_ok(p[2]));
    assert forall|i: int| 0 <= i < m.formats.len() implies token_ok(#[trigger] m.formats[i]) by {
        assert(m.formats[i] == p[i + 3]);
    }
}

/// A GB28181 `y=` or `f=` line kept as a media attribute.
proof fn lemma_gb_attribute_ok(t: char, v: Seq<char>)
    requires
        t == 'y' || t == 'f',
        text_ok(v),
    ensures
        attr_ok(SpecAttribute { name: seq![t], value: Some(v) }),
{
    let n = seq![t];
    assert forall|i: int| 0 <= i < n.len() implies #[trigger] n[i] != ':' && n[i] != '\n' by {}
    lemma_chars_free(n, ':');
    lemma_chars_free(n, '\n');
}

// ---------------------------------------------------------------------------
// The whole text
// ---------------------------------------------------------------------------

/// What `sdp_wf` asks of a description, but for its origin, its session
/// name being non-empty and its time descriptions.
pub open spec fn fields_ok(sd: SpecSessionDescription) -> bool {
    &&& text_ok(sd.session_name)
    &&& opt_text_ok(sd.session_info)
    &&& opt_text_ok(sd.uri)
    &&& opt_text_ok(sd.email)
    &&& opt_text_ok(sd.phone)
    &&& opt_conn_ok(sd.connection)
    &&& forall|i: int| 0 <= i < sd.bandwidth.len() ==> bw_ok(#[trigger] sd.bandwidth[i])
    &&& opt_text_ok(sd.timezone)
    &&& opt_enc_ok(sd.encryption)
    &&& forall|i: int| 0 <= i < sd.attributes.len() ==> attr_ok(#[trigger] sd.attributes[i])
    &&& forall|i: int|
        0 <= i < sd.media_descriptions.len() ==> media_ok(#[trigger] sd.media_descriptions[i])
    &&& opt_text_ok(sd.ssrc)
    &&& opt_text_ok(sd.media_format)
}

/// A parse state whose description and open media description are
/// well formed as far as `fields_ok` and `media_ok` go.
pub open spec fn state_ok(st: SpecParseState) -> bool {
    fields_ok(st.sdp) && (st.media matches Some(m) ==> media_ok(m))
}

/// Each line keeps the parse state well formed.
#[verifier::spinoff_prover]
#[verifier::rlimit(60)]
proof fn lemma_apply_ok(st: SpecParseState, t: char, v: Seq<char>, ln: nat)
    requires
        state_ok(st),
        text_ok(v),
        spec_apply(st, t, v, ln) is Ok,
    ensures
        state_ok(spec_apply(st, t, v, ln)->Ok_0),
{
    let sd = st.sdp;
    let r = spec_apply(st, t, v, ln)->Ok_0;
    if t == 'c' {
        lemma_connection_ok(v, ln);
    } else if t == 'b' {
        lemma_bandwidth_ok(v, ln);
        let b = spec_parse_bandwidth(v, ln)->Ok_0;
        match st.media {
            Some(m) => {
                let m2 = r.media->Some_0;
                assert forall|i: int| 0 <= i < m2.bandwidth.len() implies bw_ok(
                    #[trigger] m2.bandwidth[i],
                ) by {
                    if i < m.bandwidth.len() {
                        assert(m2.bandwidth[i] == m.bandwidth[i]);
                    }
                }
            },
            None => {
                assert forall|i: int| 0 <= i < r.sdp.bandwidth.len() implies bw_ok(
                    #[trigger] r.sdp.bandwidth[i],
                ) by {
                    if i < sd.bandwidth.len() {
                        assert(r.sdp.bandwidth[i] == sd.bandwidth[i]);
                    }
                }
            },
        }
    } else if t == 'k' {
        lemma_encryption_ok(v);
    } else if t == 'a' {
        lemma_attribute_ok(v);
        match st.media {
            Some(m) => {
                let m2 = r.media->Some_0;
                assert forall|i: int| 0 <= i < m2.attributes.len() implies attr_ok(
                    #[trigger] m2.attributes[i],
                ) by {
                    if i < m.attributes.len() {
                        assert(m2.attributes[i] == m.attributes[i]);
                    }
                }
            },
            None => {
                assert forall|i: int| 0 <= i < r.sdp.attributes.len() implies attr_ok(
                    #[trigger] r.sdp.attributes[i],
                ) by {
                    if i < sd.attributes.len() {
                        assert(r.sdp.attributes[i] == sd.attributes[i]);
                    }
                }
            },
        }
    } else if t == 'm' {
        lemma_media_ok(v, ln);
        match st.media {
            Some(old) => {
                assert forall|i: int| 0 <= i < r.sdp.media_descriptions.len() implies media_ok(
                    #[trigger] r.sdp.media_descriptions[i],
                ) by {
                    if i < sd.media_descriptions.len() {
                        assert(r.sdp.media_descriptions[i] == sd.media_descriptions[i]);
                    }
                }
            },
            None => {},
        }
    } else if t == 'y' || t == 'f' {
        lemma_gb_attribute_ok(t, v);
        match st.media {
            Some(m) => {
                let m2 = r.media->Some_0;
                assert forall|i: int| 0 <= i < m2.attributes.len() implies attr_ok(
                    #[trigger] m2.attributes[i],
                ) by {
                    if i < m.attributes.len() {
                        assert(m2.attributes[i] == m.attributes[i]);
                    }
                }
            },
            None => {},
        }
    }
}

/// Every state that parsing reaches is well formed.
proof fn lemma_run_ok(lines: Seq<Seq<char>>, n: nat)
    requires
        n <= lines.len(),
        forall|k: int| 0 <= k < lines.len() ==> text_ok(#[trigger] lines[k]),
        spec_run(lines, n) is Ok,
    ensures
        state_ok(spec_run(lines, n)->Ok_0),
    decreases n,
{
    if n > 0 {
        let k = (n - 1) as nat;
        lemma_run_ok(lines, k);
        let st = spec_run(lines, k)->Ok_0;
        let line = lines[k as int];
        assert(spec_step(st, line, n) is Ok);
        lemma_value_ok(line, n);
        let (t, v) = spec_line_type(line, n)->Ok_0;
        lemma_apply_ok(st, t, v, n);
    } else {
        assert(state_ok(initial_state()));
    }
}

/// A description that parsing returns is well formed when the text gave
/// it an origin; without an `o=` line the origin stays blank.
pub proof fn lemma_parsed_wf(input: Seq<char>)
    requires
        spec_sdp_parse(input) is Ok,
    ensures
        fields_ok(spec_sdp_parse(input)->Ok_0),
        sdp_wf(spec_sdp_parse(input)->Ok_0) <==> origin_ok(spec_sdp_parse(input)->Ok_0.origin),
{
    let lines = spec_sdp_lines(input);
    lemma_lines_ok(input);
    lemma_run_ok(lines, lines.len());
    let st = spec_run(lines, lines.len())->Ok_0;
    let sd = spec_finish(st);
    let sd1 = match st.time {
        Some(td) => SpecSessionDescription {
            time_descriptions: st.sdp.time_descriptions.push(td),
            ..st.sdp
        },
        None => st.sdp,
    };
    match st.media {
        Some(m) => {
            assert forall|i: int| 0 <= i < sd.media_descriptions.len() implies media_ok(
                #[trigger] sd.media_descriptions[i],
            ) by {
                if i < sd1.media_descriptions.len() {
                    assert(sd.media_descriptions[i] == st.sdp.media_descriptions[i]);
                }
            }
        },
        None => {},
    }
    assert(spec_validate(sd) is Ok);
}

/// Writing a description that parsing returned and parsing the text gives
/// the description back, GB28181's `y=` and `f=` values also appearing as
/// attributes of the last media description, whenever the first text had
/// an `o=` line. (Without one the origin is blank, its written `o=` line
/// has too few fields, and the second parse fails.)
pub proof fn law_parse_write_parse(input: Seq<char>)
    requires
        spec_sdp_parse(input) is Ok,
        origin_ok(spec_sdp_parse(input)->Ok_0.origin),
    ensures
        spec_sdp_parse(sdp_text(spec_sdp_parse(input)->Ok_0)) == Ok::<
            SpecSessionDescription,
            SpecSdpError,
        >(with_gb_attrs(spec_sdp_parse(input)->Ok_0)),
{
    lemma_parsed_wf(input);
    law_sdp_roundtrip(spec_sdp_parse(input)->Ok_0);
}

} // verus!

//! Reading back what was written: SDP text produced by
//! `SessionDescription::to_sdp_string` parses to the same description.
//!
//! The one difference is GB28181's: the `y=` and `f=` lines, written after
//! the media descriptions, are also read as attributes of the last media
//! description.
use vstd::prelude::*;

use crate::sdp::builder::{
    attribute_lines, bandwidth_lines, conn_line, crlf, enc_line, media_section, media_sections,
    opt_line, repeat_lines, sdp_text, spec_bandwidth_text, spec_connection_text,
    spec_encryption_text, spec_formats_text, spec_media_line_text, spec_offsets_text,
    spec_origin_text, spec_repeat_text, time_lines, time_section,
};
use crate::sdp::parser::{
    initial_state, spec_apply, spec_finish, spec_line_type, spec_parse_bandwidth,
    spec_parse_conn_addr, spec_parse_connection, spec_parse_media, spec_parse_offsets,
    spec_parse_origin, spec_parse_port, spec_parse_repeat, spec_parse_time, spec_parse_version,
    spec_run, spec_sdp_lines, spec_sdp_parse, spec_step, u32_max, u64_max, SpecParseState,
};
use crate::sdp::types::{
    spec_attribute_text, spec_media_type, spec_media_type_name, spec_parse_attribute,
    SpecAttribute, SpecBandwidth, SpecConnection, SpecEncryption, SpecMediaDescription,
    SpecMediaType, SpecOrigin, SpecRepeatTime, SpecSessionDescription, SpecTimeDescription,
};
use crate::text::{
    dec, find_char, is_digit, is_ws, join_char, lemma_dec_digits,
    lemma_parse_pad_dec, lemma_split_char_free, lemma_split_join,
    nonempty, split_char, split_once, split_ws, split_ws_raw, strip_trailing, trim,
    trim_end, trim_start, utf8_width,
};

verus! {

// ---------------------------------------------------------------------------
// Tokens and separators
// ---------------------------------------------------------------------------

/// A non-empty word without white space.
pub open spec fn token_ok(s: Seq<char>) -> bool {
    s.len() > 0 && forall|i: int| 0 <= i < s.len() ==> !is_ws(#[trigger] s[i])
}

/// Text that fits on one line and does not end with `\r`.
pub open spec fn text_ok(s: Seq<char>) -> bool {
    !s.contains('\n') && (s.len() == 0 || s.last() != '\r')
}

/// Text without white space at either end.
pub open spec fn trimmed(s: Seq<char>) -> bool {
    trim(s) == s
}

proof fn lemma_token_trimmed(s: Seq<char>)
    requires
        token_ok(s),
    ensures
        trim(s) == s,
        text_ok(s),
{
    assert(!is_ws(s[0]));
    assert(trim_start(s) == s);
    assert(!is_ws(s.last()));
    assert(trim_end(s) == s);
    if s.contains('\n') {
        let i = choose|i: int| 0 <= i < s.len() && s[i] == '\n';
        assert(!is_ws(s[i]));
    }
}

proof fn lemma_dec_token(n: nat)
    ensures
        token_ok(dec(n)),
        !dec(n).contains('/'),
        !dec(n).contains(':'),
{
    lemma_dec_digits(n);
    let d = dec(n);
    assert forall|i: int| 0 <= i < d.len() implies !is_ws(#[trigger] d[i]) by {
        assert(is_digit(d[i]));
    }
    if d.contains('/') {
        let i = choose|i: int| 0 <= i < d.len() && d[i] == '/';
        assert(is_digit(d[i]));
    }
    if d.contains(':') {
        let i = choose|i: int| 0 <= i < d.len() && d[i] == ':';
        assert(is_digit(d[i]));
    }
}

/// Pieces of `a`, then pieces of `b`, when `a` and `b` are joined by a space.
proof fn lemma_split_ws_raw_concat(a: Seq<char>, b: Seq<char>)
    ensures
        split_ws_raw(a + seq![' '] + b) == split_ws_raw(a) + split_ws_raw(b),
    decreases b.len(),
{
    let s = a + seq![' '] + b;
    if b.len() == 0 {
        assert(s.drop_last() =~= a);
        assert(split_ws_raw(b) =~= seq![Seq::<char>::empty()]);
        assert(split_ws_raw(a).push(Seq::<char>::empty()) =~= split_ws_raw(a) + seq![
            Seq::<char>::empty(),
        ]);
    } else {
        assert(s.drop_last() =~= a + seq![' '] + b.drop_last());
        lemma_split_ws_raw_concat(a, b.drop_last());
        crate::text::lemma_split_ws_raw_nonempty(b.drop_last());
        crate::text::lemma_split_ws_raw_nonempty(a);
        let pa = split_ws_raw(a);
        let pb = split_ws_raw(b.drop_last());
        if is_ws(b.last()) {
            assert((pa + pb).push(Seq::<char>::empty()) =~= pa + pb.push(Seq::<char>::empty()));
        } else {
            let p = pa + pb;
            assert(p.update(p.len() - 1, p.last().push(b.last())) =~= pa + pb.update(
                pb.len() - 1,
                pb.last().push(b.last()),
            ));
        }
    }
}

proof fn lemma_split_ws_raw_token(s: Seq<char>)
    requires
        forall|i: int| 0 <= i < s.len() ==> !is_ws(#[trigger] s[i]),
    ensures
        split_ws_raw(s) == seq![s],
    decreases s.len(),
{
    if s.len() > 0 {
        assert forall|i: int| 0 <= i < s.drop_last().len() implies !is_ws(
            #[trigger] s.drop_last()[i],
        ) by {
            assert(s.drop_last()[i] == s[i]);
        }
        lemma_split_ws_raw_token(s.drop_last());
        assert(!is_ws(s[s.len() - 1]));
        assert(s.drop_last().push(s.last()) =~= s);
        assert(seq![s.drop_last()].update(0, s.drop_last().push(s.last())) =~= seq![s]);
    } else {
        assert(s =~= Seq::<char>::empty());
    }
}

proof fn lemma_nonempty_concat(x: Seq<Seq<char>>, y: Seq<Seq<char>>)
    ensures
        nonempty(x + y) == nonempty(x) + nonempty(y),
    decreases y.len(),
{
    if y.len() == 0 {
        assert(x + y =~= x);
        assert(nonempty(x) + nonempty(y) =~= nonempty(x));
    } else {
        assert((x + y).drop_last() =~= x + y.drop_last());
        lemma_nonempty_concat(x, y.drop_last());
        if y.last().len() > 0 {
            assert((nonempty(x) + nonempty(y.drop_last())).push(y.last()) =~= nonempty(x)
                + nonempty(y.drop_last()).push(y.last()));
        }
    }
}

proof fn lemma_nonempty_all(x: Seq<Seq<char>>)
    requires
        forall|i: int| 0 <= i < x.len() ==> (#[trigger] x[i]).len() > 0,
    ensures
        nonempty(x) == x,
    decreases x.len(),
{
    if x.len() > 0 {
        assert forall|i: int| 0 <= i < x.drop_last().len() implies (
        #[trigger] x.drop_last()[i]).len() > 0 by {
            assert(x.drop_last()[i] == x[i]);
        }
        lemma_nonempty_all(x.drop_last());
        assert(x[x.len() - 1].len() > 0);
        assert(x.drop_last().push(x.last()) =~= x);
    }
}

/// Words joined by single spaces split back into the words.
proof fn lemma_split_ws_join(toks: Seq<Seq<char>>)
    requires
        toks.len() >= 1,
        forall|i: int| 0 <= i < toks.len() ==> token_ok(#[trigger] toks[i]),
    ensures
        split_ws(join_char(toks, ' ')) == toks,
    decreases toks.len(),
{
    lemma_split_ws_raw_join(toks);
    lemma_nonempty_all(toks);
}

proof fn lemma_split_ws_raw_join(toks: Seq<Seq<char>>)
    requires
        toks.len() >= 1,
        forall|i: int| 0 <= i < toks.len() ==> token_ok(#[trigger] toks[i]),
    ensures
        split_ws_raw(join_char(toks, ' ')) == toks,
        forall|i: int| 0 <= i < toks.len() ==> (#[trigger] toks[i]).len() > 0,
    decreases toks.len(),
{
    assert forall|i: int| 0 <= i < toks.len() implies (#[trigger] toks[i]).len() > 0 by {
        assert(token_ok(toks[i]));
    }
    if toks.len() == 1 {
        assert(token_ok(toks[0]));
        lemma_split_ws_raw_token(toks[0]);
        assert(seq![toks[0]] =~= toks);
    } else {
        let init = toks.drop_last();
        assert forall|i: int| 0 <= i < init.len() implies token_ok(#[trigger] init[i]) by {
            assert(init[i] == toks[i]);
        }
        lemma_split_ws_raw_join(init);
        lemma_split_ws_raw_concat(join_char(init, ' '), toks.last());
        assert(token_ok(toks[toks.len() - 1]));
        lemma_split_ws_raw_token(toks.last());
        assert(init + seq![toks.last()] =~= toks);
    }
}

/// The first `c` of `a + c + b` is right after `a` when `a` has none.
proof fn lemma_find_after(a: Seq<char>, b: Seq<char>, c: char)
    requires
        !a.contains(c),
    ensures
        find_char(a + seq![c] + b, c) == Some(a.len()),
        split_once(a + seq![c] + b, c) == Some((a, b)),
{
    let s = a + seq![c] + b;
    assert forall|j: int| 0 <= j < a.len() implies s[j] != c by {
        assert(s[j] == a[j]);
        if s[j] == c {
            assert(a.contains(c));
        }
    }
    crate::text::lemma_find_char_at(s, c, a.len());
    assert(s.take(a.len() as int) =~= a);
    assert(s.skip(a.len() as int + 1) =~= b);
}

proof fn lemma_find_none(a: Seq<char>, c: char)
    requires
        !a.contains(c),
    ensures
        find_char(a, c) is None,
        split_once(a, c) is None,
{
    assert forall|j: int| 0 <= j < a.len() implies a[j] != c by {
        if a[j] == c {
            assert(a.contains(c));
        }
    }
    crate::text::lemma_find_char_none(a, c);
}

// ---------------------------------------------------------------------------
// Lines
// ---------------------------------------------------------------------------

/// `ls` with each line followed by `\r\n`.
pub open spec fn crlf_join(ls: Seq<Seq<char>>) -> Seq<char>
    decreases ls.len(),
{
    if ls.len() == 0 {
        Seq::empty()
    } else {
        crlf_join(ls.drop_last()) + ls.last() + crlf()
    }
}

/// A line as it must be for the text to split back into it.
pub open spec fn line_ok(l: Seq<char>) -> bool {
    l.len() >= 2 && text_ok(l) && utf8_width(l[0]) == 1 && l[1] == '='
}

proof fn lemma_crlf_join_concat(a: Seq<Seq<char>>, b: Seq<Seq<char>>)
    ensures
        crlf_join(a + b) == crlf_join(a) + crlf_join(b),
    decreases b.len(),
{
    if b.len() == 0 {
        assert(a + b =~= a);
        assert(crlf_join(a) + crlf_join(b) =~= crlf_join(a));
    } else {
        assert((a + b).drop_last() =~= a + b.drop_last());
        lemma_crlf_join_concat(a, b.drop_last());
        assert(crlf_join(a) + crlf_join(b.drop_last()) + b.last() + crlf() =~= crlf_join(a) + (
        crlf_join(b.drop_last()) + b.last() + crlf()));
    }
}

/// The pieces of `crlf_join(ls)` at `\n`: each line with its `\r`, then an
/// empty piece.
pub open spec fn cr_pieces(ls: Seq<Seq<char>>) -> Seq<Seq<char>> {
    ls.map_values(|l: Seq<char>| l.push('\r')).push(Seq::empty())
}

proof fn lemma_crlf_join_is_join(ls: Seq<Seq<char>>)
    ensures
        crlf_join(ls) == join_char(cr_pieces(ls), '\n'),
    decreases ls.len(),
{
    reveal_strlit("\r\n");
    if ls.len() == 0 {
        assert(cr_pieces(ls) =~= seq![Seq::<char>::empty()]);
    } else {
        let init = ls.drop_last();
        lemma_crlf_join_is_join(init);
        let m = init.map_values(|l: Seq<char>| l.push('\r'));
        let p = cr_pieces(ls);
        let e = Seq::<char>::empty();
        let last = ls.last().push('\r');
        assert(p.drop_last() =~= m.push(last));
        assert(p.drop_last().drop_last() =~= m);
        assert(p.last() == e);
        assert(join_char(p, '\n') == join_char(p.drop_last(), '\n') + seq!['\n'] + e);
        assert(crlf() =~= seq!['\r', '\n']);
        if init.len() == 0 {
            assert(crlf_join(init) == e);
            assert(join_char(p.drop_last(), '\n') == last);
            assert(crlf_join(ls) =~= join_char(p, '\n'));
        } else {
            let ci = cr_pieces(init);
            assert(ci.drop_last() =~= m);
            assert(ci.last() == e);
            assert(join_char(ci, '\n') == join_char(m, '\n') + seq!['\n'] + e);
            assert(join_char(p.drop_last(), '\n') == join_char(m, '\n') + seq!['\n'] + last);
            assert(crlf_join(ls) =~= join_char(p, '\n'));
        }
    }
}

proof fn lemma_strip_cr(l: Seq<char>)
    requires
        text_ok(l),
    ensures
        strip_trailing(l.push('\r'), '\r') == l,
        strip_trailing(l, '\r') == l,
{
    assert(strip_trailing(l, '\r') == l);
    assert(l.push('\r').drop_last() =~= l);
}

/// The lines of text made of `ls` are `ls`.
proof fn lemma_lines_of_crlf_join(ls: Seq<Seq<char>>)
    requires
        forall|i: int| 0 <= i < ls.len() ==> line_ok(#[trigger] ls[i]),
    ensures
        spec_sdp_lines(crlf_join(ls)) == ls,
{
    lemma_crlf_join_is_join(ls);
    let p = cr_pieces(ls);
    assert forall|i: int| 0 <= i < p.len() implies !(#[trigger] p[i]).contains('\n') by {
        if i < ls.len() {
            assert(line_ok(ls[i]));
            assert(p[i] == ls[i].push('\r'));
            if p[i].contains('\n') {
                let k = choose|k: int| 0 <= k < p[i].len() && p[i][k] == '\n';
                assert(ls[i][k] == '\n');
            }
        } else {
            assert(p[i] =~= Seq::<char>::empty());
        }
    }
    lemma_split_join(p, '\n');
    let stripped = p.map_values(|l: Seq<char>| strip_trailing(l, '\r'));
    assert forall|i: int| 0 <= i < ls.len() implies stripped[i] == ls[i] by {
        assert(line_ok(ls[i]));
        lemma_strip_cr(ls[i]);
    }
    assert(stripped =~= ls.push(Seq::<char>::empty()));
    assert forall|i: int| 0 <= i < ls.len() implies (#[trigger] ls[i]).len() > 0 by {
        assert(line_ok(ls[i]));
    }
    lemma_nonempty_all(ls);
    let pe = ls.push(Seq::<char>::empty());
    assert(pe.drop_last() =~= ls);
    assert(nonempty(pe) == nonempty(ls));
    assert(split_char(crlf_join(ls), '\n').map_values(|l: Seq<char>| strip_trailing(l, '\r'))
        == stripped);
}

// ---------------------------------------------------------------------------
// The lines of a description
// ---------------------------------------------------------------------------

pub open spec fn opt_lines(tag: Seq<char>, o: Option<Seq<char>>) -> Seq<Seq<char>> {
    match o {
        Some(v) => seq![tag + v],
        None => Seq::empty(),
    }
}

pub open spec fn conn_lines(c: Option<SpecConnection>) -> Seq<Seq<char>> {
    match c {
        Some(x) => seq!["c="@ + spec_connection_text(x)],
        None => Seq::empty(),
    }
}

pub open spec fn enc_lines(e: Option<SpecEncryption>) -> Seq<Seq<char>> {
    match e {
        Some(x) => seq!["k="@ + spec_encryption_text(x)],
        None => Seq::empty(),
    }
}

pub open spec fn bw_lines(bs: Seq<SpecBandwidth>) -> Seq<Seq<char>> {
    bs.map_values(|b: SpecBandwidth| "b="@ + spec_bandwidth_text(b))
}

pub open spec fn rep_lines(rs: Seq<SpecRepeatTime>) -> Seq<Seq<char>> {
    rs.map_values(|r: SpecRepeatTime| "r="@ + spec_repeat_text(r))
}

pub open spec fn attr_lines(attrs: Seq<SpecAttribute>) -> Seq<Seq<char>> {
    attrs.map_values(|a: SpecAttribute| "a="@ + spec_attribute_text(a))
}

pub open spec fn time_line(t: SpecTimeDescription) -> Seq<char> {
    "t="@ + dec(t.start_time as nat) + " "@ + dec(t.stop_time as nat)
}

pub open spec fn time_sec_lines(t: SpecTimeDescription) -> Seq<Seq<char>> {
    seq![time_line(t)] + rep_lines(t.repeat_times)
}

pub open spec fn times_lines(tds: Seq<SpecTimeDescription>) -> Seq<Seq<char>>
    decreases tds.len(),
{
    if tds.len() == 0 {
        Seq::empty()
    } else {
        times_lines(tds.drop_last()) + time_sec_lines(tds.last())
    }
}

pub open spec fn media_sec_lines(m: SpecMediaDescription) -> Seq<Seq<char>> {
    seq!["m="@ + spec_media_line_text(m)] + opt_lines("i="@, m.title) + conn_lines(m.connection)
        + bw_lines(m.bandwidth) + enc_lines(m.encryption) + attr_lines(m.attributes)
}

pub open spec fn medias_lines(ms: Seq<SpecMediaDescription>) -> Seq<Seq<char>>
    decreases ms.len(),
{
    if ms.len() == 0 {
        Seq::empty()
    } else {
        medias_lines(ms.drop_last()) + media_sec_lines(ms.last())
    }
}

pub open spec fn header_lines(sd: SpecSessionDescription) -> Seq<Seq<char>> {
    seq![
        "v="@ + dec(sd.version as nat),
        "o="@ + spec_origin_text(sd.origin),
        "s="@ + sd.session_name,
    ] + opt_lines("i="@, sd.session_info) + opt_lines("u="@, sd.uri) + opt_lines(
        "e="@,
        sd.email,
    ) + opt_lines("p="@, sd.phone) + conn_lines(sd.connection) + bw_lines(sd.bandwidth)
}

pub open spec fn tail_lines(sd: SpecSessionDescription) -> Seq<Seq<char>> {
    opt_lines("z="@, sd.timezone) + enc_lines(sd.encryption) + attr_lines(sd.attributes)
}

pub open spec fn gb_lines(sd: SpecSessionDescription) -> Seq<Seq<char>> {
    opt_lines("y="@, sd.ssrc) + opt_lines("f="@, sd.media_format)
}

/// The lines of the SDP text of `sd`, in order.
pub open spec fn sdp_lines_of(sd: SpecSessionDescription) -> Seq<Seq<char>> {
    header_lines(sd) + times_lines(sd.time_descriptions) + tail_lines(sd) + medias_lines(
        sd.media_descriptions,
    ) + gb_lines(sd)
}

proof fn lemma_crlf_one(l: Seq<char>)
    ensures
        crlf_join(seq![l]) == l + crlf(),
{
    assert(seq![l].drop_last() =~= Seq::<Seq<char>>::empty());
    assert(crlf_join(seq![l].drop_last()) == Seq::<char>::empty());
    assert(Seq::<char>::empty() + l + crlf() =~= l + crlf());
}

proof fn lemma_text_opt(tag: Seq<char>, o: Option<Seq<char>>)
    ensures
        crlf_join(opt_lines(tag, o)) == opt_line(tag, o),
{
    match o {
        Some(v) => lemma_crlf_one(tag + v),
        None => {},
    }
}

proof fn lemma_text_conn(c: Option<SpecConnection>)
    ensures
        crlf_join(conn_lines(c)) == conn_line(c),
{
    match c {
        Some(x) => lemma_crlf_one("c="@ + spec_connection_text(x)),
        None => {},
    }
}

proof fn lemma_text_enc(e: Option<SpecEncryption>)
    ensures
        crlf_join(enc_lines(e)) == enc_line(e),
{
    match e {
        Some(x) => lemma_crlf_one("k="@ + spec_encryption_text(x)),
        None => {},
    }
}

proof fn lemma_text_bw(bs: Seq<SpecBandwidth>)
    ensures
        crlf_join(bw_lines(bs)) == bandwidth_lines(bs),
    decreases bs.len(),
{
    if bs.len() > 0 {
        lemma_text_bw(bs.drop_last());
        assert(bw_lines(bs).drop_last() =~= bw_lines(bs.drop_last()));
    }
}

proof fn lemma_text_rep(rs: Seq<SpecRepeatTime>)
    ensures
        crlf_join(rep_lines(rs)) == repeat_lines(rs),
    decreases rs.len(),
{
    if rs.len() > 0 {
        lemma_text_rep(rs.drop_last());
        assert(rep_lines(rs).drop_last() =~= rep_lines(rs.drop_last()));
    }
}

proof fn lemma_text_attr(attrs: Seq<SpecAttribute>)
    ensures
        crlf_join(attr_lines(attrs)) == attribute_lines(attrs),
    decreases attrs.len(),
{
    if attrs.len() > 0 {
        lemma_text_attr(attrs.drop_last());
        assert(attr_lines(attrs).drop_last() =~= attr_lines(attrs.drop_last()));
    }
}

proof fn lemma_text_time(t: SpecTimeDescription)
    ensures
        crlf_join(time_sec_lines(t)) == time_section(t),
{
    lemma_crlf_join_concat(seq![time_line(t)], rep_lines(t.repeat_times));
    lemma_crlf_one(time_line(t));
    lemma_text_rep(t.repeat_times);
    assert(time_line(t) + crlf() + repeat_lines(t.repeat_times) =~= time_section(t));
}

proof fn lemma_text_times(tds: Seq<SpecTimeDescription>)
    ensures
        crlf_join(times_lines(tds)) == time_lines(tds),
    decreases tds.len(),
{
    if tds.len() > 0 {
        lemma_text_times(tds.drop_last());
        lemma_crlf_join_concat(times_lines(tds.drop_last()), time_sec_lines(tds.last()));
        lemma_text_time(tds.last());
    }
}

proof fn lemma_text_media(m: SpecMediaDescription)
    ensures
        crlf_join(media_sec_lines(m)) == media_section(m),
{
    let l0 = seq!["m="@ + spec_media_line_text(m)];
    let l1 = opt_lines("i="@, m.title);
    let l2 = conn_lines(m.connection);
    let l3 = bw_lines(m.bandwidth);
    let l4 = enc_lines(m.encryption);
    let l5 = attr_lines(m.attributes);
    lemma_crlf_join_concat(l0, l1);
    lemma_crlf_join_concat(l0 + l1, l2);
    lemma_crlf_join_concat(l0 + l1 + l2, l3);
    lemma_crlf_join_concat(l0 + l1 + l2 + l3, l4);
    lemma_crlf_join_concat(l0 + l1 + l2 + l3 + l4, l5);
    lemma_crlf_one("m="@ + spec_media_line_text(m));
    lemma_text_opt("i="@, m.title);
    lemma_text_conn(m.connection);
    lemma_text_bw(m.bandwidth);
    lemma_text_enc(m.encryption);
    lemma_text_attr(m.attributes);
    assert(crlf_join(media_sec_lines(m)) =~= media_section(m));
}

proof fn lemma_text_medias(ms: Seq<SpecMediaDescription>)
    ensures
        crlf_join(medias_lines(ms)) == media_sections(ms),
    decreases ms.len(),
{
    if ms.len() > 0 {
        lemma_text_medias(ms.drop_last());
        lemma_crlf_join_concat(medias_lines(ms.drop_last()), media_sec_lines(ms.last()));
        lemma_text_media(ms.last());
    }
}

/// The first lines of the SDP text: version to session bandwidth.
pub open spec fn header_text(sd: SpecSessionDescription) -> Seq<char> {
    "v="@ + dec(sd.version as nat) + crlf() + "o="@ + spec_origin_text(sd.origin) + crlf() + "s="@
        + sd.session_name + crlf() + opt_line("i="@, sd.session_info) + opt_line("u="@, sd.uri)
        + opt_line("e="@, sd.email) + opt_line("p="@, sd.phone) + conn_line(sd.connection)
        + bandwidth_lines(sd.bandwidth)
}

#[verifier::spinoff_prover]
#[verifier::rlimit(50)]
proof fn lemma_text_header(sd: SpecSessionDescription)
    ensures
        crlf_join(header_lines(sd)) == header_text(sd),
{
    let v1 = seq!["v="@ + dec(sd.version as nat)];
    let o1 = seq!["o="@ + spec_origin_text(sd.origin)];
    let s1 = seq!["s="@ + sd.session_name];
    let hi = opt_lines("i="@, sd.session_info);
    let hu = opt_lines("u="@, sd.uri);
    let he = opt_lines("e="@, sd.email);
    let hp = opt_lines("p="@, sd.phone);
    let hc = conn_lines(sd.connection);
    let hb = bw_lines(sd.bandwidth);
    lemma_crlf_join_concat(v1, o1);
    lemma_crlf_join_concat(v1 + o1, s1);
    lemma_crlf_join_concat(v1 + o1 + s1, hi);
    lemma_crlf_join_concat(v1 + o1 + s1 + hi, hu);
    lemma_crlf_join_concat(v1 + o1 + s1 + hi + hu, he);
    lemma_crlf_join_concat(v1 + o1 + s1 + hi + hu + he, hp);
    lemma_crlf_join_concat(v1 + o1 + s1 + hi + hu + he + hp, hc);
    lemma_crlf_join_concat(v1 + o1 + s1 + hi + hu + he + hp + hc, hb);
    assert(v1 + o1 + s1 + hi + hu + he + hp + hc + hb =~= header_lines(sd));
    lemma_crlf_one("v="@ + dec(sd.version as nat));
    lemma_crlf_one("o="@ + spec_origin_text(sd.origin));
    lemma_crlf_one("s="@ + sd.session_name);
    lemma_text_opt("i="@, sd.session_info);
    lemma_text_opt("u="@, sd.uri);
    lemma_text_opt("e="@, sd.email);
    lemma_text_opt("p="@, sd.phone);
    lemma_text_conn(sd.connection);
    lemma_text_bw(sd.bandwidth);
    assert(crlf_join(header_lines(sd)) =~= header_text(sd));
}

/// The SDP text of `sd` is its lines, each ended by `\r\n`.
#[verifier::spinoff_prover]
proof fn lemma_text_is_lines(sd: SpecSessionDescription)
    ensures
        sdp_text(sd) == crlf_join(sdp_lines_of(sd)),
{
    let h = header_lines(sd);
    let t = times_lines(sd.time_descriptions);
    let z = opt_lines("z="@, sd.timezone);
    let k = enc_lines(sd.encryption);
    let a = attr_lines(sd.attributes);
    let m = medias_lines(sd.media_descriptions);
    let y = opt_lines("y="@, sd.ssrc);
    let f = opt_lines("f="@, sd.media_format);
    lemma_text_header(sd);
    lemma_text_times(sd.time_descriptions);
    lemma_text_opt("z="@, sd.timezone);
    lemma_text_enc(sd.encryption);
    lemma_text_attr(sd.attributes);
    lemma_text_medias(sd.media_descriptions);
    lemma_text_opt("y="@, sd.ssrc);
    lemma_text_opt("f="@, sd.media_format);
    lemma_crlf_join_concat(h, t);
    lemma_crlf_join_concat(h + t, z);
    lemma_crlf_join_concat(h + t + z, k);
    lemma_crlf_join_concat(h + t + z + k, a);
    lemma_crlf_join_concat(h + t + z + k + a, m);
    lemma_crlf_join_concat(h + t + z + k + a + m, y);
    lemma_crlf_join_concat(h + t + z + k + a + m + y, f);
    assert(sdp_lines_of(sd) =~= h + t + z + k + a + m + y + f);
    let ht = header_text(sd);
    let tt = time_lines(sd.time_descriptions);
    let zt = opt_line("z="@, sd.timezone);
    let kt = enc_line(sd.encryption);
    let at = attribute_lines(sd.attributes);
    let mt = media_sections(sd.media_descriptions);
    let yt = opt_line("y="@, sd.ssrc);
    let ft = opt_line("f="@, sd.media_format);
    assert(sdp_text(sd) == ht + tt + zt + kt + at + mt + yt + ft);
}

// ---------------------------------------------------------------------------
// Well-formed descriptions
// ---------------------------------------------------------------------------

pub open spec fn opt_text_ok(o: Option<Seq<char>>) -> bool {
    o matches Some(v) ==> text_ok(v)
}

pub open spec fn origin_ok(o: SpecOrigin) -> bool {
    token_ok(o.username) && token_ok(o.network_type) && token_ok(o.address_type) && token_ok(
        o.unicast_address,
    )
}

pub open spec fn conn_ok(c: SpecConnection) -> bool {
    &&& token_ok(c.network_type)
    &&& token_ok(c.address_type)
    &&& forall|i: int| 0 <= i < c.connection_address.len() ==> !is_ws(#[trigger] c.connection_address[i])
    &&& (c.connection_address.len() > 0 || c.ttl is Some)
    &&& !c.connection_address.contains('/')
    &&& c.ttl is None ==> c.number_of_addresses is None
}

pub open spec fn opt_conn_ok(c: Option<SpecConnection>) -> bool {
    c matches Some(x) ==> conn_ok(x)
}

pub open spec fn bw_ok(b: SpecBandwidth) -> bool {
    text_ok(b.bandwidth_type) && !b.bandwidth_type.contains(':') && trimmed(b.bandwidth_type)
}

pub open spec fn enc_ok(e: SpecEncryption) -> bool {
    &&& text_ok(e.method)
    &&& !e.method.contains(':')
    &&& trimmed(e.method)
    &&& e.encryption_key matches Some(k) ==> text_ok(k) && trimmed(k)
}

pub open spec fn opt_enc_ok(e: Option<SpecEncryption>) -> bool {
    e matches Some(x) ==> enc_ok(x)
}

pub open spec fn attr_ok(a: SpecAttribute) -> bool {
    &&& !a.name.contains('\n')
    &&& (a.value is None ==> text_ok(a.name))
    &&& !a.name.contains(':')
    &&& opt_text_ok(a.value)
}

pub open spec fn media_type_ok(t: SpecMediaType) -> bool {
    match t {
        SpecMediaType::Other(s) => token_ok(s) && s != "audio"@ && s != "video"@ && s != "text"@
            && s != "application"@ && s != "message"@,
        _ => true,
    }
}

pub open spec fn media_ok(m: SpecMediaDescription) -> bool {
    &&& media_type_ok(m.media)
    &&& token_ok(m.proto)
    &&& m.formats.len() >= 1
    &&& forall|i: int| 0 <= i < m.formats.len() ==> token_ok(#[trigger] m.formats[i])
    &&& opt_text_ok(m.title)
    &&& opt_conn_ok(m.connection)
    &&& forall|i: int| 0 <= i < m.bandwidth.len() ==> bw_ok(#[trigger] m.bandwidth[i])
    &&& opt_enc_ok(m.encryption)
    &&& forall|i: int| 0 <= i < m.attributes.len() ==> attr_ok(#[trigger] m.attributes[i])
}

/// A description that its SDP text can carry: words without white space
/// where the text separates fields by spaces, no `:` or `/` where those
/// separate fields, no line breaks in text, a session name, at least one
/// time description and at least one format per media description.
pub open spec fn sdp_wf(sd: SpecSessionDescription) -> bool {
    &&& origin_ok(sd.origin)
    &&& sd.session_name.len() > 0
    &&& text_ok(sd.session_name)
    &&& opt_text_ok(sd.session_info)
    &&& opt_text_ok(sd.uri)
    &&& opt_text_ok(sd.email)
    &&& opt_text_ok(sd.phone)
    &&& opt_conn_ok(sd.connection)
    &&& forall|i: int| 0 <= i < sd.bandwidth.len() ==> bw_ok(#[trigger] sd.bandwidth[i])
    &&& sd.time_descriptions.len() >= 1
    &&& opt_text_ok(sd.timezone)
    &&& opt_enc_ok(sd.encryption)
    &&& forall|i: int| 0 <= i < sd.attributes.len() ==> attr_ok(#[trigger] sd.attributes[i])
    &&& forall|i: int|
        0 <= i < sd.media_descriptions.len() ==> media_ok(#[trigger] sd.media_descriptions[i])
    &&& opt_text_ok(sd.ssrc)
    &&& opt_text_ok(sd.media_format)
}

// ---------------------------------------------------------------------------
// Each field reads back
// ---------------------------------------------------------------------------

proof fn lemma_space_lit()
    ensures
        " "@ == seq![' '],
        ":"@ == seq![':'],
        "/"@ == seq!['/'],
{
    reveal_strlit(" ");
    reveal_strlit(":");
    reveal_strlit("/");
}

proof fn lemma_read_version(n: u32, ln: nat)
    ensures
        spec_parse_version(dec(n as nat), ln) == Ok::<u32, crate::sdp::types::SpecSdpError>(n),
{
    lemma_dec_token(n as nat);
    lemma_token_trimmed(dec(n as nat));
    lemma_parse_pad_dec(n as nat, 0, u32_max());
}

proof fn lemma_read_origin(o: SpecOrigin, ln: nat)
    requires
        origin_ok(o),
    ensures
        spec_parse_origin(spec_origin_text(o), ln) == Ok::<
            SpecOrigin,
            crate::sdp::types::SpecSdpError,
        >(o),
{
    lemma_space_lit();
    let toks = seq![
        o.username,
        dec(o.session_id as nat),
        dec(o.session_version as nat),
        o.network_type,
        o.address_type,
        o.unicast_address,
    ];
    lemma_dec_token(o.session_id as nat);
    lemma_dec_token(o.session_version as nat);
    assert forall|i: int| 0 <= i < toks.len() implies token_ok(#[trigger] toks[i]) by {}
    reveal_with_fuel(join_char, 7);
    assert(join_char(toks, ' ') =~= spec_origin_text(o));
    lemma_split_ws_join(toks);
    lemma_parse_pad_dec(o.session_id as nat, 0, u64_max());
    lemma_parse_pad_dec(o.session_version as nat, 0, u64_max());
}

/// The address field of a connection: address, then `/ttl` and `/count`.
pub open spec fn conn_addr_text(c: SpecConnection) -> Seq<char> {
    c.connection_address + match c.ttl {
        Some(t) => "/"@ + dec(t as nat) + match c.number_of_addresses {
            Some(n) => "/"@ + dec(n as nat),
            None => Seq::empty(),
        },
        None => Seq::empty(),
    }
}

proof fn lemma_read_conn_addr(c: SpecConnection, ln: nat)
    requires
        conn_ok(c),
    ensures
        spec_parse_conn_addr(conn_addr_text(c), ln) == Ok::<
            (Seq<char>, Option<u32>, Option<u32>),
            crate::sdp::types::SpecSdpError,
        >((c.connection_address, c.ttl, c.number_of_addresses)),
        token_ok(conn_addr_text(c)),
{
    lemma_space_lit();
    let a = c.connection_address;
    match c.ttl {
        Some(t) => {
            lemma_dec_token(t as nat);
            lemma_parse_pad_dec(t as nat, 0, u32_max());
            match c.number_of_addresses {
                Some(n) => {
                    lemma_dec_token(n as nat);
                    lemma_parse_pad_dec(n as nat, 0, u32_max());
                    let ps = seq![a, dec(t as nat), dec(n as nat)];
                    assert forall|i: int| 0 <= i < ps.len() implies !(#[trigger] ps[i]).contains(
                        '/',
                    ) by {}
                    reveal_with_fuel(join_char, 4);
                    assert(join_char(ps, '/') =~= conn_addr_text(c));
                    lemma_split_join(ps, '/');
                    assert forall|i: int| 0 <= i < conn_addr_text(c).len() implies !is_ws(
                        #[trigger] conn_addr_text(c)[i],
                    ) by {
                        let s = conn_addr_text(c);
                        if i < a.len() {
                            assert(s[i] == a[i]);
                        } else if i == a.len() {
                        } else if i < a.len() + 1 + dec(t as nat).len() {
                            assert(s[i] == dec(t as nat)[i - a.len() - 1]);
                        } else if i == a.len() + 1 + dec(t as nat).len() {
                        } else {
                            assert(s[i] == dec(n as nat)[i - a.len() - 2 - dec(t as nat).len()]);
                        }
                    }
                },
                None => {
                    let ps = seq![a, dec(t as nat)];
                    assert forall|i: int| 0 <= i < ps.len() implies !(#[trigger] ps[i]).contains(
                        '/',
                    ) by {}
                    reveal_with_fuel(join_char, 3);
                    assert(join_char(ps, '/') =~= conn_addr_text(c));
                    lemma_split_join(ps, '/');
                    assert forall|i: int| 0 <= i < conn_addr_text(c).len() implies !is_ws(
                        #[trigger] conn_addr_text(c)[i],
                    ) by {
                        let s = conn_addr_text(c);
                        if i < a.len() {
                            assert(s[i] == a[i]);
                        } else if i == a.len() {
                        } else {
                            assert(s[i] == dec(t as nat)[i - a.len() - 1]);
                        }
                    }
                },
            }
        },
        None => {
            assert(conn_addr_text(c) =~= a);
            lemma_split_char_free(a, '/');
        },
    }
}

proof fn lemma_read_connection(c: SpecConnection, ln: nat)
    requires
        conn_ok(c),
    ensures
        spec_parse_connection(spec_connection_text(c), ln) == Ok::<
            SpecConnection,
            crate::sdp::types::SpecSdpError,
        >(c),
{
    lemma_space_lit();
    lemma_read_conn_addr(c, ln);
    let toks = seq![c.network_type, c.address_type, conn_addr_text(c)];
    assert forall|i: int| 0 <= i < toks.len() implies token_ok(#[trigger] toks[i]) by {}
    reveal_with_fuel(join_char, 4);
    assert(join_char(toks, ' ') =~= spec_connection_text(c));
    lemma_split_ws_join(toks);
}

proof fn lemma_read_bandwidth(b: SpecBandwidth, ln: nat)
    requires
        bw_ok(b),
    ensures
        spec_parse_bandwidth(spec_bandwidth_text(b), ln) == Ok::<
            SpecBandwidth,
            crate::sdp::types::SpecSdpError,
        >(b),
{
    lemma_space_lit();
    lemma_find_after(b.bandwidth_type, dec(b.bandwidth as nat), ':');
    assert(spec_bandwidth_text(b) =~= b.bandwidth_type + seq![':'] + dec(b.bandwidth as nat));
    lemma_dec_token(b.bandwidth as nat);
    lemma_token_trimmed(dec(b.bandwidth as nat));
    lemma_parse_pad_dec(b.bandwidth as nat, 0, u64_max());
}

proof fn lemma_read_time(t: SpecTimeDescription, ln: nat)
    ensures
        spec_parse_time(dec(t.start_time as nat) + " "@ + dec(t.stop_time as nat), ln) == Ok::<
            SpecTimeDescription,
            crate::sdp::types::SpecSdpError,
        >(
            SpecTimeDescription {
                start_time: t.start_time,
                stop_time: t.stop_time,
                repeat_times: Seq::empty(),
            },
        ),
{
    lemma_space_lit();
    let toks = seq![dec(t.start_time as nat), dec(t.stop_time as nat)];
    lemma_dec_token(t.start_time as nat);
    lemma_dec_token(t.stop_time as nat);
    assert forall|i: int| 0 <= i < toks.len() implies token_ok(#[trigger] toks[i]) by {}
    reveal_with_fuel(join_char, 3);
    assert(join_char(toks, ' ') =~= dec(t.start_time as nat) + " "@ + dec(t.stop_time as nat));
    lemma_split_ws_join(toks);
    lemma_parse_pad_dec(t.start_time as nat, 0, u64_max());
    lemma_parse_pad_dec(t.stop_time as nat, 0, u64_max());
}

/// The words of a repeat line: interval, duration, then the offsets.
pub open spec fn repeat_tokens(r: SpecRepeatTime) -> Seq<Seq<char>> {
    seq![dec(r.repeat_interval as nat), dec(r.active_duration as nat)] + r.offsets.map_values(
        |o: u64| dec(o as nat),
    )
}

proof fn lemma_repeat_join(r: SpecRepeatTime, k: nat)
    requires
        k <= r.offsets.len(),
    ensures
        join_char(repeat_tokens(SpecRepeatTime { offsets: r.offsets.take(k as int), ..r }), ' ')
            == dec(r.repeat_interval as nat) + " "@ + dec(r.active_duration as nat)
            + spec_offsets_text(r.offsets.take(k as int)),
    decreases k,
{
    lemma_space_lit();
    let rk = SpecRepeatTime { offsets: r.offsets.take(k as int), ..r };
    if k == 0 {
        assert(r.offsets.take(0) =~= Seq::<u64>::empty());
        let toks = repeat_tokens(rk);
        assert(toks =~= seq![dec(r.repeat_interval as nat), dec(r.active_duration as nat)]);
        reveal_with_fuel(join_char, 3);
        assert(join_char(toks, ' ') =~= dec(r.repeat_interval as nat) + " "@ + dec(
            r.active_duration as nat,
        ) + spec_offsets_text(r.offsets.take(0)));
    } else {
        lemma_repeat_join(r, (k - 1) as nat);
        let rk1 = SpecRepeatTime { offsets: r.offsets.take(k - 1), ..r };
        let toks = repeat_tokens(rk);
        assert(toks.drop_last() =~= repeat_tokens(rk1));
        assert(toks.last() == dec(r.offsets[k - 1] as nat));
        assert(r.offsets.take(k as int).drop_last() =~= r.offsets.take(k - 1));
        assert(join_char(toks, ' ') =~= dec(r.repeat_interval as nat) + " "@ + dec(
            r.active_duration as nat,
        ) + spec_offsets_text(r.offsets.take(k as int)));
    }
}

proof fn lemma_read_offsets(offs: Seq<u64>, ln: nat)
    ensures
        spec_parse_offsets(offs.map_values(|o: u64| dec(o as nat)), ln) == Ok::<
            Seq<u64>,
            crate::sdp::types::SpecSdpError,
        >(offs),
    decreases offs.len(),
{
    let ds = offs.map_values(|o: u64| dec(o as nat));
    if offs.len() > 0 {
        lemma_read_offsets(offs.drop_last(), ln);
        assert(ds.drop_last() =~= offs.drop_last().map_values(|o: u64| dec(o as nat)));
        lemma_parse_pad_dec(offs.last() as nat, 0, u64_max());
        assert(offs.drop_last().push(offs.last()) =~= offs);
    } else {
        assert(offs =~= Seq::<u64>::empty());
    }
}

proof fn lemma_read_repeat(r: SpecRepeatTime, ln: nat)
    ensures
        spec_parse_repeat(spec_repeat_text(r), ln) == Ok::<
            SpecRepeatTime,
            crate::sdp::types::SpecSdpError,
        >(r),
{
    lemma_repeat_join(r, r.offsets.len());
    assert(r.offsets.take(r.offsets.len() as int) =~= r.offsets);
    assert(SpecRepeatTime { offsets: r.offsets.take(r.offsets.len() as int), ..r } =~= r);
    let toks = repeat_tokens(r);
    assert forall|i: int| 0 <= i < toks.len() implies token_ok(#[trigger] toks[i]) by {
        if i == 0 {
            lemma_dec_token(r.repeat_interval as nat);
        } else if i == 1 {
            lemma_dec_token(r.active_duration as nat);
        } else {
            lemma_dec_token(r.offsets[i - 2] as nat);
        }
    }
    lemma_split_ws_join(toks);
    lemma_parse_pad_dec(r.repeat_interval as nat, 0, u64_max());
    lemma_parse_pad_dec(r.active_duration as nat, 0, u64_max());
    assert(toks.skip(2) =~= r.offsets.map_values(|o: u64| dec(o as nat)));
    lemma_read_offsets(r.offsets, ln);
}

proof fn lemma_read_encryption(e: SpecEncryption)
    requires
        enc_ok(e),
    ensures
        crate::sdp::parser::spec_parse_encryption(spec_encryption_text(e)) == e,
{
    lemma_space_lit();
    match e.encryption_key {
        Some(k) => {
            assert(spec_encryption_text(e) =~= e.method + seq![':'] + k);
            lemma_find_after(e.method, k, ':');
        },
        None => {
            assert(spec_encryption_text(e) =~= e.method);
            lemma_find_none(e.method, ':');
        },
    }
}

proof fn lemma_read_attribute(a: SpecAttribute)
    requires
        attr_ok(a),
    ensures
        spec_parse_attribute(spec_attribute_text(a)) == a,
{
    lemma_space_lit();
    match a.value {
        Some(v) => {
            assert(spec_attribute_text(a) =~= a.name + seq![':'] + v);
            lemma_find_after(a.name, v, ':');
        },
        None => {
            lemma_find_none(a.name, ':');
        },
    }
}

/// A media description as its `m=` line alone gives it.
pub open spec fn media_base(m: SpecMediaDescription) -> SpecMediaDescription {
    SpecMediaDescription {
        title: None,
        connection: None,
        bandwidth: Seq::empty(),
        encryption: None,
        attributes: Seq::empty(),
        ..m
    }
}

pub open spec fn port_text(m: SpecMediaDescription) -> Seq<char> {
    dec(m.port as nat) + match m.number_of_ports {
        Some(n) => "/"@ + dec(n as nat),
        None => Seq::empty(),
    }
}

proof fn lemma_join_formats(head: Seq<Seq<char>>, fs: Seq<Seq<char>>)
    requires
        head.len() >= 1,
    ensures
        join_char(head + fs, ' ') == join_char(head, ' ') + spec_formats_text(fs),
    decreases fs.len(),
{
    lemma_space_lit();
    if fs.len() == 0 {
        assert(head + fs =~= head);
        assert(join_char(head, ' ') + spec_formats_text(fs) =~= join_char(head, ' '));
    } else {
        lemma_join_formats(head, fs.drop_last());
        assert((head + fs).drop_last() =~= head + fs.drop_last());
        assert((head + fs).last() == fs.last());
        assert(join_char(head + fs, ' ') =~= join_char(head, ' ') + spec_formats_text(fs));
    }
}

proof fn lemma_media_names()
    ensures
        token_ok("audio"@),
        token_ok("video"@),
        token_ok("text"@),
        token_ok("application"@),
        token_ok("message"@),
        "video"@ != "audio"@,
        "text"@ != "audio"@,
        "text"@ != "video"@,
        "application"@ != "audio"@,
        "application"@ != "video"@,
        "application"@ != "text"@,
        "message"@ != "audio"@,
        "message"@ != "video"@,
        "message"@ != "text"@,
        "message"@ != "application"@,
{
    reveal_strlit("audio");
    reveal_strlit("video");
    reveal_strlit("text");
    reveal_strlit("application");
    reveal_strlit("message");
    assert("video"@[0] != "audio"@[0]);
    assert("text"@[0] != "audio"@[0]);
    assert("text"@[0] != "video"@[0]);
    assert("application"@.len() != "audio"@.len());
    assert("application"@[0] != "video"@[0]);
    assert("application"@[0] != "text"@[0]);
    assert("message"@.len() != "audio"@.len());
    assert("message"@[0] != "video"@[0]);
    assert("message"@[0] != "text"@[0]);
    assert("message"@[0] != "application"@[0]);
}

proof fn lemma_read_media_type(t: SpecMediaType)
    requires
        media_type_ok(t),
    ensures
        spec_media_type(spec_media_type_name(t)) == t,
        token_ok(spec_media_type_name(t)),
{
    lemma_media_names();
}

proof fn lemma_read_port(m: SpecMediaDescription, ln: nat)
    ensures
        spec_parse_port(port_text(m), ln) == Ok::<
            (u32, Option<u32>),
            crate::sdp::types::SpecSdpError,
        >((m.port, m.number_of_ports)),
        token_ok(port_text(m)),
{
    lemma_space_lit();
    lemma_dec_token(m.port as nat);
    lemma_parse_pad_dec(m.port as nat, 0, u32_max());
    match m.number_of_ports {
        Some(n) => {
            lemma_dec_token(n as nat);
            lemma_parse_pad_dec(n as nat, 0, u32_max());
            assert(port_text(m) =~= dec(m.port as nat) + seq!['/'] + dec(n as nat));
            lemma_find_after(dec(m.port as nat), dec(n as nat), '/');
            let s = port_text(m);
            let d = dec(m.port as nat);
            assert forall|i: int| 0 <= i < s.len() implies !is_ws(#[trigger] s[i]) by {
                if i < d.len() {
                    assert(s[i] == d[i]);
                } else if i > d.len() {
                    assert(s[i] == dec(n as nat)[i - d.len() - 1]);
                }
            }
        },
        None => {
            assert(port_text(m) =~= dec(m.port as nat));
            lemma_find_none(dec(m.port as nat), '/');
        },
    }
}

#[verifier::spinoff_prover]
#[verifier::rlimit(40)]
proof fn lemma_read_media_line(m: SpecMediaDescription, ln: nat)
    requires
        media_ok(m),
    ensures
        spec_parse_media(spec_media_line_text(m), ln) == Ok::<
            SpecMediaDescription,
            crate::sdp::types::SpecSdpError,
        >(media_base(m)),
{
    lemma_space_lit();
    lemma_read_media_type(m.media);
    lemma_read_port(m, ln);
    let head = seq![spec_media_type_name(m.media), port_text(m), m.proto];
    let toks = head + m.formats;
    lemma_join_formats(head, m.formats);
    reveal_with_fuel(join_char, 4);
    assert(join_char(head, ' ') =~= spec_media_type_name(m.media) + " "@ + port_text(m) + " "@
        + m.proto);
    assert(join_char(toks, ' ') =~= spec_media_line_text(m));
    assert forall|i: int| 0 <= i < toks.len() implies token_ok(#[trigger] toks[i]) by {
        if i >= 3 {
            assert(toks[i] == m.formats[i - 3]);
        }
    }
    lemma_split_ws_join(toks);
    assert(toks.skip(3) =~= m.formats);
    assert(media_base(m) =~= SpecMediaDescription {
        media: spec_media_type(toks[0]),
        port: m.port,
        number_of_ports: m.number_of_ports,
        proto: toks[2],
        formats: toks.skip(3),
        title: None,
        connection: None,
        bandwidth: Seq::empty(),
        encryption: None,
        attributes: Seq::empty(),
    });
}

// ---------------------------------------------------------------------------
// Running the parser over groups of lines
// ---------------------------------------------------------------------------

/// The parser's state after `lines`, starting from `st`, the first of them
/// being line `ln0 + 1`.
#[verifier::opaque]
pub open spec fn run_lines(st: SpecParseState, lines: Seq<Seq<char>>, ln0: nat) -> Result<
    SpecParseState,
    crate::sdp::types::SpecSdpError,
>
    decreases lines.len(),
{
    if lines.len() == 0 {
        Ok(st)
    } else {
        match run_lines(st, lines.drop_last(), ln0) {
            Err(e) => Err(e),
            Ok(s2) => spec_step(s2, lines.last(), (ln0 + lines.len()) as nat),
        }
    }
}

proof fn lemma_run_concat(st: SpecParseState, a: Seq<Seq<char>>, b: Seq<Seq<char>>, ln0: nat)
    ensures
        run_lines(st, a + b, ln0) == (match run_lines(st, a, ln0) {
            Err(e) => Err(e),
            Ok(s2) => run_lines(s2, b, ln0 + a.len()),
        }),
    decreases b.len(),
{
    reveal(run_lines);
    if b.len() == 0 {
        assert(a + b =~= a);
    } else {
        assert((a + b).drop_last() =~= a + b.drop_last());
        assert((a + b).last() == b.last());
        lemma_run_concat(st, a, b.drop_last(), ln0);
    }
}

proof fn lemma_spec_run_is_run_lines(lines: Seq<Seq<char>>, n: nat)
    requires
        n <= lines.len(),
    ensures
        spec_run(lines, n) == run_lines(initial_state(), lines.take(n as int), 0),
    decreases n,
{
    reveal(run_lines);
    if n > 0 {
        lemma_spec_run_is_run_lines(lines, (n - 1) as nat);
        assert(lines.take(n as int).drop_last() =~= lines.take(n - 1));
        assert(lines.take(n as int).last() == lines[n - 1]);
    }
}

/// The step of line `t=v`.
proof fn lemma_step_line(st: SpecParseState, t: char, v: Seq<char>, ln: nat)
    requires
        utf8_width(t) == 1,
    ensures
        spec_step(st, seq![t, '='] + v, ln) == spec_apply(st, t, v, ln),
{
    let l = seq![t, '='] + v;
    assert(l.skip(2) =~= v);
    assert(l[0] == t && l[1] == '=');
    assert(spec_line_type(l, ln) == Ok::<
        (char, Seq<char>),
        crate::sdp::types::SpecSdpError,
    >((t, v)));
}

/// One line `t=v`.
proof fn lemma_run_one(st: SpecParseState, t: char, v: Seq<char>, ln0: nat)
    requires
        utf8_width(t) == 1,
    ensures
        run_lines(st, seq![seq![t, '='] + v], ln0) == spec_apply(st, t, v, ln0 + 1),
{
    reveal(run_lines);
    let l = seq![t, '='] + v;
    assert(seq![l].drop_last() =~= Seq::<Seq<char>>::empty());
    assert(run_lines(st, seq![l].drop_last(), ln0) == Ok::<
        SpecParseState,
        crate::sdp::types::SpecSdpError,
    >(st));
    assert(seq![l].last() == l);
    assert(l.skip(2) =~= v);
    assert(l[0] == t && l[1] == '=');
    assert(spec_line_type(l, ln0 + 1) == Ok::<
        (char, Seq<char>),
        crate::sdp::types::SpecSdpError,
    >((t, v)));
}

/// An optional line `t=v`.
proof fn lemma_run_opt(st: SpecParseState, t: char, o: Option<Seq<char>>, ln0: nat)
    requires
        utf8_width(t) == 1,
    ensures
        run_lines(st, opt_lines(seq![t, '='], o), ln0) == (match o {
            Some(v) => spec_apply(st, t, v, ln0 + 1),
            None => Ok(st),
        }),
{
    reveal(run_lines);
    match o {
        Some(v) => lemma_run_one(st, t, v, ln0),
        None => {},
    }
}

pub open spec fn with_sdp(st: SpecParseState, sd: SpecSessionDescription) -> SpecParseState {
    SpecParseState { sdp: sd, ..st }
}

pub open spec fn with_media(st: SpecParseState, m: SpecMediaDescription) -> SpecParseState {
    SpecParseState { media: Some(m), ..st }
}

/// `b=` at session level.
proof fn lemma_apply_b_session(st: SpecParseState, b: SpecBandwidth, ln: nat)
    requires
        st.media is None,
        bw_ok(b),
    ensures
        spec_apply(st, 'b', spec_bandwidth_text(b), ln) == Ok::<
            SpecParseState,
            crate::sdp::types::SpecSdpError,
        >(with_sdp(st, SpecSessionDescription { bandwidth: st.sdp.bandwidth.push(b), ..st.sdp })),
{
    lemma_read_bandwidth(b, ln);
}

/// Session-level `b=` lines.
proof fn lemma_run_bw_session(st: SpecParseState, bs: Seq<SpecBandwidth>, ln0: nat)
    requires
        st.media is None,
        forall|i: int| 0 <= i < bs.len() ==> bw_ok(#[trigger] bs[i]),
    ensures
        run_lines(st, bw_lines(bs), ln0) == Ok::<SpecParseState, crate::sdp::types::SpecSdpError>(
            with_sdp(st, SpecSessionDescription { bandwidth: st.sdp.bandwidth + bs, ..st.sdp }),
        ),
    decreases bs.len(),
{
    reveal(run_lines);
    reveal_strlit("b=");
    if bs.len() == 0 {
        assert(st.sdp.bandwidth + bs =~= st.sdp.bandwidth);
        assert(with_sdp(st, SpecSessionDescription { bandwidth: st.sdp.bandwidth + bs, ..st.sdp })
            =~= st);
    } else {
        let init = bs.drop_last();
        assert forall|i: int| 0 <= i < init.len() implies bw_ok(#[trigger] init[i]) by {
            assert(init[i] == bs[i]);
        }
        lemma_run_bw_session(st, init, ln0);
        let lines = bw_lines(bs);
        assert(lines.drop_last() =~= bw_lines(init));
        let s2 = with_sdp(st, SpecSessionDescription { bandwidth: st.sdp.bandwidth + init, ..st.sdp });
        let b = bs.last();
        assert(bw_ok(bs[bs.len() - 1]));
        assert(lines.last() =~= seq!['b', '='] + spec_bandwidth_text(b));
        let ln = (ln0 + bs.len()) as nat;
        assert(run_lines(st, lines, ln0) == spec_step(s2, lines.last(), ln));
        lemma_step_line(s2, 'b', spec_bandwidth_text(b), ln);
        lemma_apply_b_session(s2, b, ln);
        assert(st.sdp.bandwidth + init.push(b) =~= st.sdp.bandwidth + bs);
        assert(init.push(b) =~= bs);
        assert(with_sdp(s2, SpecSessionDescription { bandwidth: s2.sdp.bandwidth.push(b), ..s2.sdp })
            =~= with_sdp(st, SpecSessionDescription { bandwidth: st.sdp.bandwidth + bs, ..st.sdp }));
    }
}

/// `b=` inside a media description.
proof fn lemma_apply_b_media(st: SpecParseState, m: SpecMediaDescription, b: SpecBandwidth, ln: nat)
    requires
        st.media == Some(m),
        bw_ok(b),
    ensures
        spec_apply(st, 'b', spec_bandwidth_text(b), ln) == Ok::<
            SpecParseState,
            crate::sdp::types::SpecSdpError,
        >(with_media(st, SpecMediaDescription { bandwidth: m.bandwidth.push(b), ..m })),
{
    lemma_read_bandwidth(b, ln);
}

/// `b=` lines inside a media description.
proof fn lemma_run_bw_media(st: SpecParseState, m: SpecMediaDescription, bs: Seq<SpecBandwidth>, ln0: nat)
    requires
        st.media == Some(m),
        forall|i: int| 0 <= i < bs.len() ==> bw_ok(#[trigger] bs[i]),
    ensures
        run_lines(st, bw_lines(bs), ln0) == Ok::<SpecParseState, crate::sdp::types::SpecSdpError>(
            with_media(st, SpecMediaDescription { bandwidth: m.bandwidth + bs, ..m }),
        ),
    decreases bs.len(),
{
    reveal(run_lines);
    reveal_strlit("b=");
    if bs.len() == 0 {
        assert(m.bandwidth + bs =~= m.bandwidth);
        assert(with_media(st, SpecMediaDescription { bandwidth: m.bandwidth + bs, ..m }) =~= st);
    } else {
        let init = bs.drop_last();
        assert forall|i: int| 0 <= i < init.len() implies bw_ok(#[trigger] init[i]) by {
            assert(init[i] == bs[i]);
        }
        lemma_run_bw_media(st, m, init, ln0);
        let lines = bw_lines(bs);
        assert(lines.drop_last() =~= bw_lines(init));
        let m2 = SpecMediaDescription { bandwidth: m.bandwidth + init, ..m };
        let s2 = with_media(st, m2);
        let b = bs.last();
        assert(bw_ok(bs[bs.len() - 1]));
        assert(lines.last() =~= seq!['b', '='] + spec_bandwidth_text(b));
        let ln = (ln0 + bs.len()) as nat;
        assert(run_lines(st, lines, ln0) == spec_step(s2, lines.last(), ln));
        lemma_step_line(s2, 'b', spec_bandwidth_text(b), ln);
        lemma_apply_b_media(s2, m2, b, ln);
        assert(init.push(b) =~= bs);
        assert(with_media(s2, SpecMediaDescription { bandwidth: m2.bandwidth.push(b), ..m2 })
            =~= with_media(st, SpecMediaDescription { bandwidth: m.bandwidth + bs, ..m }));
    }
}

/// `a=` at session level.
proof fn lemma_apply_a_session(st: SpecParseState, a: SpecAttribute, ln: nat)
    requires
        st.media is None,
        attr_ok(a),
    ensures
        spec_apply(st, 'a', spec_attribute_text(a), ln) == Ok::<
            SpecParseState,
            crate::sdp::types::SpecSdpError,
        >(with_sdp(st, SpecSessionDescription { attributes: st.sdp.attributes.push(a), ..st.sdp })),
{
    lemma_read_attribute(a);
}

/// Session-level `a=` lines.
proof fn lemma_run_attr_session(st: SpecParseState, attrs: Seq<SpecAttribute>, ln0: nat)
    requires
        st.media is None,
        forall|i: int| 0 <= i < attrs.len() ==> attr_ok(#[trigger] attrs[i]),
    ensures
        run_lines(st, attr_lines(attrs), ln0) == Ok::<
            SpecParseState,
            crate::sdp::types::SpecSdpError,
        >(with_sdp(st, SpecSessionDescription { attributes: st.sdp.attributes + attrs, ..st.sdp })),
    decreases attrs.len(),
{
    reveal(run_lines);
    reveal_strlit("a=");
    if attrs.len() == 0 {
        assert(st.sdp.attributes + attrs =~= st.sdp.attributes);
        assert(with_sdp(
            st,
            SpecSessionDescription { attributes: st.sdp.attributes + attrs, ..st.sdp },
        ) =~= st);
    } else {
        let init = attrs.drop_last();
        assert forall|i: int| 0 <= i < init.len() implies attr_ok(#[trigger] init[i]) by {
            assert(init[i] == attrs[i]);
        }
        lemma_run_attr_session(st, init, ln0);
        let lines = attr_lines(attrs);
        assert(lines.drop_last() =~= attr_lines(init));
        let s2 = with_sdp(
            st,
            SpecSessionDescription { attributes: st.sdp.attributes + init, ..st.sdp },
        );
        let a = attrs.last();
        assert(attr_ok(attrs[attrs.len() - 1]));
        assert(lines.last() =~= seq!['a', '='] + spec_attribute_text(a));
        let ln = (ln0 + attrs.len()) as nat;
        assert(run_lines(st, lines, ln0) == spec_step(s2, lines.last(), ln));
        lemma_step_line(s2, 'a', spec_attribute_text(a), ln);
        lemma_apply_a_session(s2, a, ln);
        assert(init.push(a) =~= attrs);
        assert(with_sdp(
            s2,
            SpecSessionDescription { attributes: s2.sdp.attributes.push(a), ..s2.sdp },
        ) =~= with_sdp(
            st,
            SpecSessionDescription { attributes: st.sdp.attributes + attrs, ..st.sdp },
        ));
    }
}

/// `a=` inside a media description.
proof fn lemma_apply_a_media(st: SpecParseState, m: SpecMediaDescription, a: SpecAttribute, ln: nat)
    requires
        st.media == Some(m),
        attr_ok(a),
    ensures
        spec_apply(st, 'a', spec_attribute_text(a), ln) == Ok::<
            SpecParseState,
            crate::sdp::types::SpecSdpError,
        >(with_media(st, SpecMediaDescription { attributes: m.attributes.push(a), ..m })),
{
    lemma_read_attribute(a);
}

/// `a=` lines inside a media description.
proof fn lemma_run_attr_media(
    st: SpecParseState,
    m: SpecMediaDescription,
    attrs: Seq<SpecAttribute>,
    ln0: nat,
)
    requires
        st.media == Some(m),
        forall|i: int| 0 <= i < attrs.len() ==> attr_ok(#[trigger] attrs[i]),
    ensures
        run_lines(st, attr_lines(attrs), ln0) == Ok::<
            SpecParseState,
            crate::sdp::types::SpecSdpError,
        >(with_media(st, SpecMediaDescription { attributes: m.attributes + attrs, ..m })),
    decreases attrs.len(),
{
    reveal(run_lines);
    reveal_strlit("a=");
    if attrs.len() == 0 {
        assert(m.attributes + attrs =~= m.attributes);
        assert(with_media(st, SpecMediaDescription { attributes: m.attributes + attrs, ..m })
            =~= st);
    } else {
        let init = attrs.drop_last();
        assert forall|i: int| 0 <= i < init.len() implies attr_ok(#[trigger] init[i]) by {
            assert(init[i] == attrs[i]);
        }
        lemma_run_attr_media(st, m, init, ln0);
        let lines = attr_lines(attrs);
        assert(lines.drop_last() =~= attr_lines(init));
        let m2 = SpecMediaDescription { attributes: m.attributes + init, ..m };
        let s2 = with_media(st, m2);
        let a = attrs.last();
        assert(attr_ok(attrs[attrs.len() - 1]));
        assert(lines.last() =~= seq!['a', '='] + spec_attribute_text(a));
        let ln = (ln0 + attrs.len()) as nat;
        assert(run_lines(st, lines, ln0) == spec_step(s2, lines.last(), ln));
        lemma_step_line(s2, 'a', spec_attribute_text(a), ln);
        lemma_apply_a_media(s2, m2, a, ln);
        assert(init.push(a) =~= attrs);
        assert(with_media(s2, SpecMediaDescription { attributes: m2.attributes.push(a), ..m2 })
            =~= with_media(st, SpecMediaDescription { attributes: m.attributes + attrs, ..m }));
    }
}

pub open spec fn with_time(st: SpecParseState, t: SpecTimeDescription) -> SpecParseState {
    SpecParseState { time: Some(t), ..st }
}

/// `r=` after a `t=` line.
proof fn lemma_apply_r(st: SpecParseState, td: SpecTimeDescription, r: SpecRepeatTime, ln: nat)
    requires
        st.time == Some(td),
    ensures
        spec_apply(st, 'r', spec_repeat_text(r), ln) == Ok::<
            SpecParseState,
            crate::sdp::types::SpecSdpError,
        >(with_time(st, SpecTimeDescription { repeat_times: td.repeat_times.push(r), ..td })),
{
    lemma_read_repeat(r, ln);
}

/// `r=` lines after a `t=` line.
proof fn lemma_run_rep(st: SpecParseState, td: SpecTimeDescription, rs: Seq<SpecRepeatTime>, ln0: nat)
    requires
        st.time == Some(td),
    ensures
        run_lines(st, rep_lines(rs), ln0) == Ok::<SpecParseState, crate::sdp::types::SpecSdpError>(
            with_time(st, SpecTimeDescription { repeat_times: td.repeat_times + rs, ..td }),
        ),
    decreases rs.len(),
{
    reveal(run_lines);
    reveal_strlit("r=");
    if rs.len() == 0 {
        assert(td.repeat_times + rs =~= td.repeat_times);
        assert(with_time(st, SpecTimeDescription { repeat_times: td.repeat_times + rs, ..td })
            =~= st);
    } else {
        let init = rs.drop_last();
        lemma_run_rep(st, td, init, ln0);
        let lines = rep_lines(rs);
        assert(lines.drop_last() =~= rep_lines(init));
        let t2 = SpecTimeDescription { repeat_times: td.repeat_times + init, ..td };
        let s2 = with_time(st, t2);
        let r = rs.last();
        assert(lines.last() =~= seq!['r', '='] + spec_repeat_text(r));
        let ln = (ln0 + rs.len()) as nat;
        assert(run_lines(st, lines, ln0) == spec_step(s2, lines.last(), ln));
        lemma_step_line(s2, 'r', spec_repeat_text(r), ln);
        lemma_apply_r(s2, t2, r, ln);
        assert(init.push(r) =~= rs);
        assert(with_time(s2, SpecTimeDescription { repeat_times: t2.repeat_times.push(r), ..t2 })
            =~= with_time(st, SpecTimeDescription { repeat_times: td.repeat_times + rs, ..td }));
    }
}

/// The description with the open time description, if any, closed.
pub open spec fn closed_times(st: SpecParseState) -> SpecSessionDescription {
    match st.time {
        Some(old) => SpecSessionDescription {
            time_descriptions: st.sdp.time_descriptions.push(old),
            ..st.sdp
        },
        None => st.sdp,
    }
}

/// `t=` line.
proof fn lemma_apply_t(st: SpecParseState, t: SpecTimeDescription, ln: nat)
    ensures
        spec_apply(st, 't', dec(t.start_time as nat) + " "@ + dec(t.stop_time as nat), ln)
            == Ok::<SpecParseState, crate::sdp::types::SpecSdpError>(
            SpecParseState {
                sdp: closed_times(st),
                time: Some(SpecTimeDescription { repeat_times: Seq::empty(), ..t }),
                ..st
            },
        ),
{
    lemma_read_time(t, ln);
    assert(SpecTimeDescription {
        start_time: t.start_time,
        stop_time: t.stop_time,
        repeat_times: Seq::empty(),
    } == SpecTimeDescription { repeat_times: Seq::empty(), ..t });
}

/// A `t=` line and its `r=` lines.
proof fn lemma_run_time_section(st: SpecParseState, t: SpecTimeDescription, ln0: nat)
    ensures
        run_lines(st, time_sec_lines(t), ln0) == Ok::<
            SpecParseState,
            crate::sdp::types::SpecSdpError,
        >(SpecParseState { sdp: closed_times(st), time: Some(t), ..st }),
{
    reveal_strlit("t=");
    let l0 = seq![time_line(t)];
    let rl = rep_lines(t.repeat_times);
    lemma_run_concat(st, l0, rl, ln0);
    assert(time_line(t) =~= seq!['t', '='] + (dec(t.start_time as nat) + " "@ + dec(
        t.stop_time as nat,
    )));
    lemma_run_one(st, 't', dec(t.start_time as nat) + " "@ + dec(t.stop_time as nat), ln0);
    lemma_apply_t(st, t, ln0 + 1);
    let t0 = SpecTimeDescription { repeat_times: Seq::empty(), ..t };
    let s1 = SpecParseState { sdp: closed_times(st), time: Some(t0), ..st };
    lemma_run_rep(s1, t0, t.repeat_times, ln0 + 1);
    assert(Seq::<SpecRepeatTime>::empty() + t.repeat_times =~= t.repeat_times);
    assert(with_time(s1, SpecTimeDescription { repeat_times: t0.repeat_times + t.repeat_times, ..t0 })
        =~= SpecParseState { sdp: closed_times(st), time: Some(t), ..st });
}

/// Time descriptions closed before `st` and still open in it.
pub open spec fn pending_times(st: SpecParseState) -> Seq<SpecTimeDescription> {
    closed_times(st).time_descriptions
}

/// The state after the time sections of `tds`.
pub open spec fn after_times(st: SpecParseState, tds: Seq<SpecTimeDescription>) -> SpecParseState {
    if tds.len() == 0 {
        st
    } else {
        SpecParseState {
            sdp: SpecSessionDescription {
                time_descriptions: pending_times(st) + tds.drop_last(),
                ..st.sdp
            },
            time: Some(tds.last()),
            ..st
        }
    }
}

proof fn lemma_run_times(st: SpecParseState, tds: Seq<SpecTimeDescription>, ln0: nat)
    ensures
        run_lines(st, times_lines(tds), ln0) == Ok::<
            SpecParseState,
            crate::sdp::types::SpecSdpError,
        >(after_times(st, tds)),
    decreases tds.len(),
{
    reveal(run_lines);
    if tds.len() > 0 {
        let init = tds.drop_last();
        lemma_run_times(st, init, ln0);
        lemma_run_concat(st, times_lines(init), time_sec_lines(tds.last()), ln0);
        let s2 = after_times(st, init);
        lemma_run_time_section(s2, tds.last(), ln0 + times_lines(init).len());
        if init.len() == 0 {
            assert(pending_times(st) + tds.drop_last() =~= pending_times(st));
            assert(SpecParseState { sdp: closed_times(s2), time: Some(tds.last()), ..s2 }
                =~= after_times(st, tds));
        } else {
            assert(init.drop_last().push(init.last()) =~= init);
            assert((pending_times(st) + init.drop_last()).push(init.last()) =~= pending_times(st)
                + tds.drop_last());
            assert(SpecParseState { sdp: closed_times(s2), time: Some(tds.last()), ..s2 }
                =~= after_times(st, tds));
        }
    }
}

/// The description with the open media description, if any, closed.
pub open spec fn closed_medias(st: SpecParseState) -> SpecSessionDescription {
    match st.media {
        Some(old) => SpecSessionDescription {
            media_descriptions: st.sdp.media_descriptions.push(old),
            ..st.sdp
        },
        None => st.sdp,
    }
}

proof fn lemma_apply_m(st: SpecParseState, m: SpecMediaDescription, ln: nat)
    requires
        media_ok(m),
    ensures
        spec_apply(st, 'm', spec_media_line_text(m), ln) == Ok::<
            SpecParseState,
            crate::sdp::types::SpecSdpError,
        >(SpecParseState { sdp: closed_medias(st), media: Some(media_base(m)), ..st }),
{
    lemma_read_media_line(m, ln);
}

proof fn lemma_apply_i_media(st: SpecParseState, m: SpecMediaDescription, v: Seq<char>, ln: nat)
    requires
        st.media == Some(m),
    ensures
        spec_apply(st, 'i', v, ln) == Ok::<SpecParseState, crate::sdp::types::SpecSdpError>(
            with_media(st, SpecMediaDescription { title: Some(v), ..m }),
        ),
{
}

proof fn lemma_apply_c_media(st: SpecParseState, m: SpecMediaDescription, c: SpecConnection, ln: nat)
    requires
        st.media == Some(m),
        conn_ok(c),
    ensures
        spec_apply(st, 'c', spec_connection_text(c), ln) == Ok::<
            SpecParseState,
            crate::sdp::types::SpecSdpError,
        >(with_media(st, SpecMediaDescription { connection: Some(c), ..m })),
{
    lemma_read_connection(c, ln);
}

proof fn lemma_apply_k_media(st: SpecParseState, m: SpecMediaDescription, e: SpecEncryption, ln: nat)
    requires
        st.media == Some(m),
        enc_ok(e),
    ensures
        spec_apply(st, 'k', spec_encryption_text(e), ln) == Ok::<
            SpecParseState,
            crate::sdp::types::SpecSdpError,
        >(with_media(st, SpecMediaDescription { encryption: Some(e), ..m })),
{
    lemma_read_encryption(e);
}

proof fn lemma_tags()
    ensures
        "m="@ == seq!['m', '='],
        "i="@ == seq!['i', '='],
        "c="@ == seq!['c', '='],
        "k="@ == seq!['k', '='],
        "v="@ == seq!['v', '='],
        "o="@ == seq!['o', '='],
        "s="@ == seq!['s', '='],
        "u="@ == seq!['u', '='],
        "e="@ == seq!['e', '='],
        "p="@ == seq!['p', '='],
        "z="@ == seq!['z', '='],
        "y="@ == seq!['y', '='],
        "f="@ == seq!['f', '='],
{
    reveal_strlit("m=");
    reveal_strlit("i=");
    reveal_strlit("c=");
    reveal_strlit("k=");
    reveal_strlit("v=");
    reveal_strlit("o=");
    reveal_strlit("s=");
    reveal_strlit("u=");
    reveal_strlit("e=");
    reveal_strlit("p=");
    reveal_strlit("z=");
    reveal_strlit("y=");
    reveal_strlit("f=");
}

proof fn lemma_run_media_title(
    st: SpecParseState,
    mm: SpecMediaDescription,
    o: Option<Seq<char>>,
    ln0: nat,
)
    requires
        st.media == Some(mm),
        mm.title is None,
    ensures
        run_lines(st, opt_lines("i="@, o), ln0) == Ok::<
            SpecParseState,
            crate::sdp::types::SpecSdpError,
        >(with_media(st, SpecMediaDescription { title: o, ..mm })),
{
    lemma_tags();
    lemma_run_opt(st, 'i', o, ln0);
    match o {
        Some(v) => lemma_apply_i_media(st, mm, v, ln0 + 1),
        None => {
            assert(with_media(st, SpecMediaDescription { title: o, ..mm }) =~= st);
        },
    }
}

proof fn lemma_run_media_conn(
    st: SpecParseState,
    mm: SpecMediaDescription,
    c: Option<SpecConnection>,
    ln0: nat,
)
    requires
        st.media == Some(mm),
        mm.connection is None,
        opt_conn_ok(c),
    ensures
        run_lines(st, conn_lines(c), ln0) == Ok::<SpecParseState, crate::sdp::types::SpecSdpError>(
            with_media(st, SpecMediaDescription { connection: c, ..mm }),
        ),
{
    lemma_tags();
    match c {
        Some(x) => {
            lemma_run_one(st, 'c', spec_connection_text(x), ln0);
            lemma_apply_c_media(st, mm, x, ln0 + 1);
            assert(conn_lines(c) =~= seq![seq!['c', '='] + spec_connection_text(x)]);
        },
        None => {
            reveal(run_lines);
            assert(with_media(st, SpecMediaDescription { connection: c, ..mm }) =~= st);
        },
    }
}

proof fn lemma_run_media_enc(
    st: SpecParseState,
    mm: SpecMediaDescription,
    e: Option<SpecEncryption>,
    ln0: nat,
)
    requires
        st.media == Some(mm),
        mm.encryption is None,
        opt_enc_ok(e),
    ensures
        run_lines(st, enc_lines(e), ln0) == Ok::<SpecParseState, crate::sdp::types::SpecSdpError>(
            with_media(st, SpecMediaDescription { encryption: e, ..mm }),
        ),
{
    lemma_tags();
    match e {
        Some(x) => {
            lemma_run_one(st, 'k', spec_encryption_text(x), ln0);
            lemma_apply_k_media(st, mm, x, ln0 + 1);
            assert(enc_lines(e) =~= seq![seq!['k', '='] + spec_encryption_text(x)]);
        },
        None => {
            reveal(run_lines);
            assert(with_media(st, SpecMediaDescription { encryption: e, ..mm }) =~= st);
        },
    }
}

/// The lines of a media description after its `m=` line.
pub open spec fn media_body_lines(m: SpecMediaDescription) -> Seq<Seq<char>> {
    opt_lines("i="@, m.title) + conn_lines(m.connection) + bw_lines(m.bandwidth) + enc_lines(
        m.encryption,
    ) + attr_lines(m.attributes)
}

#[verifier::spinoff_prover]
proof fn lemma_run_media_body(st: SpecParseState, m: SpecMediaDescription, ln0: nat)
    requires
        media_ok(m),
        st.media == Some(media_base(m)),
    ensures
        run_lines(st, media_body_lines(m), ln0) == Ok::<
            SpecParseState,
            crate::sdp::types::SpecSdpError,
        >(with_media(st, m)),
{
    let li = opt_lines("i="@, m.title);
    let lc = conn_lines(m.connection);
    let lb = bw_lines(m.bandwidth);
    let lk = enc_lines(m.encryption);
    let la = attr_lines(m.attributes);
    let b0 = media_base(m);
    let m1 = SpecMediaDescription { title: m.title, ..b0 };
    let m2 = SpecMediaDescription { connection: m.connection, ..m1 };
    let m3 = SpecMediaDescription { bandwidth: m.bandwidth, ..m2 };
    let m4 = SpecMediaDescription { encryption: m.encryption, ..m3 };
    lemma_run_media_title(st, b0, m.title, ln0);
    let s1 = with_media(st, m1);
    lemma_run_media_conn(s1, m1, m.connection, ln0 + li.len());
    let s2 = with_media(st, m2);
    assert(with_media(s1, m2) == s2);
    lemma_run_bw_media(s2, m2, m.bandwidth, ln0 + li.len() + lc.len());
    assert(m2.bandwidth + m.bandwidth =~= m.bandwidth);
    assert(SpecMediaDescription { bandwidth: m2.bandwidth + m.bandwidth, ..m2 } == m3);
    let s3 = with_media(st, m3);
    assert(with_media(s2, m3) == s3);
    lemma_run_media_enc(s3, m3, m.encryption, ln0 + li.len() + lc.len() + lb.len());
    let s4 = with_media(st, m4);
    assert(with_media(s3, m4) == s4);
    lemma_run_attr_media(s4, m4, m.attributes, ln0 + li.len() + lc.len() + lb.len() + lk.len());
    assert(m4.attributes + m.attributes =~= m.attributes);
    assert(SpecMediaDescription { attributes: m4.attributes + m.attributes, ..m4 } =~= m);
    assert(with_media(s4, m) == with_media(st, m));
    lemma_run_concat(st, li, lc, ln0);
    lemma_run_concat(st, li + lc, lb, ln0);
    lemma_run_concat(st, li + lc + lb, lk, ln0);
    lemma_run_concat(st, li + lc + lb + lk, la, ln0);
}

/// An `m=` line and the lines of its description.
proof fn lemma_run_media_section(st: SpecParseState, m: SpecMediaDescription, ln0: nat)
    requires
        media_ok(m),
    ensures
        run_lines(st, media_sec_lines(m), ln0) == Ok::<
            SpecParseState,
            crate::sdp::types::SpecSdpError,
        >(SpecParseState { sdp: closed_medias(st), media: Some(m), ..st }),
{
    lemma_tags();
    let l0 = seq!["m="@ + spec_media_line_text(m)];
    let body = media_body_lines(m);
    assert(media_sec_lines(m) =~= l0 + body);
    let s1 = SpecParseState { sdp: closed_medias(st), media: Some(media_base(m)), ..st };
    lemma_run_one(st, 'm', spec_media_line_text(m), ln0);
    lemma_apply_m(st, m, ln0 + 1);
    lemma_run_media_body(s1, m, ln0 + 1);
    lemma_run_concat(st, l0, body, ln0);
    assert(with_media(s1, m) == SpecParseState { sdp: closed_medias(st), media: Some(m), ..st });
}

/// Media descriptions closed before `st` and still open in it.
pub open spec fn pending_medias(st: SpecParseState) -> Seq<SpecMediaDescription> {
    closed_medias(st).media_descriptions
}

/// The state after the media sections of `ms`.
pub open spec fn after_medias(st: SpecParseState, ms: Seq<SpecMediaDescription>) -> SpecParseState {
    if ms.len() == 0 {
        st
    } else {
        SpecParseState {
            sdp: SpecSessionDescription {
                media_descriptions: pending_medias(st) + ms.drop_last(),
                ..st.sdp
            },
            media: Some(ms.last()),
            ..st
        }
    }
}

proof fn lemma_run_medias(st: SpecParseState, ms: Seq<SpecMediaDescription>, ln0: nat)
    requires
        forall|i: int| 0 <= i < ms.len() ==> media_ok(#[trigger] ms[i]),
    ensures
        run_lines(st, medias_lines(ms), ln0) == Ok::<
            SpecParseState,
            crate::sdp::types::SpecSdpError,
        >(after_medias(st, ms)),
    decreases ms.len(),
{
    reveal(run_lines);
    if ms.len() > 0 {
        let init = ms.drop_last();
        assert forall|i: int| 0 <= i < init.len() implies media_ok(#[trigger] init[i]) by {
            assert(init[i] == ms[i]);
        }
        lemma_run_medias(st, init, ln0);
        lemma_run_concat(st, medias_lines(init), media_sec_lines(ms.last()), ln0);
        let s2 = after_medias(st, init);
        assert(media_ok(ms[ms.len() - 1]));
        lemma_run_media_section(s2, ms.last(), ln0 + medias_lines(init).len());
        if init.len() == 0 {
            assert(pending_medias(st) + ms.drop_last() =~= pending_medias(st));
            assert(SpecParseState { sdp: closed_medias(s2), media: Some(ms.last()), ..s2 }
                =~= after_medias(st, ms));
        } else {
            assert(init.drop_last().push(init.last()) =~= init);
            assert((pending_medias(st) + init.drop_last()).push(init.last()) =~= pending_medias(st)
                + ms.drop_last());
            assert(SpecParseState { sdp: closed_medias(s2), media: Some(ms.last()), ..s2 }
                =~= after_medias(st, ms));
        }
    }
}

// ---------------------------------------------------------------------------
// Every line is well formed
// ---------------------------------------------------------------------------

proof fn lemma_text_ok_concat(a: Seq<char>, b: Seq<char>)
    requires
        !a.contains('\n'),
        text_ok(b),
        b.len() > 0 || text_ok(a),
    ensures
        text_ok(a + b),
{
    let s = a + b;
    if s.contains('\n') {
        let i = choose|i: int| 0 <= i < s.len() && s[i] == '\n';
        if i < a.len() {
            assert(a[i] == '\n');
        } else {
            assert(b[i - a.len()] == '\n');
        }
    }
    if b.len() > 0 {
        assert(s.last() == b.last());
    } else {
        assert(s =~= a);
    }
}

proof fn lemma_token_text_ok(t: Seq<char>)
    requires
        token_ok(t),
    ensures
        text_ok(t),
        !t.contains('\n'),
{
    lemma_token_trimmed(t);
}

proof fn lemma_join_text_ok(toks: Seq<Seq<char>>, c: char)
    requires
        toks.len() >= 1,
        c != '\n',
        c != '\r',
        forall|i: int| 0 <= i < toks.len() ==> token_ok(#[trigger] toks[i]),
    ensures
        text_ok(join_char(toks, c)),
        join_char(toks, c).len() > 0,
    decreases toks.len(),
{
    if toks.len() == 1 {
        lemma_token_text_ok(toks[0]);
    } else {
        let init = toks.drop_last();
        assert forall|i: int| 0 <= i < init.len() implies token_ok(#[trigger] init[i]) by {
            assert(init[i] == toks[i]);
        }
        lemma_join_text_ok(init, c);
        assert(token_ok(toks[toks.len() - 1]));
        lemma_token_text_ok(toks.last());
        let a = join_char(init, c) + seq![c];
        assert(!seq![c].contains('\n')) by {
            if seq![c].contains('\n') {
                let i = choose|i: int| 0 <= i < 1 && seq![c][i] == '\n';
            }
        }
        lemma_text_ok_concat(join_char(init, c), seq![c]);
        lemma_text_ok_concat(a, toks.last());
    }
}

/// A line `t=v` whose value fits on one line is well formed.
proof fn lemma_line_ok(t: char, v: Seq<char>)
    requires
        utf8_width(t) == 1,
        t != '\n',
        text_ok(v),
    ensures
        line_ok(seq![t, '='] + v),
{
    let h = seq![t, '='];
    assert(!h.contains('\n')) by {
        if h.contains('\n') {
            let i = choose|i: int| 0 <= i < h.len() && h[i] == '\n';
        }
    }
    assert(text_ok(h));
    lemma_text_ok_concat(h, v);
    assert((h + v)[0] == t);
    assert((h + v)[1] == '=');
}

pub open spec fn lines_ok(ls: Seq<Seq<char>>) -> bool {
    forall|i: int| 0 <= i < ls.len() ==> line_ok(#[trigger] ls[i])
}

proof fn lemma_lines_ok_concat(a: Seq<Seq<char>>, b: Seq<Seq<char>>)
    requires
        lines_ok(a),
        lines_ok(b),
    ensures
        lines_ok(a + b),
{
    assert forall|i: int| 0 <= i < (a + b).len() implies line_ok(#[trigger] (a + b)[i]) by {
        if i < a.len() {
            assert((a + b)[i] == a[i]);
        } else {
            assert((a + b)[i] == b[i - a.len()]);
        }
    }
}

proof fn lemma_body_origin(o: SpecOrigin)
    requires
        origin_ok(o),
    ensures
        text_ok(spec_origin_text(o)),
{
    lemma_space_lit();
    let toks = seq![
        o.username,
        dec(o.session_id as nat),
        dec(o.session_version as nat),
        o.network_type,
        o.address_type,
        o.unicast_address,
    ];
    lemma_dec_token(o.session_id as nat);
    lemma_dec_token(o.session_version as nat);
    assert forall|i: int| 0 <= i < toks.len() implies token_ok(#[trigger] toks[i]) by {}
    reveal_with_fuel(join_char, 7);
    assert(join_char(toks, ' ') =~= spec_origin_text(o));
    lemma_join_text_ok(toks, ' ');
}

proof fn lemma_body_connection(c: SpecConnection)
    requires
        conn_ok(c),
    ensures
        text_ok(spec_connection_text(c)),
{
    lemma_space_lit();
    lemma_read_conn_addr(c, 0);
    let toks = seq![c.network_type, c.address_type, conn_addr_text(c)];
    assert forall|i: int| 0 <= i < toks.len() implies token_ok(#[trigger] toks[i]) by {}
    reveal_with_fuel(join_char, 4);
    assert(join_char(toks, ' ') =~= spec_connection_text(c));
    lemma_join_text_ok(toks, ' ');
}

proof fn lemma_body_bandwidth(b: SpecBandwidth)
    requires
        bw_ok(b),
    ensures
        text_ok(spec_bandwidth_text(b)),
{
    lemma_space_lit();
    lemma_dec_token(b.bandwidth as nat);
    lemma_token_text_ok(dec(b.bandwidth as nat));
    assert(text_ok(seq![':']));
    assert(!seq![':'].contains('\n')) by {
        if seq![':'].contains('\n') {
            let i = choose|i: int| 0 <= i < 1 && seq![':'][i] == '\n';
        }
    }
    lemma_text_ok_concat(b.bandwidth_type, seq![':']);
    lemma_text_ok_concat(b.bandwidth_type + seq![':'], dec(b.bandwidth as nat));
    assert(spec_bandwidth_text(b) =~= b.bandwidth_type + seq![':'] + dec(b.bandwidth as nat));
}

proof fn lemma_body_time(t: SpecTimeDescription)
    ensures
        text_ok(dec(t.start_time as nat) + " "@ + dec(t.stop_time as nat)),
{
    lemma_space_lit();
    let toks = seq![dec(t.start_time as nat), dec(t.stop_time as nat)];
    lemma_dec_token(t.start_time as nat);
    lemma_dec_token(t.stop_time as nat);
    assert forall|i: int| 0 <= i < toks.len() implies token_ok(#[trigger] toks[i]) by {}
    reveal_with_fuel(join_char, 3);
    assert(join_char(toks, ' ') =~= dec(t.start_time as nat) + " "@ + dec(t.stop_time as nat));
    lemma_join_text_ok(toks, ' ');
}

proof fn lemma_body_repeat(r: SpecRepeatTime)
    ensures
        text_ok(spec_repeat_text(r)),
{
    lemma_repeat_join(r, r.offsets.len());
    assert(r.offsets.take(r.offsets.len() as int) =~= r.offsets);
    assert(SpecRepeatTime { offsets: r.offsets.take(r.offsets.len() as int), ..r } =~= r);
    let toks = repeat_tokens(r);
    assert forall|i: int| 0 <= i < toks.len() implies token_ok(#[trigger] toks[i]) by {
        if i == 0 {
            lemma_dec_token(r.repeat_interval as nat);
        } else if i == 1 {
            lemma_dec_token(r.active_duration as nat);
        } else {
            lemma_dec_token(r.offsets[i - 2] as nat);
        }
    }
    lemma_join_text_ok(toks, ' ');
}

proof fn lemma_colon_text()
    ensures
        text_ok(seq![':']),
        !seq![':'].contains('\n'),
{
    if seq![':'].contains('\n') {
        let i = choose|i: int| 0 <= i < 1 && seq![':'][i] == '\n';
    }
}

proof fn lemma_body_encryption(e: SpecEncryption)
    requires
        enc_ok(e),
    ensures
        text_ok(spec_encryption_text(e)),
{
    lemma_space_lit();
    lemma_colon_text();
    match e.encryption_key {
        Some(k) => {
            lemma_text_ok_concat(e.method, seq![':']);
            lemma_text_ok_concat(e.method + seq![':'], k);
            assert(spec_encryption_text(e) =~= e.method + seq![':'] + k);
        },
        None => {
            assert(spec_encryption_text(e) =~= e.method);
        },
    }
}

proof fn lemma_body_attribute(a: SpecAttribute)
    requires
        attr_ok(a),
    ensures
        text_ok(spec_attribute_text(a)),
{
    lemma_space_lit();
    lemma_colon_text();
    match a.value {
        Some(v) => {
            lemma_text_ok_concat(a.name, seq![':']);
            lemma_text_ok_concat(a.name + seq![':'], v);
            assert(spec_attribute_text(a) =~= a.name + seq![':'] + v);
        },
        None => {},
    }
}

#[verifier::spinoff_prover]
#[verifier::rlimit(40)]
proof fn lemma_body_media_line(m: SpecMediaDescription)
    requires
        media_ok(m),
    ensures
        text_ok(spec_media_line_text(m)),
{
    lemma_space_lit();
    lemma_read_media_type(m.media);
    lemma_read_port(m, 0);
    let head = seq![spec_media_type_name(m.media), port_text(m), m.proto];
    let toks = head + m.formats;
    lemma_join_formats(head, m.formats);
    reveal_with_fuel(join_char, 4);
    assert(join_char(head, ' ') =~= spec_media_type_name(m.media) + " "@ + port_text(m) + " "@
        + m.proto);
    assert(join_char(toks, ' ') =~= spec_media_line_text(m));
    assert forall|i: int| 0 <= i < toks.len() implies token_ok(#[trigger] toks[i]) by {
        if i >= 3 {
            assert(toks[i] == m.formats[i - 3]);
        }
    }
    lemma_join_text_ok(toks, ' ');
}

proof fn lemma_ok_opt(t: char, o: Option<Seq<char>>)
    requires
        utf8_width(t) == 1,
        t != '\n',
        opt_text_ok(o),
    ensures
        lines_ok(opt_lines(seq![t, '='], o)),
{
    match o {
        Some(v) => lemma_line_ok(t, v),
        None => {},
    }
}

proof fn lemma_ok_bw(bs: Seq<SpecBandwidth>)
    requires
        forall|i: int| 0 <= i < bs.len() ==> bw_ok(#[trigger] bs[i]),
    ensures
        lines_ok(bw_lines(bs)),
{
    reveal_strlit("b=");
    assert forall|i: int| 0 <= i < bw_lines(bs).len() implies line_ok(#[trigger] bw_lines(bs)[i]) by {
        assert(bw_ok(bs[i]));
        lemma_body_bandwidth(bs[i]);
        lemma_line_ok('b', spec_bandwidth_text(bs[i]));
        assert(bw_lines(bs)[i] =~= seq!['b', '='] + spec_bandwidth_text(bs[i]));
    }
}

proof fn lemma_ok_attr(attrs: Seq<SpecAttribute>)
    requires
        forall|i: int| 0 <= i < attrs.len() ==> attr_ok(#[trigger] attrs[i]),
    ensures
        lines_ok(attr_lines(attrs)),
{
    reveal_strlit("a=");
    assert forall|i: int| 0 <= i < attr_lines(attrs).len() implies line_ok(
        #[trigger] attr_lines(attrs)[i],
    ) by {
        assert(attr_ok(attrs[i]));
        lemma_body_attribute(attrs[i]);
        lemma_line_ok('a', spec_attribute_text(attrs[i]));
        assert(attr_lines(attrs)[i] =~= seq!['a', '='] + spec_attribute_text(attrs[i]));
    }
}

proof fn lemma_ok_rep(rs: Seq<SpecRepeatTime>)
    ensures
        lines_ok(rep_lines(rs)),
{
    reveal_strlit("r=");
    assert forall|i: int| 0 <= i < rep_lines(rs).len() implies line_ok(#[trigger] rep_lines(rs)[i]) by {
        lemma_body_repeat(rs[i]);
        lemma_line_ok('r', spec_repeat_text(rs[i]));
        assert(rep_lines(rs)[i] =~= seq!['r', '='] + spec_repeat_text(rs[i]));
    }
}

proof fn lemma_ok_conn(c: Option<SpecConnection>)
    requires
        opt_conn_ok(c),
    ensures
        lines_ok(conn_lines(c)),
{
    lemma_tags();
    match c {
        Some(x) => {
            lemma_body_connection(x);
            lemma_line_ok('c', spec_connection_text(x));
        },
        None => {},
    }
}

proof fn lemma_ok_enc(e: Option<SpecEncryption>)
    requires
        opt_enc_ok(e),
    ensures
        lines_ok(enc_lines(e)),
{
    lemma_tags();
    match e {
        Some(x) => {
            lemma_body_encryption(x);
            lemma_line_ok('k', spec_encryption_text(x));
        },
        None => {},
    }
}

proof fn lemma_ok_times(tds: Seq<SpecTimeDescription>)
    ensures
        lines_ok(times_lines(tds)),
    decreases tds.len(),
{
    reveal_strlit("t=");
    if tds.len() > 0 {
        lemma_ok_times(tds.drop_last());
        let t = tds.last();
        lemma_body_time(t);
        lemma_line_ok('t', dec(t.start_time as nat) + " "@ + dec(t.stop_time as nat));
        assert(time_line(t) =~= seq!['t', '='] + (dec(t.start_time as nat) + " "@ + dec(
            t.stop_time as nat,
        )));
        lemma_ok_rep(t.repeat_times);
        lemma_lines_ok_concat(seq![time_line(t)], rep_lines(t.repeat_times));
        lemma_lines_ok_concat(times_lines(tds.drop_last()), time_sec_lines(t));
    }
}

#[verifier::spinoff_prover]
proof fn lemma_ok_media(m: SpecMediaDescription)
    requires
        media_ok(m),
    ensures
        lines_ok(media_sec_lines(m)),
{
    lemma_tags();
    lemma_body_media_line(m);
    lemma_line_ok('m', spec_media_line_text(m));
    lemma_ok_opt('i', m.title);
    lemma_ok_conn(m.connection);
    lemma_ok_bw(m.bandwidth);
    lemma_ok_enc(m.encryption);
    lemma_ok_attr(m.attributes);
    let l0 = seq!["m="@ + spec_media_line_text(m)];
    let li = opt_lines("i="@, m.title);
    let lc = conn_lines(m.connection);
    let lb = bw_lines(m.bandwidth);
    let lk = enc_lines(m.encryption);
    let la = attr_lines(m.attributes);
    lemma_lines_ok_concat(l0, li);
    lemma_lines_ok_concat(l0 + li, lc);
    lemma_lines_ok_concat(l0 + li + lc, lb);
    lemma_lines_ok_concat(l0 + li + lc + lb, lk);
    lemma_lines_ok_concat(l0 + li + lc + lb + lk, la);
}

proof fn lemma_ok_medias(ms: Seq<SpecMediaDescription>)
    requires
        forall|i: int| 0 <= i < ms.len() ==> media_ok(#[trigger] ms[i]),
    ensures
        lines_ok(medias_lines(ms)),
    decreases ms.len(),
{
    if ms.len() > 0 {
        let init = ms.drop_last();
        assert forall|i: int| 0 <= i < init.len() implies media_ok(#[trigger] init[i]) by {
            assert(init[i] == ms[i]);
        }
        lemma_ok_medias(init);
        assert(media_ok(ms[ms.len() - 1]));
        lemma_ok_media(ms.last());
        lemma_lines_ok_concat(medias_lines(init), media_sec_lines(ms.last()));
    }
}

#[verifier::spinoff_prover]
proof fn lemma_ok_all(sd: SpecSessionDescription)
    requires
        sdp_wf(sd),
    ensures
        lines_ok(sdp_lines_of(sd)),
{
    lemma_tags();
    lemma_dec_token(sd.version as nat);
    lemma_token_text_ok(dec(sd.version as nat));
    lemma_line_ok('v', dec(sd.version as nat));
    lemma_body_origin(sd.origin);
    lemma_line_ok('o', spec_origin_text(sd.origin));
    lemma_line_ok('s', sd.session_name);
    let v1 = seq!["v="@ + dec(sd.version as nat)];
    let o1 = seq!["o="@ + spec_origin_text(sd.origin)];
    let s1 = seq!["s="@ + sd.session_name];
    lemma_ok_opt('i', sd.session_info);
    lemma_ok_opt('u', sd.uri);
    lemma_ok_opt('e', sd.email);
    lemma_ok_opt('p', sd.phone);
    lemma_ok_conn(sd.connection);
    lemma_ok_bw(sd.bandwidth);
    lemma_ok_times(sd.time_descriptions);
    lemma_ok_opt('z', sd.timezone);
    lemma_ok_enc(sd.encryption);
    lemma_ok_attr(sd.attributes);
    lemma_ok_medias(sd.media_descriptions);
    lemma_ok_opt('y', sd.ssrc);
    lemma_ok_opt('f', sd.media_format);
    let hi = opt_lines("i="@, sd.session_info);
    let hu = opt_lines("u="@, sd.uri);
    let he = opt_lines("e="@, sd.email);
    let hp = opt_lines("p="@, sd.phone);
    let hc = conn_lines(sd.connection);
    let hb = bw_lines(sd.bandwidth);
    lemma_lines_ok_concat(v1, o1);
    lemma_lines_ok_concat(v1 + o1, s1);
    lemma_lines_ok_concat(v1 + o1 + s1, hi);
    lemma_lines_ok_concat(v1 + o1 + s1 + hi, hu);
    lemma_lines_ok_concat(v1 + o1 + s1 + hi + hu, he);
    lemma_lines_ok_concat(v1 + o1 + s1 + hi + hu + he, hp);
    lemma_lines_ok_concat(v1 + o1 + s1 + hi + hu + he + hp, hc);
    lemma_lines_ok_concat(v1 + o1 + s1 + hi + hu + he + hp + hc, hb);
    assert(v1 + o1 + s1 + hi + hu + he + hp + hc + hb =~= header_lines(sd));
    let z = opt_lines("z="@, sd.timezone);
    let k = enc_lines(sd.encryption);
    let a = attr_lines(sd.attributes);
    lemma_lines_ok_concat(z, k);
    lemma_lines_ok_concat(z + k, a);
    assert(z + k + a =~= tail_lines(sd));
    let y = opt_lines("y="@, sd.ssrc);
    let f = opt_lines("f="@, sd.media_format);
    lemma_lines_ok_concat(y, f);
    let h = header_lines(sd);
    let t = times_lines(sd.time_descriptions);
    let m = medias_lines(sd.media_descriptions);
    lemma_lines_ok_concat(h, t);
    lemma_lines_ok_concat(h + t, tail_lines(sd));
    lemma_lines_ok_concat(h + t + tail_lines(sd), m);
    lemma_lines_ok_concat(h + t + tail_lines(sd) + m, gb_lines(sd));
}

// ---------------------------------------------------------------------------
// Session-level lines
// ---------------------------------------------------------------------------

proof fn lemma_run_set_session_info(st: SpecParseState, o: Option<Seq<char>>, ln0: nat)
    requires
        st.media is None,
        st.sdp.session_info is None,
    ensures
        run_lines(st, opt_lines("i="@, o), ln0) == Ok::<
            SpecParseState,
            crate::sdp::types::SpecSdpError,
        >(with_sdp(st, SpecSessionDescription { session_info: o, ..st.sdp })),
{
    lemma_tags();
    lemma_run_opt(st, 'i', o, ln0);
    if o is None {
        assert(with_sdp(st, SpecSessionDescription { session_info: o, ..st.sdp }) =~= st);
    }
}

proof fn lemma_run_set_uri(st: SpecParseState, o: Option<Seq<char>>, ln0: nat)
    requires
        st.media is None,
        st.sdp.uri is None,
    ensures
        run_lines(st, opt_lines("u="@, o), ln0) == Ok::<
            SpecParseState,
            crate::sdp::types::SpecSdpError,
        >(with_sdp(st, SpecSessionDescription { uri: o, ..st.sdp })),
{
    lemma_tags();
    lemma_run_opt(st, 'u', o, ln0);
    if o is None {
        assert(with_sdp(st, SpecSessionDescription { uri: o, ..st.sdp }) =~= st);
    }
}

proof fn lemma_run_set_email(st: SpecParseState, o: Option<Seq<char>>, ln0: nat)
    requires
        st.media is None,
        st.sdp.email is None,
    ensures
        run_lines(st, opt_lines("e="@, o), ln0) == Ok::<
            SpecParseState,
            crate::sdp::types::SpecSdpError,
        >(with_sdp(st, SpecSessionDescription { email: o, ..st.sdp })),
{
    lemma_tags();
    lemma_run_opt(st, 'e', o, ln0);
    if o is None {
        assert(with_sdp(st, SpecSessionDescription { email: o, ..st.sdp }) =~= st);
    }
}

proof fn lemma_run_set_phone(st: SpecParseState, o: Option<Seq<char>>, ln0: nat)
    requires
        st.media is None,
        st.sdp.phone is None,
    ensures
        run_lines(st, opt_lines("p="@, o), ln0) == Ok::<
            SpecParseState,
            crate::sdp::types::SpecSdpError,
        >(with_sdp(st, SpecSessionDescription { phone: o, ..st.sdp })),
{
    lemma_tags();
    lemma_run_opt(st, 'p', o, ln0);
    if o is None {
        assert(with_sdp(st, SpecSessionDescription { phone: o, ..st.sdp }) =~= st);
    }
}

proof fn lemma_run_set_timezone(st: SpecParseState, o: Option<Seq<char>>, ln0: nat)
    requires
        st.media is None,
        st.sdp.timezone is None,
    ensures
        run_lines(st, opt_lines("z="@, o), ln0) == Ok::<
            SpecParseState,
            crate::sdp::types::SpecSdpError,
        >(with_sdp(st, SpecSessionDescription { timezone: o, ..st.sdp })),
{
    lemma_tags();
    lemma_run_opt(st, 'z', o, ln0);
    if o is None {
        assert(with_sdp(st, SpecSessionDescription { timezone: o, ..st.sdp }) =~= st);
    }
}

proof fn lemma_run_set_connection(st: SpecParseState, c: Option<SpecConnection>, ln0: nat)
    requires
        st.media is None,
        st.sdp.connection is None,
        opt_conn_ok(c),
    ensures
        run_lines(st, conn_lines(c), ln0) == Ok::<SpecParseState, crate::sdp::types::SpecSdpError>(
            with_sdp(st, SpecSessionDescription { connection: c, ..st.sdp }),
        ),
{
    lemma_tags();
    match c {
        Some(x) => {
            lemma_run_one(st, 'c', spec_connection_text(x), ln0);
            lemma_read_connection(x, ln0 + 1);
            assert(conn_lines(c) =~= seq![seq!['c', '='] + spec_connection_text(x)]);
        },
        None => {
            reveal(run_lines);
            assert(with_sdp(st, SpecSessionDescription { connection: c, ..st.sdp }) =~= st);
        },
    }
}

proof fn lemma_run_set_encryption(st: SpecParseState, e: Option<SpecEncryption>, ln0: nat)
    requires
        st.media is None,
        st.sdp.encryption is None,
        opt_enc_ok(e),
    ensures
        run_lines(st, enc_lines(e), ln0) == Ok::<SpecParseState, crate::sdp::types::SpecSdpError>(
            with_sdp(st, SpecSessionDescription { encryption: e, ..st.sdp }),
        ),
{
    lemma_tags();
    match e {
        Some(x) => {
            lemma_run_one(st, 'k', spec_encryption_text(x), ln0);
            lemma_read_encryption(x);
            assert(enc_lines(e) =~= seq![seq!['k', '='] + spec_encryption_text(x)]);
        },
        None => {
            reveal(run_lines);
            assert(with_sdp(st, SpecSessionDescription { encryption: e, ..st.sdp }) =~= st);
        },
    }
}

/// State after the `v=`, `o=` and `s=` lines.
pub open spec fn state_vos(sd: SpecSessionDescription) -> SpecParseState {
    with_sdp(
        initial_state(),
        SpecSessionDescription {
            version: sd.version,
            origin: sd.origin,
            session_name: sd.session_name,
            ..initial_state().sdp
        },
    )
}

proof fn lemma_run_vos(sd: SpecSessionDescription)
    requires
        origin_ok(sd.origin),
    ensures
        run_lines(
            initial_state(),
            seq![
                "v="@ + dec(sd.version as nat),
                "o="@ + spec_origin_text(sd.origin),
                "s="@ + sd.session_name,
            ],
            0,
        ) == Ok::<SpecParseState, crate::sdp::types::SpecSdpError>(state_vos(sd)),
{
    lemma_tags();
    let s0 = initial_state();
    let lv = seq!["v="@ + dec(sd.version as nat)];
    let lo = seq!["o="@ + spec_origin_text(sd.origin)];
    let ls = seq!["s="@ + sd.session_name];
    lemma_run_one(s0, 'v', dec(sd.version as nat), 0);
    lemma_read_version(sd.version, 1);
    let s1 = with_sdp(s0, SpecSessionDescription { version: sd.version, ..s0.sdp });
    lemma_run_one(s1, 'o', spec_origin_text(sd.origin), 1);
    lemma_read_origin(sd.origin, 2);
    let s2 = with_sdp(s1, SpecSessionDescription { origin: sd.origin, ..s1.sdp });
    lemma_run_one(s2, 's', sd.session_name, 2);
    let s3 = with_sdp(s2, SpecSessionDescription { session_name: sd.session_name, ..s2.sdp });
    lemma_run_concat(s0, lv, lo, 0);
    lemma_run_concat(s0, lv + lo, ls, 0);
    assert(lv + lo + ls =~= seq![
        "v="@ + dec(sd.version as nat),
        "o="@ + spec_origin_text(sd.origin),
        "s="@ + sd.session_name,
    ]);
    assert(s3 =~= state_vos(sd));
}

/// State after the header lines: version to session bandwidth.
pub open spec fn state_header(sd: SpecSessionDescription) -> SpecParseState {
    with_sdp(
        initial_state(),
        SpecSessionDescription {
            version: sd.version,
            origin: sd.origin,
            session_name: sd.session_name,
            session_info: sd.session_info,
            uri: sd.uri,
            email: sd.email,
            phone: sd.phone,
            connection: sd.connection,
            bandwidth: sd.bandwidth,
            ..initial_state().sdp
        },
    )
}

#[verifier::spinoff_prover]
proof fn lemma_run_header(sd: SpecSessionDescription)
    requires
        sdp_wf(sd),
    ensures
        run_lines(initial_state(), header_lines(sd), 0) == Ok::<
            SpecParseState,
            crate::sdp::types::SpecSdpError,
        >(state_header(sd)),
{
    let h0 = seq![
        "v="@ + dec(sd.version as nat),
        "o="@ + spec_origin_text(sd.origin),
        "s="@ + sd.session_name,
    ];
    let hi = opt_lines("i="@, sd.session_info);
    let hu = opt_lines("u="@, sd.uri);
    let he = opt_lines("e="@, sd.email);
    let hp = opt_lines("p="@, sd.phone);
    let hc = conn_lines(sd.connection);
    let hb = bw_lines(sd.bandwidth);
    lemma_run_vos(sd);
    let s0 = initial_state();
    let s1 = state_vos(sd);
    lemma_run_set_session_info(s1, sd.session_info, 3);
    let s2 = with_sdp(s1, SpecSessionDescription { session_info: sd.session_info, ..s1.sdp });
    lemma_run_set_uri(s2, sd.uri, 3 + hi.len());
    let s3 = with_sdp(s2, SpecSessionDescription { uri: sd.uri, ..s2.sdp });
    lemma_run_set_email(s3, sd.email, 3 + hi.len() + hu.len());
    let s4 = with_sdp(s3, SpecSessionDescription { email: sd.email, ..s3.sdp });
    lemma_run_set_phone(s4, sd.phone, 3 + hi.len() + hu.len() + he.len());
    let s5 = with_sdp(s4, SpecSessionDescription { phone: sd.phone, ..s4.sdp });
    lemma_run_set_connection(s5, sd.connection, 3 + hi.len() + hu.len() + he.len() + hp.len());
    let s6 = with_sdp(s5, SpecSessionDescription { connection: sd.connection, ..s5.sdp });
    lemma_run_bw_session(s6, sd.bandwidth, 3 + hi.len() + hu.len() + he.len() + hp.len() + hc.len());
    let s7 = with_sdp(s6, SpecSessionDescription { bandwidth: s6.sdp.bandwidth + sd.bandwidth, ..s6.sdp });
    lemma_run_concat(s0, h0, hi, 0);
    lemma_run_concat(s0, h0 + hi, hu, 0);
    lemma_run_concat(s0, h0 + hi + hu, he, 0);
    lemma_run_concat(s0, h0 + hi + hu + he, hp, 0);
    lemma_run_concat(s0, h0 + hi + hu + he + hp, hc, 0);
    lemma_run_concat(s0, h0 + hi + hu + he + hp + hc, hb, 0);
    assert(h0 + hi + hu + he + hp + hc + hb =~= header_lines(sd));
    assert(s6.sdp.bandwidth + sd.bandwidth =~= sd.bandwidth);
    assert(s7 =~= state_header(sd));
}

/// `y=` or `f=`: sets the field and adds an attribute to the open media
/// description.
proof fn lemma_apply_gb(st: SpecParseState, t: char, v: Seq<char>, ln: nat)
    requires
        t == 'y' || t == 'f',
    ensures
        spec_apply(st, t, v, ln) == Ok::<SpecParseState, crate::sdp::types::SpecSdpError>(
            SpecParseState {
                sdp: if t == 'y' {
                    SpecSessionDescription { ssrc: Some(v), ..st.sdp }
                } else {
                    SpecSessionDescription { media_format: Some(v), ..st.sdp }
                },
                media: match st.media {
                    Some(m) => Some(
                        SpecMediaDescription {
                            attributes: m.attributes.push(
                                SpecAttribute { name: seq![t], value: Some(v) },
                            ),
                            ..m
                        },
                    ),
                    None => None,
                },
                ..st
            },
        ),
{
}

/// Attributes the `y=` and `f=` lines of `sd` add to its last media description.
pub open spec fn gb_attrs(sd: SpecSessionDescription) -> Seq<SpecAttribute> {
    (match sd.ssrc {
        Some(v) => seq![SpecAttribute { name: seq!['y'], value: Some(v) }],
        None => Seq::empty(),
    }) + (match sd.media_format {
        Some(v) => seq![SpecAttribute { name: seq!['f'], value: Some(v) }],
        None => Seq::empty(),
    })
}

/// `sd` as its SDP text reads back: the `y=` and `f=` values also appear
/// as attributes of the last media description, when there is one.
pub open spec fn with_gb_attrs(sd: SpecSessionDescription) -> SpecSessionDescription {
    if sd.media_descriptions.len() == 0 {
        sd
    } else {
        let ms = sd.media_descriptions;
        let last = ms.last();
        SpecSessionDescription {
            media_descriptions: ms.drop_last().push(
                SpecMediaDescription { attributes: last.attributes + gb_attrs(sd), ..last },
            ),
            ..sd
        }
    }
}

/// State after the `y=` and `f=` lines.
pub open spec fn after_gb(st: SpecParseState, sd: SpecSessionDescription) -> SpecParseState {
    SpecParseState {
        sdp: SpecSessionDescription { ssrc: sd.ssrc, media_format: sd.media_format, ..st.sdp },
        media: match st.media {
            Some(m) => Some(SpecMediaDescription { attributes: m.attributes + gb_attrs(sd), ..m }),
            None => None,
        },
        ..st
    }
}

#[verifier::spinoff_prover]
proof fn lemma_run_gb(st: SpecParseState, sd: SpecSessionDescription, ln0: nat)
    requires
        st.sdp.ssrc is None,
        st.sdp.media_format is None,
    ensures
        run_lines(st, gb_lines(sd), ln0) == Ok::<SpecParseState, crate::sdp::types::SpecSdpError>(
            after_gb(st, sd),
        ),
{
    lemma_tags();
    let ly = opt_lines("y="@, sd.ssrc);
    let lf = opt_lines("f="@, sd.media_format);
    lemma_run_opt(st, 'y', sd.ssrc, ln0);
    let ay = match sd.ssrc {
        Some(v) => seq![SpecAttribute { name: seq!['y'], value: Some(v) }],
        None => Seq::<SpecAttribute>::empty(),
    };
    let af = match sd.media_format {
        Some(v) => seq![SpecAttribute { name: seq!['f'], value: Some(v) }],
        None => Seq::<SpecAttribute>::empty(),
    };
    let s1 = SpecParseState {
        sdp: SpecSessionDescription { ssrc: sd.ssrc, ..st.sdp },
        media: match st.media {
            Some(m) => Some(SpecMediaDescription { attributes: m.attributes + ay, ..m }),
            None => None,
        },
        ..st
    };
    match sd.ssrc {
        Some(v) => {
            lemma_apply_gb(st, 'y', v, ln0 + 1);
            match st.media {
                Some(m) => {
                    assert(m.attributes.push(SpecAttribute { name: seq!['y'], value: Some(v) })
                        =~= m.attributes + ay);
                },
                None => {},
            }
            assert(spec_apply(st, 'y', v, ln0 + 1) == Ok::<
                SpecParseState,
                crate::sdp::types::SpecSdpError,
            >(s1));
        },
        None => {
            match st.media {
                Some(m) => {
                    assert(m.attributes + ay =~= m.attributes);
                    assert(SpecMediaDescription { attributes: m.attributes + ay, ..m } =~= m);
                },
                None => {},
            }
            assert(s1 =~= st);
        },
    }
    lemma_run_opt(s1, 'f', sd.media_format, ln0 + ly.len());
    match sd.media_format {
        Some(v) => {
            lemma_apply_gb(s1, 'f', v, ln0 + ly.len() + 1);
            match st.media {
                Some(m) => {
                    assert((m.attributes + ay).push(
                        SpecAttribute { name: seq!['f'], value: Some(v) },
                    ) =~= m.attributes + gb_attrs(sd));
                },
                None => {},
            }
            assert(spec_apply(s1, 'f', v, ln0 + ly.len() + 1) == Ok::<
                SpecParseState,
                crate::sdp::types::SpecSdpError,
            >(after_gb(st, sd)));
        },
        None => {
            match st.media {
                Some(m) => {
                    assert(m.attributes + ay =~= m.attributes + gb_attrs(sd));
                },
                None => {},
            }
            assert(s1 =~= after_gb(st, sd));
        },
    }
    lemma_run_concat(st, ly, lf, ln0);
}

/// State after the `z=`, `k=` and session `a=` lines.
pub open spec fn after_tail(st: SpecParseState, sd: SpecSessionDescription) -> SpecParseState {
    with_sdp(
        st,
        SpecSessionDescription {
            timezone: sd.timezone,
            encryption: sd.encryption,
            attributes: st.sdp.attributes + sd.attributes,
            ..st.sdp
        },
    )
}

#[verifier::spinoff_prover]
proof fn lemma_run_tail(st: SpecParseState, sd: SpecSessionDescription, ln0: nat)
    requires
        st.media is None,
        st.sdp.timezone is None,
        st.sdp.encryption is None,
        opt_enc_ok(sd.encryption),
        forall|i: int| 0 <= i < sd.attributes.len() ==> attr_ok(#[trigger] sd.attributes[i]),
    ensures
        run_lines(st, tail_lines(sd), ln0) == Ok::<SpecParseState, crate::sdp::types::SpecSdpError>(
            after_tail(st, sd),
        ),
{
    let z = opt_lines("z="@, sd.timezone);
    let k = enc_lines(sd.encryption);
    let a = attr_lines(sd.attributes);
    lemma_run_set_timezone(st, sd.timezone, ln0);
    let s1 = with_sdp(st, SpecSessionDescription { timezone: sd.timezone, ..st.sdp });
    lemma_run_set_encryption(s1, sd.encryption, ln0 + z.len());
    let s2 = with_sdp(s1, SpecSessionDescription { encryption: sd.encryption, ..s1.sdp });
    lemma_run_attr_session(s2, sd.attributes, ln0 + z.len() + k.len());
    lemma_run_concat(st, z, k, ln0);
    lemma_run_concat(st, z + k, a, ln0);
    assert(z + k + a =~= tail_lines(sd));
    assert(with_sdp(s2, SpecSessionDescription { attributes: s2.sdp.attributes + sd.attributes, ..s2.sdp })
        =~= after_tail(st, sd));
}

/// The parser's state at the end of the SDP text of `sd`.
pub open spec fn end_state(sd: SpecSessionDescription) -> SpecParseState {
    let s1 = state_header(sd);
    let s2 = after_times(s1, sd.time_descriptions);
    let s3 = after_tail(s2, sd);
    let s4 = after_medias(s3, sd.media_descriptions);
    after_gb(s4, sd)
}

#[verifier::spinoff_prover]
proof fn lemma_run_all(sd: SpecSessionDescription)
    requires
        sdp_wf(sd),
    ensures
        run_lines(initial_state(), sdp_lines_of(sd), 0) == Ok::<
            SpecParseState,
            crate::sdp::types::SpecSdpError,
        >(end_state(sd)),
{
    let h = header_lines(sd);
    let t = times_lines(sd.time_descriptions);
    let tl = tail_lines(sd);
    let m = medias_lines(sd.media_descriptions);
    let g = gb_lines(sd);
    let s0 = initial_state();
    let s1 = state_header(sd);
    let s2 = after_times(s1, sd.time_descriptions);
    let s3 = after_tail(s2, sd);
    let s4 = after_medias(s3, sd.media_descriptions);
    lemma_run_header(sd);
    lemma_run_times(s1, sd.time_descriptions, h.len());
    lemma_run_tail(s2, sd, h.len() + t.len());
    lemma_run_medias(s3, sd.media_descriptions, h.len() + t.len() + tl.len());
    lemma_run_gb(s4, sd, h.len() + t.len() + tl.len() + m.len());
    lemma_run_concat(s0, h, t, 0);
    lemma_run_concat(s0, h + t, tl, 0);
    lemma_run_concat(s0, h + t + tl, m, 0);
    lemma_run_concat(s0, h + t + tl + m, g, 0);
}

/// What `spec_finish` makes of the end state: the description read back.
#[verifier::spinoff_prover]
proof fn lemma_finish(sd: SpecSessionDescription)
    requires
        sdp_wf(sd),
    ensures
        spec_finish(end_state(sd)) == with_gb_attrs(sd),
{
    let tds = sd.time_descriptions;
    let ms = sd.media_descriptions;
    let s1 = state_header(sd);
    let s2 = after_times(s1, tds);
    let s3 = after_tail(s2, sd);
    let s4 = after_medias(s3, ms);
    let s5 = after_gb(s4, sd);
    assert(pending_times(s1) =~= Seq::<SpecTimeDescription>::empty());
    assert(s2.time == Some(tds.last()));
    assert(s2.sdp.time_descriptions =~= tds.drop_last());
    assert(s3.media is None);
    assert(s3.time == Some(tds.last()));
    assert(Seq::<SpecAttribute>::empty() + sd.attributes =~= sd.attributes);
    assert(pending_medias(s3) =~= Seq::<SpecMediaDescription>::empty());
    assert(s5.time == Some(tds.last()));
    assert(tds.drop_last().push(tds.last()) =~= tds);
    if ms.len() == 0 {
        assert(s5.media is None);
        assert(spec_finish(s5) =~= with_gb_attrs(sd));
    } else {
        assert(s4.sdp.media_descriptions =~= ms.drop_last());
        assert(spec_finish(s5) =~= with_gb_attrs(sd));
    }
}

// ---------------------------------------------------------------------------
// The order of the lines
// ---------------------------------------------------------------------------

/// The type characters of the lines `ls`, in order.
pub open spec fn line_types(ls: Seq<Seq<char>>) -> Seq<char> {
    ls.map_values(|l: Seq<char>| l[0])
}

/// Whether every line of `ls` has the form `<type>=<value>`.
pub open spec fn all_tagged(ls: Seq<Seq<char>>) -> bool {
    forall|k: int| 0 <= k < ls.len() ==> (#[trigger] ls[k]).len() >= 2 && ls[k][1] == '='
}

/// `t` once when `present`, else nothing.
pub open spec fn opt_type(t: char, present: bool) -> Seq<char> {
    if present {
        seq![t]
    } else {
        Seq::empty()
    }
}

/// `t` repeated `n` times.
pub open spec fn repeat_type(t: char, n: nat) -> Seq<char> {
    Seq::new(n, |_i: int| t)
}

/// One `t` per time description, each followed by one `r` per repeat time.
pub open spec fn times_types(tds: Seq<SpecTimeDescription>) -> Seq<char>
    decreases tds.len(),
{
    if tds.len() == 0 {
        Seq::empty()
    } else {
        times_types(tds.drop_last()) + seq!['t'] + repeat_type('r', tds.last().repeat_times.len())
    }
}

/// `m [i] [c] b* [k] a*` for a media description.
pub open spec fn media_types(m: SpecMediaDescription) -> Seq<char> {
    seq!['m'] + opt_type('i', m.title is Some) + opt_type('c', m.connection is Some) + repeat_type(
        'b',
        m.bandwidth.len(),
    ) + opt_type('k', m.encryption is Some) + repeat_type('a', m.attributes.len())
}

pub open spec fn medias_types(ms: Seq<SpecMediaDescription>) -> Seq<char>
    decreases ms.len(),
{
    if ms.len() == 0 {
        Seq::empty()
    } else {
        medias_types(ms.drop_last()) + media_types(ms.last())
    }
}

/// The line types of the SDP text of `sd`:
/// `v o s [i] [u] [e] [p] [c] b* (t r*)* [z] [k] a* (m [i] [c] b* [k] a*)* [y] [f]`,
/// each optional line present exactly when its field is, one `b`, `t`,
/// `r`, `a` and `m` per bandwidth, time description, repeat time,
/// attribute and media description.
pub open spec fn sdp_line_types(sd: SpecSessionDescription) -> Seq<char> {
    seq!['v', 'o', 's'] + opt_type('i', sd.session_info is Some) + opt_type('u', sd.uri is Some)
        + opt_type('e', sd.email is Some) + opt_type('p', sd.phone is Some) + opt_type(
        'c',
        sd.connection is Some,
    ) + repeat_type('b', sd.bandwidth.len()) + times_types(sd.time_descriptions) + opt_type(
        'z',
        sd.timezone is Some,
    ) + opt_type('k', sd.encryption is Some) + repeat_type('a', sd.attributes.len())
        + medias_types(sd.media_descriptions) + opt_type('y', sd.ssrc is Some) + opt_type(
        'f',
        sd.media_format is Some,
    )
}

proof fn lemma_types_concat(a: Seq<Seq<char>>, b: Seq<Seq<char>>)
    requires
        all_tagged(a),
        all_tagged(b),
    ensures
        all_tagged(a + b),
        line_types(a + b) == line_types(a) + line_types(b),
{
    assert forall|k: int| 0 <= k < (a + b).len() implies (#[trigger] (a + b)[k]).len() >= 2 && (a
        + b)[k][1] == '=' by {
        if k < a.len() {
            assert((a + b)[k] == a[k]);
        } else {
            assert((a + b)[k] == b[k - a.len()]);
        }
    }
    assert(line_types(a + b) =~= line_types(a) + line_types(b));
}

proof fn lemma_types_tagged(t: char, tag: Seq<char>, v: Seq<char>)
    requires
        tag == seq![t, '='],
    ensures
        (tag + v).len() >= 2,
        (tag + v)[0] == t,
        (tag + v)[1] == '=',
{
    assert((tag + v)[0] == tag[0]);
    assert((tag + v)[1] == tag[1]);
}

proof fn lemma_types_opt(t: char, tag: Seq<char>, o: Option<Seq<char>>)
    requires
        tag == seq![t, '='],
    ensures
        all_tagged(opt_lines(tag, o)),
        line_types(opt_lines(tag, o)) == opt_type(t, o is Some),
{
    match o {
        Some(v) => {
            lemma_types_tagged(t, tag, v);
            assert(line_types(opt_lines(tag, o)) =~= seq![t]);
        },
        None => {
            assert(line_types(opt_lines(tag, o)) =~= Seq::<char>::empty());
        },
    }
}

proof fn lemma_types_many(t: char, tag: Seq<char>, ls: Seq<Seq<char>>, n: nat)
    requires
        tag == seq![t, '='],
        ls.len() == n,
        forall|k: int| 0 <= k < n ==> exists|v: Seq<char>| #[trigger] ls[k] == tag + v,
    ensures
        all_tagged(ls),
        line_types(ls) == repeat_type(t, n),
{
    assert forall|k: int| 0 <= k < ls.len() implies (#[trigger] ls[k]).len() >= 2 && ls[k][1]
        == '=' && ls[k][0] == t by {
        let v = choose|v: Seq<char>| ls[k] == tag + v;
        lemma_types_tagged(t, tag, v);
    }
    assert(line_types(ls) =~= repeat_type(t, n));
}

proof fn lemma_types_bw(bs: Seq<SpecBandwidth>)
    ensures
        all_tagged(bw_lines(bs)),
        line_types(bw_lines(bs)) == repeat_type('b', bs.len()),
{
    reveal_strlit("b=");
    assert("b="@ =~= seq!['b', '=']);
    let ls = bw_lines(bs);
    assert forall|k: int| 0 <= k < bs.len() implies exists|v: Seq<char>| #[trigger] ls[k] == "b="@
        + v by {
        assert(ls[k] == "b="@ + spec_bandwidth_text(bs[k]));
    }
    lemma_types_many('b', "b="@, ls, bs.len());
}

proof fn lemma_types_attr(attrs: Seq<SpecAttribute>)
    ensures
        all_tagged(attr_lines(attrs)),
        line_types(attr_lines(attrs)) == repeat_type('a', attrs.len()),
{
    reveal_strlit("a=");
    assert("a="@ =~= seq!['a', '=']);
    let ls = attr_lines(attrs);
    assert forall|k: int| 0 <= k < attrs.len() implies exists|v: Seq<char>| #[trigger] ls[k]
        == "a="@ + v by {
        assert(ls[k] == "a="@ + spec_attribute_text(attrs[k]));
    }
    lemma_types_many('a', "a="@, ls, attrs.len());
}

proof fn lemma_types_rep(rs: Seq<SpecRepeatTime>)
    ensures
        all_tagged(rep_lines(rs)),
        line_types(rep_lines(rs)) == repeat_type('r', rs.len()),
{
    reveal_strlit("r=");
    assert("r="@ =~= seq!['r', '=']);
    let ls = rep_lines(rs);
    assert forall|k: int| 0 <= k < rs.len() implies exists|v: Seq<char>| #[trigger] ls[k] == "r="@
        + v by {
        assert(ls[k] == "r="@ + spec_repeat_text(rs[k]));
    }
    lemma_types_many('r', "r="@, ls, rs.len());
}

proof fn lemma_types_conn(c: Option<SpecConnection>)
    ensures
        all_tagged(conn_lines(c)),
        line_types(conn_lines(c)) == opt_type('c', c is Some),
{
    lemma_tags();
    match c {
        Some(x) => lemma_types_opt('c', "c="@, Some(spec_connection_text(x))),
        None => lemma_types_opt('c', "c="@, None),
    }
}

proof fn lemma_types_enc(e: Option<SpecEncryption>)
    ensures
        all_tagged(enc_lines(e)),
        line_types(enc_lines(e)) == opt_type('k', e is Some),
{
    lemma_tags();
    match e {
        Some(x) => lemma_types_opt('k', "k="@, Some(spec_encryption_text(x))),
        None => lemma_types_opt('k', "k="@, None),
    }
}

proof fn lemma_types_times(tds: Seq<SpecTimeDescription>)
    ensures
        all_tagged(times_lines(tds)),
        line_types(times_lines(tds)) == times_types(tds),
    decreases tds.len(),
{
    if tds.len() == 0 {
        assert(line_types(times_lines(tds)) =~= Seq::<char>::empty());
    } else {
        let t = tds.last();
        lemma_types_times(tds.drop_last());
        reveal_strlit("t=");
        assert("t="@ =~= seq!['t', '=']);
        let head = seq![time_line(t)];
        lemma_types_opt('t', "t="@, Some(dec(t.start_time as nat) + " "@ + dec(t.stop_time as nat)));
        assert("t="@ + (dec(t.start_time as nat) + " "@ + dec(t.stop_time as nat)) =~= time_line(
            t,
        ));
        assert(opt_lines("t="@, Some(dec(t.start_time as nat) + " "@ + dec(t.stop_time as nat)))
            =~= head);
        lemma_types_rep(t.repeat_times);
        lemma_types_concat(head, rep_lines(t.repeat_times));
        lemma_types_concat(times_lines(tds.drop_last()), time_sec_lines(t));
        assert(times_types(tds) =~= times_types(tds.drop_last()) + (seq!['t'] + repeat_type(
            'r',
            t.repeat_times.len(),
        )));
    }
}

proof fn lemma_types_media(m: SpecMediaDescription)
    ensures
        all_tagged(media_sec_lines(m)),
        line_types(media_sec_lines(m)) == media_types(m),
{
    lemma_tags();
    let l0 = seq!["m="@ + spec_media_line_text(m)];
    lemma_types_opt('m', "m="@, Some(spec_media_line_text(m)));
    assert(opt_lines("m="@, Some(spec_media_line_text(m))) =~= l0);
    lemma_types_opt('i', "i="@, m.title);
    lemma_types_conn(m.connection);
    lemma_types_bw(m.bandwidth);
    lemma_types_enc(m.encryption);
    lemma_types_attr(m.attributes);
    let a1 = l0 + opt_lines("i="@, m.title);
    let a2 = a1 + conn_lines(m.connection);
    let a3 = a2 + bw_lines(m.bandwidth);
    let a4 = a3 + enc_lines(m.encryption);
    lemma_types_concat(l0, opt_lines("i="@, m.title));
    lemma_types_concat(a1, conn_lines(m.connection));
    lemma_types_concat(a2, bw_lines(m.bandwidth));
    lemma_types_concat(a3, enc_lines(m.encryption));
    lemma_types_concat(a4, attr_lines(m.attributes));
}

proof fn lemma_types_medias(ms: Seq<SpecMediaDescription>)
    ensures
        all_tagged(medias_lines(ms)),
        line_types(medias_lines(ms)) == medias_types(ms),
    decreases ms.len(),
{
    if ms.len() == 0 {
        assert(line_types(medias_lines(ms)) =~= Seq::<char>::empty());
    } else {
        lemma_types_medias(ms.drop_last());
        lemma_types_media(ms.last());
        lemma_types_concat(medias_lines(ms.drop_last()), media_sec_lines(ms.last()));
    }
}

/// The SDP text of a description is its lines, each followed by CRLF, and
/// every line has the form `<type>=<value>` with the line types in the
/// order `sdp_line_types` gives:
/// `v o s [i] [u] [e] [p] [c] b* (t r*)* [z] [k] a* (m [i] [c] b* [k] a*)* [y] [f]`.
/// The first three lines are the version, the origin and the session
/// name; for a well-formed description each line is a one-line text with
/// an ASCII type character.
#[verifier::spinoff_prover]
#[verifier::rlimit(60)]
pub proof fn law_sdp_text_lines(sd: SpecSessionDescription)
    ensures
        sdp_text(sd) == crlf_join(sdp_lines_of(sd)),
        all_tagged(sdp_lines_of(sd)),
        line_types(sdp_lines_of(sd)) == sdp_line_types(sd),
        sdp_lines_of(sd).len() >= 3,
        sdp_lines_of(sd)[0] == "v="@ + dec(sd.version as nat),
        sdp_lines_of(sd)[1] == "o="@ + spec_origin_text(sd.origin),
        sdp_lines_of(sd)[2] == "s="@ + sd.session_name,
        sdp_wf(sd) ==> lines_ok(sdp_lines_of(sd)),
{
    lemma_text_is_lines(sd);
    lemma_tags();
    let h0 = seq![
        "v="@ + dec(sd.version as nat),
        "o="@ + spec_origin_text(sd.origin),
        "s="@ + sd.session_name,
    ];
    assert(all_tagged(h0) && line_types(h0) =~= seq!['v', 'o', 's']) by {
        lemma_types_tagged('v', "v="@, dec(sd.version as nat));
        lemma_types_tagged('o', "o="@, spec_origin_text(sd.origin));
        lemma_types_tagged('s', "s="@, sd.session_name);
    }
    let p1 = opt_lines("i="@, sd.session_info);
    let p2 = opt_lines("u="@, sd.uri);
    let p3 = opt_lines("e="@, sd.email);
    let p4 = opt_lines("p="@, sd.phone);
    let p5 = conn_lines(sd.connection);
    let p6 = bw_lines(sd.bandwidth);
    let p7 = times_lines(sd.time_descriptions);
    let p8 = opt_lines("z="@, sd.timezone);
    let p9 = enc_lines(sd.encryption);
    let p10 = attr_lines(sd.attributes);
    let p11 = medias_lines(sd.media_descriptions);
    let p12 = opt_lines("y="@, sd.ssrc);
    let p13 = opt_lines("f="@, sd.media_format);
    lemma_types_opt('i', "i="@, sd.session_info);
    lemma_types_opt('u', "u="@, sd.uri);
    lemma_types_opt('e', "e="@, sd.email);
    lemma_types_opt('p', "p="@, sd.phone);
    lemma_types_conn(sd.connection);
    lemma_types_bw(sd.bandwidth);
    lemma_types_times(sd.time_descriptions);
    lemma_types_opt('z', "z="@, sd.timezone);
    lemma_types_enc(sd.encryption);
    lemma_types_attr(sd.attributes);
    lemma_types_medias(sd.media_descriptions);
    lemma_types_opt('y', "y="@, sd.ssrc);
    lemma_types_opt('f', "f="@, sd.media_format);
    let q1 = h0 + p1;
    let q2 = q1 + p2;
    let q3 = q2 + p3;
    let q4 = q3 + p4;
    let q5 = q4 + p5;
    let q6 = q5 + p6;
    let q7 = q6 + p7;
    let q8 = q7 + p8;
    let q9 = q8 + p9;
    let q10 = q9 + p10;
    let q11 = q10 + p11;
    let q12 = q11 + p12;
    let q13 = q12 + p13;
    lemma_types_concat(h0, p1);
    lemma_types_concat(q1, p2);
    lemma_types_concat(q2, p3);
    lemma_types_concat(q3, p4);
    lemma_types_concat(q4, p5);
    lemma_types_concat(q5, p6);
    lemma_types_concat(q6, p7);
    lemma_types_concat(q7, p8);
    lemma_types_concat(q8, p9);
    lemma_types_concat(q9, p10);
    lemma_types_concat(q10, p11);
    lemma_types_concat(q11, p12);
    lemma_types_concat(q12, p13);
    assert(sdp_lines_of(sd) =~= q13);
    assert(sdp_lines_of(sd)[0] == h0[0]);
    assert(sdp_lines_of(sd)[1] == h0[1]);
    assert(sdp_lines_of(sd)[2] == h0[2]);
    if sdp_wf(sd) {
        lemma_ok_all(sd);
    }
}

/// Writing a well-formed description as SDP text and parsing the text gives
/// the description back, GB28181's `y=` and `f=` values also appearing as
/// attributes of the last media description.
pub proof fn law_sdp_roundtrip(sd: SpecSessionDescription)
    requires
        sdp_wf(sd),
    ensures
        spec_sdp_parse(sdp_text(sd)) == Ok::<
            SpecSessionDescription,
            crate::sdp::types::SpecSdpError,
        >(with_gb_attrs(sd)),
{
    let ls = sdp_lines_of(sd);
    lemma_text_is_lines(sd);
    lemma_ok_all(sd);
    lemma_lines_of_crlf_join(ls);
    assert(spec_sdp_lines(sdp_text(sd)) == ls);
    lemma_spec_run_is_run_lines(ls, ls.len());
    assert(ls.take(ls.len() as int) =~= ls);
    lemma_run_all(sd);
    lemma_finish(sd);
    assert(with_gb_attrs(sd).session_name == sd.session_name);
    assert(with_gb_attrs(sd).time_descriptions == sd.time_descriptions);
}

/// Without GB28181 `y=` and `f=` lines, or without media descriptions, the
/// SDP text of a well-formed description parses to exactly that description.
pub proof fn law_sdp_roundtrip_plain(sd: SpecSessionDescription)
    requires
        sdp_wf(sd),
        (sd.ssrc is None && sd.media_format is None) || sd.media_descriptions.len() == 0,
    ensures
        spec_sdp_parse(sdp_text(sd)) == Ok::<
            SpecSessionDescription,
            crate::sdp::types::SpecSdpError,
        >(sd),
{
    law_sdp_roundtrip(sd);
    if sd.media_descriptions.len() > 0 {
        let ms = sd.media_descriptions;
        assert(gb_attrs(sd) =~= Seq::<SpecAttribute>::empty());
        assert(ms.last().attributes + gb_attrs(sd) =~= ms.last().attributes);
        assert(SpecMediaDescription { attributes: ms.last().attributes + gb_attrs(sd), ..ms.last() }
            =~= ms.last());
        assert(ms.drop_last().push(ms.last()) =~= ms);
        assert(with_gb_attrs(sd) =~= sd);
    }
}

} // verus!

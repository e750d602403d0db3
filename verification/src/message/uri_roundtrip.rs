//! Reading back a written SIP URI gives the URI that was read.
//!
//! The proof follows the bracket state (inside or outside an IPv6
//! reference `[...]`) through the written text: which `@` and `;` split
//! the URI depends only on the brackets and on those characters.
use vstd::prelude::*;

use crate::message::uri::{
    amp_join, first_free, header_entry, headers_of, in_brackets, last_free, param_entry, params_of,
    params_text, spec_host_port, spec_parse_user_info, uri_host_port, uri_params, user_info_text,
    SpecUserInfo, headers_text, scheme_name, scheme_of, spec_parse_uri, uri_headers, uri_host_params,
    uri_main, uri_text, uri_user_info, UriScheme,
};
use crate::text::{
    dec, find_char, is_digit, is_ws, join_char, lemma_dec_digits, lemma_find_char_at, lemma_find_char_none,
    lemma_find_char_props, lemma_parse_pad_dec, parse_uint, rfind_char, split_char, trim, trim_end,
    trim_start,
};

verus! {

// ---------------------------------------------------------------------------
// Bracket state
// ---------------------------------------------------------------------------

/// Whether, starting in state `st` (inside brackets or not), the text
/// `s` ends inside brackets: the last bracket of `s` is `[`, or `s` has
/// none and `st` holds.
pub open spec fn bstate_after(s: Seq<char>, st: bool) -> bool
    decreases s.len(),
{
    if s.len() == 0 {
        st
    } else if s.last() == '[' {
        true
    } else if s.last() == ']' {
        false
    } else {
        bstate_after(s.drop_last(), st)
    }
}

/// Whether `s`, read from state `st`, holds a `c` outside brackets.
pub open spec fn has_free(s: Seq<char>, c: char, st: bool) -> bool
    decreases s.len(),
{
    if s.len() == 0 {
        false
    } else {
        has_free(s.drop_last(), c, st) || (s.last() == c && !bstate_after(s.drop_last(), st))
    }
}

pub proof fn lemma_in_brackets(s: Seq<char>, i: int)
    requires
        0 <= i <= s.len(),
    ensures
        in_brackets(s, i) == bstate_after(s.take(i), false),
    decreases i,
{
    if i > 0 {
        lemma_in_brackets(s, i - 1);
        assert(s.take(i).drop_last() =~= s.take(i - 1));
        assert(s.take(i).last() == s[i - 1]);
    } else {
        assert(s.take(0).len() == 0);
    }
}

pub proof fn lemma_bstate_concat(a: Seq<char>, b: Seq<char>, st: bool)
    ensures
        bstate_after(a + b, st) == bstate_after(b, bstate_after(a, st)),
    decreases b.len(),
{
    if b.len() == 0 {
        assert(a + b =~= a);
    } else {
        lemma_bstate_concat(a, b.drop_last(), st);
        assert((a + b).drop_last() =~= a + b.drop_last());
        assert((a + b).last() == b.last());
    }
}

pub proof fn lemma_free_concat(a: Seq<char>, b: Seq<char>, c: char, st: bool)
    ensures
        has_free(a + b, c, st) == (has_free(a, c, st) || has_free(b, c, bstate_after(a, st))),
    decreases b.len(),
{
    if b.len() == 0 {
        assert(a + b =~= a);
    } else {
        lemma_free_concat(a, b.drop_last(), c, st);
        lemma_bstate_concat(a, b.drop_last(), st);
        assert((a + b).drop_last() =~= a + b.drop_last());
        assert((a + b).last() == b.last());
    }
}

/// A `c` of a text read without a free `c` lies inside brackets.
pub proof fn lemma_free_at(s: Seq<char>, c: char, st: bool, i: int)
    requires
        !has_free(s, c, st),
        0 <= i < s.len(),
        s[i] == c,
    ensures
        bstate_after(s.take(i), st),
    decreases s.len(),
{
    if i == s.len() - 1 {
        assert(s.take(i) =~= s.drop_last());
    } else {
        lemma_free_at(s.drop_last(), c, st, i);
        assert(s.drop_last().take(i) =~= s.take(i));
    }
}

/// A text whose every `c` lies inside brackets has no free `c`.
pub proof fn lemma_no_free(s: Seq<char>, c: char, st: bool)
    requires
        forall|i: int| 0 <= i < s.len() && s[i] == c ==> #[trigger] bstate_after(s.take(i), st),
    ensures
        !has_free(s, c, st),
    decreases s.len(),
{
    if s.len() > 0 {
        let d = s.drop_last();
        assert forall|i: int| 0 <= i < d.len() && d[i] == c implies #[trigger] bstate_after(
            d.take(i),
            st,
        ) by {
            assert(d.take(i) =~= s.take(i));
            assert(s[i] == c);
        }
        lemma_no_free(d, c, st);
        assert(s.take(s.len() - 1) =~= d);
        if s.last() == c {
            assert(s[s.len() - 1] == c);
        }
    }
}

/// A text without `[`, `]` and `c` changes nothing.
pub proof fn lemma_plain(s: Seq<char>, c: char, st: bool)
    requires
        forall|i: int| 0 <= i < s.len() ==> #[trigger] s[i] != '[' && s[i] != ']' && s[i] != c,
    ensures
        bstate_after(s, st) == st,
        !has_free(s, c, st),
    decreases s.len(),
{
    if s.len() > 0 {
        let d = s.drop_last();
        assert forall|i: int| 0 <= i < d.len() implies #[trigger] d[i] != '[' && d[i] != ']' && d[i]
            != c by {
            assert(d[i] == s[i]);
        }
        lemma_plain(d, c, st);
        assert(s.last() == s[s.len() - 1]);
    }
}


// ---------------------------------------------------------------------------
// The free `@` and `;` that split a URI
// ---------------------------------------------------------------------------

pub proof fn lemma_last_free_none(s: Seq<char>, c: char, n: int)
    requires
        0 <= n <= s.len(),
    ensures
        (last_free(s, c, n) is None) == !has_free(s.take(n), c, false),
    decreases n,
{
    if n > 0 {
        lemma_last_free_none(s, c, n - 1);
        lemma_in_brackets(s, n - 1);
        assert(s.take(n).drop_last() =~= s.take(n - 1));
        assert(s.take(n).last() == s[n - 1]);
    } else {
        assert(s.take(0).len() == 0);
    }
}

/// What the last free `c` before `n` tells: it is a `c` outside brackets,
/// and after it up to `n` no `c` is free.
pub proof fn lemma_last_free_some(s: Seq<char>, c: char, n: int, p: nat)
    requires
        0 <= n <= s.len(),
        last_free(s, c, n) == Some(p),
    ensures
        p < n,
        s[p as int] == c,
        !bstate_after(s.take(p as int), false),
        !has_free(s.subrange(p + 1int, n), c, bstate_after(s.take(p + 1int), false)),
    decreases n,
{
    lemma_in_brackets(s, n - 1);
    if s[n - 1] == c && !in_brackets(s, n - 1) {
        assert(s.subrange(p + 1int, n).len() == 0);
    } else {
        lemma_last_free_some(s, c, n - 1, p);
        let st = bstate_after(s.take(p + 1int), false);
        let mid = s.subrange(p + 1int, n - 1);
        assert(s.subrange(p + 1int, n).drop_last() =~= mid);
        assert(s.subrange(p + 1int, n).last() == s[n - 1]);
        assert(s.take(p + 1int) + mid =~= s.take(n - 1));
        lemma_bstate_concat(s.take(p + 1int), mid, false);
    }
}

/// `last_free` before `n` reads nothing from `n` on.
pub proof fn lemma_last_free_take(s: Seq<char>, t: Seq<char>, c: char, n: int)
    requires
        0 <= n <= s.len(),
        n <= t.len(),
        s.take(n) == t.take(n),
    ensures
        last_free(s, c, n) == last_free(t, c, n),
    decreases n,
{
    if n > 0 {
        assert(s.take(n - 1) =~= s.take(n).take(n - 1));
        assert(t.take(n - 1) =~= t.take(n).take(n - 1));
        lemma_last_free_take(s, t, c, n - 1);
        lemma_in_brackets(s, n - 1);
        lemma_in_brackets(t, n - 1);
        assert(s[n - 1] == s.take(n)[n - 1]);
        assert(t[n - 1] == t.take(n)[n - 1]);
    }
}

/// A tail without a free `c` leaves the last free `c` where it was.
pub proof fn lemma_last_free_append(a: Seq<char>, b: Seq<char>, c: char)
    requires
        !has_free(b, c, bstate_after(a, false)),
    ensures
        last_free(a + b, c, (a.len() + b.len()) as int) == last_free(a, c, a.len() as int),
    decreases b.len(),
{
    if b.len() == 0 {
        assert(a + b =~= a);
    } else {
        let b2 = b.drop_last();
        let s = a + b;
        let n = a.len() + b.len();
        lemma_last_free_append(a, b2, c);
        assert(s.take(n - 1) =~= (a + b2).take(n - 1));
        assert((a + b2).take(n - 1) =~= a + b2);
        lemma_last_free_take(s, a + b2, c, n - 1);
        lemma_in_brackets(s, n - 1);
        lemma_bstate_concat(a, b2, false);
        assert(s[n - 1] == b.last());
    }
}

/// What the first free `c` from `i` on tells, when none is free before `i`.
pub proof fn lemma_first_free(s: Seq<char>, c: char, i: int)
    requires
        0 <= i <= s.len(),
        !has_free(s.take(i), c, false),
    ensures
        match first_free(s, c, i) {
            Some(p) => i <= p < s.len() && s[p as int] == c && !bstate_after(s.take(p as int), false)
                && !has_free(s.take(p as int), c, false),
            None => !has_free(s, c, false),
        },
    decreases s.len() - i,
{
    lemma_in_brackets(s, i);
    if i == s.len() {
        assert(s.take(i) =~= s);
    } else if s[i] == c && !in_brackets(s, i) {
    } else {
        assert(s.take(i + 1).drop_last() =~= s.take(i));
        assert(s.take(i + 1).last() == s[i]);
        lemma_first_free(s, c, i + 1);
    }
}

/// With no free `c` in `a`, the first free `c` of `a + b` is that of `b`
/// read after `a`; it is right after `a` when `b` starts with `c` and `a`
/// ends outside brackets.
pub proof fn lemma_first_free_after(a: Seq<char>, b: Seq<char>, c: char, i: int)
    requires
        0 <= i <= a.len(),
        !has_free(a, c, false),
        !bstate_after(a, false),
        b.len() > 0,
        b[0] == c,
    ensures
        first_free(a + b, c, i) == Some(a.len()),
    decreases a.len() - i,
{
    let s = a + b;
    lemma_in_brackets(s, i);
    if i == a.len() {
        assert(s.take(i) =~= a);
    } else {
        assert(s.take(i) =~= a.take(i));
        if a[i] == c {
            lemma_free_at(a, c, false, i);
        }
        lemma_first_free_after(a, b, c, i + 1);
    }
}

/// A text without a free `c` has no first free `c`.
pub proof fn lemma_first_free_none(s: Seq<char>, c: char, i: int)
    requires
        0 <= i <= s.len(),
        !has_free(s, c, false),
    ensures
        first_free(s, c, i) is None,
    decreases s.len() - i,
{
    if i < s.len() {
        lemma_in_brackets(s, i);
        if s[i] == c {
            lemma_free_at(s, c, false, i);
        }
        lemma_first_free_none(s, c, i + 1);
    }
}


// ---------------------------------------------------------------------------
// The characters that decide the split: brackets, `@` and `?`
// ---------------------------------------------------------------------------

pub open spec fn is_key(ch: char) -> bool {
    ch == '[' || ch == ']' || ch == '@' || ch == '?'
}

/// The brackets, `@` and `?` of `s`, in order.
pub open spec fn keys(s: Seq<char>) -> Seq<char> {
    s.filter(|ch: char| is_key(ch))
}

/// The bracket state, the free `@` and the `?` of a text are those of its
/// key characters.
#[verifier::spinoff_prover]
#[verifier::rlimit(40)]
pub proof fn lemma_keys(s: Seq<char>, st: bool)
    ensures
        bstate_after(s, st) == bstate_after(keys(s), st),
        has_free(s, '@', st) == has_free(keys(s), '@', st),
        s.contains('?') == keys(s).contains('?'),
    decreases s.len(),
{
    reveal(Seq::filter);
    if s.len() > 0 {
        let d = s.drop_last();
        lemma_keys(d, st);
        let k = keys(d);
        if is_key(s.last()) {
            assert(keys(s) == k.push(s.last()));
            assert(k.push(s.last()).drop_last() =~= k);
            if s.contains('?') && !d.contains('?') {
                let i = choose|i: int| 0 <= i < s.len() && s[i] == '?';
                if i < d.len() {
                    assert(d[i] == '?');
                }
                assert(k.push(s.last())[k.len() as int] == s.last());
            }
            if k.push(s.last()).contains('?') && !k.contains('?') {
                let i = choose|i: int| 0 <= i < k.len() + 1 && k.push(s.last())[i] == '?';
                if i < k.len() {
                    assert(k[i] == '?');
                }
                assert(s[s.len() - 1] == '?');
            }
            if d.contains('?') {
                let i = choose|i: int| 0 <= i < d.len() && d[i] == '?';
                assert(s[i] == '?');
            }
            if k.contains('?') {
                let i = choose|i: int| 0 <= i < k.len() && k[i] == '?';
                assert(k.push(s.last())[i] == '?');
            }
        } else {
            assert(keys(s) == k);
            if s.contains('?') {
                let i = choose|i: int| 0 <= i < s.len() && s[i] == '?';
                if i < d.len() {
                    assert(d[i] == '?');
                } else {
                    assert(s[i] == s.last());
                }
            }
            if d.contains('?') {
                let i = choose|i: int| 0 <= i < d.len() && d[i] == '?';
                assert(s[i] == '?');
            }
        }
    }
}

pub proof fn lemma_keys_concat(a: Seq<char>, b: Seq<char>)
    ensures
        keys(a + b) == keys(a) + keys(b),
{
    Seq::filter_distributes_over_add(a, b, |ch: char| is_key(ch));
}

/// A text without key characters has none to keep.
pub proof fn lemma_keys_none(s: Seq<char>)
    requires
        forall|i: int| 0 <= i < s.len() ==> !is_key(#[trigger] s[i]),
    ensures
        keys(s) == Seq::<char>::empty(),
    decreases s.len(),
{
    reveal(Seq::filter);
    if s.len() > 0 {
        let d = s.drop_last();
        assert forall|i: int| 0 <= i < d.len() implies !is_key(#[trigger] d[i]) by {
            assert(d[i] == s[i]);
        }
        lemma_keys_none(d);
        assert(!is_key(s[s.len() - 1]));
    }
}

// ---------------------------------------------------------------------------
// Trimming and splitting
// ---------------------------------------------------------------------------

/// What trimming keeps: a text that starts and ends outside white space,
/// made of characters of the trimmed text, with the same key characters.
pub proof fn lemma_trim_start_shape(x: Seq<char>)
    ensures
        trim_start(x).len() > 0 ==> !is_ws(trim_start(x)[0]),
        keys(trim_start(x)) == keys(x),
        forall|ch: char| trim_start(x).contains(ch) ==> x.contains(ch),
        trim_start(x).len() > 0 ==> trim_start(x).last() == x.last(),
        x.len() > 0 && !is_ws(x.last()) ==> trim_start(x).len() > 0,
    decreases x.len(),
{
    if x.len() > 0 && is_ws(x[0]) {
        let r = x.drop_first();
        lemma_trim_start_shape(r);
        assert(x =~= seq![x[0]] + r);
        lemma_keys_concat(seq![x[0]], r);
        lemma_keys_none(seq![x[0]]);
        assert(seq![x[0]][0] == x[0]);
        assert(keys(seq![x[0]]) + keys(r) =~= keys(r));
        assert forall|ch: char| trim_start(x).contains(ch) implies x.contains(ch) by {
            assert(r.contains(ch));
            let i = choose|i: int| 0 <= i < r.len() && r[i] == ch;
            assert(x[i + 1] == ch);
        }
        if x.len() > 1 {
            assert(r.last() == x.last());
        }
    }
}

pub proof fn lemma_trim_end_shape(x: Seq<char>)
    ensures
        trim_end(x).len() > 0 ==> !is_ws(trim_end(x).last()),
        keys(trim_end(x)) == keys(x),
        forall|ch: char| trim_end(x).contains(ch) ==> x.contains(ch),
        trim_end(x).len() > 0 ==> trim_end(x)[0] == x[0],
    decreases x.len(),
{
    reveal(Seq::filter);
    if x.len() > 0 && is_ws(x.last()) {
        let r = x.drop_last();
        lemma_trim_end_shape(r);
        assert(keys(x) == keys(r));
        assert forall|ch: char| trim_end(x).contains(ch) implies x.contains(ch) by {
            assert(r.contains(ch));
            let i = choose|i: int| 0 <= i < r.len() && r[i] == ch;
            assert(x[i] == ch);
        }
        if trim_end(x).len() > 0 {
            assert(r[0] == x[0]);
        }
    }
}

pub proof fn lemma_trim_shape(x: Seq<char>)
    ensures
        trim(x).len() > 0 ==> !is_ws(trim(x)[0]) && !is_ws(trim(x).last()),
        keys(trim(x)) == keys(x),
        forall|ch: char| trim(x).contains(ch) ==> x.contains(ch),
        trim(trim(x)) == trim(x),
{
    lemma_trim_start_shape(x);
    lemma_trim_end_shape(trim_start(x));
    let y = trim(x);
    if y.len() > 0 {
        lemma_trim_fixed(y);
    } else {
        assert(trim_start(y) == y);
    }
}

/// A text that starts and ends outside white space is its own trim.
pub proof fn lemma_trim_fixed(y: Seq<char>)
    requires
        y.len() > 0,
        !is_ws(y[0]),
        !is_ws(y.last()),
    ensures
        trim(y) == y,
{
    assert(trim_start(y) == y);
    assert(trim_end(y) == y);
}

/// No piece of a split holds the separator, and joining the pieces gives
/// the text back.
pub proof fn lemma_split_pieces(s: Seq<char>, c: char)
    ensures
        split_char(s, c).len() >= 1,
        forall|i: int| 0 <= i < split_char(s, c).len() ==> !(#[trigger] split_char(s, c)[i]).contains(c),
        join_char(split_char(s, c), c) == s,
        keys(join_char(split_char(s, c), c)) == keys(s),
    decreases s.len(),
{
    if s.len() == 0 {
        let p = split_char(s, c);
        assert(p[0] =~= Seq::<char>::empty());
    } else {
        let d = s.drop_last();
        lemma_split_pieces(d, c);
        let p = split_char(d, c);
        let q = split_char(s, c);
        if s.last() == c {
            assert(q == p.push(Seq::<char>::empty()));
            assert(q.drop_last() =~= p);
            assert(q.last() =~= Seq::<char>::empty());
            assert forall|i: int| 0 <= i < q.len() implies !(#[trigger] q[i]).contains(c) by {
                if i < p.len() {
                    assert(q[i] == p[i]);
                }
            }
            assert(join_char(p, c) + seq![c] + Seq::<char>::empty() =~= s);
        } else {
            let last = p.last().push(s.last());
            assert(q == p.update(p.len() - 1, last));
            assert forall|i: int| 0 <= i < q.len() implies !(#[trigger] q[i]).contains(c) by {
                if i < p.len() - 1 {
                    assert(q[i] == p[i]);
                } else {
                    assert(!p[p.len() - 1].contains(c));
                    if last.contains(c) {
                        let j = choose|j: int| 0 <= j < last.len() && last[j] == c;
                        if j < p.last().len() {
                            assert(p.last()[j] == c);
                        }
                    }
                }
            }
            lemma_join_update_last(p, c, s.last());
        }
    }
}

/// Adding a character to the last piece adds it to the joined text.
proof fn lemma_join_update_last(p: Seq<Seq<char>>, c: char, x: char)
    requires
        p.len() >= 1,
    ensures
        join_char(p.update(p.len() - 1, p.last().push(x)), c) == join_char(p, c).push(x),
{
    let q = p.update(p.len() - 1, p.last().push(x));
    if p.len() == 1 {
        assert(q[0] == p[0].push(x));
    } else {
        assert(q.drop_last() =~= p.drop_last());
        assert(q.last() == p.last().push(x));
        assert(join_char(p.drop_last(), c) + seq![c] + p.last().push(x) =~= (join_char(
            p.drop_last(),
            c,
        ) + seq![c] + p.last()).push(x));
    }
}

pub proof fn lemma_rfind_char_props(s: Seq<char>, c: char)
    ensures
        match rfind_char(s, c) {
            Some(i) => i < s.len() && s[i as int] == c && forall|j: int| i < j < s.len() ==> s[j] != c,
            None => forall|j: int| 0 <= j < s.len() ==> s[j] != c,
        },
    decreases s.len(),
{
    if s.len() > 0 {
        lemma_rfind_char_props(s.drop_last(), c);
        if s.last() != c {
            match rfind_char(s.drop_last(), c) {
                Some(i) => {
                    assert forall|j: int| i < j < s.len() implies s[j] != c by {
                        if j < s.len() - 1 {
                            assert(s[j] == s.drop_last()[j]);
                        }
                    }
                },
                None => {
                    assert forall|j: int| 0 <= j < s.len() implies s[j] != c by {
                        if j < s.len() - 1 {
                            assert(s[j] == s.drop_last()[j]);
                        }
                    }
                },
            }
        }
    }
}

pub proof fn lemma_rfind_char_at(s: Seq<char>, c: char, i: int)
    requires
        0 <= i < s.len(),
        s[i] == c,
        forall|j: int| i < j < s.len() ==> s[j] != c,
    ensures
        rfind_char(s, c) == Some(i as nat),
    decreases s.len(),
{
    if i < s.len() - 1 {
        assert(s.last() == s[s.len() - 1]);
        lemma_rfind_char_at(s.drop_last(), c, i);
    }
}

pub proof fn lemma_rfind_char_none(s: Seq<char>, c: char)
    requires
        forall|j: int| 0 <= j < s.len() ==> s[j] != c,
    ensures
        rfind_char(s, c) is None,
    decreases s.len(),
{
    if s.len() > 0 {
        assert(s.last() == s[s.len() - 1]);
        lemma_rfind_char_none(s.drop_last(), c);
    }
}


// ---------------------------------------------------------------------------
// Written parameters and headers read back
// ---------------------------------------------------------------------------

/// `key` or `key=value`.
pub open spec fn entry_text(e: (Seq<char>, Option<Seq<char>>)) -> Seq<char> {
    e.0 + match e.1 {
        Some(v) => "="@ + v,
        None => Seq::empty(),
    }
}

pub open spec fn entry_texts(ps: Seq<(Seq<char>, Option<Seq<char>>)>) -> Seq<Seq<char>> {
    ps.map_values(|e: (Seq<char>, Option<Seq<char>>)| entry_text(e))
}

/// A parameter that reads back from its own text.
pub open spec fn good_entry(e: (Seq<char>, Option<Seq<char>>)) -> bool {
    let t = entry_text(e);
    t.len() > 0 && trim(t) == t && !t.contains(';') && param_entry(t) == e
}

/// `key=value`.
pub open spec fn header_text(h: (Seq<char>, Seq<char>)) -> Seq<char> {
    h.0 + "="@ + h.1
}

pub open spec fn header_texts(hs: Seq<(Seq<char>, Seq<char>)>) -> Seq<Seq<char>> {
    hs.map_values(|h: (Seq<char>, Seq<char>)| header_text(h))
}

/// A header that reads back from its own text.
pub open spec fn good_header(h: (Seq<char>, Seq<char>)) -> bool {
    let t = header_text(h);
    t.len() > 0 && trim(t) == t && !t.contains('&') && header_entry(t) == h
}

pub proof fn lemma_params_text(ps: Seq<(Seq<char>, Option<Seq<char>>)>)
    ensures
        params_text(ps) == if ps.len() == 0 {
            Seq::<char>::empty()
        } else {
            ";"@ + join_char(entry_texts(ps), ';')
        },
    decreases ps.len(),
{
    reveal_strlit(";");
    if ps.len() > 0 {
        let init = ps.drop_last();
        lemma_params_text(init);
        let e = ps.last();
        assert(entry_texts(ps).drop_last() =~= entry_texts(init));
        assert(entry_texts(ps).last() == entry_text(e));
        if init.len() == 0 {
            assert(entry_texts(ps) =~= seq![entry_text(e)]);
            assert(params_text(ps) =~= ";"@ + entry_text(e));
        } else {
            assert(params_text(ps) =~= ";"@ + join_char(entry_texts(init), ';') + seq![';']
                + entry_text(e));
        }
    }
}

pub proof fn lemma_entry_text_of(t: Seq<char>)
    ensures
        entry_text(param_entry(t)) == t,
{
    reveal_strlit("=");
    lemma_find_char_props(t, '=');
    match find_char(t, '=') {
        Some(k) => {
            assert(t.take(k as int) + "="@ + t.skip(k + 1int) =~= t);
        },
        None => {
            assert(t + Seq::<char>::empty() =~= t);
        },
    }
}

/// Parameters read from pieces without `;` read back from their texts.
pub proof fn lemma_params_of_good(pieces: Seq<Seq<char>>)
    requires
        forall|i: int| 0 <= i < pieces.len() ==> !(#[trigger] pieces[i]).contains(';'),
    ensures
        forall|i: int| 0 <= i < params_of(pieces).len() ==> good_entry(#[trigger] params_of(pieces)[i]),
    decreases pieces.len(),
{
    if pieces.len() > 0 {
        let init = pieces.drop_last();
        assert forall|i: int| 0 <= i < init.len() implies !(#[trigger] init[i]).contains(';') by {
            assert(init[i] == pieces[i]);
        }
        lemma_params_of_good(init);
        let t = trim(pieces.last());
        if t.len() > 0 {
            lemma_trim_shape(pieces.last());
            lemma_entry_text_of(t);
            assert(!pieces[pieces.len() - 1].contains(';'));
            let ps = params_of(pieces);
            assert(!t.contains(';'));
            assert(good_entry(param_entry(t)));
            assert forall|i: int| 0 <= i < ps.len() implies good_entry(#[trigger] ps[i]) by {
                if i < ps.len() - 1 {
                    assert(ps[i] == params_of(init)[i]);
                }
            }
        } else {
            assert(params_of(pieces) == params_of(init));
        }
    }
}

/// The texts of good parameters read back as those parameters.
pub proof fn lemma_params_reread(ps: Seq<(Seq<char>, Option<Seq<char>>)>)
    requires
        forall|i: int| 0 <= i < ps.len() ==> good_entry(#[trigger] ps[i]),
    ensures
        params_of(entry_texts(ps)) == ps,
    decreases ps.len(),
{
    if ps.len() > 0 {
        let init = ps.drop_last();
        assert forall|i: int| 0 <= i < init.len() implies good_entry(#[trigger] init[i]) by {
            assert(init[i] == ps[i]);
        }
        lemma_params_reread(init);
        assert(entry_texts(ps).drop_last() =~= entry_texts(init));
        assert(good_entry(ps[ps.len() - 1]));
        assert(entry_texts(ps).last() == entry_text(ps.last()));
        assert(init.push(ps.last()) =~= ps);
    } else {
        assert(entry_texts(ps) =~= Seq::<Seq<char>>::empty());
    }
}

/// Writing the parameters read from pieces keeps the key characters of
/// the pieces.
#[verifier::spinoff_prover]
#[verifier::rlimit(40)]
pub proof fn lemma_params_keys(pieces: Seq<Seq<char>>)
    requires
        pieces.len() >= 1,
    ensures
        keys(params_text(params_of(pieces))) == keys(join_char(pieces, ';')),
    decreases pieces.len(),
{
    reveal_strlit(";");
    let p = pieces.last();
    let t = trim(p);
    lemma_trim_shape(p);
    lemma_entry_text_of(t);
    let init = pieces.drop_last();
    let before = params_of(init);
    lemma_keys_none(";"@);
    lemma_keys_none(seq![';']);
    if t.len() > 0 {
        let e = param_entry(t);
        assert(params_of(pieces) == before.push(e));
        assert(before.push(e).drop_last() =~= before);
        assert(params_text(before.push(e)) == params_text(before) + ";"@ + e.0 + match e.1 {
            Some(v) => "="@ + v,
            None => Seq::<char>::empty(),
        });
        assert(params_text(before.push(e)) =~= params_text(before) + ";"@ + t);
        lemma_keys_concat(params_text(before) + ";"@, t);
        lemma_keys_concat(params_text(before), ";"@);
    } else {
        assert(params_of(pieces) == before);
        lemma_keys_none(Seq::<char>::empty());
    }
    if pieces.len() == 1 {
        assert(init.len() == 0);
        assert(params_text(before) == Seq::<char>::empty());
        assert(join_char(pieces, ';') == p);
        assert(keys(Seq::<char>::empty()) =~= Seq::<char>::empty()) by {
            lemma_keys_none(Seq::<char>::empty());
        }
        if t.len() > 0 {
            assert(Seq::<char>::empty() + ";"@ =~= ";"@);
        }
    } else {
        lemma_params_keys(init);
        let j = join_char(init, ';');
        assert(join_char(pieces, ';') == j + seq![';'] + p);
        lemma_keys_concat(j + seq![';'], p);
        lemma_keys_concat(j, seq![';']);
    }
}

pub proof fn lemma_amp_join(hs: Seq<(Seq<char>, Seq<char>)>)
    ensures
        amp_join(hs) == join_char(header_texts(hs), '&'),
    decreases hs.len(),
{
    reveal_strlit("&");
    if hs.len() > 0 {
        let init = hs.drop_last();
        lemma_amp_join(init);
        assert(header_texts(hs).drop_last() =~= header_texts(init));
        assert(header_texts(hs).last() == header_text(hs.last()));
        if hs.len() == 1 {
            assert(amp_join(init) == Seq::<char>::empty());
            assert(amp_join(hs) =~= header_text(hs.last()));
        } else {
            assert(amp_join(hs) =~= join_char(header_texts(init), '&') + seq!['&'] + header_text(
                hs.last(),
            ));
        }
    } else {
        assert(header_texts(hs) =~= Seq::<Seq<char>>::empty());
    }
}

/// Headers read from pieces without `&` read back from their texts.
#[verifier::spinoff_prover]
#[verifier::rlimit(40)]
pub proof fn lemma_headers_of_good(pieces: Seq<Seq<char>>)
    requires
        forall|i: int| 0 <= i < pieces.len() ==> !(#[trigger] pieces[i]).contains('&'),
    ensures
        forall|i: int| 0 <= i < headers_of(pieces).len() ==> good_header(#[trigger] headers_of(pieces)[i]),
    decreases pieces.len(),
{
    reveal_strlit("=");
    if pieces.len() > 0 {
        let init = pieces.drop_last();
        assert forall|i: int| 0 <= i < init.len() implies !(#[trigger] init[i]).contains('&') by {
            assert(init[i] == pieces[i]);
        }
        lemma_headers_of_good(init);
        let tt = trim(pieces.last());
        if tt.len() > 0 {
            lemma_trim_shape(pieces.last());
            assert(!pieces[pieces.len() - 1].contains('&'));
            lemma_find_char_props(tt, '=');
            let h = header_entry(tt);
            let t = header_text(h);
            match find_char(tt, '=') {
                Some(k) => {
                    assert(t =~= tt);
                },
                None => {
                    assert(t =~= tt.push('='));
                    assert(t[0] == tt[0]);
                    assert(t.last() == '=');
                    lemma_trim_fixed(t);
                    assert forall|j: int| 0 <= j < tt.len() implies t[j] != '=' by {
                        assert(t[j] == tt[j]);
                    }
                    lemma_find_char_at(t, '=', tt.len());
                    assert(t.take(tt.len() as int) =~= tt);
                    assert(t.skip(tt.len() + 1int) =~= Seq::<char>::empty());
                    if t.contains('&') {
                        let j = choose|j: int| 0 <= j < t.len() && t[j] == '&';
                        if j < tt.len() {
                            assert(tt[j] == '&');
                        }
                    }
                },
            }
            let hs = headers_of(pieces);
            assert(good_header(h));
            assert forall|i: int| 0 <= i < hs.len() implies good_header(#[trigger] hs[i]) by {
                if i < hs.len() - 1 {
                    assert(hs[i] == headers_of(init)[i]);
                }
            }
        } else {
            assert(headers_of(pieces) == headers_of(init));
        }
    }
}

/// The texts of good headers read back as those headers.
pub proof fn lemma_headers_reread(hs: Seq<(Seq<char>, Seq<char>)>)
    requires
        forall|i: int| 0 <= i < hs.len() ==> good_header(#[trigger] hs[i]),
    ensures
        headers_of(header_texts(hs)) == hs,
    decreases hs.len(),
{
    if hs.len() > 0 {
        let init = hs.drop_last();
        assert forall|i: int| 0 <= i < init.len() implies good_header(#[trigger] init[i]) by {
            assert(init[i] == hs[i]);
        }
        lemma_headers_reread(init);
        assert(header_texts(hs).drop_last() =~= header_texts(init));
        assert(good_header(hs[hs.len() - 1]));
        assert(header_texts(hs).last() == header_text(hs.last()));
        assert(init.push(hs.last()) =~= hs);
    } else {
        assert(header_texts(hs) =~= Seq::<Seq<char>>::empty());
    }
}


// ---------------------------------------------------------------------------
// Host and port written back
// ---------------------------------------------------------------------------

/// Text without brackets, `@`, `?` or `;`.
pub open spec fn plain(s: Seq<char>) -> bool {
    forall|i: int| 0 <= i < s.len() ==> !is_key(#[trigger] s[i]) && s[i] != ';'
}

/// `:port`, or nothing.
pub open spec fn port_text(port: Option<u16>) -> Seq<char> {
    match port {
        Some(p) => ":"@ + dec(p as nat),
        None => Seq::empty(),
    }
}

/// A plain tail changes neither the bracket state, nor the free `;`,
/// nor the key characters.
pub proof fn lemma_plain_tail(a: Seq<char>, x: Seq<char>)
    requires
        plain(x),
    ensures
        bstate_after(a + x, false) == bstate_after(a, false),
        has_free(a + x, ';', false) == has_free(a, ';', false),
        keys(a + x) == keys(a),
{
    lemma_plain(x, ';', bstate_after(a, false));
    lemma_bstate_concat(a, x, false);
    lemma_free_concat(a, x, ';', false);
    lemma_keys_concat(a, x);
    lemma_keys_none(x);
    assert(keys(a) + Seq::<char>::empty() =~= keys(a));
}

/// A port number as read: digits, perhaps after a `+`.
pub proof fn lemma_port_plain(ps: Seq<char>)
    requires
        parse_uint(ps, 65535) is Some,
    ensures
        plain(ps),
{
    let d = if ps.len() > 0 && ps[0] == '+' {
        ps.drop_first()
    } else {
        ps
    };
    assert forall|i: int| 0 <= i < ps.len() implies !is_key(#[trigger] ps[i]) && ps[i] != ';' by {
        if ps[0] == '+' {
            if i > 0 {
                assert(ps[i] == d[i - 1]);
                assert(is_digit(d[i - 1]));
            }
        } else {
            assert(is_digit(d[i]));
        }
    }
}

pub proof fn lemma_port_text(port: Option<u16>)
    ensures
        plain(port_text(port)),
        match port {
            Some(p) => port_text(port).len() > 1 && port_text(port)[0] == ':' && port_text(port).skip(1)
                == dec(p as nat) && parse_uint(dec(p as nat), 65535) == Some(p as nat),
            None => port_text(port).len() == 0,
        },
{
    reveal_strlit(":");
    match port {
        Some(p) => {
            lemma_dec_digits(p as nat);
            lemma_parse_pad_dec(p as nat, 0, 65535);
            let t = port_text(port);
            assert(t.skip(1) =~= dec(p as nat));
            assert forall|i: int| 0 <= i < t.len() implies !is_key(#[trigger] t[i]) && t[i] != ';' by {
                if i > 0 {
                    assert(t[i] == dec(p as nat)[i - 1]);
                    assert(is_digit(dec(p as nat)[i - 1]));
                }
            }
        },
        None => {},
    }
}

/// The host and port read from `hps`, written back, read as the same host
/// and port; the written text has the bracket state, the free `;` and
/// the key characters of `hps`.
#[verifier::spinoff_prover]
#[verifier::rlimit(40)]
pub proof fn lemma_host_port_reread(hps: Seq<char>)
    requires
        spec_host_port(hps) is Ok,
    ensures
        ({
            let (host, port) = spec_host_port(hps)->Ok_0;
            let w = host + port_text(port);
            &&& spec_host_port(w) == Ok::<(Seq<char>, Option<u16>), Seq<char>>((host, port))
            &&& bstate_after(w, false) == bstate_after(hps, false)
            &&& has_free(w, ';', false) == has_free(hps, ';', false)
            &&& keys(w) == keys(hps)
        }),
{
    let (host, port) = spec_host_port(hps)->Ok_0;
    let pt = port_text(port);
    let w = host + pt;
    lemma_port_text(port);
    lemma_plain_tail(host, pt);
    if hps[0] == '[' {
        lemma_find_char_props(hps, ']');
        let b = find_char(hps, ']')->Some_0;
        let rest = hps.skip(b + 1int);
        assert(host =~= hps.take(b + 1int));
        assert(hps =~= host + rest);
        if rest.len() > 0 && rest[0] == ':' {
            let ps = rest.skip(1);
            lemma_port_plain(ps);
            reveal_strlit(":");
            assert(rest =~= ":"@ + ps);
            assert(plain(":"@ + ps)) by {
                let r = ":"@ + ps;
                assert forall|i: int| 0 <= i < r.len() implies !is_key(#[trigger] r[i]) && r[i]
                    != ';' by {
                    if i > 0 {
                        assert(r[i] == ps[i - 1]);
                    }
                }
            }
            lemma_plain_tail(host, rest);
        } else {
            assert(rest.len() == 0);
            assert(hps =~= host);
        }
        // Reading `w` back.
        assert(w[0] == '[');
        assert forall|j: int| 0 <= j < b implies w[j] != ']' by {
            assert(w[j] == hps[j]);
        }
        assert(w[b as int] == hps[b as int]);
        lemma_find_char_at(w, ']', b);
        assert(w.take(b + 1int) =~= host);
        assert(w.skip(b + 1int) =~= pt);
        match port {
            Some(p) => {
                assert((p as nat) as u16 == p);
            },
            None => {},
        }
    } else {
        lemma_rfind_char_props(hps, ':');
        match rfind_char(hps, ':') {
            Some(c) => {
                let ps = hps.skip(c + 1int);
                lemma_port_plain(ps);
                reveal_strlit(":");
                assert(host =~= hps.take(c as int));
                assert(hps =~= host + (":"@ + ps));
                assert(plain(":"@ + ps)) by {
                    let r = ":"@ + ps;
                    assert forall|i: int| 0 <= i < r.len() implies !is_key(#[trigger] r[i]) && r[i]
                        != ';' by {
                        if i > 0 {
                            assert(r[i] == ps[i - 1]);
                        }
                    }
                }
                lemma_plain_tail(host, ":"@ + ps);
                let p = port->Some_0;
                assert(w =~= host + ":"@ + dec(p as nat));
                assert(w.len() > 0);
                if c > 0 {
                    assert(w[0] == hps[0]);
                } else {
                    assert(w[0] == ':');
                }
                assert(w[c as int] == ':');
                assert forall|j: int| c < j < w.len() implies w[j] != ':' by {
                    assert(w[j] == dec(p as nat)[j - c - 1]);
                    lemma_dec_digits(p as nat);
                    assert(is_digit(dec(p as nat)[j - c - 1]));
                }
                lemma_rfind_char_at(w, ':', c as int);
                assert(w.skip(c + 1int) =~= dec(p as nat));
                assert(w.take(c as int) =~= host);
                assert((p as nat) as u16 == p);
            },
            None => {
                assert(w =~= hps);
            },
        }
    }
}


// ---------------------------------------------------------------------------
// The parts of a written URI read back
// ---------------------------------------------------------------------------

/// `host[:port][;params]` as written.
pub open spec fn host_params_text(
    host: Seq<char>,
    port: Option<u16>,
    params: Seq<(Seq<char>, Option<Seq<char>>)>,
) -> Seq<char> {
    host + port_text(port) + params_text(params)
}

/// `[user-info@]host[:port][;params]` as written.
pub open spec fn main_text(ui: Option<SpecUserInfo>, hpt: Seq<char>) -> Seq<char> {
    match ui {
        Some(x) => user_info_text(x) + "@"@ + hpt,
        None => hpt,
    }
}

/// User info written back reads the same, with the same key characters.
#[verifier::spinoff_prover]
#[verifier::rlimit(40)]
pub proof fn lemma_user_info_reread(ui_s: Seq<char>)
    requires
        spec_parse_user_info(ui_s) is Ok,
    ensures
        ({
            let x = spec_parse_user_info(ui_s)->Ok_0;
            &&& spec_parse_user_info(user_info_text(x)) == Ok::<SpecUserInfo, Seq<char>>(x)
            &&& keys(user_info_text(x)) == keys(ui_s)
        }),
{
    reveal_strlit(":");
    let x = spec_parse_user_info(ui_s)->Ok_0;
    lemma_find_char_props(ui_s, ':');
    match find_char(ui_s, ':') {
        Some(k) => {
            let user = ui_s.take(k as int);
            let pw = ui_s.skip(k + 1int);
            if pw.len() == 0 {
                let t = user_info_text(x);
                assert(t == user);
                assert(ui_s =~= user + ":"@);
                lemma_keys_concat(user, ":"@);
                lemma_keys_none(":"@);
                assert(keys(user) + Seq::<char>::empty() =~= keys(user));
                assert forall|j: int| 0 <= j < user.len() implies user[j] != ':' by {
                    assert(user[j] == ui_s[j]);
                }
                lemma_find_char_none(user, ':');
                assert(x =~= (SpecUserInfo { user: user, password: None }));
            } else {
                assert(user_info_text(x) =~= ui_s);
            }
        },
        None => {
            assert(user_info_text(x) =~= ui_s);
        },
    }
}

/// The host, port and parameters read from `hp`, written back, read the
/// same; the written text has the key characters of `hp`.
#[verifier::spinoff_prover]
#[verifier::rlimit(40)]
pub proof fn lemma_host_params_reread(hp: Seq<char>)
    requires
        spec_host_port(uri_host_port(hp)) is Ok,
    ensures
        ({
            let (host, port) = spec_host_port(uri_host_port(hp))->Ok_0;
            let w = host_params_text(host, port, uri_params(hp));
            &&& spec_host_port(uri_host_port(w)) == spec_host_port(uri_host_port(hp))
            &&& uri_params(w) == uri_params(hp)
            &&& keys(w) == keys(hp)
        }),
{
    reveal_strlit(";");
    let hps = uri_host_port(hp);
    let (host, port) = spec_host_port(hps)->Ok_0;
    let params = uri_params(hp);
    let a = host + port_text(port);
    let pt = params_text(params);
    let w = host_params_text(host, port, params);
    assert(w == a + pt);
    lemma_host_port_reread(hps);
    assert(hp.take(0) =~= Seq::<char>::empty());
    lemma_first_free(hp, ';', 0);
    match first_free(hp, ';', 0) {
        Some(q) => {
            let x = hp.skip(q + 1int);
            assert(hps == hp.take(q as int));
            assert(hp =~= hps + ";"@ + x);
            let pieces = split_char(x, ';');
            lemma_split_pieces(x, ';');
            lemma_params_keys(pieces);
            lemma_keys_concat(hps + ";"@, x);
            lemma_keys_concat(hps, ";"@);
            lemma_keys_none(";"@);
            lemma_keys_concat(a, pt);
            assert(keys(hps) + keys(";"@) + keys(x) =~= keys(hps) + keys(x));
            if params.len() > 0 {
                lemma_params_text(params);
                let j = join_char(entry_texts(params), ';');
                assert(pt =~= ";"@ + j);
                lemma_first_free_after(a, pt, ';', 0);
                assert(w.take(a.len() as int) =~= a);
                assert(w.skip(a.len() + 1int) =~= j);
                lemma_params_of_good(pieces);
                assert forall|i: int| 0 <= i < entry_texts(params).len() implies !(
                #[trigger] entry_texts(params)[i]).contains(';') by {
                    assert(good_entry(params[i]));
                }
                crate::text::lemma_split_join(entry_texts(params), ';');
                lemma_params_reread(params);
            } else {
                assert(pt =~= Seq::<char>::empty());
                assert(w =~= a);
                lemma_first_free_none(a, ';', 0);
                assert(keys(pt) =~= Seq::<char>::empty()) by {
                    lemma_keys_none(pt);
                }
                assert(keys(a) + Seq::<char>::empty() =~= keys(a));
                assert(keys(x) == keys(pt)) by {
                    lemma_split_pieces(x, ';');
                }
            }
        },
        None => {
            assert(hps == hp);
            assert(params =~= Seq::<(Seq<char>, Option<Seq<char>>)>::empty());
            assert(pt =~= Seq::<char>::empty());
            assert(w =~= a);
            lemma_first_free_none(a, ';', 0);
        },
    }
}


pub proof fn lemma_keys_at_sign()
    ensures
        keys("@"@) == seq!['@'],
{
    reveal_strlit("@");
    reveal_with_fuel(Seq::filter, 2);
    assert("@"@.drop_last() =~= Seq::<char>::empty());
    assert(keys("@"@) =~= seq!['@']);
}

/// User info, host, port and parameters read from `main`, written back,
/// read the same; the written text has the key characters of `main`.
#[verifier::spinoff_prover]
#[verifier::rlimit(40)]
pub proof fn lemma_main_reread(main: Seq<char>)
    requires
        uri_user_info(main) is Ok,
        spec_host_port(uri_host_port(uri_host_params(main))) is Ok,
    ensures
        ({
            let hp = uri_host_params(main);
            let (host, port) = spec_host_port(uri_host_port(hp))->Ok_0;
            let hpt = host_params_text(host, port, uri_params(hp));
            let m = main_text(uri_user_info(main)->Ok_0, hpt);
            &&& uri_user_info(m) == uri_user_info(main)
            &&& uri_host_params(m) == hpt
            &&& keys(m) == keys(main)
        }),
{
    reveal_strlit("@");
    let hp = uri_host_params(main);
    let (host, port) = spec_host_port(uri_host_port(hp))->Ok_0;
    let hpt = host_params_text(host, port, uri_params(hp));
    let ui = uri_user_info(main)->Ok_0;
    let m = main_text(ui, hpt);
    lemma_host_params_reread(hp);
    lemma_keys(hpt, false);
    lemma_keys(hp, false);
    let n = main.len() as int;
    match last_free(main, '@', n) {
        Some(p) => {
            lemma_last_free_some(main, '@', n, p);
            let ui_s = main.take(p as int);
            assert(hp == main.skip(p + 1int));
            assert(main.subrange(p + 1int, n) =~= hp);
            assert(main.take(p + 1int) =~= ui_s.push('@'));
            assert(ui_s.push('@').drop_last() =~= ui_s);
            assert(!has_free(hpt, '@', false));
            lemma_user_info_reread(ui_s);
            let x = spec_parse_user_info(ui_s)->Ok_0;
            let utt = user_info_text(x);
            lemma_keys(utt, false);
            lemma_keys(ui_s, false);
            let pre = utt + "@"@;
            assert(pre =~= utt.push('@'));
            assert(pre.drop_last() =~= utt);
            assert(m =~= pre + hpt);
            lemma_last_free_append(pre, hpt, '@');
            lemma_in_brackets(pre, utt.len() as int);
            assert(pre.take(utt.len() as int) =~= utt);
            assert(pre[utt.len() as int] == '@');
            assert(last_free(pre, '@', pre.len() as int) == Some(utt.len()));
            assert(m.take(utt.len() as int) =~= utt);
            assert(m.skip(utt.len() + 1int) =~= hpt);
            lemma_keys_at_sign();
            lemma_keys_concat(utt + "@"@, hpt);
            lemma_keys_concat(utt, "@"@);
            assert(main =~= ui_s + "@"@ + hp);
            lemma_keys_concat(ui_s + "@"@, hp);
            lemma_keys_concat(ui_s, "@"@);
        },
        None => {
            lemma_last_free_none(main, '@', n);
            assert(main.take(n) =~= main);
            assert(hp == main);
            assert(m == hpt);
            lemma_last_free_none(hpt, '@', hpt.len() as int);
            assert(hpt.take(hpt.len() as int) =~= hpt);
        },
    }
}

/// Facts about the scheme names used to read a URI back.
proof fn lemma_scheme_name_shape(sc: UriScheme)
    ensures
        scheme_name(sc).len() > 0,
        scheme_name(sc)[0] == 's',
        forall|j: int| 0 <= j < scheme_name(sc).len() ==> scheme_name(sc)[j] != ':',
        scheme_of(scheme_name(sc)) == Some(sc),
{
    reveal_strlit("sip");
    reveal_strlit("sips");
    reveal_strlit("sip+ws");
    reveal_strlit("sip+wss");
    crate::message::uri::law_scheme_name_roundtrip(sc);
}

/// Headers read from `rest`, written after a main part `m` without `?`,
/// read the same, and the main part reads as `m`.
#[verifier::spinoff_prover]
#[verifier::rlimit(40)]
pub proof fn lemma_rest_reread(rest: Seq<char>, m: Seq<char>)
    requires
        !m.contains('?'),
    ensures
        uri_main(m + headers_text(uri_headers(rest))) == m,
        uri_headers(m + headers_text(uri_headers(rest))) == uri_headers(rest),
{
    reveal_strlit("?");
    let hs = uri_headers(rest);
    let ht = headers_text(hs);
    let r2 = m + ht;
    lemma_find_char_props(rest, '?');
    assert forall|j: int| 0 <= j < m.len() implies r2[j] != '?' by {
        assert(r2[j] == m[j]);
        if m[j] == '?' {
            assert(m.contains('?'));
        }
    }
    if hs.len() > 0 {
        let q = find_char(rest, '?')->Some_0;
        let y = rest.skip(q + 1int);
        assert(hs == headers_of(split_char(y, '&')));
        lemma_split_pieces(y, '&');
        lemma_headers_of_good(split_char(y, '&'));
        lemma_amp_join(hs);
        assert forall|i: int| 0 <= i < header_texts(hs).len() implies !(
        #[trigger] header_texts(hs)[i]).contains('&') by {
            assert(good_header(hs[i]));
        }
        crate::text::lemma_split_join(header_texts(hs), '&');
        lemma_headers_reread(hs);
        assert(r2[m.len() as int] == '?');
        lemma_find_char_at(r2, '?', m.len());
        assert(r2.take(m.len() as int) =~= m);
        assert(r2.skip(m.len() + 1int) =~= amp_join(hs));
    } else {
        assert(ht =~= Seq::<char>::empty());
        assert(r2 =~= m);
        lemma_find_char_none(r2, '?');
    }
}

/// The main part of a URI holds no `?`.
proof fn lemma_main_no_query(rest: Seq<char>)
    ensures
        !uri_main(rest).contains('?'),
{
    lemma_find_char_props(rest, '?');
    let main = uri_main(rest);
    if main.contains('?') {
        let j = choose|j: int| 0 <= j < main.len() && main[j] == '?';
        assert(rest[j] == '?');
    }
}

/// Reading back a written SIP URI gives the URI that was read: for every
/// text `s` that reads as a URI `u`, the text of `u` reads as `u` again.
/// The one exception: a written text that ends in white space, which
/// reading trims away (for instance when the last parameter value ends in
/// white space that a `;` after it protected in `s`).
#[verifier::spinoff_prover]
#[verifier::rlimit(50)]
pub proof fn law_uri_roundtrip(s: Seq<char>)
    requires
        spec_parse_uri(s) is Ok,
        !is_ws(uri_text(spec_parse_uri(s)->Ok_0).last()),
    ensures
        spec_parse_uri(uri_text(spec_parse_uri(s)->Ok_0)) == spec_parse_uri(s),
{
    reveal_strlit(":");
    reveal_strlit("@");
    let u = spec_parse_uri(s)->Ok_0;
    let t = trim(s);
    let c = find_char(t, ':')->Some_0;
    let rest = t.skip(c + 1int);
    let main = uri_main(rest);
    let hp = uri_host_params(main);
    let n = scheme_name(u.scheme);
    lemma_scheme_name_shape(u.scheme);
    let hpt = host_params_text(u.host, u.port, u.params);
    let m = main_text(u.user_info, hpt);
    let ht = headers_text(u.headers);
    let p = uri_text(u);
    match u.user_info {
        Some(x) => {
            assert(p =~= n + ":"@ + (m + ht));
        },
        None => {
            assert(p =~= n + ":"@ + (m + ht));
        },
    }
    let r2 = m + ht;
    assert(p[0] == n[0]);
    lemma_trim_fixed(p);
    assert forall|j: int| 0 <= j < n.len() implies p[j] != ':' by {
        assert(p[j] == n[j]);
    }
    assert(p[n.len() as int] == ':');
    lemma_find_char_at(p, ':', n.len());
    assert(p.take(n.len() as int) =~= n);
    assert(p.skip(n.len() + 1int) =~= r2);
    lemma_main_reread(main);
    lemma_host_params_reread(hp);
    lemma_main_no_query(rest);
    lemma_keys(main, false);
    lemma_keys(m, false);
    lemma_rest_reread(rest, m);
    assert(spec_parse_uri(p)->Ok_0 =~= u);
}

} // verus!

//! XML text handling: escaping of character data, and the small parsing
//! combinators (literal match, scan, quoted attribute, text element) that the
//! part parsers are built from.
//!
//! Every combinator has a specification-level twin, and a round-trip lemma
//! shows that parsing recovers exactly what serialization emitted.

use vstd::prelude::*;

verus! {

/// Relies on `String::push`: appends exactly one character.
#[verifier::external_body]
pub(crate) fn push_char(out: &mut String, c: char)
    ensures
        final(out)@ == old(out)@ + seq![c],
{
    out.push(c);
}

pub open spec fn amp_seq() -> Seq<char> {
    seq!['&', 'a', 'm', 'p', ';']
}

pub open spec fn lt_seq() -> Seq<char> {
    seq!['&', 'l', 't', ';']
}

pub open spec fn gt_seq() -> Seq<char> {
    seq!['&', 'g', 't', ';']
}

pub open spec fn quot_seq() -> Seq<char> {
    seq!['&', 'q', 'u', 'o', 't', ';']
}

pub open spec fn esc_char(c: char) -> Seq<char> {
    if c == '&' {
        amp_seq()
    } else if c == '<' {
        lt_seq()
    } else if c == '>' {
        gt_seq()
    } else if c == '"' {
        quot_seq()
    } else {
        seq![c]
    }
}

/// The escaped form of character data, as it stands inside an attribute
/// value or a text element.
pub open spec fn esc(s: Seq<char>) -> Seq<char>
    decreases s.len(),
{
    if s.len() == 0 {
        Seq::<char>::empty()
    } else {
        esc_char(s[0]) + esc(s.skip(1))
    }
}

pub open spec fn prepend(c: char, r: Option<Seq<char>>) -> Option<Seq<char>> {
    match r {
        Some(t) => Some(seq![c] + t),
        None => None,
    }
}

/// The inverse of escaping. `None` on a stray `<` or `"` or an unknown
/// entity; a raw `>` is accepted, as XML allows it in character data.
pub open spec fn unesc(s: Seq<char>) -> Option<Seq<char>>
    decreases s.len(),
{
    if s.len() == 0 {
        Some(Seq::<char>::empty())
    } else if s[0] == '&' {
        if s.len() >= 5 && s.subrange(0, 5) == amp_seq() {
            prepend('&', unesc(s.skip(5)))
        } else if s.len() >= 4 && s.subrange(0, 4) == lt_seq() {
            prepend('<', unesc(s.skip(4)))
        } else if s.len() >= 4 && s.subrange(0, 4) == gt_seq() {
            prepend('>', unesc(s.skip(4)))
        } else if s.len() >= 6 && s.subrange(0, 6) == quot_seq() {
            prepend('"', unesc(s.skip(6)))
        } else {
            None
        }
    } else if s[0] == '<' || s[0] == '"' {
        None
    } else {
        prepend(s[0], unesc(s.skip(1)))
    }
}

/// Escaped text holds neither a quote nor an opening angle bracket, so a
/// scan for either stop character never halts inside it.
pub proof fn lemma_esc_clean(s: Seq<char>)
    ensures
        forall|i: int|
            0 <= i < esc(s).len() ==> #[trigger] esc(s)[i] != '"' && esc(s)[i] != '<',
    decreases s.len(),
{
    if s.len() > 0 {
        lemma_esc_clean(s.skip(1));
        let h = esc_char(s[0]);
        assert(forall|i: int| 0 <= i < h.len() ==> #[trigger] h[i] != '"' && h[i] != '<');
        assert(forall|i: int|
            0 <= i < esc(s).len() ==> esc(s)[i] == (if i < h.len() {
                h[i]
            } else {
                esc(s.skip(1))[i - h.len()]
            }));
    }
}

/// Escaping at most six-folds the length (the longest entity has six
/// characters).
pub proof fn lemma_esc_len(s: Seq<char>)
    ensures
        esc(s).len() <= 6 * s.len(),
    decreases s.len(),
{
    if s.len() > 0 {
        lemma_esc_len(s.skip(1));
    }
}

pub proof fn lemma_esc_concat(a: Seq<char>, b: Seq<char>)
    ensures
        esc(a + b) == esc(a) + esc(b),
    decreases a.len(),
{
    if a.len() == 0 {
        assert(a + b =~= b);
        assert(esc(a) + esc(b) =~= esc(b));
    } else {
        assert((a + b).skip(1) =~= a.skip(1) + b);
        lemma_esc_concat(a.skip(1), b);
        assert((a + b)[0] == a[0]);
        assert(esc_char(a[0]) + (esc(a.skip(1)) + esc(b)) =~= (esc_char(a[0]) + esc(
            a.skip(1),
        )) + esc(b));
    }
}

/// Unescaping undoes escaping exactly.
pub proof fn lemma_unesc_esc(s: Seq<char>)
    ensures
        unesc(esc(s)) == Some(s),
    decreases s.len(),
{
    if s.len() == 0 {
        assert(esc(s).len() == 0);
    } else {
        let c = s[0];
        let rest = s.skip(1);
        lemma_unesc_esc(rest);
        let t = esc(s);
        assert(t == esc_char(c) + esc(rest));
        if c == '&' {
            assert(t[0] == '&');
            assert(t.subrange(0, 5) =~= amp_seq());
            assert(t.skip(5) =~= esc(rest));
            assert(seq!['&'] + rest =~= s);
        } else if c == '<' {
            assert(t[0] == '&');
            assert(t.len() >= 4);
            if t.len() >= 5 && t.subrange(0, 5) == amp_seq() {
                assert(t.subrange(0, 5)[1] == t[1]);
                assert(t[1] == 'l');
                assert(false);
            }
            assert(t.subrange(0, 4) =~= lt_seq());
            assert(t.skip(4) =~= esc(rest));
            assert(seq!['<'] + rest =~= s);
        } else if c == '>' {
            assert(t[0] == '&');
            assert(t[1] == 'g');
            if t.len() >= 5 && t.subrange(0, 5) == amp_seq() {
                assert(t.subrange(0, 5)[1] == t[1]);
                assert(false);
            }
            if t.len() >= 4 && t.subrange(0, 4) == lt_seq() {
                assert(t.subrange(0, 4)[1] == t[1]);
                assert(false);
            }
            assert(t.subrange(0, 4) =~= gt_seq());
            assert(t.skip(4) =~= esc(rest));
            assert(seq!['>'] + rest =~= s);
        } else if c == '"' {
            assert(t[0] == '&');
            assert(t[1] == 'q');
            if t.len() >= 5 && t.subrange(0, 5) == amp_seq() {
                assert(t.subrange(0, 5)[1] == t[1]);
                assert(false);
            }
            if t.len() >= 4 && t.subrange(0, 4) == lt_seq() {
                assert(t.subrange(0, 4)[1] == t[1]);
                assert(false);
            }
            if t.len() >= 4 && t.subrange(0, 4) == gt_seq() {
                assert(t.subrange(0, 4)[1] == t[1]);
                assert(false);
            }
            assert(t.subrange(0, 6) =~= quot_seq());
            assert(t.skip(6) =~= esc(rest));
            assert(seq!['"'] + rest =~= s);
        } else {
            assert(t[0] == c);
            assert(t.skip(1) =~= esc(rest));
            assert(seq![c] + rest =~= s);
        }
    }
}

/// Matches `lit` at position `i`; `Some` holds the position after it.
pub open spec fn lit_at(s: Seq<char>, i: int, lit: Seq<char>) -> Option<int> {
    if 0 <= i && i + lit.len() <= s.len() && s.subrange(i, i + lit.len()) == lit {
        Some(i + lit.len())
    } else {
        None
    }
}

pub proof fn lemma_lit_at_concat(pre: Seq<char>, lit: Seq<char>, rest: Seq<char>)
    ensures
        lit_at(pre + lit + rest, pre.len() as int, lit) == Some((pre.len() + lit.len()) as int),
{
    let s = pre + lit + rest;
    assert(s.subrange(pre.len() as int, (pre.len() + lit.len()) as int) =~= lit);
}

/// A single differing character refutes a literal match.
pub proof fn lemma_lit_at_none(s: Seq<char>, i: int, lit: Seq<char>, k: int)
    requires
        0 <= k < lit.len(),
        0 <= i,
        i + k < s.len(),
        s[i + k] != lit[k],
    ensures
        lit_at(s, i, lit) is None,
{
    if i + lit.len() <= s.len() && s.subrange(i, i + lit.len()) == lit {
        assert(s.subrange(i, i + lit.len())[k] == s[i + k]);
    }
}

/// The position of the first `stop` character at or after `i`.
pub open spec fn scan_stop(s: Seq<char>, i: int, stop: char) -> Option<int>
    decreases s.len() - i,
{
    if i < 0 || i >= s.len() {
        None
    } else if s[i] == stop {
        Some(i)
    } else {
        scan_stop(s, i + 1, stop)
    }
}

pub proof fn lemma_scan_found(s: Seq<char>, i: int, k: int, stop: char)
    requires
        0 <= i <= k < s.len(),
        s[k] == stop,
        forall|m: int| i <= m < k ==> s[m] != stop,
    ensures
        scan_stop(s, i, stop) == Some(k),
    decreases k - i,
{
    if i < k {
        lemma_scan_found(s, i + 1, k, stop);
    }
}

/// A successful scan lands inside the sequence, on the stop character.
pub proof fn lemma_scan_bounds(s: Seq<char>, i: int, stop: char)
    requires
        scan_stop(s, i, stop) is Some,
    ensures
        i <= scan_stop(s, i, stop).unwrap() < s.len(),
        s[scan_stop(s, i, stop).unwrap()] == stop,
    decreases s.len() - i,
{
    if !(i < 0 || i >= s.len()) && s[i] != stop {
        lemma_scan_bounds(s, i + 1, stop);
    }
}

/// An attribute tail: `lit` is the text up to and including the opening
/// quote; then the escaped value, then the closing quote.
pub open spec fn quoted_of(lit: Seq<char>, v: Seq<char>) -> Seq<char> {
    lit + esc(v) + seq!['"']
}

pub open spec fn parse_quoted(s: Seq<char>, i: int, lit: Seq<char>) -> Option<(Seq<char>, int)> {
    match lit_at(s, i, lit) {
        Some(j) => match scan_stop(s, j, '"') {
            Some(k) => match unesc(s.subrange(j, k)) {
                Some(v) => Some((v, k + 1)),
                None => None,
            },
            None => None,
        },
        None => None,
    }
}

pub proof fn lemma_quoted_rt(pre: Seq<char>, lit: Seq<char>, v: Seq<char>, rest: Seq<char>)
    ensures
        parse_quoted(pre + quoted_of(lit, v) + rest, pre.len() as int, lit) == Some(
            (v, (pre.len() + quoted_of(lit, v).len()) as int),
        ),
{
    let s = pre + quoted_of(lit, v) + rest;
    assert(s.subrange(pre.len() as int, (pre.len() + lit.len()) as int) =~= lit);
    let j = (pre.len() + lit.len()) as int;
    let k = j + esc(v).len();
    lemma_esc_clean(v);
    assert(forall|m: int| j <= m < k ==> s[m] == esc(v)[m - j]);
    assert(s[k] == '"');
    lemma_scan_found(s, j as int, k as int, '"');
    assert(s.subrange(j as int, k as int) =~= esc(v));
    lemma_unesc_esc(v);
}

/// A text element: opening tag, escaped character data, closing tag. The
/// closing tag must begin with `<`, where the scan halts.
pub open spec fn text_of(open: Seq<char>, v: Seq<char>, close: Seq<char>) -> Seq<char> {
    open + esc(v) + close
}

pub open spec fn parse_text(s: Seq<char>, i: int, open: Seq<char>, close: Seq<char>) -> Option<
    (Seq<char>, int),
> {
    match lit_at(s, i, open) {
        Some(j) => match scan_stop(s, j, '<') {
            Some(k) => match unesc(s.subrange(j, k)) {
                Some(v) => match lit_at(s, k, close) {
                    Some(e) => Some((v, e)),
                    None => None,
                },
                None => None,
            },
            None => None,
        },
        None => None,
    }
}

pub proof fn lemma_text_rt(
    pre: Seq<char>,
    open: Seq<char>,
    v: Seq<char>,
    close: Seq<char>,
    rest: Seq<char>,
)
    requires
        close.len() > 0,
        close[0] == '<',
    ensures
        parse_text(pre + text_of(open, v, close) + rest, pre.len() as int, open, close) == Some(
            (v, (pre.len() + text_of(open, v, close).len()) as int),
        ),
{
    let s = pre + text_of(open, v, close) + rest;
    assert(s.subrange(pre.len() as int, (pre.len() + open.len()) as int) =~= open);
    let j = (pre.len() + open.len()) as int;
    let k = j + esc(v).len();
    lemma_esc_clean(v);
    assert(forall|m: int| j <= m < k ==> s[m] == esc(v)[m - j]);
    assert(s[k] == close[0]);
    lemma_scan_found(s, j as int, k as int, '<');
    assert(s.subrange(j as int, k as int) =~= esc(v));
    lemma_unesc_esc(v);
    assert(s.subrange(k as int, k + close.len() as int) =~= close);
}

/// The views of the entity literals used by the executable code.
pub proof fn lemma_entity_literals()
    ensures
        "&amp;"@ == amp_seq(),
        "&lt;"@ == lt_seq(),
        "&gt;"@ == gt_seq(),
        "&quot;"@ == quot_seq(),
        "\""@ == seq!['"'],
{
    reveal_strlit("&amp;");
    reveal_strlit("&lt;");
    reveal_strlit("&gt;");
    reveal_strlit("&quot;");
    reveal_strlit("\"");
    assert("&amp;"@ =~= amp_seq());
    assert("&lt;"@ =~= lt_seq());
    assert("&gt;"@ =~= gt_seq());
    assert("&quot;"@ =~= quot_seq());
    assert("\""@ =~= seq!['"']);
}

/// Appends the escaped form of `s` to `out`.
pub fn escape_push(out: &mut String, s: &str)
    ensures
        final(out)@ == old(out)@ + esc(s@),
{
    let n = s.unicode_len();
    let mut i: usize = 0;
    while i < n
        invariant
            n == s@.len(),
            i <= n,
            out@ == old(out)@ + esc(s@.subrange(0, i as int)),
        decreases n - i,
    {
        let c = s.get_char(i);
        proof {
            lemma_entity_literals();
            lemma_esc_concat(s@.subrange(0, i as int), seq![c]);
            assert(s@.subrange(0, i + 1) =~= s@.subrange(0, i as int) + seq![c]);
            assert(seq![c].skip(1) =~= Seq::<char>::empty());
            assert(esc(seq![c]) == esc_char(c) + esc(Seq::<char>::empty()));
            assert(esc_char(c) + Seq::<char>::empty() =~= esc_char(c));
        }
        if c == '&' {
            out.append("&amp;");
        } else if c == '<' {
            out.append("&lt;");
        } else if c == '>' {
            out.append("&gt;");
        } else if c == '"' {
            out.append("&quot;");
        } else {
            push_char(out, c);
        }
        i += 1;
    }
    proof {
        assert(s@.subrange(0, n as int) =~= s@);
    }
}

/// Matches `lit` at position `i` of `s`.
pub fn lit_match(s: &str, i: usize, lit: &str) -> (r: Option<usize>)
    ensures
        match r {
            Some(j) => lit_at(s@, i as int, lit@) == Some(j as int),
            None => lit_at(s@, i as int, lit@) is None,
        },
{
    let n = s.unicode_len();
    let m = lit.unicode_len();
    if i > n || m > n - i {
        return None;
    }
    let mut k: usize = 0;
    while k < m
        invariant
            n == s@.len(),
            m == lit@.len(),
            i + m <= n,
            k <= m,
            forall|t: int| 0 <= t < k ==> s@[i + t] == lit@[t],
        decreases m - k,
    {
        let a = s.get_char(i + k);
        let b = lit.get_char(k);
        if a != b {
            proof {
                lemma_lit_at_none(s@, i as int, lit@, k as int);
            }
            return None;
        }
        k += 1;
    }
    proof {
        assert(s@.subrange(i as int, i + m) =~= lit@);
    }
    Some(i + m)
}

/// Finds the first `stop` character at or after position `i`.
pub fn find_stop(s: &str, i: usize, stop: char) -> (r: Option<usize>)
    ensures
        match r {
            Some(k) => scan_stop(s@, i as int, stop) == Some(k as int),
            None => scan_stop(s@, i as int, stop) is None,
        },
{
    let n = s.unicode_len();
    let mut k: usize = i;
    while k < n
        invariant
            n == s@.len(),
            i <= k,
            scan_stop(s@, i as int, stop) == scan_stop(s@, k as int, stop),
        decreases n - k,
    {
        let c = s.get_char(k);
        if c == stop {
            return Some(k);
        }
        k += 1;
    }
    None
}

/// Unescapes `s[i..j]`, appending the result to `out`. On `false` the text
/// is not well-formed escaped data and `out` is meaningless.
pub fn unesc_into(s: &str, i: usize, j: usize, out: &mut String) -> (ok: bool)
    requires
        i <= j <= s@.len(),
    ensures
        match unesc(s@.subrange(i as int, j as int)) {
            Some(v) => ok && final(out)@ == old(out)@ + v,
            None => !ok,
        },
    decreases j - i,
{
    let ghost sub = s@.subrange(i as int, j as int);
    if i == j {
        proof {
            assert(sub.len() == 0);
            assert(old(out)@ + Seq::<char>::empty() =~= old(out)@);
        }
        return true;
    }
    let c = s.get_char(i);
    proof {
        assert(sub[0] == s@[i as int]);
    }
    if c == '&' {
        if j - i >= 5 && s.get_char(i + 1) == 'a' && s.get_char(i + 2) == 'm' && s.get_char(i + 3)
            == 'p' && s.get_char(i + 4) == ';' {
            proof {
                assert(sub.subrange(0, 5) =~= amp_seq());
                assert(sub.skip(5) =~= s@.subrange(i + 5, j as int));
            }
            push_char(out, '&');
            let ok = unesc_into(s, i + 5, j, out);
            proof {
                if ok {
                    let v = unesc(s@.subrange(i + 5, j as int)).unwrap();
                    assert(old(out)@ + seq!['&'] + v =~= old(out)@ + (seq!['&'] + v));
                }
            }
            return ok;
        } else if j - i >= 4 && s.get_char(i + 1) == 'l' && s.get_char(i + 2) == 't' && s.get_char(
            i + 3,
        ) == ';' {
            proof {
                if sub.len() >= 5 && sub.subrange(0, 5) == amp_seq() {
                    assert(sub.subrange(0, 5)[1] == sub[1]);
                    assert(false);
                }
                assert(sub.subrange(0, 4) =~= lt_seq());
                assert(sub.skip(4) =~= s@.subrange(i + 4, j as int));
            }
            push_char(out, '<');
            let ok = unesc_into(s, i + 4, j, out);
            proof {
                if ok {
                    let v = unesc(s@.subrange(i + 4, j as int)).unwrap();
                    assert(old(out)@ + seq!['<'] + v =~= old(out)@ + (seq!['<'] + v));
                }
            }
            return ok;
        } else if j - i >= 4 && s.get_char(i + 1) == 'g' && s.get_char(i + 2) == 't' && s.get_char(
            i + 3,
        ) == ';' {
            proof {
                if sub.len() >= 5 && sub.subrange(0, 5) == amp_seq() {
                    assert(sub.subrange(0, 5)[1] == sub[1]);
                    assert(false);
                }
                if sub.subrange(0, 4) == lt_seq() {
                    assert(sub.subrange(0, 4)[1] == sub[1]);
                    assert(false);
                }
                assert(sub.subrange(0, 4) =~= gt_seq());
                assert(sub.skip(4) =~= s@.subrange(i + 4, j as int));
            }
            push_char(out, '>');
            let ok = unesc_into(s, i + 4, j, out);
            proof {
                if ok {
                    let v = unesc(s@.subrange(i + 4, j as int)).unwrap();
                    assert(old(out)@ + seq!['>'] + v =~= old(out)@ + (seq!['>'] + v));
                }
            }
            return ok;
        } else if j - i >= 6 && s.get_char(i + 1) == 'q' && s.get_char(i + 2) == 'u' && s.get_char(
            i + 3,
        ) == 'o' && s.get_char(i + 4) == 't' && s.get_char(i + 5) == ';' {
            proof {
                if sub.len() >= 5 && sub.subrange(0, 5) == amp_seq() {
                    assert(sub.subrange(0, 5)[1] == sub[1]);
                    assert(false);
                }
                if sub.len() >= 4 && sub.subrange(0, 4) == lt_seq() {
                    assert(sub.subrange(0, 4)[1] == sub[1]);
                    assert(false);
                }
                if sub.len() >= 4 && sub.subrange(0, 4) == gt_seq() {
                    assert(sub.subrange(0, 4)[1] == sub[1]);
                    assert(false);
                }
                assert(sub.subrange(0, 6) =~= quot_seq());
                assert(sub.skip(6) =~= s@.subrange(i + 6, j as int));
            }
            push_char(out, '"');
            let ok = unesc_into(s, i + 6, j, out);
            proof {
                if ok {
                    let v = unesc(s@.subrange(i + 6, j as int)).unwrap();
                    assert(old(out)@ + seq!['"'] + v =~= old(out)@ + (seq!['"'] + v));
                }
            }
            return ok;
        } else {
            proof {
                if sub.len() >= 5 && sub.subrange(0, 5) == amp_seq() {
                    assert(sub.subrange(0, 5)[1] == sub[1]);
                    assert(sub.subrange(0, 5)[2] == sub[2]);
                    assert(sub.subrange(0, 5)[3] == sub[3]);
                    assert(sub.subrange(0, 5)[4] == sub[4]);
                    assert(false);
                }
                if sub.len() >= 4 && sub.subrange(0, 4) == lt_seq() {
                    assert(sub.subrange(0, 4)[1] == sub[1]);
                    assert(sub.subrange(0, 4)[2] == sub[2]);
                    assert(sub.subrange(0, 4)[3] == sub[3]);
                    assert(false);
                }
                if sub.len() >= 4 && sub.subrange(0, 4) == gt_seq() {
                    assert(sub.subrange(0, 4)[1] == sub[1]);
                    assert(sub.subrange(0, 4)[2] == sub[2]);
                    assert(sub.subrange(0, 4)[3] == sub[3]);
                    assert(false);
                }
                if sub.len() >= 6 && sub.subrange(0, 6) == quot_seq() {
                    assert(sub.subrange(0, 6)[1] == sub[1]);
                    assert(sub.subrange(0, 6)[2] == sub[2]);
                    assert(sub.subrange(0, 6)[3] == sub[3]);
                    assert(sub.subrange(0, 6)[4] == sub[4]);
                    assert(sub.subrange(0, 6)[5] == sub[5]);
                    assert(false);
                }
            }
            return false;
        }
    } else if c == '<' || c == '"' {
        return false;
    } else {
        proof {
            assert(sub.skip(1) =~= s@.subrange(i + 1, j as int));
        }
        push_char(out, c);
        let ok = unesc_into(s, i + 1, j, out);
        proof {
            if ok {
                let v = unesc(s@.subrange(i + 1, j as int)).unwrap();
                assert(old(out)@ + seq![c] + v =~= old(out)@ + (seq![c] + v));
            }
        }
        return ok;
    }
}

/// Parses an attribute tail at position `i`: `lit`, the escaped value, the
/// closing quote.
pub fn quoted(s: &str, i: usize, lit: &str) -> (r: Option<(String, usize)>)
    ensures
        match r {
            Some(p) => parse_quoted(s@, i as int, lit@) == Some((p.0@, p.1 as int)),
            None => parse_quoted(s@, i as int, lit@) is None,
        },
{
    match lit_match(s, i, lit) {
        None => None,
        Some(j) => match find_stop(s, j, '"') {
            None => None,
            Some(k) => {
                let n = s.unicode_len();
                proof {
                    lemma_scan_bounds(s@, j as int, '"');
                }
                let mut out = String::new();
                let ok = unesc_into(s, j, k, &mut out);
                if ok {
                    Some((out, k + 1))
                } else {
                    None
                }
            },
        },
    }
}

/// Parses a text element at position `i`: `open`, the escaped character
/// data, `close`.
pub fn text_elem(s: &str, i: usize, open: &str, close: &str) -> (r: Option<(String, usize)>)
    ensures
        match r {
            Some(p) => parse_text(s@, i as int, open@, close@) == Some((p.0@, p.1 as int)),
            None => parse_text(s@, i as int, open@, close@) is None,
        },
{
    match lit_match(s, i, open) {
        None => None,
        Some(j) => match find_stop(s, j, '<') {
            None => None,
            Some(k) => {
                proof {
                    lemma_scan_bounds(s@, j as int, '<');
                }
                let mut out = String::new();
                let ok = unesc_into(s, j, k, &mut out);
                if !ok {
                    return None;
                }
                match lit_match(s, k, close) {
                    None => None,
                    Some(e) => Some((out, e)),
                }
            },
        },
    }
}

/// Appends `lit`, the escaped value and a closing quote.
pub fn push_attr(out: &mut String, lit: &str, v: &str)
    ensures
        final(out)@ == old(out)@ + quoted_of(lit@, v@),
{
    out.append(lit);
    escape_push(out, v);
    out.append("\"");
    proof {
        lemma_entity_literals();
        assert(old(out)@ + lit@ + esc(v@) + seq!['"'] =~= old(out)@ + (lit@ + esc(v@)
            + seq!['"']));
    }
}

/// Appends `open`, the escaped character data and `close`.
pub fn push_text(out: &mut String, open: &str, v: &str, close: &str)
    ensures
        final(out)@ == old(out)@ + text_of(open@, v@, close@),
{
    out.append(open);
    escape_push(out, v);
    out.append(close);
    proof {
        assert(old(out)@ + open@ + esc(v@) + close@ =~= old(out)@ + (open@ + esc(v@) + close@));
    }
}

} // verus!

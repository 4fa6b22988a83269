//! Decimal numerals as character sequences.
//!
//! Relationship ids are allocated as `rId1`, `rId2`, ... . This module gives
//! the canonical decimal numeral of a number, the value of a numeral, and the
//! facts that tie the two together, so that allocated ids can be proved unique
//! even against ids parsed from an externally produced graph.

use vstd::prelude::*;
use crate::xmltext::push_char;

verus! {

/// Ids are allocated with numbers below `10^18`, so that every allocated
/// numeral has at most 18 digits and all arithmetic stays inside `u64`.
pub const REL_ID_CAP: u64 = 1000000000000000000;

pub open spec fn pow10(k: nat) -> nat
    decreases k,
{
    if k == 0 {
        1
    } else {
        10 * pow10((k - 1) as nat)
    }
}

pub open spec fn digit_char(d: nat) -> char {
    if d == 0 { '0' }
    else if d == 1 { '1' }
    else if d == 2 { '2' }
    else if d == 3 { '3' }
    else if d == 4 { '4' }
    else if d == 5 { '5' }
    else if d == 6 { '6' }
    else if d == 7 { '7' }
    else if d == 8 { '8' }
    else { '9' }
}

/// The value of a digit character; 10 marks a character that is no digit.
pub open spec fn digit_val(c: char) -> nat {
    if c == '0' { 0 }
    else if c == '1' { 1 }
    else if c == '2' { 2 }
    else if c == '3' { 3 }
    else if c == '4' { 4 }
    else if c == '5' { 5 }
    else if c == '6' { 6 }
    else if c == '7' { 7 }
    else if c == '8' { 8 }
    else if c == '9' { 9 }
    else { 10 }
}

pub open spec fn is_digit(c: char) -> bool {
    digit_val(c) < 10
}

/// The canonical decimal numeral of `n`: no leading zeros, `"0"` for zero.
pub open spec fn dec(n: nat) -> Seq<char>
    decreases n,
{
    if n < 10 {
        seq![digit_char(n)]
    } else {
        dec(n / 10).push(digit_char(n % 10))
    }
}

pub open spec fn all_digits(s: Seq<char>) -> bool {
    forall|i: int| 0 <= i < s.len() ==> is_digit(#[trigger] s[i])
}

/// The number a digit sequence denotes.
pub open spec fn val_of(s: Seq<char>) -> nat
    decreases s.len(),
{
    if s.len() == 0 {
        0
    } else {
        val_of(s.drop_last()) * 10 + digit_val(s.last())
    }
}

/// A digit sequence is canonical when it is the numeral of its value:
/// nonempty and without a leading zero (except `"0"` itself).
pub open spec fn canonical(s: Seq<char>) -> bool {
    s.len() > 0 && all_digits(s) && (s.len() == 1 || s[0] != '0')
}

pub proof fn lemma_pow10_pos(k: nat)
    ensures
        pow10(k) >= 1,
    decreases k,
{
    if k > 0 {
        lemma_pow10_pos((k - 1) as nat);
    }
}

pub proof fn lemma_pow10_18()
    ensures
        pow10(18) == REL_ID_CAP,
{
    assert(pow10(0) == 1);
    assert(pow10(1) == 10);
    assert(pow10(2) == 100);
    assert(pow10(3) == 1000);
    assert(pow10(4) == 10000);
    assert(pow10(5) == 100000);
    assert(pow10(6) == 1000000);
    assert(pow10(7) == 10000000);
    assert(pow10(8) == 100000000);
    assert(pow10(9) == 1000000000);
    assert(pow10(10) == 10000000000);
    assert(pow10(11) == 100000000000);
    assert(pow10(12) == 1000000000000);
    assert(pow10(13) == 10000000000000);
    assert(pow10(14) == 100000000000000);
    assert(pow10(15) == 1000000000000000);
    assert(pow10(16) == 10000000000000000);
    assert(pow10(17) == 100000000000000000);
    assert(pow10(18) == 1000000000000000000);
}

/// The numeral of `n` is canonical and denotes `n`.
pub proof fn lemma_dec_canonical(n: nat)
    ensures
        all_digits(dec(n)),
        dec(n).len() >= 1,
        val_of(dec(n)) == n,
        n > 0 ==> dec(n)[0] != '0',
        canonical(dec(n)),
        n < 10 ==> dec(n).len() == 1,
        n >= 10 ==> dec(n).len() >= 2,
    decreases n,
{
    if n < 10 {
        let s = dec(n);
        assert(s =~= seq![digit_char(n)]);
        assert(s.drop_last() =~= Seq::<char>::empty());
        assert(digit_val(digit_char(n)) == n);
        assert(val_of(s) == val_of(Seq::<char>::empty()) * 10 + n);
    } else {
        lemma_dec_canonical(n / 10);
        let s = dec(n);
        assert(s == dec(n / 10).push(digit_char((n % 10) as nat)));
        assert(s.drop_last() =~= dec(n / 10));
        assert(s.last() == digit_char((n % 10) as nat));
        assert(digit_val(s.last()) == n % 10);
        assert(val_of(s) == val_of(dec(n / 10)) * 10 + n % 10);
        assert(val_of(s) == (n / 10) * 10 + n % 10);
        assert((n / 10) * 10 + n % 10 == n) by (nonlinear_arith);
        assert(s[0] == dec(n / 10)[0]);
        assert(n / 10 > 0);
    }
}

/// A digit sequence denoting zero is all zeros.
pub proof fn lemma_val_zero(s: Seq<char>)
    requires
        all_digits(s),
        val_of(s) == 0,
    ensures
        forall|i: int| 0 <= i < s.len() ==> s[i] == '0',
    decreases s.len(),
{
    if s.len() > 0 {
        assert(val_of(s.drop_last()) == 0);
        assert(all_digits(s.drop_last())) by {
            assert(forall|i: int|
                0 <= i < s.drop_last().len() ==> s.drop_last()[i] == s[i]);
        }
        lemma_val_zero(s.drop_last());
        assert(is_digit(s[s.len() - 1]));
        assert(digit_val(s.last()) == 0);
        assert(s.last() == '0');
        assert(forall|i: int| 0 <= i < s.len() - 1 ==> s[i] == s.drop_last()[i]);
    }
}

/// A canonical digit sequence is the numeral of its value.
pub proof fn lemma_canonical_dec(s: Seq<char>)
    requires
        canonical(s),
    ensures
        dec(val_of(s)) == s,
    decreases s.len(),
{
    if s.len() == 1 {
        let c = s[0];
        assert(is_digit(s[0]));
        assert(s.drop_last() =~= Seq::<char>::empty());
        assert(val_of(Seq::<char>::empty()) == 0);
        assert(s.last() == c);
        assert(val_of(s) == digit_val(c));
        assert(digit_val(c) < 10);
        assert(digit_char(digit_val(c)) == c);
        assert(dec(val_of(s)) =~= seq![digit_char(digit_val(c))]);
        assert(dec(val_of(s)) =~= s);
    } else {
        let t = s.drop_last();
        assert(t.len() == s.len() - 1);
        assert(forall|i: int| 0 <= i < t.len() ==> t[i] == s[i]);
        assert(canonical(t));
        lemma_canonical_dec(t);
        let v = val_of(t);
        if v == 0 {
            lemma_val_zero(t);
            assert(t[0] == '0');
            assert(false);
        }
        let d = digit_val(s.last());
        assert(d < 10);
        assert(val_of(s) == v * 10 + d);
        assert(val_of(s) >= 10) by (nonlinear_arith)
            requires
                v >= 1,
                d >= 0,
                val_of(s) == v * 10 + d,
        ;
        assert((v * 10 + d) / 10 == v && (v * 10 + d) % 10 == d) by (nonlinear_arith)
            requires
                0 <= d < 10,
        ;
        assert(dec(val_of(s)) == dec(v).push(digit_char(d)));
        assert(is_digit(s[s.len() - 1]));
        assert(digit_char(digit_val(s.last())) == s.last());
        assert(dec(val_of(s)) =~= s);
    }
}

/// A digit sequence of at most `k` digits denotes a value below `10^k`.
pub proof fn lemma_val_bound(s: Seq<char>, k: nat)
    requires
        all_digits(s),
        s.len() <= k,
    ensures
        val_of(s) < pow10(k),
    decreases s.len(),
{
    if s.len() == 0 {
        lemma_pow10_pos(k);
    } else {
        let t = s.drop_last();
        assert(forall|i: int| 0 <= i < t.len() ==> t[i] == s[i]);
        lemma_val_bound(t, (k - 1) as nat);
        assert(digit_val(s.last()) <= 9);
        assert(val_of(t) * 10 + digit_val(s.last()) < pow10((k - 1) as nat) * 10)
            by (nonlinear_arith)
            requires
                val_of(t) < pow10((k - 1) as nat),
                digit_val(s.last()) <= 9,
        ;
        assert(pow10(k) == 10 * pow10((k - 1) as nat));
    }
}

/// Appends the canonical decimal numeral of `n` to `out`.
pub fn push_dec(out: &mut String, n: u64)
    ensures
        final(out)@ == old(out)@ + dec(n as nat),
    decreases n,
{
    if n < 10 {
        let c: char = if n == 0 { '0' }
        else if n == 1 { '1' }
        else if n == 2 { '2' }
        else if n == 3 { '3' }
        else if n == 4 { '4' }
        else if n == 5 { '5' }
        else if n == 6 { '6' }
        else if n == 7 { '7' }
        else { '8' };
        let c: char = if n == 9 { '9' } else { c };
        proof {
            assert(c == digit_char(n as nat));
            assert(dec(n as nat) =~= seq![digit_char(n as nat)]);
        }
        push_char(out, c);
    } else {
        push_dec(out, n / 10);
        let d = n % 10;
        let c: char = if d == 0 { '0' }
        else if d == 1 { '1' }
        else if d == 2 { '2' }
        else if d == 3 { '3' }
        else if d == 4 { '4' }
        else if d == 5 { '5' }
        else if d == 6 { '6' }
        else if d == 7 { '7' }
        else if d == 8 { '8' }
        else { '9' };
        proof {
            assert(c == digit_char((n % 10) as nat));
        }
        push_char(out, c);
        proof {
            assert(dec(n as nat) == dec((n / 10) as nat).push(digit_char((n % 10) as nat)));
            assert(old(out)@ + dec((n / 10) as nat) + seq![digit_char((n % 10) as nat)] =~= old(
                out,
            )@ + dec(n as nat));
        }
    }
}

/// The numeral of a value below `10^k` has at most `k` digits.
pub proof fn lemma_dec_len(n: nat, k: nat)
    requires
        n < pow10(k),
        k >= 1,
    ensures
        dec(n).len() <= k,
    decreases n,
{
    if n < 10 {
    } else {
        assert(k >= 2) by {
            if k == 1 {
                assert(pow10(0) == 1);
                assert(pow10(1) == 10);
            }
        }
        assert(pow10(k) == 10 * pow10((k - 1) as nat));
        assert(n / 10 < pow10((k - 1) as nat)) by (nonlinear_arith)
            requires
                n < 10 * pow10((k - 1) as nat),
        ;
        lemma_dec_len(n / 10, (k - 1) as nat);
    }
}

} // verus!

//! Decimal digit strings: the exact-arithmetic representation used by the
//! price-computation engine and by the canonical payload encoding.
//!
//! A quantity is a sequence of ASCII digits, most significant first.
//! `dec_val` gives its mathematical value; `digits_of` gives the canonical
//! (no leading zero) digit string of a value. All reserve and ratio
//! arithmetic in the pipeline is carried out on these strings, so no
//! precision is lost no matter how wide the reserves are.

use vstd::prelude::*;

verus! {

use vstd::arithmetic::mul::lemma_mul_inequality;

pub open spec fn is_ascii_digit(b: u8) -> bool {
    48 <= b && b <= 57
}

pub open spec fn is_digit_seq(s: Seq<u8>) -> bool {
    forall|i: int| 0 <= i < s.len() ==> is_ascii_digit(#[trigger] s[i])
}

/// Numeric value of one ASCII digit.
pub open spec fn digit_val(b: u8) -> nat {
    (b - 48) as nat
}

/// Value of a digit string, most significant digit first.
pub open spec fn dec_val(s: Seq<u8>) -> nat
    decreases s.len(),
{
    if s.len() == 0 {
        0
    } else {
        dec_val(s.drop_last()) * 10 + digit_val(s.last())
    }
}

pub open spec fn pow10(e: nat) -> nat
    decreases e,
{
    if e == 0 {
        1
    } else {
        10 * pow10((e - 1) as nat)
    }
}

/// A canonical digit string: nonempty, and no leading zero unless it is "0".
pub open spec fn canonical_digits(s: Seq<u8>) -> bool {
    &&& is_digit_seq(s)
    &&& s.len() >= 1
    &&& (s.len() > 1 ==> s[0] != 48)
}

/// The canonical digit string of a value.
pub open spec fn digits_of(n: nat) -> Seq<u8>
    decreases n,
{
    if n < 10 {
        seq![(48 + n) as u8]
    } else {
        digits_of(n / 10).push((48 + n % 10) as u8)
    }
}

pub proof fn lemma_pow10_pos(e: nat)
    ensures
        pow10(e) >= 1,
    decreases e,
{
    if e > 0 {
        lemma_pow10_pos((e - 1) as nat);
    }
}

pub proof fn lemma_pow10_adds(a: nat, b: nat)
    ensures
        pow10(a + b) == pow10(a) * pow10(b),
    decreases a,
{
    if a == 0 {
    } else {
        lemma_pow10_adds((a - 1) as nat, b);
        assert(pow10(a + b) == 10 * pow10((a + b - 1) as nat));
        assert(pow10((a + b - 1) as nat) == pow10((a - 1) as nat) * pow10(b));
        assert(10 * (pow10((a - 1) as nat) * pow10(b)) == (10 * pow10((a - 1) as nat)) * pow10(b))
            by (nonlinear_arith);
    }
}

pub proof fn lemma_pow10_increases(a: nat, b: nat)
    requires
        a <= b,
    ensures
        pow10(a) <= pow10(b),
{
    lemma_pow10_adds(a, (b - a) as nat);
    lemma_pow10_pos((b - a) as nat);
    lemma_pow10_pos(a);
    assert(pow10(a) * 1 <= pow10(a) * pow10((b - a) as nat)) by (nonlinear_arith)
        requires
            1 <= pow10((b - a) as nat),
            1 <= pow10(a),
    ;
}

/// The value of a digit string is below 10 to its length.
pub proof fn lemma_dec_val_bound(s: Seq<u8>)
    requires
        is_digit_seq(s),
    ensures
        dec_val(s) < pow10(s.len()),
    decreases s.len(),
{
    if s.len() > 0 {
        assert(is_digit_seq(s.drop_last()));
        lemma_dec_val_bound(s.drop_last());
        assert(digit_val(s.last()) <= 9);
        assert(pow10(s.len()) == 10 * pow10((s.len() - 1) as nat));
    }
}

/// A digit string with a nonzero leading digit is at least 10 to one less
/// than its length.
pub proof fn lemma_dec_val_first_nonzero(s: Seq<u8>)
    requires
        is_digit_seq(s),
        s.len() >= 1,
        s[0] != 48,
    ensures
        dec_val(s) >= pow10((s.len() - 1) as nat),
    decreases s.len(),
{
    if s.len() == 1 {
        assert(digit_val(s[0]) >= 1);
    } else {
        assert(is_digit_seq(s.drop_last()));
        assert(s.drop_last()[0] == s[0]);
        lemma_dec_val_first_nonzero(s.drop_last());
        assert(pow10((s.len() - 1) as nat) == 10 * pow10((s.len() - 2) as nat));
    }
}

/// Splitting a digit string splits its value.
pub proof fn lemma_dec_val_append(s: Seq<u8>, t: Seq<u8>)
    ensures
        dec_val(s + t) == dec_val(s) * pow10(t.len()) + dec_val(t),
    decreases t.len(),
{
    if t.len() == 0 {
        assert(s + t =~= s);
        assert(dec_val(s) * 1 == dec_val(s)) by (nonlinear_arith);
    } else {
        lemma_dec_val_append(s, t.drop_last());
        assert((s + t).drop_last() =~= s + t.drop_last());
        assert((s + t).last() == t.last());
        let a = dec_val(s);
        let p = pow10((t.len() - 1) as nat);
        let b = dec_val(t.drop_last());
        let d = digit_val(t.last());
        assert(dec_val(s + t) == (a * p + b) * 10 + d);
        assert((a * p + b) * 10 + d == a * (10 * p) + (b * 10 + d)) by (nonlinear_arith);
        assert(pow10(t.len()) == 10 * p);
    }
}

/// A run of zero digits has value zero.
pub proof fn lemma_dec_val_zeros(s: Seq<u8>)
    requires
        forall|i: int| 0 <= i < s.len() ==> #[trigger] s[i] == 48,
    ensures
        dec_val(s) == 0,
    decreases s.len(),
{
    if s.len() > 0 {
        lemma_dec_val_zeros(s.drop_last());
    }
}

/// `digits_of` is correct: canonical, and its value is the argument.
pub proof fn lemma_digits_of_correct(n: nat)
    ensures
        canonical_digits(digits_of(n)),
        dec_val(digits_of(n)) == n,
        n > 0 ==> digits_of(n)[0] != 48,
    decreases n,
{
    if n < 10 {
        let s = digits_of(n);
        assert(s =~= seq![(48 + n) as u8]);
        assert(s.drop_last() =~= Seq::<u8>::empty());
        assert(dec_val(Seq::<u8>::empty()) == 0);
        assert(dec_val(s) == dec_val(s.drop_last()) * 10 + digit_val(s.last()));
        assert(dec_val(s) == digit_val((48 + n) as u8));
    } else {
        lemma_digits_of_correct(n / 10);
        let prev = digits_of(n / 10);
        let d = (48 + n % 10) as u8;
        let s = digits_of(n);
        assert(s == prev.push(d));
        assert(s.drop_last() =~= prev);
        assert(s.last() == d);
        assert(n / 10 >= 1);
        assert(prev[0] != 48);
        assert(s[0] == prev[0]);
        assert(is_digit_seq(s)) by {
            assert(forall|i: int|
                0 <= i < s.len() ==> #[trigger] s[i] == (if i < prev.len() {
                    prev[i]
                } else {
                    d
                }));
        }
        assert(dec_val(s) == (n / 10) * 10 + n % 10);
        assert((n / 10) * 10 + n % 10 == n) by {
            vstd::arithmetic::div_mod::lemma_fundamental_div_mod(n as int, 10);
        }
    }
}

/// Canonical digit strings are unique: re-rendering the value gives the
/// string back.
pub proof fn lemma_digits_of_unique(s: Seq<u8>)
    requires
        canonical_digits(s),
    ensures
        digits_of(dec_val(s)) == s,
    decreases s.len(),
{
    if s.len() == 1 {
        assert(s.drop_last() =~= Seq::<u8>::empty());
        assert(dec_val(Seq::<u8>::empty()) == 0);
        assert(dec_val(s) == dec_val(s.drop_last()) * 10 + digit_val(s.last()));
        assert(dec_val(s) == digit_val(s[0]));
        assert(digit_val(s[0]) < 10);
        assert(digits_of(dec_val(s)) =~= s);
    } else {
        let sp = s.drop_last();
        assert(is_digit_seq(sp));
        assert(sp[0] == s[0]);
        assert(canonical_digits(sp));
        lemma_digits_of_unique(sp);
        lemma_dec_val_first_nonzero(sp);
        lemma_pow10_pos((sp.len() - 1) as nat);
        let vp = dec_val(sp);
        let d = digit_val(s.last());
        let v = dec_val(s);
        assert(v == vp * 10 + d);
        assert(vp >= 1);
        assert(v >= 10) by (nonlinear_arith)
            requires
                v == vp * 10 + d,
                vp >= 1,
        ;
        assert(v / 10 == vp && v % 10 == d) by {
            vstd::arithmetic::div_mod::lemma_fundamental_div_mod_converse(
                v as int,
                10,
                vp as int,
                d as int,
            );
        }
        assert(digits_of(v) == digits_of(vp).push((48 + d) as u8));
        assert((48 + d) as u8 == s.last());
        assert(digits_of(v) =~= s);
    }
}

/// Lexicographic comparison decides value order for equal-length digit
/// strings.
pub proof fn lemma_dec_val_lex(x: Seq<u8>, y: Seq<u8>, i: int)
    requires
        is_digit_seq(x),
        is_digit_seq(y),
        x.len() == y.len(),
        0 <= i < x.len(),
        x.subrange(0, i) == y.subrange(0, i),
        x[i] < y[i],
    ensures
        dec_val(x) < dec_val(y),
{
    let n = x.len() as int;
    let m = (n - i - 1) as nat;
    assert(x =~= x.subrange(0, i + 1) + x.subrange(i + 1, n));
    assert(y =~= y.subrange(0, i + 1) + y.subrange(i + 1, n));
    lemma_dec_val_append(x.subrange(0, i + 1), x.subrange(i + 1, n));
    lemma_dec_val_append(y.subrange(0, i + 1), y.subrange(i + 1, n));
    assert(x.subrange(i + 1, n).len() == m);
    assert(y.subrange(i + 1, n).len() == m);

    let ax = dec_val(x.subrange(0, i + 1));
    let ay = dec_val(y.subrange(0, i + 1));
    assert(x.subrange(0, i + 1) =~= x.subrange(0, i).push(x[i]));
    assert(y.subrange(0, i + 1) =~= y.subrange(0, i).push(y[i]));
    assert(x.subrange(0, i).push(x[i]).drop_last() =~= x.subrange(0, i));
    assert(y.subrange(0, i).push(y[i]).drop_last() =~= y.subrange(0, i));
    assert(ax == dec_val(x.subrange(0, i)) * 10 + digit_val(x[i]));
    assert(ay == dec_val(y.subrange(0, i)) * 10 + digit_val(y[i]));
    assert(digit_val(x[i]) < digit_val(y[i]));
    assert(ax + 1 <= ay);

    assert(is_digit_seq(x.subrange(i + 1, n)));
    lemma_dec_val_bound(x.subrange(i + 1, n));
    let p = pow10(m);
    assert(dec_val(x) == ax * p + dec_val(x.subrange(i + 1, n)));
    assert(dec_val(x) < ax * p + p);
    assert(ax * p + p == (ax + 1) * p) by (nonlinear_arith);
    lemma_mul_inequality(ax as int + 1, ay as int, p as int);
    assert((ax + 1) * p <= ay * p);
    assert(dec_val(y) >= ay * p);
}

} // verus!

//! Executable arithmetic on decimal digit strings: comparison, subtraction,
//! long division, and conversions between digit strings and machine
//! integers. The price-computation engine runs entirely on these, so
//! intermediate products never truncate.

use vstd::prelude::*;

verus! {

use crate::digits::{
    canonical_digits, dec_val, digit_val, digits_of, is_ascii_digit, is_digit_seq,
    lemma_dec_val_append, lemma_dec_val_bound, lemma_dec_val_first_nonzero, lemma_dec_val_lex,
    lemma_dec_val_zeros, lemma_digits_of_correct, lemma_pow10_increases, lemma_pow10_pos, pow10,
};
use vstd::arithmetic::mul::lemma_mul_inequality;

pub proof fn lemma_dec_val_singleton(d: u8)
    ensures
        dec_val(seq![d]) == digit_val(d),
{
    assert(seq![d].drop_last() =~= Seq::<u8>::empty());
    assert(dec_val(Seq::<u8>::empty()) == 0);
    assert(dec_val(seq![d]) == dec_val(seq![d].drop_last()) * 10 + digit_val(seq![d].last()));
}

pub proof fn lemma_dec_val_push(s: Seq<u8>, d: u8)
    ensures
        dec_val(s.push(d)) == dec_val(s) * 10 + digit_val(d),
{
    assert(s.push(d).drop_last() =~= s);
    assert(s.push(d).last() == d);
}

/// Runtime check that every byte is an ASCII digit.
pub fn is_digit_vec(v: &Vec<u8>) -> (r: bool)
    ensures
        r == is_digit_seq(v@),
{
    let n = v.len();
    let mut i: usize = 0;
    while i < n
        invariant
            i <= n,
            n == v.len(),
            forall|k: int| 0 <= k < i ==> is_ascii_digit(#[trigger] v@[k]),
        decreases n - i,
    {
        let b = v[i];
        if b < 48 || b > 57 {
            return false;
        }
        i = i + 1;
    }
    true
}

/// Runtime check for a canonical digit string.
pub fn is_canonical_digits(v: &Vec<u8>) -> (r: bool)
    ensures
        r == canonical_digits(v@),
{
    if v.len() == 0 {
        return false;
    }
    if v.len() > 1 && v[0] == 48 {
        return false;
    }
    is_digit_vec(v)
}

/// Drop leading zeros, leaving the canonical digit string of the same value.
pub fn canonicalize(v: &Vec<u8>) -> (r: Vec<u8>)
    requires
        is_digit_seq(v@),
    ensures
        canonical_digits(r@),
        dec_val(r@) == dec_val(v@),
{
    let n = v.len();
    let mut i: usize = 0;
    while i < n && v[i] == 48
        invariant
            i <= n,
            n == v.len(),
            is_digit_seq(v@),
            forall|k: int| 0 <= k < i ==> v@[k] == 48,
        decreases n - i,
    {
        i = i + 1;
    }
    if i == n {
        let mut r: Vec<u8> = Vec::new();
        r.push(48);
        proof {
            assert(forall|k: int| 0 <= k < v@.len() ==> #[trigger] v@[k] == 48);
            lemma_dec_val_zeros(v@);
            assert(r@ =~= seq![48u8]);
            lemma_dec_val_singleton(48);
            assert(dec_val(r@) == 0);
        }
        r
    } else {
        let mut r: Vec<u8> = Vec::new();
        let mut j: usize = i;
        while j < n
            invariant
                i <= j <= n,
                n == v.len(),
                is_digit_seq(v@),
                r@ == v@.subrange(i as int, j as int),
            decreases n - j,
        {
            let d = v[j];
            r.push(d);
            proof {
                assert(r@ =~= v@.subrange(i as int, j + 1));
            }
            j = j + 1;
        }
        proof {
            assert(v@ =~= v@.subrange(0, i as int) + v@.subrange(i as int, n as int));
            lemma_dec_val_append(v@.subrange(0, i as int), v@.subrange(i as int, n as int));
            assert(forall|k: int|
                0 <= k < i ==> #[trigger] v@.subrange(0, i as int)[k] == 48);
            lemma_dec_val_zeros(v@.subrange(0, i as int));
            assert(dec_val(v@) == 0 * pow10(v@.subrange(i as int, n as int).len()) + dec_val(
                v@.subrange(i as int, n as int),
            ));
            assert(r@[0] == v@[i as int]);
        }
        r
    }
}

/// Three-way comparison outcome for digit strings.
pub enum DigCmp {
    Lt,
    Eq,
    Gt,
}

/// Value comparison of two canonical digit strings.
pub fn compare_digits(a: &Vec<u8>, b: &Vec<u8>) -> (c: DigCmp)
    requires
        canonical_digits(a@),
        canonical_digits(b@),
    ensures
        (c is Lt <==> dec_val(a@) < dec_val(b@)),
        (c is Gt <==> dec_val(a@) > dec_val(b@)),
        (c is Eq <==> dec_val(a@) == dec_val(b@)),
{
    let n = a.len();
    let m = b.len();
    if n < m {
        proof {
            lemma_dec_val_bound(a@);
            lemma_dec_val_first_nonzero(b@);
            lemma_pow10_increases(n as nat, (m - 1) as nat);
        }
        DigCmp::Lt
    } else if m < n {
        proof {
            lemma_dec_val_bound(b@);
            lemma_dec_val_first_nonzero(a@);
            lemma_pow10_increases(m as nat, (n - 1) as nat);
        }
        DigCmp::Gt
    } else {
        let mut i: usize = 0;
        proof {
            assert(a@.subrange(0, 0) =~= b@.subrange(0, 0));
        }
        while i < n
            invariant
                i <= n,
                n == a.len(),
                n == b.len(),
                canonical_digits(a@),
                canonical_digits(b@),
                a@.subrange(0, i as int) == b@.subrange(0, i as int),
            decreases n - i,
        {
            if a[i] < b[i] {
                proof {
                    lemma_dec_val_lex(a@, b@, i as int);
                }
                return DigCmp::Lt;
            }
            if b[i] < a[i] {
                proof {
                    lemma_dec_val_lex(b@, a@, i as int);
                }
                return DigCmp::Gt;
            }
            proof {
                assert(a@.subrange(0, i + 1) =~= b@.subrange(0, i + 1));
            }
            i = i + 1;
        }
        proof {
            assert(a@.subrange(0, n as int) =~= a@);
            assert(b@.subrange(0, n as int) =~= b@);
            assert(a@ == b@);
        }
        DigCmp::Eq
    }
}

pub fn ge_digits(a: &Vec<u8>, b: &Vec<u8>) -> (r: bool)
    requires
        canonical_digits(a@),
        canonical_digits(b@),
    ensures
        r == (dec_val(a@) >= dec_val(b@)),
{
    match compare_digits(a, b) {
        DigCmp::Lt => false,
        DigCmp::Eq => true,
        DigCmp::Gt => true,
    }
}

/// Value of the `k` least significant digits of `s` (all of `s` once `k`
/// covers it).
pub open spec fn suffix_val(s: Seq<u8>, k: int) -> nat {
    if k >= s.len() {
        dec_val(s)
    } else {
        dec_val(s.subrange(s.len() - k, s.len() as int))
    }
}

proof fn lemma_suffix_val_step(s: Seq<u8>, k: int)
    requires
        0 <= k < s.len(),
    ensures
        suffix_val(s, k + 1) == digit_val(s[s.len() - k - 1]) * pow10(k as nat) + suffix_val(s, k),
{
    let l = s.len() as int;
    let head = seq![s[l - k - 1]];
    let tail = s.subrange(l - k, l);
    assert(s.subrange(l - k - 1, l) =~= head + tail);
    lemma_dec_val_append(head, tail);
    lemma_dec_val_singleton(s[l - k - 1]);
    if k + 1 >= s.len() {
        assert(s.subrange(l - k - 1, l) =~= s);
    }
}

proof fn lemma_sub_step(o1: nat, b1: nat, a1: nat, w: nat, dout: nat, dbv: nat, dav: nat, nb: nat, p: nat)
    by (nonlinear_arith)
    requires
        o1 + b1 == a1 + w * p,
        dout + dbv + w == dav + 10 * nb,
    ensures
        (dout * p + o1) + (dbv * p + b1) == (dav * p + a1) + nb * (10 * p),
{
}

/// Subtraction of canonical digit strings, schoolbook borrow method.
pub fn sub_digits(a: &Vec<u8>, b: &Vec<u8>) -> (r: Vec<u8>)
    requires
        canonical_digits(a@),
        canonical_digits(b@),
        dec_val(b@) <= dec_val(a@),
    ensures
        canonical_digits(r@),
        dec_val(r@) == dec_val(a@) - dec_val(b@),
{
    let n = a.len();
    let m = b.len();
    proof {
        if m > n {
            lemma_dec_val_bound(a@);
            lemma_dec_val_first_nonzero(b@);
            lemma_pow10_increases(n as nat, (m - 1) as nat);
            assert(false);
        }
    }
    let mut out: Vec<u8> = Vec::new();
    let mut borrow: u8 = 0;
    let mut k: usize = 0;
    while k < n
        invariant
            k <= n,
            n == a.len(),
            m == b.len(),
            m <= n,
            canonical_digits(a@),
            canonical_digits(b@),
            borrow <= 1,
            out.len() == k,
            is_digit_seq(out@),
            dec_val(out@) + suffix_val(b@, k as int) == suffix_val(a@, k as int) + borrow * pow10(
                k as nat,
            ),
        decreases n - k,
    {
        let da = a[n - 1 - k];
        let db = if k < m {
            b[m - 1 - k]
        } else {
            48
        };
        let need = db - 48 + borrow;
        let (d_out, new_borrow): (u8, u8) = if da - 48 >= need {
            (da - 48 - need, 0)
        } else {
            (da - 48 + 10 - need, 1)
        };
        proof {
            assert(d_out <= 9);
        }
        let ghost out_prev = out@;
        out.insert(0, d_out + 48);
        proof {
            let p = pow10(k as nat);
            let o1 = dec_val(out_prev);
            let b1 = suffix_val(b@, k as int);
            let a1 = suffix_val(a@, k as int);
            // value decomposition of the new output
            assert(out@ =~= seq![(d_out + 48) as u8] + out_prev);
            lemma_dec_val_append(seq![(d_out + 48) as u8], out_prev);
            lemma_dec_val_singleton((d_out + 48) as u8);
            assert(digit_val((d_out + 48) as u8) == d_out as nat);
            assert(out_prev.len() == k);
            assert(dec_val(out@) == d_out as nat * p + o1);
            // digit decomposition of the `k + 1` digit suffixes
            lemma_suffix_val_step(a@, k as int);
            let dav = digit_val(a@[n - 1 - k]);
            assert(suffix_val(a@, k + 1) == dav * p + a1);
            let dbv: nat = if k < m {
                digit_val(b@[m - 1 - k])
            } else {
                0
            };
            if k < m {
                lemma_suffix_val_step(b@, k as int);
                assert(suffix_val(b@, k + 1) == dbv * p + b1);
            } else {
                assert(suffix_val(b@, k as int) == dec_val(b@));
                assert(suffix_val(b@, k + 1) == dec_val(b@));
                assert(suffix_val(b@, k + 1) == dbv * p + b1);
            }
            assert(d_out as nat + dbv + borrow as nat == dav + 10 * new_borrow as nat);
            lemma_sub_step(
                o1,
                b1,
                a1,
                borrow as nat,
                d_out as nat,
                dbv,
                dav,
                new_borrow as nat,
                p,
            );
            assert(pow10((k + 1) as nat) == 10 * p);
            assert(new_borrow as nat * (10 * p) == new_borrow as nat * pow10((k + 1) as nat));
            assert(dec_val(out@) + suffix_val(b@, k + 1) == suffix_val(a@, k + 1)
                + new_borrow as nat * pow10((k + 1) as nat));
        }
        borrow = new_borrow;
        k = k + 1;
    }
    proof {
        assert(suffix_val(a@, n as int) == dec_val(a@));
        assert(suffix_val(b@, n as int) == dec_val(b@));
        if borrow == 1 {
            lemma_dec_val_bound(out@);
            assert(false);
        }
    }
    canonicalize(&out)
}

proof fn lemma_mul256_step(o: nat, c: nat, s: nat, b: nat, da: nat, nd: nat, nc: nat, p: nat)
    by (nonlinear_arith)
    requires
        o + c * p == s * 256 + b,
        nd + 10 * nc == da * 256 + c,
    ensures
        (nd * p + o) + nc * (10 * p) == (da * p + s) * 256 + b,
{
}

/// Multiply a canonical digit string by 256 and add one byte: the step
/// that folds a big-endian byte string into its decimal rendering.
pub fn mul256_add(a: &Vec<u8>, b: u8) -> (r: Vec<u8>)
    requires
        canonical_digits(a@),
    ensures
        canonical_digits(r@),
        dec_val(r@) == dec_val(a@) * 256 + b,
{
    let n = a.len();
    let mut out: Vec<u8> = Vec::new();
    let mut carry: u16 = b as u16;
    let mut k: usize = 0;
    proof {
        assert(a@.subrange(a@.len() as int, a@.len() as int) =~= Seq::<u8>::empty());
        assert(dec_val(Seq::<u8>::empty()) == 0);
        assert(suffix_val(a@, 0) == 0);
        assert(pow10(0) == 1);
        assert(carry as nat * pow10(0) == b as nat) by (nonlinear_arith)
            requires
                carry as nat == b as nat,
                pow10(0) == 1,
        ;
        assert(suffix_val(a@, 0) * 256 == 0) by (nonlinear_arith)
            requires
                suffix_val(a@, 0) == 0,
        ;
    }
    while k < n
        invariant
            k <= n,
            n == a.len(),
            canonical_digits(a@),
            carry <= 255,
            out.len() == k,
            is_digit_seq(out@),
            dec_val(out@) + carry * pow10(k as nat) == suffix_val(a@, k as int) * 256 + b,
        decreases n - k,
    {
        let d = a[n - 1 - k];
        let v: u16 = (d - 48) as u16 * 256 + carry;
        let nd: u8 = (v % 10) as u8;
        let nc: u16 = v / 10;
        let ghost out_prev = out@;
        out.insert(0, 48 + nd);
        proof {
            let p = pow10(k as nat);
            assert(out@ =~= seq![(48 + nd) as u8] + out_prev);
            lemma_dec_val_append(seq![(48 + nd) as u8], out_prev);
            lemma_dec_val_singleton((48 + nd) as u8);
            lemma_suffix_val_step(a@, k as int);
            assert(nd as nat + 10 * nc as nat == digit_val(a@[n - 1 - k]) * 256 + carry as nat);
            lemma_mul256_step(
                dec_val(out_prev),
                carry as nat,
                suffix_val(a@, k as int),
                b as nat,
                digit_val(a@[n - 1 - k]),
                nd as nat,
                nc as nat,
                p,
            );
            assert(pow10((k + 1) as nat) == 10 * p);
            assert(nc as nat * (10 * p) == nc as nat * pow10((k + 1) as nat));
        }
        carry = nc;
        k = k + 1;
    }
    proof {
        assert(suffix_val(a@, n as int) == dec_val(a@));
    }
    if carry > 0 {
        let mut r = u128_to_digits(carry as u128);
        proof {
            lemma_digits_of_correct(carry as nat);
            assert(r@[0] != 48);
        }
        let ghost r_prev = r@;
        crate::json::push_bytes(&mut r, &out);
        proof {
            lemma_dec_val_append(r_prev, out@);
            assert(r@[0] == r_prev[0]);
        }
        r
    } else {
        canonicalize(&out)
    }
}

proof fn lemma_div_step(nk: nat, q: nat, dd: nat, r: nat, dg: nat, cv: nat, r2: nat)
    by (nonlinear_arith)
    requires
        nk == q * dd + r,
        r * 10 + dg == cv * dd + r2,
    ensures
        nk * 10 + dg == (q * 10 + cv) * dd + r2,
{
}

/// Long division of a digit string by a canonical nonzero digit string;
/// returns the canonical digit string of the floor quotient.
pub fn long_div(n: &Vec<u8>, d: &Vec<u8>) -> (q: Vec<u8>)
    requires
        is_digit_seq(n@),
        canonical_digits(d@),
        dec_val(d@) > 0,
    ensures
        canonical_digits(q@),
        dec_val(q@) == dec_val(n@) / dec_val(d@),
{
    let len = n.len();
    let mut rem: Vec<u8> = Vec::new();
    rem.push(48);
    proof {
        assert(rem@ =~= seq![48u8]);
        lemma_dec_val_singleton(48);
    }
    let mut qd: Vec<u8> = Vec::new();
    proof {
        assert(n@.subrange(0, 0) =~= Seq::<u8>::empty());
        assert(dec_val(Seq::<u8>::empty()) == 0);
        assert(dec_val(qd@) == 0);
        assert(0 * dec_val(d@) == 0) by (nonlinear_arith);
    }
    let mut k: usize = 0;
    while k < len
        invariant
            k <= len,
            len == n.len(),
            is_digit_seq(n@),
            canonical_digits(d@),
            dec_val(d@) > 0,
            qd.len() == k,
            is_digit_seq(qd@),
            canonical_digits(rem@),
            dec_val(rem@) < dec_val(d@),
            dec_val(n@.subrange(0, k as int)) == dec_val(qd@) * dec_val(d@) + dec_val(rem@),
        decreases len - k,
    {
        let dg = n[k];
        let ghost rem_before: nat = dec_val(rem@);
        let ghost rem_prev = rem@;
        if rem.len() == 1 && rem[0] == 48 {
            let mut fresh: Vec<u8> = Vec::new();
            fresh.push(dg);
            rem = fresh;
            proof {
                assert(rem_prev =~= seq![48u8]);
                lemma_dec_val_singleton(48);
                assert(rem_before == 0);
                assert(rem@ =~= seq![dg]);
                lemma_dec_val_singleton(dg);
                assert(dec_val(rem@) == rem_before * 10 + digit_val(dg));
            }
        } else {
            rem.push(dg);
            proof {
                lemma_dec_val_push(rem_prev, dg);
                assert(rem@[0] == rem_prev[0]);
            }
        }
        let ghost r0: nat = dec_val(rem@);
        proof {
            assert(r0 == rem_before * 10 + digit_val(n@[k as int]));
            assert(r0 < 10 * dec_val(d@)) by (nonlinear_arith)
                requires
                    r0 == rem_before * 10 + digit_val(n@[k as int]),
                    rem_before < dec_val(d@),
                    digit_val(n@[k as int]) <= 9,
            ;
        }
        let mut cnt: u8 = 48;
        while ge_digits(&rem, d)
            invariant
                canonical_digits(rem@),
                canonical_digits(d@),
                dec_val(d@) > 0,
                48 <= cnt <= 57,
                r0 == (cnt - 48) * dec_val(d@) + dec_val(rem@),
                r0 < 10 * dec_val(d@),
            decreases dec_val(rem@),
        {
            let next = sub_digits(&rem, d);
            proof {
                assert((cnt - 48 + 1) * dec_val(d@) <= r0) by (nonlinear_arith)
                    requires
                        r0 == (cnt - 48) * dec_val(d@) + dec_val(rem@),
                        dec_val(rem@) >= dec_val(d@),
                ;
                assert(cnt - 48 + 1 < 10) by (nonlinear_arith)
                    requires
                        (cnt - 48 + 1) * dec_val(d@) <= r0,
                        r0 < 10 * dec_val(d@),
                        dec_val(d@) > 0,
                ;
                assert((cnt - 48 + 1) * dec_val(d@) == (cnt - 48) * dec_val(d@) + dec_val(d@))
                    by (nonlinear_arith);
            }
            rem = next;
            cnt = cnt + 1;
        }
        let ghost qd_prev = qd@;
        qd.push(cnt);
        proof {
            lemma_dec_val_push(qd_prev, cnt);
            assert(n@.subrange(0, k + 1) =~= n@.subrange(0, k as int).push(n@[k as int]));
            lemma_dec_val_push(n@.subrange(0, k as int), n@[k as int]);
            lemma_div_step(
                dec_val(n@.subrange(0, k as int)),
                dec_val(qd_prev),
                dec_val(d@),
                rem_before,
                digit_val(n@[k as int]),
                (cnt - 48) as nat,
                dec_val(rem@),
            );
        }
        k = k + 1;
    }
    proof {
        assert(n@.subrange(0, len as int) =~= n@);
        vstd::arithmetic::div_mod::lemma_fundamental_div_mod_converse(
            dec_val(n@) as int,
            dec_val(d@) as int,
            dec_val(qd@) as int,
            dec_val(rem@) as int,
        );
    }
    canonicalize(&qd)
}

/// Render a 128-bit value as its canonical digit string.
pub fn u128_to_digits(x: u128) -> (r: Vec<u8>)
    ensures
        r@ == digits_of(x as nat),
        canonical_digits(r@),
        dec_val(r@) == x as nat,
    decreases x,
{
    proof {
        lemma_digits_of_correct(x as nat);
    }
    if x < 10 {
        let mut r: Vec<u8> = Vec::new();
        r.push(48 + x as u8);
        proof {
            assert(r@ =~= seq![(48 + x as nat) as u8]);
        }
        r
    } else {
        let mut r = u128_to_digits(x / 10);
        r.push(48 + (x % 10) as u8);
        proof {
            assert((x / 10) as nat == x as nat / 10);
            assert((x % 10) as nat == x as nat % 10);
            assert(r@ =~= digits_of(x as nat / 10).push((48 + x as nat % 10) as u8));
        }
        r
    }
}

proof fn lemma_prefix_le(v: Seq<u8>, i: int)
    requires
        is_digit_seq(v),
        0 <= i <= v.len(),
    ensures
        dec_val(v) >= dec_val(v.subrange(0, i)),
{
    assert(v =~= v.subrange(0, i) + v.subrange(i, v.len() as int));
    lemma_dec_val_append(v.subrange(0, i), v.subrange(i, v.len() as int));
    lemma_pow10_pos(v.subrange(i, v.len() as int).len());
    lemma_mul_inequality(1, pow10(v.subrange(i, v.len() as int).len()) as int, dec_val(
        v.subrange(0, i),
    ) as int);
    assert(dec_val(v.subrange(0, i)) * 1 == dec_val(v.subrange(0, i))) by (nonlinear_arith);
    assert(dec_val(v.subrange(0, i)) * pow10(v.subrange(i, v.len() as int).len()) >= dec_val(
        v.subrange(0, i),
    ) * 1) by (nonlinear_arith)
        requires
            pow10(v.subrange(i, v.len() as int).len()) >= 1,
    ;
}

/// Read a digit string back as a 128-bit value; reports when it does not
/// fit.
pub fn digits_to_u128(v: &Vec<u8>) -> (r: Option<u128>)
    requires
        is_digit_seq(v@),
    ensures
        match r {
            Some(x) => x as nat == dec_val(v@),
            None => dec_val(v@) > u128::MAX,
        },
{
    let n = v.len();
    let mut acc: u128 = 0;
    let mut i: usize = 0;
    while i < n
        invariant
            i <= n,
            n == v.len(),
            is_digit_seq(v@),
            acc as nat == dec_val(v@.subrange(0, i as int)),
        decreases n - i,
    {
        let d = v[i];
        proof {
            assert(v@.subrange(0, i + 1) =~= v@.subrange(0, i as int).push(v@[i as int]));
            lemma_dec_val_push(v@.subrange(0, i as int), v@[i as int]);
        }
        let shifted = match acc.checked_mul(10) {
            Some(s) => s,
            None => {
                proof {
                    lemma_prefix_le(v@, i + 1);
                }
                return None;
            },
        };
        let next = match shifted.checked_add((d - 48) as u128) {
            Some(s) => s,
            None => {
                proof {
                    lemma_prefix_le(v@, i + 1);
                }
                return None;
            },
        };
        acc = next;
        i = i + 1;
    }
    proof {
        assert(v@.subrange(0, n as int) =~= v@);
    }
    Some(acc)
}

/// Read a digit string back as a 64-bit value; reports when it does not
/// fit.
pub fn digits_to_u64(v: &Vec<u8>) -> (r: Option<u64>)
    requires
        is_digit_seq(v@),
    ensures
        match r {
            Some(x) => x as nat == dec_val(v@),
            None => dec_val(v@) > u64::MAX,
        },
{
    match digits_to_u128(v) {
        Some(x) => {
            if x <= u64::MAX as u128 {
                Some(x as u64)
            } else {
                None
            }
        },
        None => None,
    }
}

} // verus!

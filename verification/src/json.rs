//! Building blocks of the canonical payload codec: exact literal matching,
//! quoted decimal runs, and quoted symbol runs. Every parser here is both
//! sound (what it accepts is exactly the bytes it reports) and complete
//! (when it rejects, no admissible field content sits at that position),
//! which is what lets the record decoders state an if-and-only-if contract.

use vstd::prelude::*;

verus! {

use crate::digits::{canonical_digits, is_ascii_digit, is_digit_seq};
use crate::model::{symbol_byte_ok, symbol_wf};

/// A quoted run on the wire: the content bytes then the closing quote.
pub open spec fn qrun(s: Seq<u8>) -> Seq<u8> {
    s + seq![34u8]
}

/// Splitting a window equality over a concatenation.
pub proof fn lemma_window_split(b: Seq<u8>, i: int, x: Seq<u8>, y: Seq<u8>)
    requires
        0 <= i,
        i + x.len() + y.len() <= b.len(),
        b.subrange(i, i + x.len() + y.len()) == x + y,
    ensures
        b.subrange(i, i + x.len()) == x,
        b.subrange(i + x.len(), i + x.len() + y.len()) == y,
{
    assert forall|k: int| 0 <= k < x.len() implies b.subrange(i, i + x.len())[k] == x[k] by {
        assert((x + y)[k] == x[k]);
        assert(b.subrange(i, i + x.len() + y.len())[k] == b[i + k]);
    }
    assert(b.subrange(i, i + x.len()) =~= x);
    assert forall|k: int|
        0 <= k < y.len() implies b.subrange(i + x.len(), i + x.len() + y.len())[k] == y[k] by {
        assert((x + y)[x.len() + k] == y[k]);
        assert(b.subrange(i, i + x.len() + y.len())[x.len() + k] == b[i + x.len() + k]);
    }
    assert(b.subrange(i + x.len(), i + x.len() + y.len()) =~= y);
}

/// Joining two adjacent window equalities into one over the concatenation.
pub proof fn lemma_window_join(b: Seq<u8>, i: int, x: Seq<u8>, y: Seq<u8>)
    requires
        0 <= i,
        i + x.len() + y.len() <= b.len(),
        b.subrange(i, i + x.len()) == x,
        b.subrange(i + x.len(), i + x.len() + y.len()) == y,
    ensures
        b.subrange(i, i + x.len() + y.len()) == x + y,
{
    assert forall|k: int|
        0 <= k < x.len() + y.len() implies b.subrange(i, i + x.len() + y.len())[k] == (x + y)[k] by {
        if k < x.len() {
            assert(b.subrange(i, i + x.len())[k] == b[i + k]);
        } else {
            assert(b.subrange(i + x.len(), i + x.len() + y.len())[k - x.len()] == b[i + k]);
        }
    }
    assert(b.subrange(i, i + x.len() + y.len()) =~= x + y);
}

/// Two quote-delimited runs starting at the same position are the same run.
pub proof fn lemma_delimited_unique(b: Seq<u8>, i: int, d1: Seq<u8>, d2: Seq<u8>)
    requires
        0 <= i,
        forall|k: int| 0 <= k < d1.len() ==> #[trigger] d1[k] != 34,
        forall|k: int| 0 <= k < d2.len() ==> #[trigger] d2[k] != 34,
        i + d1.len() + 1 <= b.len(),
        b.subrange(i, i + d1.len() + 1) == qrun(d1),
        i + d2.len() + 1 <= b.len(),
        b.subrange(i, i + d2.len() + 1) == qrun(d2),
    ensures
        d1 == d2,
{
    if d1.len() < d2.len() {
        assert(b[i + d1.len()] == b.subrange(i, i + d1.len() + 1)[d1.len() as int]);
        assert(qrun(d1)[d1.len() as int] == 34);
        assert(b[i + d1.len()] == b.subrange(i, i + d2.len() + 1)[d1.len() as int]);
        assert(qrun(d2)[d1.len() as int] == d2[d1.len() as int]);
        assert(false);
    } else if d2.len() < d1.len() {
        assert(b[i + d2.len()] == b.subrange(i, i + d2.len() + 1)[d2.len() as int]);
        assert(qrun(d2)[d2.len() as int] == 34);
        assert(b[i + d2.len()] == b.subrange(i, i + d1.len() + 1)[d2.len() as int]);
        assert(qrun(d1)[d2.len() as int] == d1[d2.len() as int]);
        assert(false);
    } else {
        assert forall|k: int| 0 <= k < d1.len() implies d1[k] == d2[k] by {
            assert(qrun(d1)[k] == d1[k]);
            assert(qrun(d2)[k] == d2[k]);
            assert(b.subrange(i, i + d1.len() + 1)[k] == b[i + k]);
            assert(b.subrange(i, i + d2.len() + 1)[k] == b[i + k]);
        }
        assert(d1 =~= d2);
    }
}

/// An ASCII digit is never the quote byte.
pub proof fn lemma_digit_seq_no_quote(s: Seq<u8>)
    requires
        is_digit_seq(s),
    ensures
        forall|k: int| 0 <= k < s.len() ==> #[trigger] s[k] != 34,
{
}

/// A well-formed symbol byte is never the quote byte.
pub proof fn lemma_symbol_no_quote(s: Seq<u8>)
    requires
        symbol_wf(s),
    ensures
        forall|k: int| 0 <= k < s.len() ==> #[trigger] s[k] != 34,
{
}

/// Copy the window `[i, j)` of `b`.
pub fn copy_range(b: &Vec<u8>, i: usize, j: usize) -> (r: Vec<u8>)
    requires
        i <= j <= b@.len(),
    ensures
        r@ == b@.subrange(i as int, j as int),
{
    let mut r: Vec<u8> = Vec::new();
    let mut k: usize = i;
    proof {
        assert(r@ =~= b@.subrange(i as int, i as int));
    }
    while k < j
        invariant
            i <= k <= j,
            j <= b@.len(),
            r@ == b@.subrange(i as int, k as int),
        decreases j - k,
    {
        let x = b[k];
        r.push(x);
        proof {
            assert(r@ =~= b@.subrange(i as int, k + 1));
        }
        k = k + 1;
    }
    r
}

/// Append the bytes of `lit` to `out`.
pub fn push_bytes(out: &mut Vec<u8>, lit: &Vec<u8>)
    ensures
        final(out)@ == old(out)@ + lit@,
{
    let n = lit.len();
    let mut i: usize = 0;
    proof {
        assert(out@ =~= out@ + lit@.subrange(0, 0));
    }
    while i < n
        invariant
            i <= n,
            n == lit.len(),
            out@ == old(out)@ + lit@.subrange(0, i as int),
        decreases n - i,
    {
        let x = lit[i];
        out.push(x);
        proof {
            assert(out@ =~= old(out)@ + lit@.subrange(0, i + 1));
        }
        i = i + 1;
    }
    proof {
        assert(lit@.subrange(0, n as int) =~= lit@);
    }
}

/// Match the exact bytes of `lit` at position `i`; succeeds if and only if
/// they are there.
pub fn parse_exact(b: &Vec<u8>, i: usize, lit: &Vec<u8>) -> (r: Option<usize>)
    requires
        i <= b@.len(),
    ensures
        match r {
            Some(j) => {
                &&& j == i + lit@.len()
                &&& j <= b@.len()
                &&& b@.subrange(i as int, j as int) == lit@
            },
            None => !(i + lit@.len() <= b@.len() && b@.subrange(i as int, i + lit@.len())
                == lit@),
        },
{
    let m = lit.len();
    if b.len() - i < m {
        return None;
    }
    let iend = i + m;
    let mut t: usize = i;
    while t < iend
        invariant
            i <= t <= iend,
            iend == i + m,
            m == lit.len(),
            iend <= b@.len(),
            forall|t0: int| i <= t0 < t ==> b@[t0] == lit@[t0 - i],
        decreases iend - t,
    {
        if b[t] != lit[t - i] {
            proof {
                if i + m <= b@.len() && b@.subrange(i as int, i + m) == lit@ {
                    assert(b@.subrange(i as int, i + m)[t - i] == b@[t as int]);
                }
            }
            return None;
        }
        t = t + 1;
    }
    proof {
        assert(b@.subrange(i as int, i + m) =~= lit@);
    }
    Some(iend)
}

/// Parse a quoted canonical decimal run at `i`, consuming the closing
/// quote. Succeeds if and only if some canonical digit run, closed by a
/// quote, sits at `i`.
pub fn parse_quoted_digits(b: &Vec<u8>, i: usize) -> (r: Option<(Vec<u8>, usize)>)
    requires
        i <= b@.len(),
    ensures
        match r {
            Some((d, j)) => {
                &&& canonical_digits(d@)
                &&& j == i + d@.len() + 1
                &&& j <= b@.len()
                &&& b@.subrange(i as int, j as int) == qrun(d@)
            },
            None => forall|d: Seq<u8>|
                canonical_digits(d) ==> !(i + d.len() + 1 <= b@.len() && b@.subrange(
                    i as int,
                    i + d.len() + 1,
                ) == qrun(d)),
        },
{
    let n = b.len();
    let mut j: usize = i;
    while j < n && b[j] >= 48 && b[j] <= 57
        invariant
            i <= j <= n,
            n == b@.len(),
            forall|k: int| i <= k < j ==> is_ascii_digit(#[trigger] b@[k]),
        decreases n - j,
    {
        j = j + 1;
    }
    if j == i {
        proof {
            assert forall|d: Seq<u8>|
                canonical_digits(d) implies !(i + d.len() + 1 <= b@.len() && b@.subrange(
                i as int,
                i + d.len() + 1,
            ) == qrun(d)) by {
                if i + d.len() + 1 <= b@.len() && b@.subrange(i as int, i + d.len() + 1) == qrun(
                    d,
                ) {
                    assert(b@[i as int] == b@.subrange(i as int, i + d.len() + 1)[0]);
                    assert(qrun(d)[0] == d[0]);
                    assert(is_ascii_digit(d[0]));
                }
            }
        }
        return None;
    }
    if b[i] == 48 && j > i + 1 {
        proof {
            assert forall|d: Seq<u8>|
                canonical_digits(d) implies !(i + d.len() + 1 <= b@.len() && b@.subrange(
                i as int,
                i + d.len() + 1,
            ) == qrun(d)) by {
                if i + d.len() + 1 <= b@.len() && b@.subrange(i as int, i + d.len() + 1) == qrun(
                    d,
                ) {
                    assert(d[0] == b@.subrange(i as int, i + d.len() + 1)[0]);
                    assert(d[0] == b@[i as int]);
                    // canonical with a leading zero means the run is just "0"
                    assert(d.len() == 1);
                    assert(qrun(d)[1] == 34);
                    assert(b@[i + 1] == b@.subrange(i as int, i + d.len() + 1)[1]);
                    assert(is_ascii_digit(b@[i + 1]));
                }
            }
        }
        return None;
    }
    if j == n {
        proof {
            assert forall|d: Seq<u8>|
                canonical_digits(d) implies !(i + d.len() + 1 <= b@.len() && b@.subrange(
                i as int,
                i + d.len() + 1,
            ) == qrun(d)) by {
                if i + d.len() + 1 <= b@.len() && b@.subrange(i as int, i + d.len() + 1) == qrun(
                    d,
                ) {
                    let p = i + d.len();
                    assert(b@[p] == b@.subrange(i as int, i + d.len() + 1)[d.len() as int]);
                    assert(qrun(d)[d.len() as int] == 34);
                    assert(i <= p < n);
                    assert(is_ascii_digit(b@[p]));
                }
            }
        }
        return None;
    }
    if b[j] != 34 {
        proof {
            assert(!is_ascii_digit(b@[j as int]));
            assert forall|d: Seq<u8>|
                canonical_digits(d) implies !(i + d.len() + 1 <= b@.len() && b@.subrange(
                i as int,
                i + d.len() + 1,
            ) == qrun(d)) by {
                if i + d.len() + 1 <= b@.len() && b@.subrange(i as int, i + d.len() + 1) == qrun(
                    d,
                ) {
                    let p = i + d.len();
                    if p < j {
                        assert(b@[p] == b@.subrange(i as int, i + d.len() + 1)[d.len() as int]);
                        assert(qrun(d)[d.len() as int] == 34);
                        assert(is_ascii_digit(b@[p]));
                    } else if p == j {
                        assert(b@[p] == b@.subrange(i as int, i + d.len() + 1)[d.len() as int]);
                        assert(qrun(d)[d.len() as int] == 34);
                    } else {
                        assert(d[j - i] == b@.subrange(i as int, i + d.len() + 1)[j - i]);
                        assert(d[j - i] == b@[j as int]);
                        assert(is_ascii_digit(d[j - i]));
                    }
                }
            }
        }
        return None;
    }
    let d = copy_range(b, i, j);
    proof {
        assert(is_digit_seq(d@));
        assert(d@[0] == b@[i as int]);
        assert(b@.subrange(i as int, j + 1) =~= qrun(d@));
    }
    Some((d, j + 1))
}

/// Parse a quoted symbol run at `i`, consuming the closing quote. Succeeds
/// if and only if some run of symbol-safe bytes, closed by a quote, sits at
/// `i`.
pub fn parse_quoted_symbol(b: &Vec<u8>, i: usize) -> (r: Option<(Vec<u8>, usize)>)
    requires
        i <= b@.len(),
    ensures
        match r {
            Some((s, j)) => {
                &&& symbol_wf(s@)
                &&& j == i + s@.len() + 1
                &&& j <= b@.len()
                &&& b@.subrange(i as int, j as int) == qrun(s@)
            },
            None => forall|s: Seq<u8>|
                symbol_wf(s) ==> !(i + s.len() + 1 <= b@.len() && b@.subrange(
                    i as int,
                    i + s.len() + 1,
                ) == qrun(s)),
        },
{
    let n = b.len();
    let mut j: usize = i;
    while j < n && b[j] >= 0x20 && b[j] != 0x22 && b[j] != 0x5c
        invariant
            i <= j <= n,
            n == b@.len(),
            forall|k: int| i <= k < j ==> symbol_byte_ok(#[trigger] b@[k]),
        decreases n - j,
    {
        j = j + 1;
    }
    if j == n {
        proof {
            assert forall|s: Seq<u8>|
                symbol_wf(s) implies !(i + s.len() + 1 <= b@.len() && b@.subrange(
                i as int,
                i + s.len() + 1,
            ) == qrun(s)) by {
                if i + s.len() + 1 <= b@.len() && b@.subrange(i as int, i + s.len() + 1) == qrun(
                    s,
                ) {
                    let p = i + s.len();
                    assert(b@[p] == b@.subrange(i as int, i + s.len() + 1)[s.len() as int]);
                    assert(qrun(s)[s.len() as int] == 34);
                    assert(i <= p < n);
                    assert(symbol_byte_ok(b@[p]));
                }
            }
        }
        return None;
    }
    if b[j] != 34 {
        proof {
            assert(!symbol_byte_ok(b@[j as int]));
            assert forall|s: Seq<u8>|
                symbol_wf(s) implies !(i + s.len() + 1 <= b@.len() && b@.subrange(
                i as int,
                i + s.len() + 1,
            ) == qrun(s)) by {
                if i + s.len() + 1 <= b@.len() && b@.subrange(i as int, i + s.len() + 1) == qrun(
                    s,
                ) {
                    let p = i + s.len();
                    if p < j {
                        assert(b@[p] == b@.subrange(i as int, i + s.len() + 1)[s.len() as int]);
                        assert(qrun(s)[s.len() as int] == 34);
                        assert(symbol_byte_ok(b@[p]));
                    } else if p == j {
                        assert(b@[p] == b@.subrange(i as int, i + s.len() + 1)[s.len() as int]);
                        assert(qrun(s)[s.len() as int] == 34);
                    } else {
                        assert(s[j - i] == b@.subrange(i as int, i + s.len() + 1)[j - i]);
                        assert(s[j - i] == b@[j as int]);
                        assert(symbol_byte_ok(s[j - i]));
                    }
                }
            }
        }
        return None;
    }
    let s = copy_range(b, i, j);
    proof {
        assert(symbol_wf(s@));
        assert(b@.subrange(i as int, j + 1) =~= qrun(s@));
    }
    Some((s, j + 1))
}

} // verus!

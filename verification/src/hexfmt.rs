//! Lower-case hexadecimal rendering of raw bytes, and its exact inverse.
//! Addresses and transaction hashes travel through the queue payloads and
//! the key-value store in this form; the pair cache is keyed by the
//! `0x`-prefixed rendering of the pair address.

use vstd::prelude::*;

verus! {

/// ASCII code of the lower-case hex digit for a nibble.
pub open spec fn hex_digit(n: u8) -> u8 {
    if n < 10 {
        (48 + n) as u8
    } else {
        (87 + n) as u8
    }
}

pub open spec fn is_hex_lower(c: u8) -> bool {
    (48 <= c && c <= 57) || (97 <= c && c <= 102)
}

pub open spec fn hex_of_byte(b: u8) -> Seq<u8> {
    seq![hex_digit(b / 16), hex_digit(b % 16)]
}

/// Lower-case hex rendering of a byte string, two digits per byte.
pub open spec fn hex_of(s: Seq<u8>) -> Seq<u8>
    decreases s.len(),
{
    if s.len() == 0 {
        Seq::empty()
    } else {
        hex_of(s.drop_last()) + hex_of_byte(s.last())
    }
}

/// The canonical key-value key of an address: `0x` then lower-case hex.
pub open spec fn addr_key(a: Seq<u8>) -> Seq<u8> {
    seq![48u8, 120u8] + hex_of(a)
}

pub proof fn lemma_hex_of_len(s: Seq<u8>)
    ensures
        hex_of(s).len() == 2 * s.len(),
    decreases s.len(),
{
    if s.len() > 0 {
        lemma_hex_of_len(s.drop_last());
    }
}

/// The hex digits of byte `q` sit at positions `2q` and `2q + 1`.
pub proof fn lemma_hex_of_index(s: Seq<u8>, q: int)
    requires
        0 <= q < s.len(),
    ensures
        hex_of(s).len() == 2 * s.len(),
        hex_of(s)[2 * q] == hex_digit(s[q] / 16),
        hex_of(s)[2 * q + 1] == hex_digit(s[q] % 16),
    decreases s.len(),
{
    lemma_hex_of_len(s);
    if q == s.len() - 1 {
        lemma_hex_of_len(s.drop_last());
    } else {
        lemma_hex_of_index(s.drop_last(), q);
        assert(s.drop_last()[q] == s[q]);
    }
}

/// Hex rendering is injective on byte strings of equal length.
pub proof fn lemma_hex_of_inj(a: Seq<u8>, b: Seq<u8>)
    requires
        a.len() == b.len(),
        hex_of(a) == hex_of(b),
    ensures
        a == b,
{
    assert forall|q: int| 0 <= q < a.len() implies a[q] == b[q] by {
        lemma_hex_of_index(a, q);
        lemma_hex_of_index(b, q);
        assert(hex_digit(a[q] / 16) == hex_digit(b[q] / 16));
        assert(hex_digit(a[q] % 16) == hex_digit(b[q] % 16));
        assert(a[q] / 16 == b[q] / 16);
        assert(a[q] % 16 == b[q] % 16);
    }
    assert(a =~= b);
}

/// Append the hex rendering of `data` to `out`.
pub fn push_hex(out: &mut Vec<u8>, data: &Vec<u8>)
    ensures
        final(out)@ == old(out)@ + hex_of(data@),
{
    let n = data.len();
    let mut i: usize = 0;
    proof {
        assert(data@.subrange(0, 0) =~= Seq::<u8>::empty());
        assert(out@ =~= out@ + hex_of(data@.subrange(0, 0)));
    }
    while i < n
        invariant
            i <= n,
            n == data.len(),
            out@ == old(out)@ + hex_of(data@.subrange(0, i as int)),
        decreases n - i,
    {
        let b = data[i];
        let hi = b / 16;
        let lo = b % 16;
        let c_hi = if hi < 10 {
            48 + hi
        } else {
            87 + hi
        };
        let c_lo = if lo < 10 {
            48 + lo
        } else {
            87 + lo
        };
        out.push(c_hi);
        out.push(c_lo);
        proof {
            assert(data@.subrange(0, i + 1).drop_last() =~= data@.subrange(0, i as int));
            assert(data@.subrange(0, i + 1).last() == data@[i as int]);
            assert(out@ =~= old(out)@ + hex_of(data@.subrange(0, i + 1)));
        }
        i = i + 1;
    }
    proof {
        assert(data@.subrange(0, n as int) =~= data@);
    }
}

/// Parse `count` bytes from a fixed-width window of `2 * count` lower-case
/// hex digits starting at `i`; reports failure exactly when no byte string
/// renders to that window.
pub fn parse_hex(b: &Vec<u8>, i: usize, count: usize) -> (r: Option<(Vec<u8>, usize)>)
    requires
        count <= 64,
        i <= b@.len(),
    ensures
        match r {
            Some((out, j)) => {
                &&& out@.len() == count
                &&& j == i + 2 * count
                &&& j <= b@.len()
                &&& b@.subrange(i as int, j as int) == hex_of(out@)
            },
            None => forall|s: Seq<u8>|
                s.len() == count ==> !(i + 2 * count <= b@.len() && b@.subrange(
                    i as int,
                    i + 2 * count,
                ) == hex_of(s)),
        },
{
    if b.len() - i < 2 * count {
        return None;
    }
    let mut out: Vec<u8> = Vec::new();
    let mut q: usize = 0;
    proof {
        assert(b@.subrange(i as int, i as int) =~= Seq::<u8>::empty());
        assert(hex_of(out@) =~= Seq::<u8>::empty());
    }
    while q < count
        invariant
            q <= count,
            count <= 64,
            i + 2 * count <= b.len(),
            out@.len() == q,
            b@.subrange(i as int, i + 2 * q) == hex_of(out@),
        decreases count - q,
    {
        let c_hi = b[i + 2 * q];
        let c_lo = b[i + 2 * q + 1];
        let hi_ok = (48 <= c_hi && c_hi <= 57) || (97 <= c_hi && c_hi <= 102);
        let lo_ok = (48 <= c_lo && c_lo <= 57) || (97 <= c_lo && c_lo <= 102);
        if !hi_ok || !lo_ok {
            proof {
                assert forall|s: Seq<u8>|
                    s.len() == count implies !(i + 2 * count <= b@.len() && b@.subrange(
                    i as int,
                    i + 2 * count,
                ) == hex_of(s)) by {
                    if i + 2 * count <= b@.len() && b@.subrange(i as int, i + 2 * count) == hex_of(
                        s,
                    ) {
                        lemma_hex_of_index(s, q as int);
                        assert(b@.subrange(i as int, i + 2 * count)[2 * q] == hex_digit(
                            s[q as int] / 16,
                        ));
                        assert(b@.subrange(i as int, i + 2 * count)[2 * q + 1] == hex_digit(
                            s[q as int] % 16,
                        ));
                        assert(is_hex_lower(hex_digit(s[q as int] / 16)));
                        assert(is_hex_lower(hex_digit(s[q as int] % 16)));
                    }
                }
            }
            return None;
        }
        let hi = if c_hi <= 57 {
            c_hi - 48
        } else {
            c_hi - 87
        };
        let lo = if c_lo <= 57 {
            c_lo - 48
        } else {
            c_lo - 87
        };
        let byte = hi * 16 + lo;
        let ghost out_prev = out@;
        out.push(byte);
        proof {
            assert(byte / 16 == hi && byte % 16 == lo);
            assert(hex_of_byte(byte) =~= seq![c_hi, c_lo]);
            assert(out@.drop_last() =~= out_prev);
            assert(hex_of(out@) == hex_of(out_prev) + hex_of_byte(byte));
            assert(b@.subrange(i as int, i + 2 * (q + 1)) =~= b@.subrange(i as int, i + 2 * q)
                + seq![c_hi, c_lo]);
        }
        q = q + 1;
    }
    let iend = i + 2 * count;
    Some((out, iend))
}

/// The canonical store key of an address.
pub fn canonical_key(a: &crate::model::Address) -> (r: Vec<u8>)
    ensures
        r@ == addr_key(a@),
{
    let mut r: Vec<u8> = Vec::new();
    r.push(48);
    r.push(120);
    proof {
        assert(r@ =~= seq![48u8, 120u8]);
    }
    push_hex(&mut r, &a.bytes);
    r
}

} // verus!

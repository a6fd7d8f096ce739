//! Canonical codec for `Token` and `Pair` records: the values the
//! enrichment cache writes into the key-value store and the price engine
//! reads back. A `Pair` encoding nests two `Token` encodings.

use vstd::prelude::*;

verus! {

use crate::arith::{digits_to_u64, u128_to_digits};
use crate::digits::{
    canonical_digits, dec_val, digits_of, lemma_digits_of_correct, lemma_digits_of_unique,
};
use crate::hexfmt::{hex_of, lemma_hex_of_len, parse_hex, push_hex};
use crate::json::{
    lemma_delimited_unique, lemma_digit_seq_no_quote, lemma_symbol_no_quote, lemma_window_join,
    lemma_window_split, parse_exact, parse_quoted_digits, parse_quoted_symbol, push_bytes, qrun,
};
use crate::literals::{
    lit_addr_open, lit_close_obj, lit_decimals, lit_pair_token0, lit_pair_token1, lit_supply_c,
    lit_symbol_c, vec_lit_addr_open, vec_lit_close_obj, vec_lit_decimals, vec_lit_pair_token0,
    vec_lit_pair_token1, vec_lit_supply_c, vec_lit_symbol_c,
};
use crate::model::{
    Address, Pair, PairV, SUPPLY_DIGITS_MAX, Token, TokenV, pair_wf, token_wf,
};

/// The leading half of a canonical `Token` encoding: address and decimals.
pub open spec fn enc_token_head(t: TokenV) -> Seq<u8> {
    lit_addr_open() + hex_of(t.address) + lit_decimals() + qrun(digits_of(t.decimals as nat))
}

/// The canonical encoding of a `Token`.
pub open spec fn enc_token(t: TokenV) -> Seq<u8> {
    enc_token_head(t) + lit_symbol_c() + qrun(t.symbol) + lit_supply_c() + qrun(t.total_supply)
        + lit_close_obj()
}

/// Digit-run length of the decimals field.
pub open spec fn tk_d(t: TokenV) -> int {
    digits_of(t.decimals as nat).len() as int
}

/// Length of a canonical `Token` encoding.
pub open spec fn enc_token_len(t: TokenV) -> int {
    100 + tk_d(t) + t.symbol.len() + t.total_supply.len()
}

pub proof fn lemma_enc_token_len(t: TokenV)
    requires
        token_wf(t),
    ensures
        enc_token(t).len() == enc_token_len(t),
{
    lemma_hex_of_len(t.address);
}

/// Window decomposition of the leading half of a `Token` encoding.
#[verifier::rlimit(100)]
proof fn lemma_tk_peel_head(b: Seq<u8>, i: int, t: TokenV)
    requires
        token_wf(t),
        0 <= i,
        i + 69 + tk_d(t) <= b.len(),
        b.subrange(i, i + 69 + tk_d(t)) == enc_token_head(t),
    ensures
        b.subrange(i, i + 14) == lit_addr_open(),
        b.subrange(i + 14, i + 54) == hex_of(t.address),
        b.subrange(i + 54, i + 68) == lit_decimals(),
        b.subrange(i + 68, i + 69 + tk_d(t)) == qrun(digits_of(t.decimals as nat)),
{
    lemma_hex_of_len(t.address);
    let x1 = lit_addr_open();
    let x2 = x1 + hex_of(t.address);
    let x3 = x2 + lit_decimals();
    lemma_window_split(b, i, x3, qrun(digits_of(t.decimals as nat)));
    lemma_window_split(b, i, x2, lit_decimals());
    lemma_window_split(b, i, x1, hex_of(t.address));
}

/// Field-window decomposition of a canonical `Token` encoding at `i`.
#[verifier::rlimit(100)]
proof fn lemma_tk_peel(b: Seq<u8>, i: int, t: TokenV)
    requires
        token_wf(t),
        0 <= i,
        i + enc_token_len(t) <= b.len(),
        b.subrange(i, i + enc_token_len(t)) == enc_token(t),
    ensures
        b.subrange(i, i + 14) == lit_addr_open(),
        b.subrange(i + 14, i + 54) == hex_of(t.address),
        b.subrange(i + 54, i + 68) == lit_decimals(),
        b.subrange(i + 68, i + 69 + tk_d(t)) == qrun(digits_of(t.decimals as nat)),
        b.subrange(i + 69 + tk_d(t), i + 80 + tk_d(t)) == lit_symbol_c(),
        b.subrange(i + 80 + tk_d(t), i + 81 + tk_d(t) + t.symbol.len()) == qrun(t.symbol),
        b.subrange(
            i + 81 + tk_d(t) + t.symbol.len(),
            i + 98 + tk_d(t) + t.symbol.len(),
        ) == lit_supply_c(),
        b.subrange(
            i + 98 + tk_d(t) + t.symbol.len(),
            i + 99 + tk_d(t) + t.symbol.len() + t.total_supply.len(),
        ) == qrun(t.total_supply),
        b.subrange(
            i + 99 + tk_d(t) + t.symbol.len() + t.total_supply.len(),
            i + enc_token_len(t),
        ) == lit_close_obj(),
{
    lemma_hex_of_len(t.address);
    let x4 = enc_token_head(t);
    let x5 = x4 + lit_symbol_c();
    let x6 = x5 + qrun(t.symbol);
    let x7 = x6 + lit_supply_c();
    let x8 = x7 + qrun(t.total_supply);
    lemma_window_split(b, i, x8, lit_close_obj());
    lemma_window_split(b, i, x7, qrun(t.total_supply));
    lemma_window_split(b, i, x6, lit_supply_c());
    lemma_window_split(b, i, x5, qrun(t.symbol));
    lemma_window_split(b, i, x4, lit_symbol_c());
    lemma_tk_peel_head(b, i, t);
}

/// No well-formed `Token` encodes to a window starting at `i`.
#[verifier::opaque]
pub open spec fn no_token_encoding_at(b: Seq<u8>, i: int) -> bool {
    forall|tv: TokenV|
        token_wf(tv) ==> !(i + enc_token_len(tv) <= b.len() && b.subrange(
            i,
            i + enc_token_len(tv),
        ) == enc_token(tv))
}

proof fn lemma_tk_none_head(b: Seq<u8>, i: int)
    requires
        0 <= i,
        !(i + 14 <= b.len() && b.subrange(i, i + 14) == lit_addr_open()) || (forall|s: Seq<u8>|
            s.len() == 20 ==> !(i + 54 <= b.len() && b.subrange(i + 14, i + 54) == hex_of(s)))
            || !(i + 68 <= b.len() && b.subrange(i + 54, i + 68) == lit_decimals()),
    ensures
        no_token_encoding_at(b, i),
{
    reveal(no_token_encoding_at);
    assert forall|tv: TokenV|
        token_wf(tv) implies !(i + enc_token_len(tv) <= b.len() && b.subrange(
        i,
        i + enc_token_len(tv),
    ) == enc_token(tv)) by {
        if i + enc_token_len(tv) <= b.len() && b.subrange(i, i + enc_token_len(tv)) == enc_token(
            tv,
        ) {
            lemma_tk_peel(b, i, tv);
        }
    }
}

proof fn lemma_tk_none_dd_run(b: Seq<u8>, i: int)
    requires
        0 <= i,
        forall|d: Seq<u8>|
            canonical_digits(d) ==> !(i + 68 + d.len() + 1 <= b.len() && b.subrange(
                i + 68,
                i + 69 + d.len() as int,
            ) == qrun(d)),
    ensures
        no_token_encoding_at(b, i),
{
    reveal(no_token_encoding_at);
    assert forall|tv: TokenV|
        token_wf(tv) implies !(i + enc_token_len(tv) <= b.len() && b.subrange(
        i,
        i + enc_token_len(tv),
    ) == enc_token(tv)) by {
        if i + enc_token_len(tv) <= b.len() && b.subrange(i, i + enc_token_len(tv)) == enc_token(
            tv,
        ) {
            lemma_tk_peel(b, i, tv);
            lemma_digits_of_correct(tv.decimals as nat);
        }
    }
}

/// The window facts the decimals run leaves at `i + 68`.
pub open spec fn tk_dd_window(b: Seq<u8>, i: int, dd: Seq<u8>) -> bool {
    &&& canonical_digits(dd)
    &&& i + 69 + dd.len() <= b.len()
    &&& b.subrange(i + 68, i + 69 + dd.len() as int) == qrun(dd)
}

#[verifier::rlimit(100)]
proof fn lemma_tk_dd_pin(b: Seq<u8>, i: int, dd: Seq<u8>, tv: TokenV)
    requires
        0 <= i,
        tk_dd_window(b, i, dd),
        token_wf(tv),
        i + enc_token_len(tv) <= b.len(),
        b.subrange(i, i + enc_token_len(tv)) == enc_token(tv),
    ensures
        digits_of(tv.decimals as nat) == dd,
        dec_val(dd) == tv.decimals as nat,
        tk_d(tv) == dd.len(),
{
    lemma_tk_peel(b, i, tv);
    lemma_digits_of_correct(tv.decimals as nat);
    lemma_digit_seq_no_quote(dd);
    lemma_digit_seq_no_quote(digits_of(tv.decimals as nat));
    lemma_delimited_unique(b, i + 68, dd, digits_of(tv.decimals as nat));
}

proof fn lemma_tk_none_dd_val(b: Seq<u8>, i: int, dd: Seq<u8>)
    requires
        0 <= i,
        tk_dd_window(b, i, dd),
        dec_val(dd) > 255,
    ensures
        no_token_encoding_at(b, i),
{
    reveal(no_token_encoding_at);
    assert forall|tv: TokenV|
        token_wf(tv) implies !(i + enc_token_len(tv) <= b.len() && b.subrange(
        i,
        i + enc_token_len(tv),
    ) == enc_token(tv)) by {
        if i + enc_token_len(tv) <= b.len() && b.subrange(i, i + enc_token_len(tv)) == enc_token(
            tv,
        ) {
            lemma_tk_dd_pin(b, i, dd, tv);
        }
    }
}

proof fn lemma_tk_none_sym_lit(b: Seq<u8>, i: int, dd: Seq<u8>)
    requires
        0 <= i,
        tk_dd_window(b, i, dd),
        !(i + 80 + dd.len() <= b.len() && b.subrange(
            i + 69 + dd.len() as int,
            i + 80 + dd.len() as int,
        ) == lit_symbol_c()),
    ensures
        no_token_encoding_at(b, i),
{
    reveal(no_token_encoding_at);
    assert forall|tv: TokenV|
        token_wf(tv) implies !(i + enc_token_len(tv) <= b.len() && b.subrange(
        i,
        i + enc_token_len(tv),
    ) == enc_token(tv)) by {
        if i + enc_token_len(tv) <= b.len() && b.subrange(i, i + enc_token_len(tv)) == enc_token(
            tv,
        ) {
            lemma_tk_dd_pin(b, i, dd, tv);
            lemma_tk_peel(b, i, tv);
        }
    }
}

proof fn lemma_tk_none_sym_run(b: Seq<u8>, i: int, dd: Seq<u8>)
    requires
        0 <= i,
        tk_dd_window(b, i, dd),
        forall|s: Seq<u8>|
            crate::model::symbol_wf(s) ==> !(i + 80 + dd.len() + s.len() + 1 <= b.len()
                && b.subrange(
                i + 80 + dd.len() as int,
                i + 81 + dd.len() as int + s.len() as int,
            ) == qrun(s)),
    ensures
        no_token_encoding_at(b, i),
{
    reveal(no_token_encoding_at);
    assert forall|tv: TokenV|
        token_wf(tv) implies !(i + enc_token_len(tv) <= b.len() && b.subrange(
        i,
        i + enc_token_len(tv),
    ) == enc_token(tv)) by {
        if i + enc_token_len(tv) <= b.len() && b.subrange(i, i + enc_token_len(tv)) == enc_token(
            tv,
        ) {
            lemma_tk_dd_pin(b, i, dd, tv);
            lemma_tk_peel(b, i, tv);
        }
    }
}

/// The window facts the symbol run leaves after the decimals window.
pub open spec fn tk_sym_window(b: Seq<u8>, i: int, dd: Seq<u8>, sym: Seq<u8>) -> bool {
    &&& crate::model::symbol_wf(sym)
    &&& i + 81 + dd.len() + sym.len() <= b.len()
    &&& b.subrange(i + 80 + dd.len() as int, i + 81 + dd.len() as int + sym.len() as int) == qrun(
        sym,
    )
}

#[verifier::rlimit(100)]
proof fn lemma_tk_sym_pin(b: Seq<u8>, i: int, dd: Seq<u8>, sym: Seq<u8>, tv: TokenV)
    requires
        0 <= i,
        tk_dd_window(b, i, dd),
        tk_sym_window(b, i, dd, sym),
        token_wf(tv),
        i + enc_token_len(tv) <= b.len(),
        b.subrange(i, i + enc_token_len(tv)) == enc_token(tv),
    ensures
        tv.symbol == sym,
{
    lemma_tk_dd_pin(b, i, dd, tv);
    lemma_tk_peel(b, i, tv);
    lemma_symbol_no_quote(sym);
    lemma_symbol_no_quote(tv.symbol);
    lemma_delimited_unique(b, i + 80 + dd.len() as int, sym, tv.symbol);
}

proof fn lemma_tk_none_sup_lit(b: Seq<u8>, i: int, dd: Seq<u8>, sym: Seq<u8>)
    requires
        0 <= i,
        tk_dd_window(b, i, dd),
        tk_sym_window(b, i, dd, sym),
        !(i + 98 + dd.len() + sym.len() <= b.len() && b.subrange(
            i + 81 + dd.len() as int + sym.len() as int,
            i + 98 + dd.len() as int + sym.len() as int,
        ) == lit_supply_c()),
    ensures
        no_token_encoding_at(b, i),
{
    reveal(no_token_encoding_at);
    assert forall|tv: TokenV|
        token_wf(tv) implies !(i + enc_token_len(tv) <= b.len() && b.subrange(
        i,
        i + enc_token_len(tv),
    ) == enc_token(tv)) by {
        if i + enc_token_len(tv) <= b.len() && b.subrange(i, i + enc_token_len(tv)) == enc_token(
            tv,
        ) {
            lemma_tk_sym_pin(b, i, dd, sym, tv);
            lemma_tk_dd_pin(b, i, dd, tv);
            lemma_tk_peel(b, i, tv);
        }
    }
}

proof fn lemma_tk_none_sup_run(b: Seq<u8>, i: int, dd: Seq<u8>, sym: Seq<u8>)
    requires
        0 <= i,
        tk_dd_window(b, i, dd),
        tk_sym_window(b, i, dd, sym),
        forall|d: Seq<u8>|
            canonical_digits(d) ==> !(i + 98 + dd.len() + sym.len() + d.len() + 1 <= b.len()
                && b.subrange(
                i + 98 + dd.len() as int + sym.len() as int,
                i + 99 + dd.len() as int + sym.len() as int + d.len() as int,
            ) == qrun(d)),
    ensures
        no_token_encoding_at(b, i),
{
    reveal(no_token_encoding_at);
    assert forall|tv: TokenV|
        token_wf(tv) implies !(i + enc_token_len(tv) <= b.len() && b.subrange(
        i,
        i + enc_token_len(tv),
    ) == enc_token(tv)) by {
        if i + enc_token_len(tv) <= b.len() && b.subrange(i, i + enc_token_len(tv)) == enc_token(
            tv,
        ) {
            lemma_tk_sym_pin(b, i, dd, sym, tv);
            lemma_tk_dd_pin(b, i, dd, tv);
            lemma_tk_peel(b, i, tv);
        }
    }
}

/// The window facts the total-supply run leaves after the symbol window.
pub open spec fn tk_sup_window(
    b: Seq<u8>,
    i: int,
    dd: Seq<u8>,
    sym: Seq<u8>,
    sup: Seq<u8>,
) -> bool {
    &&& canonical_digits(sup)
    &&& i + 99 + dd.len() + sym.len() + sup.len() <= b.len()
    &&& b.subrange(
        i + 98 + dd.len() as int + sym.len() as int,
        i + 99 + dd.len() as int + sym.len() as int + sup.len() as int,
    ) == qrun(sup)
}

#[verifier::rlimit(100)]
proof fn lemma_tk_sup_pin(
    b: Seq<u8>,
    i: int,
    dd: Seq<u8>,
    sym: Seq<u8>,
    sup: Seq<u8>,
    tv: TokenV,
)
    requires
        0 <= i,
        tk_dd_window(b, i, dd),
        tk_sym_window(b, i, dd, sym),
        tk_sup_window(b, i, dd, sym, sup),
        token_wf(tv),
        i + enc_token_len(tv) <= b.len(),
        b.subrange(i, i + enc_token_len(tv)) == enc_token(tv),
    ensures
        tv.total_supply == sup,
{
    lemma_tk_sym_pin(b, i, dd, sym, tv);
    lemma_tk_dd_pin(b, i, dd, tv);
    lemma_tk_peel(b, i, tv);
    lemma_digit_seq_no_quote(sup);
    lemma_digit_seq_no_quote(tv.total_supply);
    lemma_delimited_unique(
        b,
        i + 98 + dd.len() as int + sym.len() as int,
        sup,
        tv.total_supply,
    );
}

proof fn lemma_tk_none_sup(b: Seq<u8>, i: int, dd: Seq<u8>, sym: Seq<u8>, sup: Seq<u8>)
    requires
        0 <= i,
        tk_dd_window(b, i, dd),
        tk_sym_window(b, i, dd, sym),
        tk_sup_window(b, i, dd, sym, sup),
        sup.len() > SUPPLY_DIGITS_MAX as int || !(i + 100 + dd.len() + sym.len() + sup.len()
            <= b.len() && b.subrange(
            i + 99 + dd.len() as int + sym.len() as int + sup.len() as int,
            i + 100 + dd.len() as int + sym.len() as int + sup.len() as int,
        ) == lit_close_obj()),
    ensures
        no_token_encoding_at(b, i),
{
    reveal(no_token_encoding_at);
    assert forall|tv: TokenV|
        token_wf(tv) implies !(i + enc_token_len(tv) <= b.len() && b.subrange(
        i,
        i + enc_token_len(tv),
    ) == enc_token(tv)) by {
        if i + enc_token_len(tv) <= b.len() && b.subrange(i, i + enc_token_len(tv)) == enc_token(
            tv,
        ) {
            lemma_tk_sup_pin(b, i, dd, sym, sup, tv);
            lemma_tk_sym_pin(b, i, dd, sym, tv);
            lemma_tk_dd_pin(b, i, dd, tv);
            lemma_tk_peel(b, i, tv);
        }
    }
}

/// Encode a `Token` canonically.
pub fn encode_token(t: &Token) -> (r: Vec<u8>)
    requires
        t.wf(),
    ensures
        r@ == enc_token(t@),
{
    let mut out: Vec<u8> = Vec::new();
    let l1 = vec_lit_addr_open();
    push_bytes(&mut out, &l1);
    push_hex(&mut out, &t.address.bytes);
    let l2 = vec_lit_decimals();
    push_bytes(&mut out, &l2);
    let dd = u128_to_digits(t.decimals as u128);
    push_bytes(&mut out, &dd);
    out.push(34);
    let l3 = vec_lit_symbol_c();
    push_bytes(&mut out, &l3);
    push_bytes(&mut out, &t.symbol);
    out.push(34);
    let l4 = vec_lit_supply_c();
    push_bytes(&mut out, &l4);
    push_bytes(&mut out, &t.total_supply);
    out.push(34);
    let l5 = vec_lit_close_obj();
    push_bytes(&mut out, &l5);
    proof {
        assert((t.decimals as u128) as nat == t.decimals as nat);
        assert(out@ =~= enc_token(t@));
    }
    out
}

/// Parse one nested `Token` encoding starting at `i`. Succeeds exactly
/// when a well-formed token's encoding sits there.
#[verifier::rlimit(100)]
#[verifier::spinoff_prover]
pub fn parse_token(b: &Vec<u8>, i: usize) -> (r: Option<(Token, usize)>)
    requires
        i <= b@.len(),
    ensures
        match r {
            Some((t, j)) => {
                &&& t.wf()
                &&& i + enc_token_len(t@) == j
                &&& j <= b@.len()
                &&& b@.subrange(i as int, j as int) == enc_token(t@)
            },
            None => no_token_encoding_at(b@, i as int),
        },
{
    let l_open = vec_lit_addr_open();
    let i1 = match parse_exact(b, i, &l_open) {
        Some(j) => j,
        None => {
            proof {
                lemma_tk_none_head(b@, i as int);
            }
            return None;
        },
    };
    let (addr_bytes, i2) = match parse_hex(b, i1, 20) {
        Some(v) => v,
        None => {
            proof {
                lemma_tk_none_head(b@, i as int);
            }
            return None;
        },
    };
    let l_dec = vec_lit_decimals();
    let i3 = match parse_exact(b, i2, &l_dec) {
        Some(j) => j,
        None => {
            proof {
                lemma_tk_none_head(b@, i as int);
            }
            return None;
        },
    };
    let (dd, i4) = match parse_quoted_digits(b, i3) {
        Some(p) => p,
        None => {
            proof {
                lemma_tk_none_dd_run(b@, i as int);
            }
            return None;
        },
    };
    let dec_value = match digits_to_u64(&dd) {
        Some(x) => {
            if x > 255 {
                proof {
                    lemma_tk_none_dd_val(b@, i as int, dd@);
                }
                return None;
            }
            x as u8
        },
        None => {
            proof {
                lemma_tk_none_dd_val(b@, i as int, dd@);
            }
            return None;
        },
    };
    let l_sym = vec_lit_symbol_c();
    let i5 = match parse_exact(b, i4, &l_sym) {
        Some(j) => j,
        None => {
            proof {
                lemma_tk_none_sym_lit(b@, i as int, dd@);
            }
            return None;
        },
    };
    let (sym, i6) = match parse_quoted_symbol(b, i5) {
        Some(p) => p,
        None => {
            proof {
                lemma_tk_none_sym_run(b@, i as int, dd@);
            }
            return None;
        },
    };
    let l_sup = vec_lit_supply_c();
    let i7 = match parse_exact(b, i6, &l_sup) {
        Some(j) => j,
        None => {
            proof {
                lemma_tk_none_sup_lit(b@, i as int, dd@, sym@);
            }
            return None;
        },
    };
    let (sup, i8) = match parse_quoted_digits(b, i7) {
        Some(p) => p,
        None => {
            proof {
                lemma_tk_none_sup_run(b@, i as int, dd@, sym@);
            }
            return None;
        },
    };
    if sup.len() > SUPPLY_DIGITS_MAX {
        proof {
            lemma_tk_none_sup(b@, i as int, dd@, sym@, sup@);
        }
        return None;
    }
    let l_close = vec_lit_close_obj();
    let i9 = match parse_exact(b, i8, &l_close) {
        Some(j) => j,
        None => {
            proof {
                lemma_tk_none_sup(b@, i as int, dd@, sym@, sup@);
            }
            return None;
        },
    };
    let t = Token {
        address: Address { bytes: addr_bytes },
        decimals: dec_value,
        symbol: sym,
        total_supply: sup,
    };
    proof {
        lemma_digits_of_unique(dd@);
        assert(digits_of(t@.decimals as nat) == dd@);
        let x1 = lit_addr_open();
        let x2 = x1 + hex_of(t@.address);
        let x3 = x2 + lit_decimals();
        let x4 = x3 + qrun(dd@);
        let x5 = x4 + lit_symbol_c();
        let x6 = x5 + qrun(t@.symbol);
        let x7 = x6 + lit_supply_c();
        let x8 = x7 + qrun(t@.total_supply);
        lemma_window_join(b@, i as int, x1, hex_of(t@.address));
        lemma_window_join(b@, i as int, x2, lit_decimals());
        lemma_window_join(b@, i as int, x3, qrun(dd@));
        lemma_window_join(b@, i as int, x4, lit_symbol_c());
        lemma_window_join(b@, i as int, x5, qrun(t@.symbol));
        lemma_window_join(b@, i as int, x6, lit_supply_c());
        lemma_window_join(b@, i as int, x7, qrun(t@.total_supply));
        lemma_window_join(b@, i as int, x8, lit_close_obj());
        lemma_enc_token_len(t@);
        assert(b@.subrange(i as int, i9 as int) == enc_token(t@));
    }
    Some((t, i9))
}

/// Two `Token` encodings starting at the same position carry the same
/// token.
pub proof fn lemma_token_window_unique(b: Seq<u8>, i: int, t1: TokenV, t2: TokenV)
    requires
        0 <= i,
        token_wf(t1),
        token_wf(t2),
        i + enc_token_len(t1) <= b.len(),
        b.subrange(i, i + enc_token_len(t1)) == enc_token(t1),
        i + enc_token_len(t2) <= b.len(),
        b.subrange(i, i + enc_token_len(t2)) == enc_token(t2),
    ensures
        t1 == t2,
{
    lemma_tk_peel(b, i, t1);
    lemma_tk_peel(b, i, t2);
    lemma_digits_of_correct(t1.decimals as nat);
    lemma_digits_of_correct(t2.decimals as nat);
    let dd = digits_of(t1.decimals as nat);
    assert(tk_dd_window(b, i, dd));
    lemma_tk_dd_pin(b, i, dd, t2);
    assert(t1.decimals == t2.decimals);
    assert(tk_sym_window(b, i, dd, t1.symbol));
    lemma_tk_sym_pin(b, i, dd, t1.symbol, t2);
    assert(tk_sup_window(b, i, dd, t1.symbol, t1.total_supply));
    lemma_tk_sup_pin(b, i, dd, t1.symbol, t1.total_supply, t2);
    assert(hex_of(t1.address) == hex_of(t2.address));
    assert(t1.address =~= t2.address) by {
        crate::hexfmt::lemma_hex_of_inj(t1.address, t2.address);
    }
}

/// The canonical encoding of a `Pair`.
pub open spec fn enc_pair(p: PairV) -> Seq<u8> {
    lit_addr_open() + hex_of(p.address) + lit_pair_token0() + enc_token(p.token0)
        + lit_pair_token1() + enc_token(p.token1) + lit_close_obj()
}

/// Field-window decomposition of a canonical `Pair` encoding.
#[verifier::rlimit(100)]
proof fn lemma_pr_peel(b: Seq<u8>, pv: PairV)
    requires
        pair_wf(pv),
        b == enc_pair(pv),
    ensures
        b.len() == 76 + enc_token_len(pv.token0) + enc_token_len(pv.token1),
        b.subrange(0, 14) == lit_addr_open(),
        b.subrange(14, 54) == hex_of(pv.address),
        b.subrange(54, 65) == lit_pair_token0(),
        b.subrange(65, 65 + enc_token_len(pv.token0)) == enc_token(pv.token0),
        b.subrange(
            65 + enc_token_len(pv.token0),
            75 + enc_token_len(pv.token0),
        ) == lit_pair_token1(),
        b.subrange(
            75 + enc_token_len(pv.token0),
            75 + enc_token_len(pv.token0) + enc_token_len(pv.token1),
        ) == enc_token(pv.token1),
        b.subrange(75 + enc_token_len(pv.token0) + enc_token_len(pv.token1), b.len() as int)
            == lit_close_obj(),
{
    lemma_hex_of_len(pv.address);
    lemma_enc_token_len(pv.token0);
    lemma_enc_token_len(pv.token1);
    let x1 = lit_addr_open();
    let x2 = x1 + hex_of(pv.address);
    let x3 = x2 + lit_pair_token0();
    let x4 = x3 + enc_token(pv.token0);
    let x5 = x4 + lit_pair_token1();
    let x6 = x5 + enc_token(pv.token1);
    assert(b == x6 + lit_close_obj());
    assert(b.subrange(0, b.len() as int) =~= b);
    lemma_window_split(b, 0, x6, lit_close_obj());
    lemma_window_split(b, 0, x5, enc_token(pv.token1));
    lemma_window_split(b, 0, x4, lit_pair_token1());
    lemma_window_split(b, 0, x3, enc_token(pv.token0));
    lemma_window_split(b, 0, x2, lit_pair_token0());
    lemma_window_split(b, 0, x1, hex_of(pv.address));
}

/// No well-formed `Pair` encodes to `b`.
#[verifier::opaque]
pub open spec fn no_pair_encoding(b: Seq<u8>) -> bool {
    forall|pv: PairV| pair_wf(pv) ==> b != enc_pair(pv)
}

proof fn lemma_pr_none_head(b: Seq<u8>)
    requires
        !(14 <= b.len() && b.subrange(0, 14) == lit_addr_open()) || (forall|s: Seq<u8>|
            s.len() == 20 ==> !(54 <= b.len() && b.subrange(14, 54) == hex_of(s))) || !(65
            <= b.len() && b.subrange(54, 65) == lit_pair_token0()),
    ensures
        no_pair_encoding(b),
{
    reveal(no_pair_encoding);
    assert forall|pv: PairV| pair_wf(pv) implies b != enc_pair(pv) by {
        if b == enc_pair(pv) {
            lemma_pr_peel(b, pv);
        }
    }
}

proof fn lemma_pr_none_t0(b: Seq<u8>)
    requires
        no_token_encoding_at(b, 65),
    ensures
        no_pair_encoding(b),
{
    reveal(no_pair_encoding);
    reveal(no_token_encoding_at);
    assert forall|pv: PairV| pair_wf(pv) implies b != enc_pair(pv) by {
        if b == enc_pair(pv) {
            lemma_pr_peel(b, pv);
        }
    }
}

/// The window fact a parsed first token leaves at position 65.
pub open spec fn pr_t0_window(b: Seq<u8>, t0: TokenV) -> bool {
    &&& token_wf(t0)
    &&& 65 + enc_token_len(t0) <= b.len()
    &&& b.subrange(65, 65 + enc_token_len(t0)) == enc_token(t0)
}

#[verifier::rlimit(100)]
proof fn lemma_pr_t0_pin(b: Seq<u8>, t0: TokenV, pv: PairV)
    requires
        pr_t0_window(b, t0),
        pair_wf(pv),
        b == enc_pair(pv),
    ensures
        pv.token0 == t0,
        enc_token_len(pv.token0) == enc_token_len(t0),
{
    lemma_pr_peel(b, pv);
    lemma_token_window_unique(b, 65, t0, pv.token0);
}

proof fn lemma_pr_none_t1_lit(b: Seq<u8>, t0: TokenV)
    requires
        pr_t0_window(b, t0),
        !(75 + enc_token_len(t0) <= b.len() && b.subrange(
            65 + enc_token_len(t0),
            75 + enc_token_len(t0),
        ) == lit_pair_token1()),
    ensures
        no_pair_encoding(b),
{
    reveal(no_pair_encoding);
    assert forall|pv: PairV| pair_wf(pv) implies b != enc_pair(pv) by {
        if b == enc_pair(pv) {
            lemma_pr_t0_pin(b, t0, pv);
            lemma_pr_peel(b, pv);
        }
    }
}

proof fn lemma_pr_none_t1(b: Seq<u8>, t0: TokenV)
    requires
        pr_t0_window(b, t0),
        no_token_encoding_at(b, 75 + enc_token_len(t0)),
    ensures
        no_pair_encoding(b),
{
    reveal(no_pair_encoding);
    reveal(no_token_encoding_at);
    assert forall|pv: PairV| pair_wf(pv) implies b != enc_pair(pv) by {
        if b == enc_pair(pv) {
            lemma_pr_t0_pin(b, t0, pv);
            lemma_pr_peel(b, pv);
        }
    }
}

/// The window fact a parsed second token leaves after the first.
pub open spec fn pr_t1_window(b: Seq<u8>, t0: TokenV, t1: TokenV) -> bool {
    &&& token_wf(t1)
    &&& 75 + enc_token_len(t0) + enc_token_len(t1) <= b.len()
    &&& b.subrange(
        75 + enc_token_len(t0),
        75 + enc_token_len(t0) + enc_token_len(t1),
    ) == enc_token(t1)
}

#[verifier::rlimit(100)]
proof fn lemma_pr_t1_pin(b: Seq<u8>, t0: TokenV, t1: TokenV, pv: PairV)
    requires
        pr_t0_window(b, t0),
        pr_t1_window(b, t0, t1),
        pair_wf(pv),
        b == enc_pair(pv),
    ensures
        pv.token1 == t1,
        enc_token_len(pv.token1) == enc_token_len(t1),
{
    lemma_pr_t0_pin(b, t0, pv);
    lemma_pr_peel(b, pv);
    lemma_token_window_unique(b, 75 + enc_token_len(t0), t1, pv.token1);
}

proof fn lemma_pr_none_tail(b: Seq<u8>, t0: TokenV, t1: TokenV)
    requires
        pr_t0_window(b, t0),
        pr_t1_window(b, t0, t1),
        ({
            let p = 75 + enc_token_len(t0) + enc_token_len(t1);
            !(p + 1 == b.len() && b.subrange(p, p + 1) == lit_close_obj())
        }),
    ensures
        no_pair_encoding(b),
{
    reveal(no_pair_encoding);
    assert forall|pv: PairV| pair_wf(pv) implies b != enc_pair(pv) by {
        if b == enc_pair(pv) {
            lemma_pr_t1_pin(b, t0, t1, pv);
            lemma_pr_t0_pin(b, t0, pv);
            lemma_pr_peel(b, pv);
        }
    }
}

/// Encode a `Pair` canonically.
pub fn encode_pair(p: &Pair) -> (r: Vec<u8>)
    requires
        p.wf(),
    ensures
        r@ == enc_pair(p@),
{
    let mut out: Vec<u8> = Vec::new();
    let l1 = vec_lit_addr_open();
    push_bytes(&mut out, &l1);
    push_hex(&mut out, &p.address.bytes);
    let l2 = vec_lit_pair_token0();
    push_bytes(&mut out, &l2);
    let t0 = encode_token(&p.token0);
    push_bytes(&mut out, &t0);
    let l3 = vec_lit_pair_token1();
    push_bytes(&mut out, &l3);
    let t1 = encode_token(&p.token1);
    push_bytes(&mut out, &t1);
    let l4 = vec_lit_close_obj();
    push_bytes(&mut out, &l4);
    proof {
        assert(out@ =~= enc_pair(p@));
    }
    out
}

/// Decode a canonical `Pair` encoding. Returns the pair exactly when the
/// whole input is the canonical encoding of a well-formed pair.
#[verifier::rlimit(100)]
#[verifier::spinoff_prover]
pub fn decode_pair(b: &Vec<u8>) -> (r: Option<Pair>)
    ensures
        match r {
            Some(p) => p.wf() && b@ == enc_pair(p@),
            None => no_pair_encoding(b@),
        },
{
    let total = b.len();
    let l_open = vec_lit_addr_open();
    let i1 = match parse_exact(b, 0, &l_open) {
        Some(j) => j,
        None => {
            proof {
                lemma_pr_none_head(b@);
            }
            return None;
        },
    };
    let (addr_bytes, i2) = match parse_hex(b, i1, 20) {
        Some(v) => v,
        None => {
            proof {
                lemma_pr_none_head(b@);
            }
            return None;
        },
    };
    let l_t0 = vec_lit_pair_token0();
    let i3 = match parse_exact(b, i2, &l_t0) {
        Some(j) => j,
        None => {
            proof {
                lemma_pr_none_head(b@);
            }
            return None;
        },
    };
    let (t0, i4) = match parse_token(b, i3) {
        Some(p) => p,
        None => {
            proof {
                lemma_pr_none_t0(b@);
            }
            return None;
        },
    };
    let l_t1 = vec_lit_pair_token1();
    let i5 = match parse_exact(b, i4, &l_t1) {
        Some(j) => j,
        None => {
            proof {
                lemma_pr_none_t1_lit(b@, t0@);
            }
            return None;
        },
    };
    let (t1, i6) = match parse_token(b, i5) {
        Some(p) => p,
        None => {
            proof {
                lemma_pr_none_t1(b@, t0@);
            }
            return None;
        },
    };
    let l_close = vec_lit_close_obj();
    let close_ok = match parse_exact(b, i6, &l_close) {
        Some(j) => j == total,
        None => false,
    };
    if !close_ok {
        proof {
            lemma_pr_none_tail(b@, t0@, t1@);
        }
        return None;
    }
    let p = Pair { address: Address { bytes: addr_bytes }, token0: t0, token1: t1 };
    proof {
        let x1 = lit_addr_open();
        let x2 = x1 + hex_of(p@.address);
        let x3 = x2 + lit_pair_token0();
        let x4 = x3 + enc_token(p@.token0);
        let x5 = x4 + lit_pair_token1();
        let x6 = x5 + enc_token(p@.token1);
        lemma_window_join(b@, 0, x1, hex_of(p@.address));
        lemma_window_join(b@, 0, x2, lit_pair_token0());
        lemma_window_join(b@, 0, x3, enc_token(p@.token0));
        lemma_window_join(b@, 0, x4, lit_pair_token1());
        lemma_window_join(b@, 0, x5, enc_token(p@.token1));
        lemma_window_join(b@, 0, x6, lit_close_obj());
        assert(b@.subrange(0, b@.len() as int) =~= b@);
        assert(b@ == enc_pair(p@));
    }
    Some(p)
}

/// Canonical `Pair` encodings are unique: two well-formed pairs with the
/// same encoding are the same pair, so a key-value read-back is exact.
#[verifier::rlimit(100)]
pub proof fn lemma_pair_enc_unique(b: Seq<u8>, p1: PairV, p2: PairV)
    requires
        pair_wf(p1),
        pair_wf(p2),
        b == enc_pair(p1),
        b == enc_pair(p2),
    ensures
        p1 == p2,
{
    lemma_pr_peel(b, p1);
    lemma_pr_peel(b, p2);
    crate::hexfmt::lemma_hex_of_inj(p1.address, p2.address);
    assert(pr_t0_window(b, p1.token0));
    lemma_pr_t0_pin(b, p1.token0, p2);
    assert(pr_t1_window(b, p1.token0, p1.token1));
    lemma_pr_t1_pin(b, p1.token0, p1.token1, p2);
}

} // verus!

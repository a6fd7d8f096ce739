//! Canonical encoder for `PriceTick` records, the payload the price
//! injector publishes and the sink persists. Reserves and both exact
//! fixed-point rates travel as quoted decimal strings; nothing in the
//! record is rounded.

use vstd::prelude::*;

verus! {

use crate::arith::{digits_to_u128, digits_to_u64, u128_to_digits};
use crate::digits::{
    canonical_digits, dec_val, digits_of, lemma_digits_of_correct, lemma_digits_of_unique,
};
use crate::hexfmt::{hex_of, lemma_hex_of_len, parse_hex, push_hex};
use crate::json::{
    lemma_delimited_unique, lemma_digit_seq_no_quote, lemma_symbol_no_quote, lemma_window_join,
    lemma_window_split, parse_exact, parse_quoted_digits, parse_quoted_symbol, push_bytes, qrun,
};
use crate::literals::{
    lit_block_number, lit_block_timestamp_c, lit_close_obj, lit_tick_pair_addr, lit_tick_r01,
    lit_tick_r10, lit_tick_t0_addr, lit_tick_t0_res, lit_tick_t0_sym, lit_tick_t1_addr,
    lit_tick_t1_res, lit_tick_t1_sym, lit_txhash_c, vec_lit_block_number,
    vec_lit_block_timestamp_c, vec_lit_close_obj, vec_lit_tick_pair_addr, vec_lit_tick_r01,
    vec_lit_tick_r10, vec_lit_tick_t0_addr, vec_lit_tick_t0_res, vec_lit_tick_t0_sym,
    vec_lit_tick_t1_addr, vec_lit_tick_t1_res, vec_lit_tick_t1_sym, vec_lit_txhash_c,
};
use crate::model::{Address, PriceTick, PriceTickV, RESERVE_LIMIT, TxHash, tick_wf};

/// The leading third of a canonical tick encoding: addresses and the
/// token0 reserve and symbol.
pub open spec fn enc_tick_head(t: PriceTickV) -> Seq<u8> {
    lit_tick_pair_addr() + hex_of(t.pair_address) + lit_tick_t0_addr() + hex_of(t.token0_address)
        + lit_tick_t0_res() + qrun(digits_of(t.token0_reserve as nat)) + lit_tick_t0_sym() + qrun(
        t.token0_symbol,
    )
}

/// The head plus the token1 block.
pub open spec fn enc_tick_mid(t: PriceTickV) -> Seq<u8> {
    enc_tick_head(t) + lit_tick_t1_addr() + hex_of(t.token1_address) + lit_tick_t1_res() + qrun(
        digits_of(t.token1_reserve as nat),
    ) + lit_tick_t1_sym() + qrun(t.token1_symbol)
}

/// The mid section plus the two exact fixed-point rates.
pub open spec fn enc_tick_rates(t: PriceTickV) -> Seq<u8> {
    enc_tick_mid(t) + lit_tick_r01() + qrun(t.token0_token1_e18) + lit_tick_r10() + qrun(
        t.token1_token0_e18,
    )
}

/// The canonical encoding of a `PriceTick`.
pub open spec fn enc_price_tick(t: PriceTickV) -> Seq<u8> {
    enc_tick_rates(t) + lit_txhash_c() + hex_of(t.transaction_hash) + lit_block_number() + qrun(
        digits_of(t.block_number as nat),
    ) + lit_block_timestamp_c() + qrun(digits_of(t.block_timestamp as nat)) + lit_close_obj()
}

/// Encode a `PriceTick` canonically.
#[verifier::rlimit(100)]
pub fn encode_price_tick(t: &PriceTick) -> (r: Vec<u8>)
    requires
        t.wf(),
    ensures
        r@ == enc_price_tick(t@),
{
    let mut out: Vec<u8> = Vec::new();
    let l1 = vec_lit_tick_pair_addr();
    push_bytes(&mut out, &l1);
    push_hex(&mut out, &t.pair_address.bytes);
    let l2 = vec_lit_tick_t0_addr();
    push_bytes(&mut out, &l2);
    push_hex(&mut out, &t.token0_address.bytes);
    let l3 = vec_lit_tick_t0_res();
    push_bytes(&mut out, &l3);
    let r0_d = u128_to_digits(t.token0_reserve);
    push_bytes(&mut out, &r0_d);
    out.push(34);
    let l4 = vec_lit_tick_t0_sym();
    push_bytes(&mut out, &l4);
    push_bytes(&mut out, &t.token0_symbol);
    out.push(34);
    let l5 = vec_lit_tick_t1_addr();
    push_bytes(&mut out, &l5);
    push_hex(&mut out, &t.token1_address.bytes);
    let l6 = vec_lit_tick_t1_res();
    push_bytes(&mut out, &l6);
    let r1_d = u128_to_digits(t.token1_reserve);
    push_bytes(&mut out, &r1_d);
    out.push(34);
    let l7 = vec_lit_tick_t1_sym();
    push_bytes(&mut out, &l7);
    push_bytes(&mut out, &t.token1_symbol);
    out.push(34);
    let l8 = vec_lit_tick_r01();
    push_bytes(&mut out, &l8);
    push_bytes(&mut out, &t.token0_token1_e18);
    out.push(34);
    let l9 = vec_lit_tick_r10();
    push_bytes(&mut out, &l9);
    push_bytes(&mut out, &t.token1_token0_e18);
    out.push(34);
    let l10 = vec_lit_txhash_c();
    push_bytes(&mut out, &l10);
    push_hex(&mut out, &t.transaction_hash.bytes);
    let l11 = vec_lit_block_number();
    push_bytes(&mut out, &l11);
    let bn_d = u128_to_digits(t.block_number as u128);
    push_bytes(&mut out, &bn_d);
    out.push(34);
    let l12 = vec_lit_block_timestamp_c();
    push_bytes(&mut out, &l12);
    let ts_d = u128_to_digits(t.block_timestamp as u128);
    push_bytes(&mut out, &ts_d);
    out.push(34);
    let l13 = vec_lit_close_obj();
    push_bytes(&mut out, &l13);
    proof {
        assert((t.block_number as u128) as nat == t.block_number as nat);
        assert((t.block_timestamp as u128) as nat == t.block_timestamp as nat);
        assert(out@ =~= enc_price_tick(t@));
    }
    out
}

/// Window decomposition of the head of a tick encoding.
#[verifier::rlimit(100)]
proof fn lemma_ti_peel_head(b: Seq<u8>, t: PriceTickV)
    requires
        tick_wf(t),
        161 + digits_of(t.token0_reserve as nat).len() as int + t.token0_symbol.len() as int <= b.len(),
        b.subrange(0, 161 + digits_of(t.token0_reserve as nat).len() as int + t.token0_symbol.len() as int) == enc_tick_head(t),
    ensures
        b.subrange(0, 19) == lit_tick_pair_addr(),
        b.subrange(19, 59) == hex_of(t.pair_address),
        b.subrange(59, 81) == lit_tick_t0_addr(),
        b.subrange(81, 121) == hex_of(t.token0_address),
        b.subrange(121, 141) == lit_tick_t0_res(),
        b.subrange(141, 142 + digits_of(t.token0_reserve as nat).len() as int) == qrun(digits_of(t.token0_reserve as nat)),
        b.subrange(142 + digits_of(t.token0_reserve as nat).len() as int, 160 + digits_of(t.token0_reserve as nat).len() as int) == lit_tick_t0_sym(),
        b.subrange(160 + digits_of(t.token0_reserve as nat).len() as int, 161 + digits_of(t.token0_reserve as nat).len() as int + t.token0_symbol.len() as int) == qrun(t.token0_symbol),
{
    lemma_hex_of_len(t.pair_address);
    lemma_hex_of_len(t.token0_address);
    let x1 = lit_tick_pair_addr();
    let x2 = x1 + hex_of(t.pair_address);
    let x3 = x2 + lit_tick_t0_addr();
    let x4 = x3 + hex_of(t.token0_address);
    let x5 = x4 + lit_tick_t0_res();
    let x6 = x5 + qrun(digits_of(t.token0_reserve as nat));
    let x7 = x6 + lit_tick_t0_sym();
    lemma_window_split(b, 0, x7, qrun(t.token0_symbol));
    lemma_window_split(b, 0, x6, lit_tick_t0_sym());
    lemma_window_split(b, 0, x5, qrun(digits_of(t.token0_reserve as nat)));
    lemma_window_split(b, 0, x4, lit_tick_t0_res());
    lemma_window_split(b, 0, x3, hex_of(t.token0_address));
    lemma_window_split(b, 0, x2, lit_tick_t0_addr());
    lemma_window_split(b, 0, x1, hex_of(t.pair_address));
}

/// Window decomposition of the head and token1 block.
#[verifier::rlimit(100)]
proof fn lemma_ti_peel_mid(b: Seq<u8>, t: PriceTickV)
    requires
        tick_wf(t),
        262 + digits_of(t.token0_reserve as nat).len() as int + t.token0_symbol.len() as int + digits_of(t.token1_reserve as nat).len() as int + t.token1_symbol.len() as int <= b.len(),
        b.subrange(0, 262 + digits_of(t.token0_reserve as nat).len() as int + t.token0_symbol.len() as int + digits_of(t.token1_reserve as nat).len() as int + t.token1_symbol.len() as int) == enc_tick_mid(t),
    ensures
        b.subrange(0, 19) == lit_tick_pair_addr(),
        b.subrange(19, 59) == hex_of(t.pair_address),
        b.subrange(59, 81) == lit_tick_t0_addr(),
        b.subrange(81, 121) == hex_of(t.token0_address),
        b.subrange(121, 141) == lit_tick_t0_res(),
        b.subrange(141, 142 + digits_of(t.token0_reserve as nat).len() as int) == qrun(digits_of(t.token0_reserve as nat)),
        b.subrange(142 + digits_of(t.token0_reserve as nat).len() as int, 160 + digits_of(t.token0_reserve as nat).len() as int) == lit_tick_t0_sym(),
        b.subrange(160 + digits_of(t.token0_reserve as nat).len() as int, 161 + digits_of(t.token0_reserve as nat).len() as int + t.token0_symbol.len() as int) == qrun(t.token0_symbol),
        b.subrange(161 + digits_of(t.token0_reserve as nat).len() as int + t.token0_symbol.len() as int, 182 + digits_of(t.token0_reserve as nat).len() as int + t.token0_symbol.len() as int) == lit_tick_t1_addr(),
        b.subrange(182 + digits_of(t.token0_reserve as nat).len() as int + t.token0_symbol.len() as int, 222 + digits_of(t.token0_reserve as nat).len() as int + t.token0_symbol.len() as int) == hex_of(t.token1_address),
        b.subrange(222 + digits_of(t.token0_reserve as nat).len() as int + t.token0_symbol.len() as int, 242 + digits_of(t.token0_reserve as nat).len() as int + t.token0_symbol.len() as int) == lit_tick_t1_res(),
        b.subrange(242 + digits_of(t.token0_reserve as nat).len() as int + t.token0_symbol.len() as int, 243 + digits_of(t.token0_reserve as nat).len() as int + t.token0_symbol.len() as int + digits_of(t.token1_reserve as nat).len() as int) == qrun(digits_of(t.token1_reserve as nat)),
        b.subrange(243 + digits_of(t.token0_reserve as nat).len() as int + t.token0_symbol.len() as int + digits_of(t.token1_reserve as nat).len() as int, 261 + digits_of(t.token0_reserve as nat).len() as int + t.token0_symbol.len() as int + digits_of(t.token1_reserve as nat).len() as int) == lit_tick_t1_sym(),
        b.subrange(261 + digits_of(t.token0_reserve as nat).len() as int + t.token0_symbol.len() as int + digits_of(t.token1_reserve as nat).len() as int, 262 + digits_of(t.token0_reserve as nat).len() as int + t.token0_symbol.len() as int + digits_of(t.token1_reserve as nat).len() as int + t.token1_symbol.len() as int) == qrun(t.token1_symbol),
{
    lemma_hex_of_len(t.pair_address);
    lemma_hex_of_len(t.token0_address);
    lemma_hex_of_len(t.token1_address);
    let x8 = enc_tick_head(t);
    let x9 = x8 + lit_tick_t1_addr();
    let x10 = x9 + hex_of(t.token1_address);
    let x11 = x10 + lit_tick_t1_res();
    let x12 = x11 + qrun(digits_of(t.token1_reserve as nat));
    let x13 = x12 + lit_tick_t1_sym();
    lemma_window_split(b, 0, x13, qrun(t.token1_symbol));
    lemma_window_split(b, 0, x12, lit_tick_t1_sym());
    lemma_window_split(b, 0, x11, qrun(digits_of(t.token1_reserve as nat)));
    lemma_window_split(b, 0, x10, lit_tick_t1_res());
    lemma_window_split(b, 0, x9, hex_of(t.token1_address));
    lemma_window_split(b, 0, x8, lit_tick_t1_addr());
    lemma_ti_peel_head(b, t);
}

/// Window decomposition up to and including the two rate runs.
#[verifier::rlimit(100)]
proof fn lemma_ti_peel_rates(b: Seq<u8>, t: PriceTickV)
    requires
        tick_wf(t),
        308 + digits_of(t.token0_reserve as nat).len() as int + t.token0_symbol.len() as int + digits_of(t.token1_reserve as nat).len() as int + t.token1_symbol.len() as int + t.token0_token1_e18.len() as int + t.token1_token0_e18.len() as int <= b.len(),
        b.subrange(0, 308 + digits_of(t.token0_reserve as nat).len() as int + t.token0_symbol.len() as int + digits_of(t.token1_reserve as nat).len() as int + t.token1_symbol.len() as int + t.token0_token1_e18.len() as int + t.token1_token0_e18.len() as int) == enc_tick_rates(t),
    ensures
        b.subrange(0, 19) == lit_tick_pair_addr(),
        b.subrange(19, 59) == hex_of(t.pair_address),
        b.subrange(59, 81) == lit_tick_t0_addr(),
        b.subrange(81, 121) == hex_of(t.token0_address),
        b.subrange(121, 141) == lit_tick_t0_res(),
        b.subrange(141, 142 + digits_of(t.token0_reserve as nat).len() as int) == qrun(digits_of(t.token0_reserve as nat)),
        b.subrange(142 + digits_of(t.token0_reserve as nat).len() as int, 160 + digits_of(t.token0_reserve as nat).len() as int) == lit_tick_t0_sym(),
        b.subrange(160 + digits_of(t.token0_reserve as nat).len() as int, 161 + digits_of(t.token0_reserve as nat).len() as int + t.token0_symbol.len() as int) == qrun(t.token0_symbol),
        b.subrange(161 + digits_of(t.token0_reserve as nat).len() as int + t.token0_symbol.len() as int, 182 + digits_of(t.token0_reserve as nat).len() as int + t.token0_symbol.len() as int) == lit_tick_t1_addr(),
        b.subrange(182 + digits_of(t.token0_reserve as nat).len() as int + t.token0_symbol.len() as int, 222 + digits_of(t.token0_reserve as nat).len() as int + t.token0_symbol.len() as int) == hex_of(t.token1_address),
        b.subrange(222 + digits_of(t.token0_reserve as nat).len() as int + t.token0_symbol.len() as int, 242 + digits_of(t.token0_reserve as nat).len() as int + t.token0_symbol.len() as int) == lit_tick_t1_res(),
        b.subrange(242 + digits_of(t.token0_reserve as nat).len() as int + t.token0_symbol.len() as int, 243 + digits_of(t.token0_reserve as nat).len() as int + t.token0_symbol.len() as int + digits_of(t.token1_reserve as nat).len() as int) == qrun(digits_of(t.token1_reserve as nat)),
        b.subrange(243 + digits_of(t.token0_reserve as nat).len() as int + t.token0_symbol.len() as int + digits_of(t.token1_reserve as nat).len() as int, 261 + digits_of(t.token0_reserve as nat).len() as int + t.token0_symbol.len() as int + digits_of(t.token1_reserve as nat).len() as int) == lit_tick_t1_sym(),
        b.subrange(261 + digits_of(t.token0_reserve as nat).len() as int + t.token0_symbol.len() as int + digits_of(t.token1_reserve as nat).len() as int, 262 + digits_of(t.token0_reserve as nat).len() as int + t.token0_symbol.len() as int + digits_of(t.token1_reserve as nat).len() as int + t.token1_symbol.len() as int) == qrun(t.token1_symbol),
        b.subrange(262 + digits_of(t.token0_reserve as nat).len() as int + t.token0_symbol.len() as int + digits_of(t.token1_reserve as nat).len() as int + t.token1_symbol.len() as int, 284 + digits_of(t.token0_reserve as nat).len() as int + t.token0_symbol.len() as int + digits_of(t.token1_reserve as nat).len() as int + t.token1_symbol.len() as int) == lit_tick_r01(),
        b.subrange(284 + digits_of(t.token0_reserve as nat).len() as int + t.token0_symbol.len() as int + digits_of(t.token1_reserve as nat).len() as int + t.token1_symbol.len() as int, 285 + digits_of(t.token0_reserve as nat).len() as int + t.token0_symbol.len() as int + digits_of(t.token1_reserve as nat).len() as int + t.token1_symbol.len() as int + t.token0_token1_e18.len() as int) == qrun(t.token0_token1_e18),
        b.subrange(285 + digits_of(t.token0_reserve as nat).len() as int + t.token0_symbol.len() as int + digits_of(t.token1_reserve as nat).len() as int + t.token1_symbol.len() as int + t.token0_token1_e18.len() as int, 307 + digits_of(t.token0_reserve as nat).len() as int + t.token0_symbol.len() as int + digits_of(t.token1_reserve as nat).len() as int + t.token1_symbol.len() as int + t.token0_token1_e18.len() as int) == lit_tick_r10(),
        b.subrange(307 + digits_of(t.token0_reserve as nat).len() as int + t.token0_symbol.len() as int + digits_of(t.token1_reserve as nat).len() as int + t.token1_symbol.len() as int + t.token0_token1_e18.len() as int, 308 + digits_of(t.token0_reserve as nat).len() as int + t.token0_symbol.len() as int + digits_of(t.token1_reserve as nat).len() as int + t.token1_symbol.len() as int + t.token0_token1_e18.len() as int + t.token1_token0_e18.len() as int) == qrun(t.token1_token0_e18),
{
    lemma_hex_of_len(t.pair_address);
    lemma_hex_of_len(t.token0_address);
    lemma_hex_of_len(t.token1_address);
    let x14 = enc_tick_mid(t);
    let x15 = x14 + lit_tick_r01();
    let x16 = x15 + qrun(t.token0_token1_e18);
    let x17 = x16 + lit_tick_r10();
    lemma_window_split(b, 0, x17, qrun(t.token1_token0_e18));
    lemma_window_split(b, 0, x16, lit_tick_r10());
    lemma_window_split(b, 0, x15, qrun(t.token0_token1_e18));
    lemma_window_split(b, 0, x14, lit_tick_r01());
    lemma_ti_peel_mid(b, t);
}

/// Window decomposition of the tail after the rate runs, and the rates
/// prefix window it leaves behind.
#[verifier::rlimit(100)]
proof fn lemma_ti_peel_tail(b: Seq<u8>, t: PriceTickV)
    requires
        tick_wf(t),
        b == enc_price_tick(t),
    ensures
        b.len() == 436 + digits_of(t.token0_reserve as nat).len() as int + t.token0_symbol.len() as int + digits_of(t.token1_reserve as nat).len() as int + t.token1_symbol.len() as int + t.token0_token1_e18.len() as int + t.token1_token0_e18.len() as int + digits_of(t.block_number as nat).len() as int + digits_of(t.block_timestamp as nat).len() as int,
        b.subrange(0, 308 + digits_of(t.token0_reserve as nat).len() as int + t.token0_symbol.len() as int + digits_of(t.token1_reserve as nat).len() as int + t.token1_symbol.len() as int + t.token0_token1_e18.len() as int + t.token1_token0_e18.len() as int) == enc_tick_rates(t),
        b.subrange(308 + digits_of(t.token0_reserve as nat).len() as int + t.token0_symbol.len() as int + digits_of(t.token1_reserve as nat).len() as int + t.token1_symbol.len() as int + t.token0_token1_e18.len() as int + t.token1_token0_e18.len() as int, 331 + digits_of(t.token0_reserve as nat).len() as int + t.token0_symbol.len() as int + digits_of(t.token1_reserve as nat).len() as int + t.token1_symbol.len() as int + t.token0_token1_e18.len() as int + t.token1_token0_e18.len() as int) == lit_txhash_c(),
        b.subrange(331 + digits_of(t.token0_reserve as nat).len() as int + t.token0_symbol.len() as int + digits_of(t.token1_reserve as nat).len() as int + t.token1_symbol.len() as int + t.token0_token1_e18.len() as int + t.token1_token0_e18.len() as int, 395 + digits_of(t.token0_reserve as nat).len() as int + t.token0_symbol.len() as int + digits_of(t.token1_reserve as nat).len() as int + t.token1_symbol.len() as int + t.token0_token1_e18.len() as int + t.token1_token0_e18.len() as int) == hex_of(t.transaction_hash),
        b.subrange(395 + digits_of(t.token0_reserve as nat).len() as int + t.token0_symbol.len() as int + digits_of(t.token1_reserve as nat).len() as int + t.token1_symbol.len() as int + t.token0_token1_e18.len() as int + t.token1_token0_e18.len() as int, 413 + digits_of(t.token0_reserve as nat).len() as int + t.token0_symbol.len() as int + digits_of(t.token1_reserve as nat).len() as int + t.token1_symbol.len() as int + t.token0_token1_e18.len() as int + t.token1_token0_e18.len() as int) == lit_block_number(),
        b.subrange(413 + digits_of(t.token0_reserve as nat).len() as int + t.token0_symbol.len() as int + digits_of(t.token1_reserve as nat).len() as int + t.token1_symbol.len() as int + t.token0_token1_e18.len() as int + t.token1_token0_e18.len() as int, 414 + digits_of(t.token0_reserve as nat).len() as int + t.token0_symbol.len() as int + digits_of(t.token1_reserve as nat).len() as int + t.token1_symbol.len() as int + t.token0_token1_e18.len() as int + t.token1_token0_e18.len() as int + digits_of(t.block_number as nat).len() as int) == qrun(digits_of(t.block_number as nat)),
        b.subrange(414 + digits_of(t.token0_reserve as nat).len() as int + t.token0_symbol.len() as int + digits_of(t.token1_reserve as nat).len() as int + t.token1_symbol.len() as int + t.token0_token1_e18.len() as int + t.token1_token0_e18.len() as int + digits_of(t.block_number as nat).len() as int, 434 + digits_of(t.token0_reserve as nat).len() as int + t.token0_symbol.len() as int + digits_of(t.token1_reserve as nat).len() as int + t.token1_symbol.len() as int + t.token0_token1_e18.len() as int + t.token1_token0_e18.len() as int + digits_of(t.block_number as nat).len() as int) == lit_block_timestamp_c(),
        b.subrange(434 + digits_of(t.token0_reserve as nat).len() as int + t.token0_symbol.len() as int + digits_of(t.token1_reserve as nat).len() as int + t.token1_symbol.len() as int + t.token0_token1_e18.len() as int + t.token1_token0_e18.len() as int + digits_of(t.block_number as nat).len() as int, 435 + digits_of(t.token0_reserve as nat).len() as int + t.token0_symbol.len() as int + digits_of(t.token1_reserve as nat).len() as int + t.token1_symbol.len() as int + t.token0_token1_e18.len() as int + t.token1_token0_e18.len() as int + digits_of(t.block_number as nat).len() as int + digits_of(t.block_timestamp as nat).len() as int) == qrun(digits_of(t.block_timestamp as nat)),
        b.subrange(435 + digits_of(t.token0_reserve as nat).len() as int + t.token0_symbol.len() as int + digits_of(t.token1_reserve as nat).len() as int + t.token1_symbol.len() as int + t.token0_token1_e18.len() as int + t.token1_token0_e18.len() as int + digits_of(t.block_number as nat).len() as int + digits_of(t.block_timestamp as nat).len() as int, 436 + digits_of(t.token0_reserve as nat).len() as int + t.token0_symbol.len() as int + digits_of(t.token1_reserve as nat).len() as int + t.token1_symbol.len() as int + t.token0_token1_e18.len() as int + t.token1_token0_e18.len() as int + digits_of(t.block_number as nat).len() as int + digits_of(t.block_timestamp as nat).len() as int) == lit_close_obj(),
{
    lemma_hex_of_len(t.pair_address);
    lemma_hex_of_len(t.token0_address);
    lemma_hex_of_len(t.token1_address);
    lemma_hex_of_len(t.transaction_hash);
    let x18 = enc_tick_rates(t);
    let x19 = x18 + lit_txhash_c();
    let x20 = x19 + hex_of(t.transaction_hash);
    let x21 = x20 + lit_block_number();
    let x22 = x21 + qrun(digits_of(t.block_number as nat));
    let x23 = x22 + lit_block_timestamp_c();
    let x24 = x23 + qrun(digits_of(t.block_timestamp as nat));
    assert(b == x24 + lit_close_obj());
    assert(b.subrange(0, b.len() as int) =~= b);
    lemma_window_split(b, 0, x24, lit_close_obj());
    lemma_window_split(b, 0, x23, qrun(digits_of(t.block_timestamp as nat)));
    lemma_window_split(b, 0, x22, lit_block_timestamp_c());
    lemma_window_split(b, 0, x21, qrun(digits_of(t.block_number as nat)));
    lemma_window_split(b, 0, x20, lit_block_number());
    lemma_window_split(b, 0, x19, hex_of(t.transaction_hash));
    lemma_window_split(b, 0, x18, lit_txhash_c());
}

/// Field-window decomposition of a whole canonical tick encoding.
#[verifier::rlimit(100)]
proof fn lemma_ti_peel(b: Seq<u8>, t: PriceTickV)
    requires
        tick_wf(t),
        b == enc_price_tick(t),
    ensures
        b.len() == 436 + digits_of(t.token0_reserve as nat).len() as int + t.token0_symbol.len() as int + digits_of(t.token1_reserve as nat).len() as int + t.token1_symbol.len() as int + t.token0_token1_e18.len() as int + t.token1_token0_e18.len() as int + digits_of(t.block_number as nat).len() as int + digits_of(t.block_timestamp as nat).len() as int,
        b.subrange(0, 19) == lit_tick_pair_addr(),
        b.subrange(19, 59) == hex_of(t.pair_address),
        b.subrange(59, 81) == lit_tick_t0_addr(),
        b.subrange(81, 121) == hex_of(t.token0_address),
        b.subrange(121, 141) == lit_tick_t0_res(),
        b.subrange(141, 142 + digits_of(t.token0_reserve as nat).len() as int) == qrun(digits_of(t.token0_reserve as nat)),
        b.subrange(142 + digits_of(t.token0_reserve as nat).len() as int, 160 + digits_of(t.token0_reserve as nat).len() as int) == lit_tick_t0_sym(),
        b.subrange(160 + digits_of(t.token0_reserve as nat).len() as int, 161 + digits_of(t.token0_reserve as nat).len() as int + t.token0_symbol.len() as int) == qrun(t.token0_symbol),
        b.subrange(161 + digits_of(t.token0_reserve as nat).len() as int + t.token0_symbol.len() as int, 182 + digits_of(t.token0_reserve as nat).len() as int + t.token0_symbol.len() as int) == lit_tick_t1_addr(),
        b.subrange(182 + digits_of(t.token0_reserve as nat).len() as int + t.token0_symbol.len() as int, 222 + digits_of(t.token0_reserve as nat).len() as int + t.token0_symbol.len() as int) == hex_of(t.token1_address),
        b.subrange(222 + digits_of(t.token0_reserve as nat).len() as int + t.token0_symbol.len() as int, 242 + digits_of(t.token0_reserve as nat).len() as int + t.token0_symbol.len() as int) == lit_tick_t1_res(),
        b.subrange(242 + digits_of(t.token0_reserve as nat).len() as int + t.token0_symbol.len() as int, 243 + digits_of(t.token0_reserve as nat).len() as int + t.token0_symbol.len() as int + digits_of(t.token1_reserve as nat).len() as int) == qrun(digits_of(t.token1_reserve as nat)),
        b.subrange(243 + digits_of(t.token0_reserve as nat).len() as int + t.token0_symbol.len() as int + digits_of(t.token1_reserve as nat).len() as int, 261 + digits_of(t.token0_reserve as nat).len() as int + t.token0_symbol.len() as int + digits_of(t.token1_reserve as nat).len() as int) == lit_tick_t1_sym(),
        b.subrange(261 + digits_of(t.token0_reserve as nat).len() as int + t.token0_symbol.len() as int + digits_of(t.token1_reserve as nat).len() as int, 262 + digits_of(t.token0_reserve as nat).len() as int + t.token0_symbol.len() as int + digits_of(t.token1_reserve as nat).len() as int + t.token1_symbol.len() as int) == qrun(t.token1_symbol),
        b.subrange(262 + digits_of(t.token0_reserve as nat).len() as int + t.token0_symbol.len() as int + digits_of(t.token1_reserve as nat).len() as int + t.token1_symbol.len() as int, 284 + digits_of(t.token0_reserve as nat).len() as int + t.token0_symbol.len() as int + digits_of(t.token1_reserve as nat).len() as int + t.token1_symbol.len() as int) == lit_tick_r01(),
        b.subrange(284 + digits_of(t.token0_reserve as nat).len() as int + t.token0_symbol.len() as int + digits_of(t.token1_reserve as nat).len() as int + t.token1_symbol.len() as int, 285 + digits_of(t.token0_reserve as nat).len() as int + t.token0_symbol.len() as int + digits_of(t.token1_reserve as nat).len() as int + t.token1_symbol.len() as int + t.token0_token1_e18.len() as int) == qrun(t.token0_token1_e18),
        b.subrange(285 + digits_of(t.token0_reserve as nat).len() as int + t.token0_symbol.len() as int + digits_of(t.token1_reserve as nat).len() as int + t.token1_symbol.len() as int + t.token0_token1_e18.len() as int, 307 + digits_of(t.token0_reserve as nat).len() as int + t.token0_symbol.len() as int + digits_of(t.token1_reserve as nat).len() as int + t.token1_symbol.len() as int + t.token0_token1_e18.len() as int) == lit_tick_r10(),
        b.subrange(307 + digits_of(t.token0_reserve as nat).len() as int + t.token0_symbol.len() as int + digits_of(t.token1_reserve as nat).len() as int + t.token1_symbol.len() as int + t.token0_token1_e18.len() as int, 308 + digits_of(t.token0_reserve as nat).len() as int + t.token0_symbol.len() as int + digits_of(t.token1_reserve as nat).len() as int + t.token1_symbol.len() as int + t.token0_token1_e18.len() as int + t.token1_token0_e18.len() as int) == qrun(t.token1_token0_e18),
        b.subrange(308 + digits_of(t.token0_reserve as nat).len() as int + t.token0_symbol.len() as int + digits_of(t.token1_reserve as nat).len() as int + t.token1_symbol.len() as int + t.token0_token1_e18.len() as int + t.token1_token0_e18.len() as int, 331 + digits_of(t.token0_reserve as nat).len() as int + t.token0_symbol.len() as int + digits_of(t.token1_reserve as nat).len() as int + t.token1_symbol.len() as int + t.token0_token1_e18.len() as int + t.token1_token0_e18.len() as int) == lit_txhash_c(),
        b.subrange(331 + digits_of(t.token0_reserve as nat).len() as int + t.token0_symbol.len() as int + digits_of(t.token1_reserve as nat).len() as int + t.token1_symbol.len() as int + t.token0_token1_e18.len() as int + t.token1_token0_e18.len() as int, 395 + digits_of(t.token0_reserve as nat).len() as int + t.token0_symbol.len() as int + digits_of(t.token1_reserve as nat).len() as int + t.token1_symbol.len() as int + t.token0_token1_e18.len() as int + t.token1_token0_e18.len() as int) == hex_of(t.transaction_hash),
        b.subrange(395 + digits_of(t.token0_reserve as nat).len() as int + t.token0_symbol.len() as int + digits_of(t.token1_reserve as nat).len() as int + t.token1_symbol.len() as int + t.token0_token1_e18.len() as int + t.token1_token0_e18.len() as int, 413 + digits_of(t.token0_reserve as nat).len() as int + t.token0_symbol.len() as int + digits_of(t.token1_reserve as nat).len() as int + t.token1_symbol.len() as int + t.token0_token1_e18.len() as int + t.token1_token0_e18.len() as int) == lit_block_number(),
        b.subrange(413 + digits_of(t.token0_reserve as nat).len() as int + t.token0_symbol.len() as int + digits_of(t.token1_reserve as nat).len() as int + t.token1_symbol.len() as int + t.token0_token1_e18.len() as int + t.token1_token0_e18.len() as int, 414 + digits_of(t.token0_reserve as nat).len() as int + t.token0_symbol.len() as int + digits_of(t.token1_reserve as nat).len() as int + t.token1_symbol.len() as int + t.token0_token1_e18.len() as int + t.token1_token0_e18.len() as int + digits_of(t.block_number as nat).len() as int) == qrun(digits_of(t.block_number as nat)),
        b.subrange(414 + digits_of(t.token0_reserve as nat).len() as int + t.token0_symbol.len() as int + digits_of(t.token1_reserve as nat).len() as int + t.token1_symbol.len() as int + t.token0_token1_e18.len() as int + t.token1_token0_e18.len() as int + digits_of(t.block_number as nat).len() as int, 434 + digits_of(t.token0_reserve as nat).len() as int + t.token0_symbol.len() as int + digits_of(t.token1_reserve as nat).len() as int + t.token1_symbol.len() as int + t.token0_token1_e18.len() as int + t.token1_token0_e18.len() as int + digits_of(t.block_number as nat).len() as int) == lit_block_timestamp_c(),
        b.subrange(434 + digits_of(t.token0_reserve as nat).len() as int + t.token0_symbol.len() as int + digits_of(t.token1_reserve as nat).len() as int + t.token1_symbol.len() as int + t.token0_token1_e18.len() as int + t.token1_token0_e18.len() as int + digits_of(t.block_number as nat).len() as int, 435 + digits_of(t.token0_reserve as nat).len() as int + t.token0_symbol.len() as int + digits_of(t.token1_reserve as nat).len() as int + t.token1_symbol.len() as int + t.token0_token1_e18.len() as int + t.token1_token0_e18.len() as int + digits_of(t.block_number as nat).len() as int + digits_of(t.block_timestamp as nat).len() as int) == qrun(digits_of(t.block_timestamp as nat)),
        b.subrange(435 + digits_of(t.token0_reserve as nat).len() as int + t.token0_symbol.len() as int + digits_of(t.token1_reserve as nat).len() as int + t.token1_symbol.len() as int + t.token0_token1_e18.len() as int + t.token1_token0_e18.len() as int + digits_of(t.block_number as nat).len() as int + digits_of(t.block_timestamp as nat).len() as int, 436 + digits_of(t.token0_reserve as nat).len() as int + t.token0_symbol.len() as int + digits_of(t.token1_reserve as nat).len() as int + t.token1_symbol.len() as int + t.token0_token1_e18.len() as int + t.token1_token0_e18.len() as int + digits_of(t.block_number as nat).len() as int + digits_of(t.block_timestamp as nat).len() as int) == lit_close_obj(),
{
    lemma_ti_peel_tail(b, t);
    lemma_ti_peel_rates(b, t);
}

/// The window fact the `r0` run leaves on the wire.
pub open spec fn ti_w_r0(b: Seq<u8>, w_r0: Seq<u8>) -> bool {
    &&& canonical_digits(w_r0)
    &&& 142 + w_r0.len() as int <= b.len()
    &&& b.subrange(141, 142 + w_r0.len() as int) == qrun(w_r0)
}


/// The window fact the `s0` run leaves on the wire.
pub open spec fn ti_w_s0(b: Seq<u8>, w_r0: Seq<u8>, w_s0: Seq<u8>) -> bool {
    &&& crate::model::symbol_wf(w_s0)
    &&& 161 + w_r0.len() as int + w_s0.len() as int <= b.len()
    &&& b.subrange(160 + w_r0.len() as int, 161 + w_r0.len() as int + w_s0.len() as int) == qrun(w_s0)
}


/// The window fact the `r1` run leaves on the wire.
pub open spec fn ti_w_r1(b: Seq<u8>, w_r0: Seq<u8>, w_s0: Seq<u8>, w_r1: Seq<u8>) -> bool {
    &&& canonical_digits(w_r1)
    &&& 243 + w_r0.len() as int + w_s0.len() as int + w_r1.len() as int <= b.len()
    &&& b.subrange(242 + w_r0.len() as int + w_s0.len() as int, 243 + w_r0.len() as int + w_s0.len() as int + w_r1.len() as int) == qrun(w_r1)
}


/// The window fact the `s1` run leaves on the wire.
pub open spec fn ti_w_s1(b: Seq<u8>, w_r0: Seq<u8>, w_s0: Seq<u8>, w_r1: Seq<u8>, w_s1: Seq<u8>) -> bool {
    &&& crate::model::symbol_wf(w_s1)
    &&& 262 + w_r0.len() as int + w_s0.len() as int + w_r1.len() as int + w_s1.len() as int <= b.len()
    &&& b.subrange(261 + w_r0.len() as int + w_s0.len() as int + w_r1.len() as int, 262 + w_r0.len() as int + w_s0.len() as int + w_r1.len() as int + w_s1.len() as int) == qrun(w_s1)
}


/// The window fact the `p01` run leaves on the wire.
pub open spec fn ti_w_p01(b: Seq<u8>, w_r0: Seq<u8>, w_s0: Seq<u8>, w_r1: Seq<u8>, w_s1: Seq<u8>, w_p01: Seq<u8>) -> bool {
    &&& canonical_digits(w_p01)
    &&& 285 + w_r0.len() as int + w_s0.len() as int + w_r1.len() as int + w_s1.len() as int + w_p01.len() as int <= b.len()
    &&& b.subrange(284 + w_r0.len() as int + w_s0.len() as int + w_r1.len() as int + w_s1.len() as int, 285 + w_r0.len() as int + w_s0.len() as int + w_r1.len() as int + w_s1.len() as int + w_p01.len() as int) == qrun(w_p01)
}


/// The window fact the `p10` run leaves on the wire.
pub open spec fn ti_w_p10(b: Seq<u8>, w_r0: Seq<u8>, w_s0: Seq<u8>, w_r1: Seq<u8>, w_s1: Seq<u8>, w_p01: Seq<u8>, w_p10: Seq<u8>) -> bool {
    &&& canonical_digits(w_p10)
    &&& 308 + w_r0.len() as int + w_s0.len() as int + w_r1.len() as int + w_s1.len() as int + w_p01.len() as int + w_p10.len() as int <= b.len()
    &&& b.subrange(307 + w_r0.len() as int + w_s0.len() as int + w_r1.len() as int + w_s1.len() as int + w_p01.len() as int, 308 + w_r0.len() as int + w_s0.len() as int + w_r1.len() as int + w_s1.len() as int + w_p01.len() as int + w_p10.len() as int) == qrun(w_p10)
}


/// The window fact the `bn` run leaves on the wire.
pub open spec fn ti_w_bn(b: Seq<u8>, w_r0: Seq<u8>, w_s0: Seq<u8>, w_r1: Seq<u8>, w_s1: Seq<u8>, w_p01: Seq<u8>, w_p10: Seq<u8>, w_bn: Seq<u8>) -> bool {
    &&& canonical_digits(w_bn)
    &&& 414 + w_r0.len() as int + w_s0.len() as int + w_r1.len() as int + w_s1.len() as int + w_p01.len() as int + w_p10.len() as int + w_bn.len() as int <= b.len()
    &&& b.subrange(413 + w_r0.len() as int + w_s0.len() as int + w_r1.len() as int + w_s1.len() as int + w_p01.len() as int + w_p10.len() as int, 414 + w_r0.len() as int + w_s0.len() as int + w_r1.len() as int + w_s1.len() as int + w_p01.len() as int + w_p10.len() as int + w_bn.len() as int) == qrun(w_bn)
}


/// The window fact the `ts` run leaves on the wire.
pub open spec fn ti_w_ts(b: Seq<u8>, w_r0: Seq<u8>, w_s0: Seq<u8>, w_r1: Seq<u8>, w_s1: Seq<u8>, w_p01: Seq<u8>, w_p10: Seq<u8>, w_bn: Seq<u8>, w_ts: Seq<u8>) -> bool {
    &&& canonical_digits(w_ts)
    &&& 435 + w_r0.len() as int + w_s0.len() as int + w_r1.len() as int + w_s1.len() as int + w_p01.len() as int + w_p10.len() as int + w_bn.len() as int + w_ts.len() as int <= b.len()
    &&& b.subrange(434 + w_r0.len() as int + w_s0.len() as int + w_r1.len() as int + w_s1.len() as int + w_p01.len() as int + w_p10.len() as int + w_bn.len() as int, 435 + w_r0.len() as int + w_s0.len() as int + w_r1.len() as int + w_s1.len() as int + w_p01.len() as int + w_p10.len() as int + w_bn.len() as int + w_ts.len() as int) == qrun(w_ts)
}




/// The candidate's `r0` window, extracted on its own.
proof fn lemma_ti_cand_r0(b: Seq<u8>, t: PriceTickV)
    requires
        tick_wf(t),
        b == enc_price_tick(t),
    ensures
        142 + digits_of(t.token0_reserve as nat).len() as int <= b.len(),
        b.subrange(141, 142 + digits_of(t.token0_reserve as nat).len() as int) == qrun(digits_of(t.token0_reserve as nat)),
{
    lemma_ti_peel(b, t);
}

#[verifier::rlimit(100)]
proof fn lemma_ti_pin_r0(b: Seq<u8>, w_r0: Seq<u8>, t: PriceTickV)
    requires
        ti_w_r0(b, w_r0),
        tick_wf(t),
        b == enc_price_tick(t),
    ensures
        digits_of(t.token0_reserve as nat) == w_r0,
        dec_val(w_r0) == t.token0_reserve as nat,
{
    lemma_ti_cand_r0(b, t);
    lemma_digits_of_correct(t.token0_reserve as nat);
    lemma_digit_seq_no_quote(w_r0);
    lemma_digit_seq_no_quote(digits_of(t.token0_reserve as nat));
    lemma_delimited_unique(b, 141, w_r0, digits_of(t.token0_reserve as nat));
}

/// The candidate's `s0` window, extracted on its own.
proof fn lemma_ti_cand_s0(b: Seq<u8>, t: PriceTickV)
    requires
        tick_wf(t),
        b == enc_price_tick(t),
    ensures
        161 + digits_of(t.token0_reserve as nat).len() as int + t.token0_symbol.len() as int <= b.len(),
        b.subrange(160 + digits_of(t.token0_reserve as nat).len() as int, 161 + digits_of(t.token0_reserve as nat).len() as int + t.token0_symbol.len() as int) == qrun(t.token0_symbol),
{
    lemma_ti_peel(b, t);
}

#[verifier::rlimit(100)]
proof fn lemma_ti_pin_s0(b: Seq<u8>, w_r0: Seq<u8>, w_s0: Seq<u8>, t: PriceTickV)
    requires
        ti_w_r0(b, w_r0),
        ti_w_s0(b, w_r0, w_s0),
        tick_wf(t),
        b == enc_price_tick(t),
    ensures
        t.token0_symbol == w_s0,
{
    lemma_ti_pin_r0(b, w_r0, t);
    lemma_ti_cand_s0(b, t);
    lemma_symbol_no_quote(w_s0);
    lemma_symbol_no_quote(t.token0_symbol);
    lemma_delimited_unique(b, 160 + w_r0.len() as int, w_s0, t.token0_symbol);
}

/// The candidate's `r1` window, extracted on its own.
proof fn lemma_ti_cand_r1(b: Seq<u8>, t: PriceTickV)
    requires
        tick_wf(t),
        b == enc_price_tick(t),
    ensures
        243 + digits_of(t.token0_reserve as nat).len() as int + t.token0_symbol.len() as int + digits_of(t.token1_reserve as nat).len() as int <= b.len(),
        b.subrange(242 + digits_of(t.token0_reserve as nat).len() as int + t.token0_symbol.len() as int, 243 + digits_of(t.token0_reserve as nat).len() as int + t.token0_symbol.len() as int + digits_of(t.token1_reserve as nat).len() as int) == qrun(digits_of(t.token1_reserve as nat)),
{
    lemma_ti_peel(b, t);
}

#[verifier::rlimit(100)]
proof fn lemma_ti_pin_r1(b: Seq<u8>, w_r0: Seq<u8>, w_s0: Seq<u8>, w_r1: Seq<u8>, t: PriceTickV)
    requires
        ti_w_r0(b, w_r0),
        ti_w_s0(b, w_r0, w_s0),
        ti_w_r1(b, w_r0, w_s0, w_r1),
        tick_wf(t),
        b == enc_price_tick(t),
    ensures
        digits_of(t.token1_reserve as nat) == w_r1,
        dec_val(w_r1) == t.token1_reserve as nat,
{
    lemma_ti_pin_r0(b, w_r0, t);
    lemma_ti_pin_s0(b, w_r0, w_s0, t);
    lemma_ti_cand_r1(b, t);
    lemma_digits_of_correct(t.token1_reserve as nat);
    lemma_digit_seq_no_quote(w_r1);
    lemma_digit_seq_no_quote(digits_of(t.token1_reserve as nat));
    lemma_delimited_unique(b, 242 + w_r0.len() as int + w_s0.len() as int, w_r1, digits_of(t.token1_reserve as nat));
}

/// The candidate's `s1` window, extracted on its own.
proof fn lemma_ti_cand_s1(b: Seq<u8>, t: PriceTickV)
    requires
        tick_wf(t),
        b == enc_price_tick(t),
    ensures
        262 + digits_of(t.token0_reserve as nat).len() as int + t.token0_symbol.len() as int + digits_of(t.token1_reserve as nat).len() as int + t.token1_symbol.len() as int <= b.len(),
        b.subrange(261 + digits_of(t.token0_reserve as nat).len() as int + t.token0_symbol.len() as int + digits_of(t.token1_reserve as nat).len() as int, 262 + digits_of(t.token0_reserve as nat).len() as int + t.token0_symbol.len() as int + digits_of(t.token1_reserve as nat).len() as int + t.token1_symbol.len() as int) == qrun(t.token1_symbol),
{
    lemma_ti_peel(b, t);
}

#[verifier::rlimit(100)]
proof fn lemma_ti_pin_s1(b: Seq<u8>, w_r0: Seq<u8>, w_s0: Seq<u8>, w_r1: Seq<u8>, w_s1: Seq<u8>, t: PriceTickV)
    requires
        ti_w_r0(b, w_r0),
        ti_w_s0(b, w_r0, w_s0),
        ti_w_r1(b, w_r0, w_s0, w_r1),
        ti_w_s1(b, w_r0, w_s0, w_r1, w_s1),
        tick_wf(t),
        b == enc_price_tick(t),
    ensures
        t.token1_symbol == w_s1,
{
    lemma_ti_pin_r0(b, w_r0, t);
    lemma_ti_pin_s0(b, w_r0, w_s0, t);
    lemma_ti_pin_r1(b, w_r0, w_s0, w_r1, t);
    lemma_ti_cand_s1(b, t);
    lemma_symbol_no_quote(w_s1);
    lemma_symbol_no_quote(t.token1_symbol);
    lemma_delimited_unique(b, 261 + w_r0.len() as int + w_s0.len() as int + w_r1.len() as int, w_s1, t.token1_symbol);
}

/// The candidate's `p01` window, extracted on its own.
proof fn lemma_ti_cand_p01(b: Seq<u8>, t: PriceTickV)
    requires
        tick_wf(t),
        b == enc_price_tick(t),
    ensures
        285 + digits_of(t.token0_reserve as nat).len() as int + t.token0_symbol.len() as int + digits_of(t.token1_reserve as nat).len() as int + t.token1_symbol.len() as int + t.token0_token1_e18.len() as int <= b.len(),
        b.subrange(284 + digits_of(t.token0_reserve as nat).len() as int + t.token0_symbol.len() as int + digits_of(t.token1_reserve as nat).len() as int + t.token1_symbol.len() as int, 285 + digits_of(t.token0_reserve as nat).len() as int + t.token0_symbol.len() as int + digits_of(t.token1_reserve as nat).len() as int + t.token1_symbol.len() as int + t.token0_token1_e18.len() as int) == qrun(t.token0_token1_e18),
{
    lemma_ti_peel(b, t);
}

#[verifier::rlimit(100)]
proof fn lemma_ti_pin_p01(b: Seq<u8>, w_r0: Seq<u8>, w_s0: Seq<u8>, w_r1: Seq<u8>, w_s1: Seq<u8>, w_p01: Seq<u8>, t: PriceTickV)
    requires
        ti_w_r0(b, w_r0),
        ti_w_s0(b, w_r0, w_s0),
        ti_w_r1(b, w_r0, w_s0, w_r1),
        ti_w_s1(b, w_r0, w_s0, w_r1, w_s1),
        ti_w_p01(b, w_r0, w_s0, w_r1, w_s1, w_p01),
        tick_wf(t),
        b == enc_price_tick(t),
    ensures
        t.token0_token1_e18 == w_p01,
{
    lemma_ti_pin_r0(b, w_r0, t);
    lemma_ti_pin_s0(b, w_r0, w_s0, t);
    lemma_ti_pin_r1(b, w_r0, w_s0, w_r1, t);
    lemma_ti_pin_s1(b, w_r0, w_s0, w_r1, w_s1, t);
    lemma_ti_cand_p01(b, t);
    lemma_digit_seq_no_quote(w_p01);
    lemma_digit_seq_no_quote(t.token0_token1_e18);
    lemma_delimited_unique(b, 284 + w_r0.len() as int + w_s0.len() as int + w_r1.len() as int + w_s1.len() as int, w_p01, t.token0_token1_e18);
}

/// The candidate's `p10` window, extracted on its own.
proof fn lemma_ti_cand_p10(b: Seq<u8>, t: PriceTickV)
    requires
        tick_wf(t),
        b == enc_price_tick(t),
    ensures
        308 + digits_of(t.token0_reserve as nat).len() as int + t.token0_symbol.len() as int + digits_of(t.token1_reserve as nat).len() as int + t.token1_symbol.len() as int + t.token0_token1_e18.len() as int + t.token1_token0_e18.len() as int <= b.len(),
        b.subrange(307 + digits_of(t.token0_reserve as nat).len() as int + t.token0_symbol.len() as int + digits_of(t.token1_reserve as nat).len() as int + t.token1_symbol.len() as int + t.token0_token1_e18.len() as int, 308 + digits_of(t.token0_reserve as nat).len() as int + t.token0_symbol.len() as int + digits_of(t.token1_reserve as nat).len() as int + t.token1_symbol.len() as int + t.token0_token1_e18.len() as int + t.token1_token0_e18.len() as int) == qrun(t.token1_token0_e18),
{
    lemma_ti_peel(b, t);
}

#[verifier::rlimit(100)]
proof fn lemma_ti_pin_p10(b: Seq<u8>, w_r0: Seq<u8>, w_s0: Seq<u8>, w_r1: Seq<u8>, w_s1: Seq<u8>, w_p01: Seq<u8>, w_p10: Seq<u8>, t: PriceTickV)
    requires
        ti_w_r0(b, w_r0),
        ti_w_s0(b, w_r0, w_s0),
        ti_w_r1(b, w_r0, w_s0, w_r1),
        ti_w_s1(b, w_r0, w_s0, w_r1, w_s1),
        ti_w_p01(b, w_r0, w_s0, w_r1, w_s1, w_p01),
        ti_w_p10(b, w_r0, w_s0, w_r1, w_s1, w_p01, w_p10),
        tick_wf(t),
        b == enc_price_tick(t),
    ensures
        t.token1_token0_e18 == w_p10,
{
    lemma_ti_pin_r0(b, w_r0, t);
    lemma_ti_pin_s0(b, w_r0, w_s0, t);
    lemma_ti_pin_r1(b, w_r0, w_s0, w_r1, t);
    lemma_ti_pin_s1(b, w_r0, w_s0, w_r1, w_s1, t);
    lemma_ti_pin_p01(b, w_r0, w_s0, w_r1, w_s1, w_p01, t);
    lemma_ti_cand_p10(b, t);
    lemma_digit_seq_no_quote(w_p10);
    lemma_digit_seq_no_quote(t.token1_token0_e18);
    lemma_delimited_unique(b, 307 + w_r0.len() as int + w_s0.len() as int + w_r1.len() as int + w_s1.len() as int + w_p01.len() as int, w_p10, t.token1_token0_e18);
}

/// The candidate's `bn` window, extracted on its own.
proof fn lemma_ti_cand_bn(b: Seq<u8>, t: PriceTickV)
    requires
        tick_wf(t),
        b == enc_price_tick(t),
    ensures
        414 + digits_of(t.token0_reserve as nat).len() as int + t.token0_symbol.len() as int + digits_of(t.token1_reserve as nat).len() as int + t.token1_symbol.len() as int + t.token0_token1_e18.len() as int + t.token1_token0_e18.len() as int + digits_of(t.block_number as nat).len() as int <= b.len(),
        b.subrange(413 + digits_of(t.token0_reserve as nat).len() as int + t.token0_symbol.len() as int + digits_of(t.token1_reserve as nat).len() as int + t.token1_symbol.len() as int + t.token0_token1_e18.len() as int + t.token1_token0_e18.len() as int, 414 + digits_of(t.token0_reserve as nat).len() as int + t.token0_symbol.len() as int + digits_of(t.token1_reserve as nat).len() as int + t.token1_symbol.len() as int + t.token0_token1_e18.len() as int + t.token1_token0_e18.len() as int + digits_of(t.block_number as nat).len() as int) == qrun(digits_of(t.block_number as nat)),
{
    lemma_ti_peel(b, t);
}

#[verifier::rlimit(100)]
proof fn lemma_ti_pin_bn(b: Seq<u8>, w_r0: Seq<u8>, w_s0: Seq<u8>, w_r1: Seq<u8>, w_s1: Seq<u8>, w_p01: Seq<u8>, w_p10: Seq<u8>, w_bn: Seq<u8>, t: PriceTickV)
    requires
        ti_w_r0(b, w_r0),
        ti_w_s0(b, w_r0, w_s0),
        ti_w_r1(b, w_r0, w_s0, w_r1),
        ti_w_s1(b, w_r0, w_s0, w_r1, w_s1),
        ti_w_p01(b, w_r0, w_s0, w_r1, w_s1, w_p01),
        ti_w_p10(b, w_r0, w_s0, w_r1, w_s1, w_p01, w_p10),
        ti_w_bn(b, w_r0, w_s0, w_r1, w_s1, w_p01, w_p10, w_bn),
        tick_wf(t),
        b == enc_price_tick(t),
    ensures
        digits_of(t.block_number as nat) == w_bn,
        dec_val(w_bn) == t.block_number as nat,
{
    lemma_ti_pin_r0(b, w_r0, t);
    lemma_ti_pin_s0(b, w_r0, w_s0, t);
    lemma_ti_pin_r1(b, w_r0, w_s0, w_r1, t);
    lemma_ti_pin_s1(b, w_r0, w_s0, w_r1, w_s1, t);
    lemma_ti_pin_p01(b, w_r0, w_s0, w_r1, w_s1, w_p01, t);
    lemma_ti_pin_p10(b, w_r0, w_s0, w_r1, w_s1, w_p01, w_p10, t);
    lemma_ti_cand_bn(b, t);
    lemma_digits_of_correct(t.block_number as nat);
    lemma_digit_seq_no_quote(w_bn);
    lemma_digit_seq_no_quote(digits_of(t.block_number as nat));
    lemma_delimited_unique(b, 413 + w_r0.len() as int + w_s0.len() as int + w_r1.len() as int + w_s1.len() as int + w_p01.len() as int + w_p10.len() as int, w_bn, digits_of(t.block_number as nat));
}

/// The candidate's `ts` window, extracted on its own.
proof fn lemma_ti_cand_ts(b: Seq<u8>, t: PriceTickV)
    requires
        tick_wf(t),
        b == enc_price_tick(t),
    ensures
        435 + digits_of(t.token0_reserve as nat).len() as int + t.token0_symbol.len() as int + digits_of(t.token1_reserve as nat).len() as int + t.token1_symbol.len() as int + t.token0_token1_e18.len() as int + t.token1_token0_e18.len() as int + digits_of(t.block_number as nat).len() as int + digits_of(t.block_timestamp as nat).len() as int <= b.len(),
        b.subrange(434 + digits_of(t.token0_reserve as nat).len() as int + t.token0_symbol.len() as int + digits_of(t.token1_reserve as nat).len() as int + t.token1_symbol.len() as int + t.token0_token1_e18.len() as int + t.token1_token0_e18.len() as int + digits_of(t.block_number as nat).len() as int, 435 + digits_of(t.token0_reserve as nat).len() as int + t.token0_symbol.len() as int + digits_of(t.token1_reserve as nat).len() as int + t.token1_symbol.len() as int + t.token0_token1_e18.len() as int + t.token1_token0_e18.len() as int + digits_of(t.block_number as nat).len() as int + digits_of(t.block_timestamp as nat).len() as int) == qrun(digits_of(t.block_timestamp as nat)),
{
    lemma_ti_peel(b, t);
}

#[verifier::rlimit(100)]
proof fn lemma_ti_pin_ts(b: Seq<u8>, w_r0: Seq<u8>, w_s0: Seq<u8>, w_r1: Seq<u8>, w_s1: Seq<u8>, w_p01: Seq<u8>, w_p10: Seq<u8>, w_bn: Seq<u8>, w_ts: Seq<u8>, t: PriceTickV)
    requires
        ti_w_r0(b, w_r0),
        ti_w_s0(b, w_r0, w_s0),
        ti_w_r1(b, w_r0, w_s0, w_r1),
        ti_w_s1(b, w_r0, w_s0, w_r1, w_s1),
        ti_w_p01(b, w_r0, w_s0, w_r1, w_s1, w_p01),
        ti_w_p10(b, w_r0, w_s0, w_r1, w_s1, w_p01, w_p10),
        ti_w_bn(b, w_r0, w_s0, w_r1, w_s1, w_p01, w_p10, w_bn),
        ti_w_ts(b, w_r0, w_s0, w_r1, w_s1, w_p01, w_p10, w_bn, w_ts),
        tick_wf(t),
        b == enc_price_tick(t),
    ensures
        digits_of(t.block_timestamp as nat) == w_ts,
        dec_val(w_ts) == t.block_timestamp as nat,
{
    lemma_ti_pin_r0(b, w_r0, t);
    lemma_ti_pin_s0(b, w_r0, w_s0, t);
    lemma_ti_pin_r1(b, w_r0, w_s0, w_r1, t);
    lemma_ti_pin_s1(b, w_r0, w_s0, w_r1, w_s1, t);
    lemma_ti_pin_p01(b, w_r0, w_s0, w_r1, w_s1, w_p01, t);
    lemma_ti_pin_p10(b, w_r0, w_s0, w_r1, w_s1, w_p01, w_p10, t);
    lemma_ti_pin_bn(b, w_r0, w_s0, w_r1, w_s1, w_p01, w_p10, w_bn, t);
    lemma_ti_cand_ts(b, t);
    lemma_digits_of_correct(t.block_timestamp as nat);
    lemma_digit_seq_no_quote(w_ts);
    lemma_digit_seq_no_quote(digits_of(t.block_timestamp as nat));
    lemma_delimited_unique(b, 434 + w_r0.len() as int + w_s0.len() as int + w_r1.len() as int + w_s1.len() as int + w_p01.len() as int + w_p10.len() as int + w_bn.len() as int, w_ts, digits_of(t.block_timestamp as nat));
}

/// No well-formed `PriceTick` encodes to `b`.
#[verifier::opaque]
pub open spec fn no_tick_encoding(b: Seq<u8>) -> bool {
    forall|t: PriceTickV| tick_wf(t) ==> b != enc_price_tick(t)
}

proof fn lemma_ti_none_head(b: Seq<u8>)
    requires
        !(19 <= b.len() && b.subrange(0, 19) == lit_tick_pair_addr()) || (forall|s: Seq<u8>|
            s.len() == 20 ==> !(59 <= b.len() && b.subrange(19, 59) == hex_of(s))) || !(81
            <= b.len() && b.subrange(59, 81) == lit_tick_t0_addr()) || (forall|s: Seq<u8>|
            s.len() == 20 ==> !(121 <= b.len() && b.subrange(81, 121) == hex_of(s))) || !(141
            <= b.len() && b.subrange(121, 141) == lit_tick_t0_res()),
    ensures
        no_tick_encoding(b),
{
    reveal(no_tick_encoding);
    assert forall|t: PriceTickV| tick_wf(t) implies b != enc_price_tick(t) by {
        if b == enc_price_tick(t) {
            lemma_ti_peel(b, t);
        }
    }
}

proof fn lemma_ti_none_r0_run(b: Seq<u8>)
    requires
        forall|d: Seq<u8>|
            canonical_digits(d) ==> !(141 + d.len() + 1 <= b.len() && b.subrange(
                141,
                142 + d.len() as int,
            ) == qrun(d)),
    ensures
        no_tick_encoding(b),
{
    reveal(no_tick_encoding);
    assert forall|t: PriceTickV| tick_wf(t) implies b != enc_price_tick(t) by {
        if b == enc_price_tick(t) {
            lemma_ti_peel(b, t);
            lemma_digits_of_correct(t.token0_reserve as nat);
        }
    }
}

proof fn lemma_ti_none_r0_val(b: Seq<u8>, w_r0: Seq<u8>)
    requires
        ti_w_r0(b, w_r0),
        dec_val(w_r0) >= RESERVE_LIMIT,
    ensures
        no_tick_encoding(b),
{
    reveal(no_tick_encoding);
    assert forall|t: PriceTickV| tick_wf(t) implies b != enc_price_tick(t) by {
        if b == enc_price_tick(t) {
            lemma_ti_pin_r0(b, w_r0, t);
        }
    }
}

proof fn lemma_ti_none_s0_lit(b: Seq<u8>, w_r0: Seq<u8>)
    requires
        ti_w_r0(b, w_r0),
        !(160 + w_r0.len() as int <= b.len() && b.subrange(
            142 + w_r0.len() as int,
            160 + w_r0.len() as int,
        ) == lit_tick_t0_sym()),
    ensures
        no_tick_encoding(b),
{
    reveal(no_tick_encoding);
    assert forall|t: PriceTickV| tick_wf(t) implies b != enc_price_tick(t) by {
        if b == enc_price_tick(t) {
            lemma_ti_pin_r0(b, w_r0, t);
            lemma_ti_peel(b, t);
        }
    }
}

proof fn lemma_ti_none_s0_run(b: Seq<u8>, w_r0: Seq<u8>)
    requires
        ti_w_r0(b, w_r0),
        forall|s: Seq<u8>|
            crate::model::symbol_wf(s) ==> !(160 + w_r0.len() as int + s.len() + 1 <= b.len()
                && b.subrange(
                160 + w_r0.len() as int,
                161 + w_r0.len() as int + s.len() as int,
            ) == qrun(s)),
    ensures
        no_tick_encoding(b),
{
    reveal(no_tick_encoding);
    assert forall|t: PriceTickV| tick_wf(t) implies b != enc_price_tick(t) by {
        if b == enc_price_tick(t) {
            lemma_ti_pin_r0(b, w_r0, t);
            lemma_ti_peel(b, t);
        }
    }
}

proof fn lemma_ti_none_t1_head(b: Seq<u8>, w_r0: Seq<u8>, w_s0: Seq<u8>)
    requires
        ti_w_r0(b, w_r0),
        ti_w_s0(b, w_r0, w_s0),
        ({
            let p = 161 + w_r0.len() as int + w_s0.len() as int;
            ||| !(p + 21 <= b.len() && b.subrange(p, p + 21) == lit_tick_t1_addr())
            ||| (forall|s: Seq<u8>|
                s.len() == 20 ==> !(p + 61 <= b.len() && b.subrange(p + 21, p + 61) == hex_of(s)))
            ||| !(p + 81 <= b.len() && b.subrange(p + 61, p + 81) == lit_tick_t1_res())
        }),
    ensures
        no_tick_encoding(b),
{
    reveal(no_tick_encoding);
    assert forall|t: PriceTickV| tick_wf(t) implies b != enc_price_tick(t) by {
        if b == enc_price_tick(t) {
            lemma_ti_pin_r0(b, w_r0, t);
            lemma_ti_pin_s0(b, w_r0, w_s0, t);
            lemma_ti_peel(b, t);
        }
    }
}

proof fn lemma_ti_none_r1_run(b: Seq<u8>, w_r0: Seq<u8>, w_s0: Seq<u8>)
    requires
        ti_w_r0(b, w_r0),
        ti_w_s0(b, w_r0, w_s0),
        forall|d: Seq<u8>|
            canonical_digits(d) ==> !(242 + w_r0.len() as int + w_s0.len() as int + d.len() + 1 <= b.len() && b.subrange(
                242 + w_r0.len() as int + w_s0.len() as int,
                243 + w_r0.len() as int + w_s0.len() as int + d.len() as int,
            ) == qrun(d)),
    ensures
        no_tick_encoding(b),
{
    reveal(no_tick_encoding);
    assert forall|t: PriceTickV| tick_wf(t) implies b != enc_price_tick(t) by {
        if b == enc_price_tick(t) {
            lemma_ti_pin_r0(b, w_r0, t);
            lemma_ti_pin_s0(b, w_r0, w_s0, t);
            lemma_ti_peel(b, t);
            lemma_digits_of_correct(t.token1_reserve as nat);
        }
    }
}

proof fn lemma_ti_none_r1_val(b: Seq<u8>, w_r0: Seq<u8>, w_s0: Seq<u8>, w_r1: Seq<u8>)
    requires
        ti_w_r0(b, w_r0),
        ti_w_s0(b, w_r0, w_s0),
        ti_w_r1(b, w_r0, w_s0, w_r1),
        dec_val(w_r1) >= RESERVE_LIMIT,
    ensures
        no_tick_encoding(b),
{
    reveal(no_tick_encoding);
    assert forall|t: PriceTickV| tick_wf(t) implies b != enc_price_tick(t) by {
        if b == enc_price_tick(t) {
            lemma_ti_pin_r0(b, w_r0, t);
            lemma_ti_pin_s0(b, w_r0, w_s0, t);
            lemma_ti_pin_r1(b, w_r0, w_s0, w_r1, t);
        }
    }
}

proof fn lemma_ti_none_s1_lit(b: Seq<u8>, w_r0: Seq<u8>, w_s0: Seq<u8>, w_r1: Seq<u8>)
    requires
        ti_w_r0(b, w_r0),
        ti_w_s0(b, w_r0, w_s0),
        ti_w_r1(b, w_r0, w_s0, w_r1),
        !(261 + w_r0.len() as int + w_s0.len() as int + w_r1.len() as int <= b.len() && b.subrange(
            243 + w_r0.len() as int + w_s0.len() as int + w_r1.len() as int,
            261 + w_r0.len() as int + w_s0.len() as int + w_r1.len() as int,
        ) == lit_tick_t1_sym()),
    ensures
        no_tick_encoding(b),
{
    reveal(no_tick_encoding);
    assert forall|t: PriceTickV| tick_wf(t) implies b != enc_price_tick(t) by {
        if b == enc_price_tick(t) {
            lemma_ti_pin_r0(b, w_r0, t);
            lemma_ti_pin_s0(b, w_r0, w_s0, t);
            lemma_ti_pin_r1(b, w_r0, w_s0, w_r1, t);
            lemma_ti_peel(b, t);
        }
    }
}

proof fn lemma_ti_none_s1_run(b: Seq<u8>, w_r0: Seq<u8>, w_s0: Seq<u8>, w_r1: Seq<u8>)
    requires
        ti_w_r0(b, w_r0),
        ti_w_s0(b, w_r0, w_s0),
        ti_w_r1(b, w_r0, w_s0, w_r1),
        forall|s: Seq<u8>|
            crate::model::symbol_wf(s) ==> !(261 + w_r0.len() as int + w_s0.len() as int + w_r1.len() as int + s.len() + 1 <= b.len()
                && b.subrange(
                261 + w_r0.len() as int + w_s0.len() as int + w_r1.len() as int,
                262 + w_r0.len() as int + w_s0.len() as int + w_r1.len() as int + s.len() as int,
            ) == qrun(s)),
    ensures
        no_tick_encoding(b),
{
    reveal(no_tick_encoding);
    assert forall|t: PriceTickV| tick_wf(t) implies b != enc_price_tick(t) by {
        if b == enc_price_tick(t) {
            lemma_ti_pin_r0(b, w_r0, t);
            lemma_ti_pin_s0(b, w_r0, w_s0, t);
            lemma_ti_pin_r1(b, w_r0, w_s0, w_r1, t);
            lemma_ti_peel(b, t);
        }
    }
}

proof fn lemma_ti_none_r01_lit(b: Seq<u8>, w_r0: Seq<u8>, w_s0: Seq<u8>, w_r1: Seq<u8>, w_s1: Seq<u8>)
    requires
        ti_w_r0(b, w_r0),
        ti_w_s0(b, w_r0, w_s0),
        ti_w_r1(b, w_r0, w_s0, w_r1),
        ti_w_s1(b, w_r0, w_s0, w_r1, w_s1),
        !(284 + w_r0.len() as int + w_s0.len() as int + w_r1.len() as int + w_s1.len() as int <= b.len() && b.subrange(
            262 + w_r0.len() as int + w_s0.len() as int + w_r1.len() as int + w_s1.len() as int,
            284 + w_r0.len() as int + w_s0.len() as int + w_r1.len() as int + w_s1.len() as int,
        ) == lit_tick_r01()),
    ensures
        no_tick_encoding(b),
{
    reveal(no_tick_encoding);
    assert forall|t: PriceTickV| tick_wf(t) implies b != enc_price_tick(t) by {
        if b == enc_price_tick(t) {
            lemma_ti_pin_r0(b, w_r0, t);
            lemma_ti_pin_s0(b, w_r0, w_s0, t);
            lemma_ti_pin_r1(b, w_r0, w_s0, w_r1, t);
            lemma_ti_pin_s1(b, w_r0, w_s0, w_r1, w_s1, t);
            lemma_ti_peel(b, t);
        }
    }
}

proof fn lemma_ti_none_p01_run(b: Seq<u8>, w_r0: Seq<u8>, w_s0: Seq<u8>, w_r1: Seq<u8>, w_s1: Seq<u8>)
    requires
        ti_w_r0(b, w_r0),
        ti_w_s0(b, w_r0, w_s0),
        ti_w_r1(b, w_r0, w_s0, w_r1),
        ti_w_s1(b, w_r0, w_s0, w_r1, w_s1),
        forall|d: Seq<u8>|
            canonical_digits(d) ==> !(284 + w_r0.len() as int + w_s0.len() as int + w_r1.len() as int + w_s1.len() as int + d.len() + 1 <= b.len() && b.subrange(
                284 + w_r0.len() as int + w_s0.len() as int + w_r1.len() as int + w_s1.len() as int,
                285 + w_r0.len() as int + w_s0.len() as int + w_r1.len() as int + w_s1.len() as int + d.len() as int,
            ) == qrun(d)),
    ensures
        no_tick_encoding(b),
{
    reveal(no_tick_encoding);
    assert forall|t: PriceTickV| tick_wf(t) implies b != enc_price_tick(t) by {
        if b == enc_price_tick(t) {
            lemma_ti_pin_r0(b, w_r0, t);
            lemma_ti_pin_s0(b, w_r0, w_s0, t);
            lemma_ti_pin_r1(b, w_r0, w_s0, w_r1, t);
            lemma_ti_pin_s1(b, w_r0, w_s0, w_r1, w_s1, t);
            lemma_ti_peel(b, t);
        }
    }
}

proof fn lemma_ti_none_r10_lit(b: Seq<u8>, w_r0: Seq<u8>, w_s0: Seq<u8>, w_r1: Seq<u8>, w_s1: Seq<u8>, w_p01: Seq<u8>)
    requires
        ti_w_r0(b, w_r0),
        ti_w_s0(b, w_r0, w_s0),
        ti_w_r1(b, w_r0, w_s0, w_r1),
        ti_w_s1(b, w_r0, w_s0, w_r1, w_s1),
        ti_w_p01(b, w_r0, w_s0, w_r1, w_s1, w_p01),
        !(307 + w_r0.len() as int + w_s0.len() as int + w_r1.len() as int + w_s1.len() as int + w_p01.len() as int <= b.len() && b.subrange(
            285 + w_r0.len() as int + w_s0.len() as int + w_r1.len() as int + w_s1.len() as int + w_p01.len() as int,
            307 + w_r0.len() as int + w_s0.len() as int + w_r1.len() as int + w_s1.len() as int + w_p01.len() as int,
        ) == lit_tick_r10()),
    ensures
        no_tick_encoding(b),
{
    reveal(no_tick_encoding);
    assert forall|t: PriceTickV| tick_wf(t) implies b != enc_price_tick(t) by {
        if b == enc_price_tick(t) {
            lemma_ti_pin_r0(b, w_r0, t);
            lemma_ti_pin_s0(b, w_r0, w_s0, t);
            lemma_ti_pin_r1(b, w_r0, w_s0, w_r1, t);
            lemma_ti_pin_s1(b, w_r0, w_s0, w_r1, w_s1, t);
            lemma_ti_pin_p01(b, w_r0, w_s0, w_r1, w_s1, w_p01, t);
            lemma_ti_peel(b, t);
        }
    }
}

proof fn lemma_ti_none_p10_run(b: Seq<u8>, w_r0: Seq<u8>, w_s0: Seq<u8>, w_r1: Seq<u8>, w_s1: Seq<u8>, w_p01: Seq<u8>)
    requires
        ti_w_r0(b, w_r0),
        ti_w_s0(b, w_r0, w_s0),
        ti_w_r1(b, w_r0, w_s0, w_r1),
        ti_w_s1(b, w_r0, w_s0, w_r1, w_s1),
        ti_w_p01(b, w_r0, w_s0, w_r1, w_s1, w_p01),
        forall|d: Seq<u8>|
            canonical_digits(d) ==> !(307 + w_r0.len() as int + w_s0.len() as int + w_r1.len() as int + w_s1.len() as int + w_p01.len() as int + d.len() + 1 <= b.len() && b.subrange(
                307 + w_r0.len() as int + w_s0.len() as int + w_r1.len() as int + w_s1.len() as int + w_p01.len() as int,
                308 + w_r0.len() as int + w_s0.len() as int + w_r1.len() as int + w_s1.len() as int + w_p01.len() as int + d.len() as int,
            ) == qrun(d)),
    ensures
        no_tick_encoding(b),
{
    reveal(no_tick_encoding);
    assert forall|t: PriceTickV| tick_wf(t) implies b != enc_price_tick(t) by {
        if b == enc_price_tick(t) {
            lemma_ti_pin_r0(b, w_r0, t);
            lemma_ti_pin_s0(b, w_r0, w_s0, t);
            lemma_ti_pin_r1(b, w_r0, w_s0, w_r1, t);
            lemma_ti_pin_s1(b, w_r0, w_s0, w_r1, w_s1, t);
            lemma_ti_pin_p01(b, w_r0, w_s0, w_r1, w_s1, w_p01, t);
            lemma_ti_peel(b, t);
        }
    }
}

proof fn lemma_ti_none_tx_head(b: Seq<u8>, w_r0: Seq<u8>, w_s0: Seq<u8>, w_r1: Seq<u8>, w_s1: Seq<u8>, w_p01: Seq<u8>, w_p10: Seq<u8>)
    requires
        ti_w_r0(b, w_r0),
        ti_w_s0(b, w_r0, w_s0),
        ti_w_r1(b, w_r0, w_s0, w_r1),
        ti_w_s1(b, w_r0, w_s0, w_r1, w_s1),
        ti_w_p01(b, w_r0, w_s0, w_r1, w_s1, w_p01),
        ti_w_p10(b, w_r0, w_s0, w_r1, w_s1, w_p01, w_p10),
        ({
            let p = 308 + w_r0.len() as int + w_s0.len() as int + w_r1.len() as int + w_s1.len() as int + w_p01.len() as int + w_p10.len() as int;
            ||| !(p + 23 <= b.len() && b.subrange(p, p + 23) == lit_txhash_c())
            ||| (forall|s: Seq<u8>|
                s.len() == 32 ==> !(p + 87 <= b.len() && b.subrange(p + 23, p + 87) == hex_of(s)))
            ||| !(p + 105 <= b.len() && b.subrange(p + 87, p + 105) == lit_block_number())
        }),
    ensures
        no_tick_encoding(b),
{
    reveal(no_tick_encoding);
    assert forall|t: PriceTickV| tick_wf(t) implies b != enc_price_tick(t) by {
        if b == enc_price_tick(t) {
            lemma_ti_pin_r0(b, w_r0, t);
            lemma_ti_pin_s0(b, w_r0, w_s0, t);
            lemma_ti_pin_r1(b, w_r0, w_s0, w_r1, t);
            lemma_ti_pin_s1(b, w_r0, w_s0, w_r1, w_s1, t);
            lemma_ti_pin_p01(b, w_r0, w_s0, w_r1, w_s1, w_p01, t);
            lemma_ti_pin_p10(b, w_r0, w_s0, w_r1, w_s1, w_p01, w_p10, t);
            lemma_ti_peel(b, t);
        }
    }
}

proof fn lemma_ti_none_bn_run(b: Seq<u8>, w_r0: Seq<u8>, w_s0: Seq<u8>, w_r1: Seq<u8>, w_s1: Seq<u8>, w_p01: Seq<u8>, w_p10: Seq<u8>)
    requires
        ti_w_r0(b, w_r0),
        ti_w_s0(b, w_r0, w_s0),
        ti_w_r1(b, w_r0, w_s0, w_r1),
        ti_w_s1(b, w_r0, w_s0, w_r1, w_s1),
        ti_w_p01(b, w_r0, w_s0, w_r1, w_s1, w_p01),
        ti_w_p10(b, w_r0, w_s0, w_r1, w_s1, w_p01, w_p10),
        forall|d: Seq<u8>|
            canonical_digits(d) ==> !(413 + w_r0.len() as int + w_s0.len() as int + w_r1.len() as int + w_s1.len() as int + w_p01.len() as int + w_p10.len() as int + d.len() + 1 <= b.len() && b.subrange(
                413 + w_r0.len() as int + w_s0.len() as int + w_r1.len() as int + w_s1.len() as int + w_p01.len() as int + w_p10.len() as int,
                414 + w_r0.len() as int + w_s0.len() as int + w_r1.len() as int + w_s1.len() as int + w_p01.len() as int + w_p10.len() as int + d.len() as int,
            ) == qrun(d)),
    ensures
        no_tick_encoding(b),
{
    reveal(no_tick_encoding);
    assert forall|t: PriceTickV| tick_wf(t) implies b != enc_price_tick(t) by {
        if b == enc_price_tick(t) {
            lemma_ti_pin_r0(b, w_r0, t);
            lemma_ti_pin_s0(b, w_r0, w_s0, t);
            lemma_ti_pin_r1(b, w_r0, w_s0, w_r1, t);
            lemma_ti_pin_s1(b, w_r0, w_s0, w_r1, w_s1, t);
            lemma_ti_pin_p01(b, w_r0, w_s0, w_r1, w_s1, w_p01, t);
            lemma_ti_pin_p10(b, w_r0, w_s0, w_r1, w_s1, w_p01, w_p10, t);
            lemma_ti_peel(b, t);
            lemma_digits_of_correct(t.block_number as nat);
        }
    }
}

proof fn lemma_ti_none_bn_val(b: Seq<u8>, w_r0: Seq<u8>, w_s0: Seq<u8>, w_r1: Seq<u8>, w_s1: Seq<u8>, w_p01: Seq<u8>, w_p10: Seq<u8>, w_bn: Seq<u8>)
    requires
        ti_w_r0(b, w_r0),
        ti_w_s0(b, w_r0, w_s0),
        ti_w_r1(b, w_r0, w_s0, w_r1),
        ti_w_s1(b, w_r0, w_s0, w_r1, w_s1),
        ti_w_p01(b, w_r0, w_s0, w_r1, w_s1, w_p01),
        ti_w_p10(b, w_r0, w_s0, w_r1, w_s1, w_p01, w_p10),
        ti_w_bn(b, w_r0, w_s0, w_r1, w_s1, w_p01, w_p10, w_bn),
        dec_val(w_bn) > u64::MAX,
    ensures
        no_tick_encoding(b),
{
    reveal(no_tick_encoding);
    assert forall|t: PriceTickV| tick_wf(t) implies b != enc_price_tick(t) by {
        if b == enc_price_tick(t) {
            lemma_ti_pin_r0(b, w_r0, t);
            lemma_ti_pin_s0(b, w_r0, w_s0, t);
            lemma_ti_pin_r1(b, w_r0, w_s0, w_r1, t);
            lemma_ti_pin_s1(b, w_r0, w_s0, w_r1, w_s1, t);
            lemma_ti_pin_p01(b, w_r0, w_s0, w_r1, w_s1, w_p01, t);
            lemma_ti_pin_p10(b, w_r0, w_s0, w_r1, w_s1, w_p01, w_p10, t);
            lemma_ti_pin_bn(b, w_r0, w_s0, w_r1, w_s1, w_p01, w_p10, w_bn, t);
        }
    }
}

proof fn lemma_ti_none_ts_lit(b: Seq<u8>, w_r0: Seq<u8>, w_s0: Seq<u8>, w_r1: Seq<u8>, w_s1: Seq<u8>, w_p01: Seq<u8>, w_p10: Seq<u8>, w_bn: Seq<u8>)
    requires
        ti_w_r0(b, w_r0),
        ti_w_s0(b, w_r0, w_s0),
        ti_w_r1(b, w_r0, w_s0, w_r1),
        ti_w_s1(b, w_r0, w_s0, w_r1, w_s1),
        ti_w_p01(b, w_r0, w_s0, w_r1, w_s1, w_p01),
        ti_w_p10(b, w_r0, w_s0, w_r1, w_s1, w_p01, w_p10),
        ti_w_bn(b, w_r0, w_s0, w_r1, w_s1, w_p01, w_p10, w_bn),
        !(434 + w_r0.len() as int + w_s0.len() as int + w_r1.len() as int + w_s1.len() as int + w_p01.len() as int + w_p10.len() as int + w_bn.len() as int <= b.len() && b.subrange(
            414 + w_r0.len() as int + w_s0.len() as int + w_r1.len() as int + w_s1.len() as int + w_p01.len() as int + w_p10.len() as int + w_bn.len() as int,
            434 + w_r0.len() as int + w_s0.len() as int + w_r1.len() as int + w_s1.len() as int + w_p01.len() as int + w_p10.len() as int + w_bn.len() as int,
        ) == lit_block_timestamp_c()),
    ensures
        no_tick_encoding(b),
{
    reveal(no_tick_encoding);
    assert forall|t: PriceTickV| tick_wf(t) implies b != enc_price_tick(t) by {
        if b == enc_price_tick(t) {
            lemma_ti_pin_r0(b, w_r0, t);
            lemma_ti_pin_s0(b, w_r0, w_s0, t);
            lemma_ti_pin_r1(b, w_r0, w_s0, w_r1, t);
            lemma_ti_pin_s1(b, w_r0, w_s0, w_r1, w_s1, t);
            lemma_ti_pin_p01(b, w_r0, w_s0, w_r1, w_s1, w_p01, t);
            lemma_ti_pin_p10(b, w_r0, w_s0, w_r1, w_s1, w_p01, w_p10, t);
            lemma_ti_pin_bn(b, w_r0, w_s0, w_r1, w_s1, w_p01, w_p10, w_bn, t);
            lemma_ti_peel(b, t);
        }
    }
}

proof fn lemma_ti_none_ts_run(b: Seq<u8>, w_r0: Seq<u8>, w_s0: Seq<u8>, w_r1: Seq<u8>, w_s1: Seq<u8>, w_p01: Seq<u8>, w_p10: Seq<u8>, w_bn: Seq<u8>)
    requires
        ti_w_r0(b, w_r0),
        ti_w_s0(b, w_r0, w_s0),
        ti_w_r1(b, w_r0, w_s0, w_r1),
        ti_w_s1(b, w_r0, w_s0, w_r1, w_s1),
        ti_w_p01(b, w_r0, w_s0, w_r1, w_s1, w_p01),
        ti_w_p10(b, w_r0, w_s0, w_r1, w_s1, w_p01, w_p10),
        ti_w_bn(b, w_r0, w_s0, w_r1, w_s1, w_p01, w_p10, w_bn),
        forall|d: Seq<u8>|
            canonical_digits(d) ==> !(434 + w_r0.len() as int + w_s0.len() as int + w_r1.len() as int + w_s1.len() as int + w_p01.len() as int + w_p10.len() as int + w_bn.len() as int + d.len() + 1 <= b.len() && b.subrange(
                434 + w_r0.len() as int + w_s0.len() as int + w_r1.len() as int + w_s1.len() as int + w_p01.len() as int + w_p10.len() as int + w_bn.len() as int,
                435 + w_r0.len() as int + w_s0.len() as int + w_r1.len() as int + w_s1.len() as int + w_p01.len() as int + w_p10.len() as int + w_bn.len() as int + d.len() as int,
            ) == qrun(d)),
    ensures
        no_tick_encoding(b),
{
    reveal(no_tick_encoding);
    assert forall|t: PriceTickV| tick_wf(t) implies b != enc_price_tick(t) by {
        if b == enc_price_tick(t) {
            lemma_ti_pin_r0(b, w_r0, t);
            lemma_ti_pin_s0(b, w_r0, w_s0, t);
            lemma_ti_pin_r1(b, w_r0, w_s0, w_r1, t);
            lemma_ti_pin_s1(b, w_r0, w_s0, w_r1, w_s1, t);
            lemma_ti_pin_p01(b, w_r0, w_s0, w_r1, w_s1, w_p01, t);
            lemma_ti_pin_p10(b, w_r0, w_s0, w_r1, w_s1, w_p01, w_p10, t);
            lemma_ti_pin_bn(b, w_r0, w_s0, w_r1, w_s1, w_p01, w_p10, w_bn, t);
            lemma_ti_peel(b, t);
            lemma_digits_of_correct(t.block_timestamp as nat);
        }
    }
}

proof fn lemma_ti_none_ts_val(b: Seq<u8>, w_r0: Seq<u8>, w_s0: Seq<u8>, w_r1: Seq<u8>, w_s1: Seq<u8>, w_p01: Seq<u8>, w_p10: Seq<u8>, w_bn: Seq<u8>, w_ts: Seq<u8>)
    requires
        ti_w_r0(b, w_r0),
        ti_w_s0(b, w_r0, w_s0),
        ti_w_r1(b, w_r0, w_s0, w_r1),
        ti_w_s1(b, w_r0, w_s0, w_r1, w_s1),
        ti_w_p01(b, w_r0, w_s0, w_r1, w_s1, w_p01),
        ti_w_p10(b, w_r0, w_s0, w_r1, w_s1, w_p01, w_p10),
        ti_w_bn(b, w_r0, w_s0, w_r1, w_s1, w_p01, w_p10, w_bn),
        ti_w_ts(b, w_r0, w_s0, w_r1, w_s1, w_p01, w_p10, w_bn, w_ts),
        dec_val(w_ts) > u64::MAX,
    ensures
        no_tick_encoding(b),
{
    reveal(no_tick_encoding);
    assert forall|t: PriceTickV| tick_wf(t) implies b != enc_price_tick(t) by {
        if b == enc_price_tick(t) {
            lemma_ti_pin_r0(b, w_r0, t);
            lemma_ti_pin_s0(b, w_r0, w_s0, t);
            lemma_ti_pin_r1(b, w_r0, w_s0, w_r1, t);
            lemma_ti_pin_s1(b, w_r0, w_s0, w_r1, w_s1, t);
            lemma_ti_pin_p01(b, w_r0, w_s0, w_r1, w_s1, w_p01, t);
            lemma_ti_pin_p10(b, w_r0, w_s0, w_r1, w_s1, w_p01, w_p10, t);
            lemma_ti_pin_bn(b, w_r0, w_s0, w_r1, w_s1, w_p01, w_p10, w_bn, t);
            lemma_ti_pin_ts(b, w_r0, w_s0, w_r1, w_s1, w_p01, w_p10, w_bn, w_ts, t);
        }
    }
}

proof fn lemma_ti_none_tail(b: Seq<u8>, w_r0: Seq<u8>, w_s0: Seq<u8>, w_r1: Seq<u8>, w_s1: Seq<u8>, w_p01: Seq<u8>, w_p10: Seq<u8>, w_bn: Seq<u8>, w_ts: Seq<u8>)
    requires
        ti_w_r0(b, w_r0),
        ti_w_s0(b, w_r0, w_s0),
        ti_w_r1(b, w_r0, w_s0, w_r1),
        ti_w_s1(b, w_r0, w_s0, w_r1, w_s1),
        ti_w_p01(b, w_r0, w_s0, w_r1, w_s1, w_p01),
        ti_w_p10(b, w_r0, w_s0, w_r1, w_s1, w_p01, w_p10),
        ti_w_bn(b, w_r0, w_s0, w_r1, w_s1, w_p01, w_p10, w_bn),
        ti_w_ts(b, w_r0, w_s0, w_r1, w_s1, w_p01, w_p10, w_bn, w_ts),
        ({
            let p = 435 + w_r0.len() as int + w_s0.len() as int + w_r1.len() as int + w_s1.len() as int + w_p01.len() as int + w_p10.len() as int + w_bn.len() as int + w_ts.len() as int;
            !(p + 1 == b.len() && b.subrange(p, p + 1) == lit_close_obj())
        }),
    ensures
        no_tick_encoding(b),
{
    reveal(no_tick_encoding);
    assert forall|t: PriceTickV| tick_wf(t) implies b != enc_price_tick(t) by {
        if b == enc_price_tick(t) {
            lemma_ti_pin_r0(b, w_r0, t);
            lemma_ti_pin_s0(b, w_r0, w_s0, t);
            lemma_ti_pin_r1(b, w_r0, w_s0, w_r1, t);
            lemma_ti_pin_s1(b, w_r0, w_s0, w_r1, w_s1, t);
            lemma_ti_pin_p01(b, w_r0, w_s0, w_r1, w_s1, w_p01, t);
            lemma_ti_pin_p10(b, w_r0, w_s0, w_r1, w_s1, w_p01, w_p10, t);
            lemma_ti_pin_bn(b, w_r0, w_s0, w_r1, w_s1, w_p01, w_p10, w_bn, t);
            lemma_ti_pin_ts(b, w_r0, w_s0, w_r1, w_s1, w_p01, w_p10, w_bn, w_ts, t);
            lemma_ti_peel(b, t);
        }
    }
}

/// Reassembling the parsed windows into the whole canonical encoding.
#[verifier::rlimit(100)]
proof fn lemma_ti_assemble(b: Seq<u8>, t: PriceTickV)
    requires
        tick_wf(t),
        b.len() == 436 + digits_of(t.token0_reserve as nat).len() + t.token0_symbol.len()
            + digits_of(t.token1_reserve as nat).len() + t.token1_symbol.len()
            + t.token0_token1_e18.len() + t.token1_token0_e18.len() + digits_of(
            t.block_number as nat,
        ).len() + digits_of(t.block_timestamp as nat).len(),
        b.subrange(0, 19) == lit_tick_pair_addr(),
        b.subrange(19, 59) == hex_of(t.pair_address),
        b.subrange(59, 81) == lit_tick_t0_addr(),
        b.subrange(81, 121) == hex_of(t.token0_address),
        b.subrange(121, 141) == lit_tick_t0_res(),
        b.subrange(141, 142 + digits_of(t.token0_reserve as nat).len() as int) == qrun(
            digits_of(t.token0_reserve as nat),
        ),
        b.subrange(
            142 + digits_of(t.token0_reserve as nat).len() as int,
            160 + digits_of(t.token0_reserve as nat).len() as int,
        ) == lit_tick_t0_sym(),
        b.subrange(
            160 + digits_of(t.token0_reserve as nat).len() as int,
            161 + digits_of(t.token0_reserve as nat).len() as int + t.token0_symbol.len() as int,
        ) == qrun(t.token0_symbol),
        ({
            let p = 161 + digits_of(t.token0_reserve as nat).len() as int
                + t.token0_symbol.len() as int;
            &&& b.subrange(p, p + 21) == lit_tick_t1_addr()
            &&& b.subrange(p + 21, p + 61) == hex_of(t.token1_address)
            &&& b.subrange(p + 61, p + 81) == lit_tick_t1_res()
            &&& b.subrange(p + 81, p + 82 + digits_of(t.token1_reserve as nat).len() as int)
                == qrun(digits_of(t.token1_reserve as nat))
        }),
        ({
            let p = 243 + digits_of(t.token0_reserve as nat).len() as int
                + t.token0_symbol.len() as int + digits_of(t.token1_reserve as nat).len() as int;
            &&& b.subrange(p, p + 18) == lit_tick_t1_sym()
            &&& b.subrange(p + 18, p + 19 + t.token1_symbol.len() as int) == qrun(t.token1_symbol)
        }),
        ({
            let p = 262 + digits_of(t.token0_reserve as nat).len() as int
                + t.token0_symbol.len() as int + digits_of(t.token1_reserve as nat).len() as int
                + t.token1_symbol.len() as int;
            &&& b.subrange(p, p + 22) == lit_tick_r01()
            &&& b.subrange(p + 22, p + 23 + t.token0_token1_e18.len() as int) == qrun(
                t.token0_token1_e18,
            )
        }),
        ({
            let p = 285 + digits_of(t.token0_reserve as nat).len() as int
                + t.token0_symbol.len() as int + digits_of(t.token1_reserve as nat).len() as int
                + t.token1_symbol.len() as int + t.token0_token1_e18.len() as int;
            &&& b.subrange(p, p + 22) == lit_tick_r10()
            &&& b.subrange(p + 22, p + 23 + t.token1_token0_e18.len() as int) == qrun(
                t.token1_token0_e18,
            )
        }),
        ({
            let p = 308 + digits_of(t.token0_reserve as nat).len() as int
                + t.token0_symbol.len() as int + digits_of(t.token1_reserve as nat).len() as int
                + t.token1_symbol.len() as int + t.token0_token1_e18.len() as int
                + t.token1_token0_e18.len() as int;
            &&& b.subrange(p, p + 23) == lit_txhash_c()
            &&& b.subrange(p + 23, p + 87) == hex_of(t.transaction_hash)
            &&& b.subrange(p + 87, p + 105) == lit_block_number()
            &&& b.subrange(p + 105, p + 106 + digits_of(t.block_number as nat).len() as int)
                == qrun(digits_of(t.block_number as nat))
        }),
        ({
            let p = 414 + digits_of(t.token0_reserve as nat).len() as int
                + t.token0_symbol.len() as int + digits_of(t.token1_reserve as nat).len() as int
                + t.token1_symbol.len() as int + t.token0_token1_e18.len() as int
                + t.token1_token0_e18.len() as int + digits_of(t.block_number as nat).len() as int;
            &&& b.subrange(p, p + 20) == lit_block_timestamp_c()
            &&& b.subrange(p + 20, p + 21 + digits_of(t.block_timestamp as nat).len() as int)
                == qrun(digits_of(t.block_timestamp as nat))
            &&& b.subrange(
                p + 21 + digits_of(t.block_timestamp as nat).len() as int,
                p + 22 + digits_of(t.block_timestamp as nat).len() as int,
            ) == lit_close_obj()
        }),
    ensures
        b == enc_price_tick(t),
{
    lemma_hex_of_len(t.pair_address);
    lemma_hex_of_len(t.token0_address);
    lemma_hex_of_len(t.token1_address);
    lemma_hex_of_len(t.transaction_hash);
    let x1 = lit_tick_pair_addr();
    let x2 = x1 + hex_of(t.pair_address);
    let x3 = x2 + lit_tick_t0_addr();
    let x4 = x3 + hex_of(t.token0_address);
    let x5 = x4 + lit_tick_t0_res();
    let x6 = x5 + qrun(digits_of(t.token0_reserve as nat));
    let x7 = x6 + lit_tick_t0_sym();
    let x8 = x7 + qrun(t.token0_symbol);
    let x9 = x8 + lit_tick_t1_addr();
    let x10 = x9 + hex_of(t.token1_address);
    let x11 = x10 + lit_tick_t1_res();
    let x12 = x11 + qrun(digits_of(t.token1_reserve as nat));
    let x13 = x12 + lit_tick_t1_sym();
    let x14 = x13 + qrun(t.token1_symbol);
    let x15 = x14 + lit_tick_r01();
    let x16 = x15 + qrun(t.token0_token1_e18);
    let x17 = x16 + lit_tick_r10();
    let x18 = x17 + qrun(t.token1_token0_e18);
    let x19 = x18 + lit_txhash_c();
    let x20 = x19 + hex_of(t.transaction_hash);
    let x21 = x20 + lit_block_number();
    let x22 = x21 + qrun(digits_of(t.block_number as nat));
    let x23 = x22 + lit_block_timestamp_c();
    let x24 = x23 + qrun(digits_of(t.block_timestamp as nat));
    lemma_window_join(b, 0, x1, hex_of(t.pair_address));
    lemma_window_join(b, 0, x2, lit_tick_t0_addr());
    lemma_window_join(b, 0, x3, hex_of(t.token0_address));
    lemma_window_join(b, 0, x4, lit_tick_t0_res());
    lemma_window_join(b, 0, x5, qrun(digits_of(t.token0_reserve as nat)));
    lemma_window_join(b, 0, x6, lit_tick_t0_sym());
    lemma_window_join(b, 0, x7, qrun(t.token0_symbol));
    lemma_window_join(b, 0, x8, lit_tick_t1_addr());
    lemma_window_join(b, 0, x9, hex_of(t.token1_address));
    lemma_window_join(b, 0, x10, lit_tick_t1_res());
    lemma_window_join(b, 0, x11, qrun(digits_of(t.token1_reserve as nat)));
    lemma_window_join(b, 0, x12, lit_tick_t1_sym());
    lemma_window_join(b, 0, x13, qrun(t.token1_symbol));
    lemma_window_join(b, 0, x14, lit_tick_r01());
    lemma_window_join(b, 0, x15, qrun(t.token0_token1_e18));
    lemma_window_join(b, 0, x16, lit_tick_r10());
    lemma_window_join(b, 0, x17, qrun(t.token1_token0_e18));
    lemma_window_join(b, 0, x18, lit_txhash_c());
    lemma_window_join(b, 0, x19, hex_of(t.transaction_hash));
    lemma_window_join(b, 0, x20, lit_block_number());
    lemma_window_join(b, 0, x21, qrun(digits_of(t.block_number as nat)));
    lemma_window_join(b, 0, x22, lit_block_timestamp_c());
    lemma_window_join(b, 0, x23, qrun(digits_of(t.block_timestamp as nat)));
    lemma_window_join(b, 0, x24, lit_close_obj());
    assert(b.subrange(0, b.len() as int) =~= b);
    assert(b == enc_price_tick(t));
}

/// Decode a canonical `PriceTick` encoding. Returns the tick exactly
/// when the whole input is the canonical encoding of a well-formed tick.
#[verifier::rlimit(100)]
#[verifier::spinoff_prover]
pub fn decode_price_tick(b: &Vec<u8>) -> (r: Option<PriceTick>)
    ensures
        match r {
            Some(t) => t.wf() && b@ == enc_price_tick(t@),
            None => no_tick_encoding(b@),
        },
{
    let total = b.len();
    let l_tick_pair_addr = vec_lit_tick_pair_addr();
    let i1 = match parse_exact(b, 0, &l_tick_pair_addr) {
        Some(j) => j,
        None => {
            proof {
                lemma_ti_none_head(b@);
            }
            return None;
        },
    };
    let (pair_bytes, i2) = match parse_hex(b, i1, 20) {
        Some(v) => v,
        None => {
            proof {
                lemma_ti_none_head(b@);
            }
            return None;
        },
    };
    let l_tick_t0_addr = vec_lit_tick_t0_addr();
    let i3 = match parse_exact(b, i2, &l_tick_t0_addr) {
        Some(j) => j,
        None => {
            proof {
                lemma_ti_none_head(b@);
            }
            return None;
        },
    };
    let (t0a_bytes, i4) = match parse_hex(b, i3, 20) {
        Some(v) => v,
        None => {
            proof {
                lemma_ti_none_head(b@);
            }
            return None;
        },
    };
    let l_tick_t0_res = vec_lit_tick_t0_res();
    let i5 = match parse_exact(b, i4, &l_tick_t0_res) {
        Some(j) => j,
        None => {
            proof {
                lemma_ti_none_head(b@);
            }
            return None;
        },
    };
    let (r0_d, i6) = match parse_quoted_digits(b, i5) {
        Some(p) => p,
        None => {
            proof {
                lemma_ti_none_r0_run(b@);
            }
            return None;
        },
    };
    let res0 = match digits_to_u128(&r0_d) {
        Some(x) => {
            if x >= RESERVE_LIMIT {
                proof {
                    lemma_ti_none_r0_val(b@, r0_d@);
                }
                return None;
            }
            x
        },
        None => {
            proof {
                lemma_ti_none_r0_val(b@, r0_d@);
            }
            return None;
        },
    };
    let l_tick_t0_sym = vec_lit_tick_t0_sym();
    let i7 = match parse_exact(b, i6, &l_tick_t0_sym) {
        Some(j) => j,
        None => {
            proof {
                lemma_ti_none_s0_lit(b@, r0_d@);
            }
            return None;
        },
    };
    let (s0_v, i8) = match parse_quoted_symbol(b, i7) {
        Some(p) => p,
        None => {
            proof {
                lemma_ti_none_s0_run(b@, r0_d@);
            }
            return None;
        },
    };
    let l_tick_t1_addr = vec_lit_tick_t1_addr();
    let i9 = match parse_exact(b, i8, &l_tick_t1_addr) {
        Some(j) => j,
        None => {
            proof {
                lemma_ti_none_t1_head(b@, r0_d@, s0_v@);
            }
            return None;
        },
    };
    let (t1a_bytes, i10) = match parse_hex(b, i9, 20) {
        Some(v) => v,
        None => {
            proof {
                lemma_ti_none_t1_head(b@, r0_d@, s0_v@);
            }
            return None;
        },
    };
    let l_tick_t1_res = vec_lit_tick_t1_res();
    let i11 = match parse_exact(b, i10, &l_tick_t1_res) {
        Some(j) => j,
        None => {
            proof {
                lemma_ti_none_t1_head(b@, r0_d@, s0_v@);
            }
            return None;
        },
    };
    let (r1_d, i12) = match parse_quoted_digits(b, i11) {
        Some(p) => p,
        None => {
            proof {
                lemma_ti_none_r1_run(b@, r0_d@, s0_v@);
            }
            return None;
        },
    };
    let res1 = match digits_to_u128(&r1_d) {
        Some(x) => {
            if x >= RESERVE_LIMIT {
                proof {
                    lemma_ti_none_r1_val(b@, r0_d@, s0_v@, r1_d@);
                }
                return None;
            }
            x
        },
        None => {
            proof {
                lemma_ti_none_r1_val(b@, r0_d@, s0_v@, r1_d@);
            }
            return None;
        },
    };
    let l_tick_t1_sym = vec_lit_tick_t1_sym();
    let i13 = match parse_exact(b, i12, &l_tick_t1_sym) {
        Some(j) => j,
        None => {
            proof {
                lemma_ti_none_s1_lit(b@, r0_d@, s0_v@, r1_d@);
            }
            return None;
        },
    };
    let (s1_v, i14) = match parse_quoted_symbol(b, i13) {
        Some(p) => p,
        None => {
            proof {
                lemma_ti_none_s1_run(b@, r0_d@, s0_v@, r1_d@);
            }
            return None;
        },
    };
    let l_tick_r01 = vec_lit_tick_r01();
    let i15 = match parse_exact(b, i14, &l_tick_r01) {
        Some(j) => j,
        None => {
            proof {
                lemma_ti_none_r01_lit(b@, r0_d@, s0_v@, r1_d@, s1_v@);
            }
            return None;
        },
    };
    let (p01_d, i16) = match parse_quoted_digits(b, i15) {
        Some(p) => p,
        None => {
            proof {
                lemma_ti_none_p01_run(b@, r0_d@, s0_v@, r1_d@, s1_v@);
            }
            return None;
        },
    };
    let l_tick_r10 = vec_lit_tick_r10();
    let i17 = match parse_exact(b, i16, &l_tick_r10) {
        Some(j) => j,
        None => {
            proof {
                lemma_ti_none_r10_lit(b@, r0_d@, s0_v@, r1_d@, s1_v@, p01_d@);
            }
            return None;
        },
    };
    let (p10_d, i18) = match parse_quoted_digits(b, i17) {
        Some(p) => p,
        None => {
            proof {
                lemma_ti_none_p10_run(b@, r0_d@, s0_v@, r1_d@, s1_v@, p01_d@);
            }
            return None;
        },
    };
    let l_txhash_c = vec_lit_txhash_c();
    let i19 = match parse_exact(b, i18, &l_txhash_c) {
        Some(j) => j,
        None => {
            proof {
                lemma_ti_none_tx_head(b@, r0_d@, s0_v@, r1_d@, s1_v@, p01_d@, p10_d@);
            }
            return None;
        },
    };
    let (tx_bytes, i20) = match parse_hex(b, i19, 32) {
        Some(v) => v,
        None => {
            proof {
                lemma_ti_none_tx_head(b@, r0_d@, s0_v@, r1_d@, s1_v@, p01_d@, p10_d@);
            }
            return None;
        },
    };
    let l_block_number = vec_lit_block_number();
    let i21 = match parse_exact(b, i20, &l_block_number) {
        Some(j) => j,
        None => {
            proof {
                lemma_ti_none_tx_head(b@, r0_d@, s0_v@, r1_d@, s1_v@, p01_d@, p10_d@);
            }
            return None;
        },
    };
    let (bn_d, i22) = match parse_quoted_digits(b, i21) {
        Some(p) => p,
        None => {
            proof {
                lemma_ti_none_bn_run(b@, r0_d@, s0_v@, r1_d@, s1_v@, p01_d@, p10_d@);
            }
            return None;
        },
    };
    let bn = match digits_to_u64(&bn_d) {
        Some(x) => x,
        None => {
            proof {
                lemma_ti_none_bn_val(b@, r0_d@, s0_v@, r1_d@, s1_v@, p01_d@, p10_d@, bn_d@);
            }
            return None;
        },
    };
    let l_block_timestamp_c = vec_lit_block_timestamp_c();
    let i23 = match parse_exact(b, i22, &l_block_timestamp_c) {
        Some(j) => j,
        None => {
            proof {
                lemma_ti_none_ts_lit(b@, r0_d@, s0_v@, r1_d@, s1_v@, p01_d@, p10_d@, bn_d@);
            }
            return None;
        },
    };
    let (ts_d, i24) = match parse_quoted_digits(b, i23) {
        Some(p) => p,
        None => {
            proof {
                lemma_ti_none_ts_run(b@, r0_d@, s0_v@, r1_d@, s1_v@, p01_d@, p10_d@, bn_d@);
            }
            return None;
        },
    };
    let ts = match digits_to_u64(&ts_d) {
        Some(x) => x,
        None => {
            proof {
                lemma_ti_none_ts_val(b@, r0_d@, s0_v@, r1_d@, s1_v@, p01_d@, p10_d@, bn_d@, ts_d@);
            }
            return None;
        },
    };
    let l_close = vec_lit_close_obj();
    let close_ok = match parse_exact(b, i24, &l_close) {
        Some(j) => j == total,
        None => false,
    };
    if !close_ok {
        proof {
            lemma_ti_none_tail(b@, r0_d@, s0_v@, r1_d@, s1_v@, p01_d@, p10_d@, bn_d@, ts_d@);
        }
        return None;
    }
    let t = PriceTick {
        pair_address: Address { bytes: pair_bytes },
        token0_address: Address { bytes: t0a_bytes },
        token0_reserve: res0,
        token0_symbol: s0_v,
        token1_address: Address { bytes: t1a_bytes },
        token1_reserve: res1,
        token1_symbol: s1_v,
        token0_token1_e18: p01_d,
        token1_token0_e18: p10_d,
        transaction_hash: TxHash { bytes: tx_bytes },
        block_number: bn,
        block_timestamp: ts,
    };
    proof {
        lemma_digits_of_unique(r0_d@);
        lemma_digits_of_unique(r1_d@);
        lemma_digits_of_unique(bn_d@);
        lemma_digits_of_unique(ts_d@);
        assert(digits_of(t@.token0_reserve as nat) == r0_d@);
        assert(digits_of(t@.token1_reserve as nat) == r1_d@);
        assert(digits_of(t@.block_number as nat) == bn_d@);
        assert(digits_of(t@.block_timestamp as nat) == ts_d@);
        lemma_ti_assemble(b@, t@);
    }
    Some(t)
}

} // verus!

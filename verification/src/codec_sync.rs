//! Canonical codec for `Sync` events: the reserve-change payload the price
//! engine consumes. Reserves travel as quoted decimal strings at full
//! 112-bit precision.

use vstd::prelude::*;

verus! {

use crate::arith::{digits_to_u128, digits_to_u64, u128_to_digits};
use crate::digits::{
    canonical_digits, dec_val, digits_of, lemma_digits_of_correct, lemma_digits_of_unique,
};
use crate::hexfmt::{hex_of, lemma_hex_of_len, parse_hex, push_hex};
use crate::json::{
    lemma_delimited_unique, lemma_digit_seq_no_quote, lemma_window_join, lemma_window_split,
    parse_exact, parse_quoted_digits, push_bytes, qrun,
};
use crate::literals::{
    lit_block_number, lit_block_timestamp_c, lit_close_obj, lit_pair_open, lit_reserve0,
    lit_reserve1_c, lit_txhash_c, vec_lit_block_number, vec_lit_block_timestamp_c,
    vec_lit_close_obj, vec_lit_pair_open, vec_lit_reserve0, vec_lit_reserve1_c, vec_lit_txhash_c,
};
use crate::model::{Address, RESERVE_LIMIT, SyncEvent, SyncEventV, TxHash, sync_wf};

/// The leading half of a canonical `Sync` encoding: pair and reserves.
pub open spec fn enc_sync_head(e: SyncEventV) -> Seq<u8> {
    lit_pair_open() + hex_of(e.pair) + lit_reserve0() + qrun(digits_of(e.reserve0 as nat))
        + lit_reserve1_c() + qrun(digits_of(e.reserve1 as nat))
}

/// The canonical encoding of a `Sync` event.
pub open spec fn enc_sync(e: SyncEventV) -> Seq<u8> {
    enc_sync_head(e) + lit_txhash_c() + hex_of(e.transaction_hash) + lit_block_number() + qrun(
        digits_of(e.block_number as nat),
    ) + lit_block_timestamp_c() + qrun(digits_of(e.block_timestamp as nat)) + lit_close_obj()
}

/// Digit-run lengths of a `Sync` encoding, used to place its windows.
pub open spec fn sy_a(ev: SyncEventV) -> int {
    digits_of(ev.reserve0 as nat).len() as int
}

pub open spec fn sy_c(ev: SyncEventV) -> int {
    digits_of(ev.reserve1 as nat).len() as int
}

pub open spec fn sy_d(ev: SyncEventV) -> int {
    digits_of(ev.block_number as nat).len() as int
}

pub open spec fn sy_e(ev: SyncEventV) -> int {
    digits_of(ev.block_timestamp as nat).len() as int
}

/// Window decomposition of the leading half of a `Sync` encoding.
#[verifier::rlimit(100)]
proof fn lemma_sy_peel_head(b: Seq<u8>, ev: SyncEventV)
    requires
        sync_wf(ev),
        80 + sy_a(ev) + sy_c(ev) <= b.len(),
        b.subrange(0, 80 + sy_a(ev) + sy_c(ev)) == enc_sync_head(ev),
    ensures
        b.subrange(0, 11) == lit_pair_open(),
        b.subrange(11, 51) == hex_of(ev.pair),
        b.subrange(51, 65) == lit_reserve0(),
        b.subrange(65, 66 + sy_a(ev)) == qrun(digits_of(ev.reserve0 as nat)),
        b.subrange(66 + sy_a(ev), 79 + sy_a(ev)) == lit_reserve1_c(),
        b.subrange(79 + sy_a(ev), 80 + sy_a(ev) + sy_c(ev)) == qrun(digits_of(ev.reserve1 as nat)),
{
    lemma_hex_of_len(ev.pair);
    let x1 = lit_pair_open();
    let x2 = x1 + hex_of(ev.pair);
    let x3 = x2 + lit_reserve0();
    let x4 = x3 + qrun(digits_of(ev.reserve0 as nat));
    let x5 = x4 + lit_reserve1_c();
    lemma_window_split(b, 0, x5, qrun(digits_of(ev.reserve1 as nat)));
    lemma_window_split(b, 0, x4, lit_reserve1_c());
    lemma_window_split(b, 0, x3, qrun(digits_of(ev.reserve0 as nat)));
    lemma_window_split(b, 0, x2, lit_reserve0());
    lemma_window_split(b, 0, x1, hex_of(ev.pair));
}

/// Field-window decomposition of a canonical `Sync` encoding.
#[verifier::rlimit(100)]
proof fn lemma_sy_peel(b: Seq<u8>, ev: SyncEventV)
    requires
        sync_wf(ev),
        b == enc_sync(ev),
    ensures
        b.len() == 208 + sy_a(ev) + sy_c(ev) + sy_d(ev) + sy_e(ev),
        b.subrange(0, 11) == lit_pair_open(),
        b.subrange(11, 51) == hex_of(ev.pair),
        b.subrange(51, 65) == lit_reserve0(),
        b.subrange(65, 66 + sy_a(ev)) == qrun(digits_of(ev.reserve0 as nat)),
        b.subrange(66 + sy_a(ev), 79 + sy_a(ev)) == lit_reserve1_c(),
        b.subrange(79 + sy_a(ev), 80 + sy_a(ev) + sy_c(ev)) == qrun(digits_of(ev.reserve1 as nat)),
        b.subrange(80 + sy_a(ev) + sy_c(ev), 103 + sy_a(ev) + sy_c(ev)) == lit_txhash_c(),
        b.subrange(103 + sy_a(ev) + sy_c(ev), 167 + sy_a(ev) + sy_c(ev)) == hex_of(
            ev.transaction_hash,
        ),
        b.subrange(167 + sy_a(ev) + sy_c(ev), 185 + sy_a(ev) + sy_c(ev)) == lit_block_number(),
        b.subrange(185 + sy_a(ev) + sy_c(ev), 186 + sy_a(ev) + sy_c(ev) + sy_d(ev)) == qrun(
            digits_of(ev.block_number as nat),
        ),
        b.subrange(
            186 + sy_a(ev) + sy_c(ev) + sy_d(ev),
            206 + sy_a(ev) + sy_c(ev) + sy_d(ev),
        ) == lit_block_timestamp_c(),
        b.subrange(
            206 + sy_a(ev) + sy_c(ev) + sy_d(ev),
            207 + sy_a(ev) + sy_c(ev) + sy_d(ev) + sy_e(ev),
        ) == qrun(digits_of(ev.block_timestamp as nat)),
        b.subrange(207 + sy_a(ev) + sy_c(ev) + sy_d(ev) + sy_e(ev), b.len() as int)
            == lit_close_obj(),
{
    lemma_hex_of_len(ev.pair);
    lemma_hex_of_len(ev.transaction_hash);
    let x6 = enc_sync_head(ev);
    let x7 = x6 + lit_txhash_c();
    let x8 = x7 + hex_of(ev.transaction_hash);
    let x9 = x8 + lit_block_number();
    let x10 = x9 + qrun(digits_of(ev.block_number as nat));
    let x11 = x10 + lit_block_timestamp_c();
    let x12 = x11 + qrun(digits_of(ev.block_timestamp as nat));
    assert(b == x12 + lit_close_obj());
    assert(b.subrange(0, b.len() as int) =~= b);
    lemma_window_split(b, 0, x12, lit_close_obj());
    lemma_window_split(b, 0, x11, qrun(digits_of(ev.block_timestamp as nat)));
    lemma_window_split(b, 0, x10, lit_block_timestamp_c());
    lemma_window_split(b, 0, x9, qrun(digits_of(ev.block_number as nat)));
    lemma_window_split(b, 0, x8, lit_block_number());
    lemma_window_split(b, 0, x7, hex_of(ev.transaction_hash));
    lemma_window_split(b, 0, x6, lit_txhash_c());
    lemma_sy_peel_head(b, ev);
}

/// Encode a `Sync` event canonically.
pub fn encode_sync(e: &SyncEvent) -> (r: Vec<u8>)
    requires
        e.wf(),
    ensures
        r@ == enc_sync(e@),
{
    let mut out: Vec<u8> = Vec::new();
    let l1 = vec_lit_pair_open();
    push_bytes(&mut out, &l1);
    push_hex(&mut out, &e.pair.bytes);
    let l2 = vec_lit_reserve0();
    push_bytes(&mut out, &l2);
    let r0_d = u128_to_digits(e.reserve0);
    push_bytes(&mut out, &r0_d);
    out.push(34);
    let l3 = vec_lit_reserve1_c();
    push_bytes(&mut out, &l3);
    let r1_d = u128_to_digits(e.reserve1);
    push_bytes(&mut out, &r1_d);
    out.push(34);
    let l4 = vec_lit_txhash_c();
    push_bytes(&mut out, &l4);
    push_hex(&mut out, &e.transaction_hash.bytes);
    let l5 = vec_lit_block_number();
    push_bytes(&mut out, &l5);
    let bn_d = u128_to_digits(e.block_number as u128);
    push_bytes(&mut out, &bn_d);
    out.push(34);
    let l6 = vec_lit_block_timestamp_c();
    push_bytes(&mut out, &l6);
    let ts_d = u128_to_digits(e.block_timestamp as u128);
    push_bytes(&mut out, &ts_d);
    out.push(34);
    let l7 = vec_lit_close_obj();
    push_bytes(&mut out, &l7);
    proof {
        assert((e.block_number as u128) as nat == e.block_number as nat);
        assert((e.block_timestamp as u128) as nat == e.block_timestamp as nat);
        assert(out@ =~= enc_sync(e@));
    }
    out
}

/// No well-formed `Sync` event encodes to `b`.
#[verifier::opaque]
pub open spec fn no_sync_encoding(b: Seq<u8>) -> bool {
    forall|ev: SyncEventV| sync_wf(ev) ==> b != enc_sync(ev)
}

proof fn lemma_sy_none_head(b: Seq<u8>)
    requires
        !(11 <= b.len() && b.subrange(0, 11) == lit_pair_open()) || (forall|s: Seq<u8>|
            s.len() == 20 ==> !(51 <= b.len() && b.subrange(11, 51) == hex_of(s))) || !(65
            <= b.len() && b.subrange(51, 65) == lit_reserve0()),
    ensures
        no_sync_encoding(b),
{
    reveal(no_sync_encoding);
    assert forall|ev: SyncEventV| sync_wf(ev) implies b != enc_sync(ev) by {
        if b == enc_sync(ev) {
            lemma_sy_peel(b, ev);
        }
    }
}

proof fn lemma_sy_none_r0_run(b: Seq<u8>)
    requires
        forall|d: Seq<u8>|
            canonical_digits(d) ==> !(65 + d.len() + 1 <= b.len() && b.subrange(
                65,
                66 + d.len() as int,
            ) == qrun(d)),
    ensures
        no_sync_encoding(b),
{
    reveal(no_sync_encoding);
    assert forall|ev: SyncEventV| sync_wf(ev) implies b != enc_sync(ev) by {
        if b == enc_sync(ev) {
            lemma_sy_peel(b, ev);
            lemma_digits_of_correct(ev.reserve0 as nat);
        }
    }
}

/// The window facts the reserve0 run leaves at position 65.
pub open spec fn sy_r0_window(b: Seq<u8>, d0: Seq<u8>) -> bool {
    &&& canonical_digits(d0)
    &&& 66 + d0.len() <= b.len()
    &&& b.subrange(65, 66 + d0.len() as int) == qrun(d0)
}

#[verifier::rlimit(100)]
proof fn lemma_sy_r0_pin(b: Seq<u8>, d0: Seq<u8>, ev: SyncEventV)
    requires
        sy_r0_window(b, d0),
        sync_wf(ev),
        b == enc_sync(ev),
    ensures
        digits_of(ev.reserve0 as nat) == d0,
        dec_val(d0) == ev.reserve0 as nat,
        sy_a(ev) == d0.len(),
{
    lemma_sy_peel(b, ev);
    lemma_digits_of_correct(ev.reserve0 as nat);
    lemma_digit_seq_no_quote(d0);
    lemma_digit_seq_no_quote(digits_of(ev.reserve0 as nat));
    lemma_delimited_unique(b, 65, d0, digits_of(ev.reserve0 as nat));
}

proof fn lemma_sy_none_r0(b: Seq<u8>, d0: Seq<u8>)
    requires
        sy_r0_window(b, d0),
        dec_val(d0) >= RESERVE_LIMIT,
    ensures
        no_sync_encoding(b),
{
    reveal(no_sync_encoding);
    assert forall|ev: SyncEventV| sync_wf(ev) implies b != enc_sync(ev) by {
        if b == enc_sync(ev) {
            lemma_sy_r0_pin(b, d0, ev);
        }
    }
}

proof fn lemma_sy_none_r1_lit(b: Seq<u8>, d0: Seq<u8>)
    requires
        sy_r0_window(b, d0),
        !(79 + d0.len() <= b.len() && b.subrange(66 + d0.len() as int, 79 + d0.len() as int)
            == lit_reserve1_c()),
    ensures
        no_sync_encoding(b),
{
    reveal(no_sync_encoding);
    assert forall|ev: SyncEventV| sync_wf(ev) implies b != enc_sync(ev) by {
        if b == enc_sync(ev) {
            lemma_sy_r0_pin(b, d0, ev);
            lemma_sy_peel(b, ev);
        }
    }
}

proof fn lemma_sy_none_r1_run(b: Seq<u8>, d0: Seq<u8>)
    requires
        sy_r0_window(b, d0),
        forall|d: Seq<u8>|
            canonical_digits(d) ==> !(79 + d0.len() + d.len() + 1 <= b.len() && b.subrange(
                79 + d0.len() as int,
                80 + d0.len() as int + d.len() as int,
            ) == qrun(d)),
    ensures
        no_sync_encoding(b),
{
    reveal(no_sync_encoding);
    assert forall|ev: SyncEventV| sync_wf(ev) implies b != enc_sync(ev) by {
        if b == enc_sync(ev) {
            lemma_sy_r0_pin(b, d0, ev);
            lemma_sy_peel(b, ev);
            lemma_digits_of_correct(ev.reserve1 as nat);
        }
    }
}

/// The window facts the reserve1 run leaves after the reserve0 window.
pub open spec fn sy_r1_window(b: Seq<u8>, d0: Seq<u8>, d1: Seq<u8>) -> bool {
    &&& canonical_digits(d1)
    &&& 80 + d0.len() + d1.len() <= b.len()
    &&& b.subrange(79 + d0.len() as int, 80 + d0.len() as int + d1.len() as int) == qrun(d1)
}

#[verifier::rlimit(100)]
proof fn lemma_sy_r1_pin(b: Seq<u8>, d0: Seq<u8>, d1: Seq<u8>, ev: SyncEventV)
    requires
        sy_r0_window(b, d0),
        sy_r1_window(b, d0, d1),
        sync_wf(ev),
        b == enc_sync(ev),
    ensures
        digits_of(ev.reserve1 as nat) == d1,
        dec_val(d1) == ev.reserve1 as nat,
        sy_c(ev) == d1.len(),
{
    lemma_sy_r0_pin(b, d0, ev);
    lemma_sy_peel(b, ev);
    lemma_digits_of_correct(ev.reserve1 as nat);
    lemma_digit_seq_no_quote(d1);
    lemma_digit_seq_no_quote(digits_of(ev.reserve1 as nat));
    lemma_delimited_unique(b, 79 + d0.len() as int, d1, digits_of(ev.reserve1 as nat));
}

proof fn lemma_sy_none_r1(b: Seq<u8>, d0: Seq<u8>, d1: Seq<u8>)
    requires
        sy_r0_window(b, d0),
        sy_r1_window(b, d0, d1),
        dec_val(d1) >= RESERVE_LIMIT,
    ensures
        no_sync_encoding(b),
{
    reveal(no_sync_encoding);
    assert forall|ev: SyncEventV| sync_wf(ev) implies b != enc_sync(ev) by {
        if b == enc_sync(ev) {
            lemma_sy_r1_pin(b, d0, d1, ev);
        }
    }
}

proof fn lemma_sy_none_mid(b: Seq<u8>, d0: Seq<u8>, d1: Seq<u8>)
    requires
        sy_r0_window(b, d0),
        sy_r1_window(b, d0, d1),
        ({
            let p = 80 + d0.len() as int + d1.len() as int;
            ||| !(p + 23 <= b.len() && b.subrange(p, p + 23) == lit_txhash_c())
            ||| (forall|s: Seq<u8>|
                s.len() == 32 ==> !(p + 87 <= b.len() && b.subrange(p + 23, p + 87) == hex_of(s)))
            ||| !(p + 105 <= b.len() && b.subrange(p + 87, p + 105) == lit_block_number())
        }),
    ensures
        no_sync_encoding(b),
{
    reveal(no_sync_encoding);
    assert forall|ev: SyncEventV| sync_wf(ev) implies b != enc_sync(ev) by {
        if b == enc_sync(ev) {
            lemma_sy_r1_pin(b, d0, d1, ev);
            lemma_sy_r0_pin(b, d0, ev);
            lemma_sy_peel(b, ev);
        }
    }
}

proof fn lemma_sy_none_bn_run(b: Seq<u8>, d0: Seq<u8>, d1: Seq<u8>)
    requires
        sy_r0_window(b, d0),
        sy_r1_window(b, d0, d1),
        forall|d: Seq<u8>|
            canonical_digits(d) ==> !(185 + d0.len() + d1.len() + d.len() + 1 <= b.len()
                && b.subrange(
                185 + d0.len() as int + d1.len() as int,
                186 + d0.len() as int + d1.len() as int + d.len() as int,
            ) == qrun(d)),
    ensures
        no_sync_encoding(b),
{
    reveal(no_sync_encoding);
    assert forall|ev: SyncEventV| sync_wf(ev) implies b != enc_sync(ev) by {
        if b == enc_sync(ev) {
            lemma_sy_r1_pin(b, d0, d1, ev);
            lemma_sy_r0_pin(b, d0, ev);
            lemma_sy_peel(b, ev);
            lemma_digits_of_correct(ev.block_number as nat);
        }
    }
}

/// The window facts the block-number run leaves after the reserve runs.
pub open spec fn sy_bn_window(b: Seq<u8>, d0: Seq<u8>, d1: Seq<u8>, d2: Seq<u8>) -> bool {
    &&& canonical_digits(d2)
    &&& 186 + d0.len() + d1.len() + d2.len() <= b.len()
    &&& b.subrange(
        185 + d0.len() as int + d1.len() as int,
        186 + d0.len() as int + d1.len() as int + d2.len() as int,
    ) == qrun(d2)
}

#[verifier::rlimit(100)]
proof fn lemma_sy_bn_pin(b: Seq<u8>, d0: Seq<u8>, d1: Seq<u8>, d2: Seq<u8>, ev: SyncEventV)
    requires
        sy_r0_window(b, d0),
        sy_r1_window(b, d0, d1),
        sy_bn_window(b, d0, d1, d2),
        sync_wf(ev),
        b == enc_sync(ev),
    ensures
        digits_of(ev.block_number as nat) == d2,
        dec_val(d2) == ev.block_number as nat,
        sy_d(ev) == d2.len(),
{
    lemma_sy_r1_pin(b, d0, d1, ev);
    lemma_sy_r0_pin(b, d0, ev);
    lemma_sy_peel(b, ev);
    lemma_digits_of_correct(ev.block_number as nat);
    lemma_digit_seq_no_quote(d2);
    lemma_digit_seq_no_quote(digits_of(ev.block_number as nat));
    lemma_delimited_unique(
        b,
        185 + d0.len() as int + d1.len() as int,
        d2,
        digits_of(ev.block_number as nat),
    );
}

proof fn lemma_sy_none_bn_val(b: Seq<u8>, d0: Seq<u8>, d1: Seq<u8>, d2: Seq<u8>)
    requires
        sy_r0_window(b, d0),
        sy_r1_window(b, d0, d1),
        sy_bn_window(b, d0, d1, d2),
        dec_val(d2) > u64::MAX,
    ensures
        no_sync_encoding(b),
{
    reveal(no_sync_encoding);
    assert forall|ev: SyncEventV| sync_wf(ev) implies b != enc_sync(ev) by {
        if b == enc_sync(ev) {
            lemma_sy_bn_pin(b, d0, d1, d2, ev);
        }
    }
}

proof fn lemma_sy_none_ts_lit(b: Seq<u8>, d0: Seq<u8>, d1: Seq<u8>, d2: Seq<u8>)
    requires
        sy_r0_window(b, d0),
        sy_r1_window(b, d0, d1),
        sy_bn_window(b, d0, d1, d2),
        ({
            let p = 186 + d0.len() as int + d1.len() as int + d2.len() as int;
            !(p + 20 <= b.len() && b.subrange(p, p + 20) == lit_block_timestamp_c())
        }),
    ensures
        no_sync_encoding(b),
{
    reveal(no_sync_encoding);
    assert forall|ev: SyncEventV| sync_wf(ev) implies b != enc_sync(ev) by {
        if b == enc_sync(ev) {
            lemma_sy_bn_pin(b, d0, d1, d2, ev);
            lemma_sy_r1_pin(b, d0, d1, ev);
            lemma_sy_r0_pin(b, d0, ev);
            lemma_sy_peel(b, ev);
        }
    }
}

proof fn lemma_sy_none_ts_run(b: Seq<u8>, d0: Seq<u8>, d1: Seq<u8>, d2: Seq<u8>)
    requires
        sy_r0_window(b, d0),
        sy_r1_window(b, d0, d1),
        sy_bn_window(b, d0, d1, d2),
        forall|d: Seq<u8>|
            canonical_digits(d) ==> !(206 + d0.len() + d1.len() + d2.len() + d.len() + 1
                <= b.len() && b.subrange(
                206 + d0.len() as int + d1.len() as int + d2.len() as int,
                207 + d0.len() as int + d1.len() as int + d2.len() as int + d.len() as int,
            ) == qrun(d)),
    ensures
        no_sync_encoding(b),
{
    reveal(no_sync_encoding);
    assert forall|ev: SyncEventV| sync_wf(ev) implies b != enc_sync(ev) by {
        if b == enc_sync(ev) {
            lemma_sy_bn_pin(b, d0, d1, d2, ev);
            lemma_sy_r1_pin(b, d0, d1, ev);
            lemma_sy_r0_pin(b, d0, ev);
            lemma_sy_peel(b, ev);
            lemma_digits_of_correct(ev.block_timestamp as nat);
        }
    }
}

/// The window facts the block-timestamp run leaves at the end.
pub open spec fn sy_ts_window(
    b: Seq<u8>,
    d0: Seq<u8>,
    d1: Seq<u8>,
    d2: Seq<u8>,
    d3: Seq<u8>,
) -> bool {
    &&& canonical_digits(d3)
    &&& 207 + d0.len() + d1.len() + d2.len() + d3.len() <= b.len()
    &&& b.subrange(
        206 + d0.len() as int + d1.len() as int + d2.len() as int,
        207 + d0.len() as int + d1.len() as int + d2.len() as int + d3.len() as int,
    ) == qrun(d3)
}

#[verifier::rlimit(100)]
proof fn lemma_sy_ts_pin(
    b: Seq<u8>,
    d0: Seq<u8>,
    d1: Seq<u8>,
    d2: Seq<u8>,
    d3: Seq<u8>,
    ev: SyncEventV,
)
    requires
        sy_r0_window(b, d0),
        sy_r1_window(b, d0, d1),
        sy_bn_window(b, d0, d1, d2),
        sy_ts_window(b, d0, d1, d2, d3),
        sync_wf(ev),
        b == enc_sync(ev),
    ensures
        digits_of(ev.block_timestamp as nat) == d3,
        dec_val(d3) == ev.block_timestamp as nat,
        sy_e(ev) == d3.len(),
{
    lemma_sy_bn_pin(b, d0, d1, d2, ev);
    lemma_sy_r1_pin(b, d0, d1, ev);
    lemma_sy_r0_pin(b, d0, ev);
    lemma_sy_peel(b, ev);
    lemma_digits_of_correct(ev.block_timestamp as nat);
    lemma_digit_seq_no_quote(d3);
    lemma_digit_seq_no_quote(digits_of(ev.block_timestamp as nat));
    lemma_delimited_unique(
        b,
        206 + d0.len() as int + d1.len() as int + d2.len() as int,
        d3,
        digits_of(ev.block_timestamp as nat),
    );
}

proof fn lemma_sy_none_ts_val(b: Seq<u8>, d0: Seq<u8>, d1: Seq<u8>, d2: Seq<u8>, d3: Seq<u8>)
    requires
        sy_r0_window(b, d0),
        sy_r1_window(b, d0, d1),
        sy_bn_window(b, d0, d1, d2),
        sy_ts_window(b, d0, d1, d2, d3),
        dec_val(d3) > u64::MAX,
    ensures
        no_sync_encoding(b),
{
    reveal(no_sync_encoding);
    assert forall|ev: SyncEventV| sync_wf(ev) implies b != enc_sync(ev) by {
        if b == enc_sync(ev) {
            lemma_sy_ts_pin(b, d0, d1, d2, d3, ev);
        }
    }
}

proof fn lemma_sy_none_tail(b: Seq<u8>, d0: Seq<u8>, d1: Seq<u8>, d2: Seq<u8>, d3: Seq<u8>)
    requires
        sy_r0_window(b, d0),
        sy_r1_window(b, d0, d1),
        sy_bn_window(b, d0, d1, d2),
        sy_ts_window(b, d0, d1, d2, d3),
        ({
            let p = 207 + d0.len() as int + d1.len() as int + d2.len() as int + d3.len() as int;
            !(p + 1 == b.len() && b.subrange(p, p + 1) == lit_close_obj())
        }),
    ensures
        no_sync_encoding(b),
{
    reveal(no_sync_encoding);
    assert forall|ev: SyncEventV| sync_wf(ev) implies b != enc_sync(ev) by {
        if b == enc_sync(ev) {
            lemma_sy_ts_pin(b, d0, d1, d2, d3, ev);
            lemma_sy_bn_pin(b, d0, d1, d2, ev);
            lemma_sy_r1_pin(b, d0, d1, ev);
            lemma_sy_r0_pin(b, d0, ev);
            lemma_sy_peel(b, ev);
        }
    }
}

/// Decode a canonical `Sync` encoding. Returns the event exactly when the
/// whole input is the canonical encoding of a well-formed event.
#[verifier::rlimit(100)]
#[verifier::spinoff_prover]
pub fn decode_sync(b: &Vec<u8>) -> (r: Option<SyncEvent>)
    ensures
        match r {
            Some(e) => e.wf() && b@ == enc_sync(e@),
            None => no_sync_encoding(b@),
        },
{
    let total = b.len();
    let l_open = vec_lit_pair_open();
    let i1 = match parse_exact(b, 0, &l_open) {
        Some(j) => j,
        None => {
            proof {
                lemma_sy_none_head(b@);
            }
            return None;
        },
    };
    let (pair_bytes, i2) = match parse_hex(b, i1, 20) {
        Some(v) => v,
        None => {
            proof {
                lemma_sy_none_head(b@);
            }
            return None;
        },
    };
    let l_r0 = vec_lit_reserve0();
    let i3 = match parse_exact(b, i2, &l_r0) {
        Some(j) => j,
        None => {
            proof {
                lemma_sy_none_head(b@);
            }
            return None;
        },
    };
    let (r0_digits, i4) = match parse_quoted_digits(b, i3) {
        Some(p) => p,
        None => {
            proof {
                lemma_sy_none_r0_run(b@);
            }
            return None;
        },
    };
    let r0 = match digits_to_u128(&r0_digits) {
        Some(x) => {
            if x >= RESERVE_LIMIT {
                proof {
                    lemma_sy_none_r0(b@, r0_digits@);
                }
                return None;
            }
            x
        },
        None => {
            proof {
                lemma_sy_none_r0(b@, r0_digits@);
            }
            return None;
        },
    };
    let l_r1 = vec_lit_reserve1_c();
    let i5 = match parse_exact(b, i4, &l_r1) {
        Some(j) => j,
        None => {
            proof {
                lemma_sy_none_r1_lit(b@, r0_digits@);
            }
            return None;
        },
    };
    let (r1_digits, i6) = match parse_quoted_digits(b, i5) {
        Some(p) => p,
        None => {
            proof {
                lemma_sy_none_r1_run(b@, r0_digits@);
            }
            return None;
        },
    };
    let r1 = match digits_to_u128(&r1_digits) {
        Some(x) => {
            if x >= RESERVE_LIMIT {
                proof {
                    lemma_sy_none_r1(b@, r0_digits@, r1_digits@);
                }
                return None;
            }
            x
        },
        None => {
            proof {
                lemma_sy_none_r1(b@, r0_digits@, r1_digits@);
            }
            return None;
        },
    };
    let l_tx = vec_lit_txhash_c();
    let i7 = match parse_exact(b, i6, &l_tx) {
        Some(j) => j,
        None => {
            proof {
                lemma_sy_none_mid(b@, r0_digits@, r1_digits@);
            }
            return None;
        },
    };
    let (tx_bytes, i8) = match parse_hex(b, i7, 32) {
        Some(v) => v,
        None => {
            proof {
                lemma_sy_none_mid(b@, r0_digits@, r1_digits@);
            }
            return None;
        },
    };
    let l_bn = vec_lit_block_number();
    let i9 = match parse_exact(b, i8, &l_bn) {
        Some(j) => j,
        None => {
            proof {
                lemma_sy_none_mid(b@, r0_digits@, r1_digits@);
            }
            return None;
        },
    };
    let (bn_digits, i10) = match parse_quoted_digits(b, i9) {
        Some(p) => p,
        None => {
            proof {
                lemma_sy_none_bn_run(b@, r0_digits@, r1_digits@);
            }
            return None;
        },
    };
    let bn = match digits_to_u64(&bn_digits) {
        Some(x) => x,
        None => {
            proof {
                lemma_sy_none_bn_val(b@, r0_digits@, r1_digits@, bn_digits@);
            }
            return None;
        },
    };
    let l_ts = vec_lit_block_timestamp_c();
    let i11 = match parse_exact(b, i10, &l_ts) {
        Some(j) => j,
        None => {
            proof {
                lemma_sy_none_ts_lit(b@, r0_digits@, r1_digits@, bn_digits@);
            }
            return None;
        },
    };
    let (ts_digits, i12) = match parse_quoted_digits(b, i11) {
        Some(p) => p,
        None => {
            proof {
                lemma_sy_none_ts_run(b@, r0_digits@, r1_digits@, bn_digits@);
            }
            return None;
        },
    };
    let ts = match digits_to_u64(&ts_digits) {
        Some(x) => x,
        None => {
            proof {
                lemma_sy_none_ts_val(b@, r0_digits@, r1_digits@, bn_digits@, ts_digits@);
            }
            return None;
        },
    };
    let l_close = vec_lit_close_obj();
    let close_ok = match parse_exact(b, i12, &l_close) {
        Some(j) => j == total,
        None => false,
    };
    if !close_ok {
        proof {
            lemma_sy_none_tail(b@, r0_digits@, r1_digits@, bn_digits@, ts_digits@);
        }
        return None;
    }
    let e = SyncEvent {
        pair: Address { bytes: pair_bytes },
        reserve0: r0,
        reserve1: r1,
        transaction_hash: TxHash { bytes: tx_bytes },
        block_number: bn,
        block_timestamp: ts,
    };
    proof {
        lemma_digits_of_unique(r0_digits@);
        lemma_digits_of_unique(r1_digits@);
        lemma_digits_of_unique(bn_digits@);
        lemma_digits_of_unique(ts_digits@);
        let x1 = lit_pair_open();
        let x2 = x1 + hex_of(e@.pair);
        let x3 = x2 + lit_reserve0();
        let x4 = x3 + qrun(r0_digits@);
        let x5 = x4 + lit_reserve1_c();
        let x6 = x5 + qrun(r1_digits@);
        let x7 = x6 + lit_txhash_c();
        let x8 = x7 + hex_of(e@.transaction_hash);
        let x9 = x8 + lit_block_number();
        let x10 = x9 + qrun(bn_digits@);
        let x11 = x10 + lit_block_timestamp_c();
        let x12 = x11 + qrun(ts_digits@);
        lemma_window_join(b@, 0, x1, hex_of(e@.pair));
        lemma_window_join(b@, 0, x2, lit_reserve0());
        lemma_window_join(b@, 0, x3, qrun(r0_digits@));
        lemma_window_join(b@, 0, x4, lit_reserve1_c());
        lemma_window_join(b@, 0, x5, qrun(r1_digits@));
        lemma_window_join(b@, 0, x6, lit_txhash_c());
        lemma_window_join(b@, 0, x7, hex_of(e@.transaction_hash));
        lemma_window_join(b@, 0, x8, lit_block_number());
        lemma_window_join(b@, 0, x9, qrun(bn_digits@));
        lemma_window_join(b@, 0, x10, lit_block_timestamp_c());
        lemma_window_join(b@, 0, x11, qrun(ts_digits@));
        lemma_window_join(b@, 0, x12, lit_close_obj());
        assert(b@.subrange(0, b@.len() as int) =~= b@);
        assert(b@ == enc_sync(e@));
    }
    Some(e)
}

/// Canonical `Sync` encodings are unique: two well-formed events with the
/// same encoding are the same event.
#[verifier::rlimit(100)]
pub proof fn lemma_sync_enc_unique(b: Seq<u8>, e1: SyncEventV, e2: SyncEventV)
    requires
        sync_wf(e1),
        sync_wf(e2),
        b == enc_sync(e1),
        b == enc_sync(e2),
    ensures
        e1 == e2,
{
    lemma_sy_peel(b, e1);
    lemma_sy_peel(b, e2);
    crate::hexfmt::lemma_hex_of_inj(e1.pair, e2.pair);
    lemma_digits_of_correct(e1.reserve0 as nat);
    lemma_digits_of_correct(e1.reserve1 as nat);
    lemma_digits_of_correct(e1.block_number as nat);
    lemma_digits_of_correct(e1.block_timestamp as nat);
    let d0 = digits_of(e1.reserve0 as nat);
    assert(sy_r0_window(b, d0));
    lemma_sy_r0_pin(b, d0, e2);
    assert(e1.reserve0 == e2.reserve0);
    let d1 = digits_of(e1.reserve1 as nat);
    assert(sy_r1_window(b, d0, d1));
    lemma_sy_r1_pin(b, d0, d1, e2);
    assert(e1.reserve1 == e2.reserve1);
    assert(b.subrange(103 + sy_a(e1) + sy_c(e1), 167 + sy_a(e1) + sy_c(e1)) == hex_of(
        e1.transaction_hash,
    ));
    assert(sy_a(e2) == sy_a(e1) && sy_c(e2) == sy_c(e1));
    crate::hexfmt::lemma_hex_of_inj(e1.transaction_hash, e2.transaction_hash);
    let d2 = digits_of(e1.block_number as nat);
    assert(sy_bn_window(b, d0, d1, d2));
    lemma_sy_bn_pin(b, d0, d1, d2, e2);
    assert(e1.block_number == e2.block_number);
    let d3 = digits_of(e1.block_timestamp as nat);
    assert(sy_ts_window(b, d0, d1, d2, d3));
    lemma_sy_ts_pin(b, d0, d1, d2, d3, e2);
    assert(e1.block_timestamp == e2.block_timestamp);
}

} // verus!

//! The canonical payload codec: one fixed byte-level schema per record
//! type. Encoding is a function of the record alone; decoding accepts a
//! byte string exactly when it is the canonical encoding of a well-formed
//! record, so a round trip through the queue or the key-value store gives
//! the record back and anything else is a decode error.

use vstd::prelude::*;

verus! {

use crate::arith::{digits_to_u64, u128_to_digits};
use crate::digits::{
    canonical_digits, dec_val, digits_of, is_digit_seq, lemma_digits_of_correct,
    lemma_digits_of_unique,
};
use crate::hexfmt::{hex_of, lemma_hex_of_len, parse_hex, push_hex};
use crate::json::{
    lemma_delimited_unique, lemma_digit_seq_no_quote, lemma_window_join, lemma_window_split,
    parse_exact, parse_quoted_digits, push_bytes, qrun,
};
use crate::literals::{
    lit_block_number, lit_block_timestamp_c, lit_close_obj, lit_pair_open, lit_token0_hex,
    lit_token1_hex, lit_txhash_q, vec_lit_block_number, vec_lit_block_timestamp_c,
    vec_lit_close_obj, vec_lit_pair_open, vec_lit_token0_hex, vec_lit_token1_hex,
    vec_lit_txhash_q,
};
use crate::model::{Address, PairCreatedEvent, PairCreatedEventV, TxHash, pair_created_wf};

/// The canonical encoding of a `PairCreated` event.
pub open spec fn enc_pair_created(e: PairCreatedEventV) -> Seq<u8> {
    lit_pair_open() + hex_of(e.pair) + lit_token0_hex() + hex_of(e.token0) + lit_token1_hex()
        + hex_of(e.token1) + lit_txhash_q() + hex_of(e.transaction_hash) + lit_block_number()
        + qrun(digits_of(e.block_number as nat)) + lit_block_timestamp_c() + qrun(
        digits_of(e.block_timestamp as nat),
    ) + lit_close_obj()
}

/// Field-window decomposition of a canonical `PairCreated` encoding.
#[verifier::rlimit(100)]
proof fn lemma_pc_peel(b: Seq<u8>, ev: PairCreatedEventV)
    requires
        pair_created_wf(ev),
        b == enc_pair_created(ev),
    ensures
        b.len() == 288 + digits_of(ev.block_number as nat).len() + digits_of(
            ev.block_timestamp as nat,
        ).len(),
        b.subrange(0, 11) == lit_pair_open(),
        b.subrange(11, 51) == hex_of(ev.pair),
        b.subrange(51, 65) == lit_token0_hex(),
        b.subrange(65, 105) == hex_of(ev.token0),
        b.subrange(105, 119) == lit_token1_hex(),
        b.subrange(119, 159) == hex_of(ev.token1),
        b.subrange(159, 183) == lit_txhash_q(),
        b.subrange(183, 247) == hex_of(ev.transaction_hash),
        b.subrange(247, 265) == lit_block_number(),
        b.subrange(265, 266 + digits_of(ev.block_number as nat).len() as int) == qrun(
            digits_of(ev.block_number as nat),
        ),
        b.subrange(
            266 + digits_of(ev.block_number as nat).len() as int,
            286 + digits_of(ev.block_number as nat).len() as int,
        ) == lit_block_timestamp_c(),
        b.subrange(
            286 + digits_of(ev.block_number as nat).len() as int,
            287 + digits_of(ev.block_number as nat).len() + digits_of(
                ev.block_timestamp as nat,
            ).len() as int,
        ) == qrun(digits_of(ev.block_timestamp as nat)),
        b.subrange(287 + digits_of(ev.block_number as nat).len() + digits_of(
            ev.block_timestamp as nat,
        ).len() as int, b.len() as int) == lit_close_obj(),
{
    let d1 = digits_of(ev.block_number as nat);
    let d2 = digits_of(ev.block_timestamp as nat);
    lemma_hex_of_len(ev.pair);
    lemma_hex_of_len(ev.token0);
    lemma_hex_of_len(ev.token1);
    lemma_hex_of_len(ev.transaction_hash);
    let x1 = lit_pair_open();
    let x2 = x1 + hex_of(ev.pair);
    let x3 = x2 + lit_token0_hex();
    let x4 = x3 + hex_of(ev.token0);
    let x5 = x4 + lit_token1_hex();
    let x6 = x5 + hex_of(ev.token1);
    let x7 = x6 + lit_txhash_q();
    let x8 = x7 + hex_of(ev.transaction_hash);
    let x9 = x8 + lit_block_number();
    let x10 = x9 + qrun(d1);
    let x11 = x10 + lit_block_timestamp_c();
    let x12 = x11 + qrun(d2);
    assert(b == x12 + lit_close_obj());
    assert(b.subrange(0, b.len() as int) =~= b);
    lemma_window_split(b, 0, x12, lit_close_obj());
    lemma_window_split(b, 0, x11, qrun(d2));
    lemma_window_split(b, 0, x10, lit_block_timestamp_c());
    lemma_window_split(b, 0, x9, qrun(d1));
    lemma_window_split(b, 0, x8, lit_block_number());
    lemma_window_split(b, 0, x7, hex_of(ev.transaction_hash));
    lemma_window_split(b, 0, x6, lit_txhash_q());
    lemma_window_split(b, 0, x5, hex_of(ev.token1));
    lemma_window_split(b, 0, x4, lit_token1_hex());
    lemma_window_split(b, 0, x3, hex_of(ev.token0));
    lemma_window_split(b, 0, x2, lit_token0_hex());
    lemma_window_split(b, 0, x1, hex_of(ev.pair));
}

/// Encode a `PairCreated` event canonically.
pub fn encode_pair_created(e: &PairCreatedEvent) -> (r: Vec<u8>)
    requires
        e.wf(),
    ensures
        r@ == enc_pair_created(e@),
{
    let mut out: Vec<u8> = Vec::new();
    let l1 = vec_lit_pair_open();
    push_bytes(&mut out, &l1);
    push_hex(&mut out, &e.pair.bytes);
    let l2 = vec_lit_token0_hex();
    push_bytes(&mut out, &l2);
    push_hex(&mut out, &e.token0.bytes);
    let l3 = vec_lit_token1_hex();
    push_bytes(&mut out, &l3);
    push_hex(&mut out, &e.token1.bytes);
    let l4 = vec_lit_txhash_q();
    push_bytes(&mut out, &l4);
    push_hex(&mut out, &e.transaction_hash.bytes);
    let l5 = vec_lit_block_number();
    push_bytes(&mut out, &l5);
    let bn_d = u128_to_digits(e.block_number as u128);
    push_bytes(&mut out, &bn_d);
    out.push(34);
    let l6 = vec_lit_block_timestamp_c();
    push_bytes(&mut out, &l6);
    let ts_d = u128_to_digits(e.block_timestamp as u128);
    push_bytes(&mut out, &ts_d);
    out.push(34);
    let l7 = vec_lit_close_obj();
    push_bytes(&mut out, &l7);
    proof {
        assert((e.block_number as u128) as nat == e.block_number as nat);
        assert((e.block_timestamp as u128) as nat == e.block_timestamp as nat);
        assert(out@ =~= enc_pair_created(e@));
    }
    out
}

/// No well-formed `PairCreated` event encodes to `b`.
pub open spec fn no_pair_created_encoding(b: Seq<u8>) -> bool {
    forall|ev: PairCreatedEventV| pair_created_wf(ev) ==> b != enc_pair_created(ev)
}

proof fn lemma_pc_none_open(b: Seq<u8>)
    requires
        !(11 <= b.len() && b.subrange(0, 11) == lit_pair_open()),
    ensures
        no_pair_created_encoding(b),
{
    assert forall|ev: PairCreatedEventV|
        pair_created_wf(ev) implies b != enc_pair_created(ev) by {
        if b == enc_pair_created(ev) {
            lemma_pc_peel(b, ev);
        }
    }
}

proof fn lemma_pc_none_hex(b: Seq<u8>, lo: int, hi: int)
    requires
        (lo, hi) == (11int, 51int) || (lo, hi) == (65int, 105int) || (lo, hi) == (119int, 159int)
            || (lo, hi) == (183int, 247int),
        forall|s: Seq<u8>|
            s.len() == (if hi - lo == 40 { 20int } else { 32int }) ==> !(hi <= b.len()
                && b.subrange(lo, hi) == hex_of(s)),
    ensures
        no_pair_created_encoding(b),
{
    assert forall|ev: PairCreatedEventV|
        pair_created_wf(ev) implies b != enc_pair_created(ev) by {
        if b == enc_pair_created(ev) {
            lemma_pc_peel(b, ev);
            if lo == 11 {
                assert(b.subrange(11, 51) == hex_of(ev.pair));
            } else if lo == 65 {
                assert(b.subrange(65, 105) == hex_of(ev.token0));
            } else if lo == 119 {
                assert(b.subrange(119, 159) == hex_of(ev.token1));
            } else {
                assert(b.subrange(183, 247) == hex_of(ev.transaction_hash));
            }
        }
    }
}

proof fn lemma_pc_none_lit(b: Seq<u8>, lo: int, hi: int, lit: Seq<u8>)
    requires
        ((lo, hi) == (51int, 65int) && lit == lit_token0_hex()) || ((lo, hi) == (
            105int,
            119int,
        ) && lit == lit_token1_hex()) || ((lo, hi) == (159int, 183int) && lit == lit_txhash_q())
            || ((lo, hi) == (247int, 265int) && lit == lit_block_number()),
        !(hi <= b.len() && b.subrange(lo, hi) == lit),
    ensures
        no_pair_created_encoding(b),
{
    assert forall|ev: PairCreatedEventV|
        pair_created_wf(ev) implies b != enc_pair_created(ev) by {
        if b == enc_pair_created(ev) {
            lemma_pc_peel(b, ev);
        }
    }
}

proof fn lemma_pc_none_bn_run(b: Seq<u8>)
    requires
        forall|d: Seq<u8>|
            canonical_digits(d) ==> !(265 + d.len() + 1 <= b.len() && b.subrange(
                265,
                266 + d.len() as int,
            ) == qrun(d)),
    ensures
        no_pair_created_encoding(b),
{
    assert forall|ev: PairCreatedEventV|
        pair_created_wf(ev) implies b != enc_pair_created(ev) by {
        if b == enc_pair_created(ev) {
            lemma_pc_peel(b, ev);
            lemma_digits_of_correct(ev.block_number as nat);
        }
    }
}

/// The window facts the bn-run parse leaves at position 265.
pub open spec fn pc_bn_window(b: Seq<u8>, bn_d: Seq<u8>) -> bool {
    &&& canonical_digits(bn_d)
    &&& 266 + bn_d.len() <= b.len()
    &&& b.subrange(265, 266 + bn_d.len() as int) == qrun(bn_d)
}

/// With the bn window fixed, any candidate event has exactly that digit
/// run for its block number.
proof fn lemma_pc_bn_pin(b: Seq<u8>, bn_d: Seq<u8>, ev: PairCreatedEventV)
    requires
        pc_bn_window(b, bn_d),
        pair_created_wf(ev),
        b == enc_pair_created(ev),
    ensures
        digits_of(ev.block_number as nat) == bn_d,
        dec_val(bn_d) == ev.block_number as nat,
{
    lemma_pc_peel(b, ev);
    lemma_digits_of_correct(ev.block_number as nat);
    lemma_digit_seq_no_quote(bn_d);
    lemma_digit_seq_no_quote(digits_of(ev.block_number as nat));
    lemma_delimited_unique(b, 265, bn_d, digits_of(ev.block_number as nat));
}

proof fn lemma_pc_none_bn_val(b: Seq<u8>, bn_d: Seq<u8>)
    requires
        pc_bn_window(b, bn_d),
        dec_val(bn_d) > u64::MAX,
    ensures
        no_pair_created_encoding(b),
{
    assert forall|ev: PairCreatedEventV|
        pair_created_wf(ev) implies b != enc_pair_created(ev) by {
        if b == enc_pair_created(ev) {
            lemma_pc_bn_pin(b, bn_d, ev);
        }
    }
}

proof fn lemma_pc_none_ts_lit(b: Seq<u8>, bn_d: Seq<u8>)
    requires
        pc_bn_window(b, bn_d),
        !(286 + bn_d.len() <= b.len() && b.subrange(
            266 + bn_d.len() as int,
            286 + bn_d.len() as int,
        ) == lit_block_timestamp_c()),
    ensures
        no_pair_created_encoding(b),
{
    assert forall|ev: PairCreatedEventV|
        pair_created_wf(ev) implies b != enc_pair_created(ev) by {
        if b == enc_pair_created(ev) {
            lemma_pc_bn_pin(b, bn_d, ev);
            lemma_pc_peel(b, ev);
        }
    }
}

proof fn lemma_pc_none_ts_run(b: Seq<u8>, bn_d: Seq<u8>)
    requires
        pc_bn_window(b, bn_d),
        forall|d: Seq<u8>|
            canonical_digits(d) ==> !(286 + bn_d.len() + d.len() + 1 <= b.len() && b.subrange(
                286 + bn_d.len() as int,
                287 + bn_d.len() as int + d.len() as int,
            ) == qrun(d)),
    ensures
        no_pair_created_encoding(b),
{
    assert forall|ev: PairCreatedEventV|
        pair_created_wf(ev) implies b != enc_pair_created(ev) by {
        if b == enc_pair_created(ev) {
            lemma_pc_bn_pin(b, bn_d, ev);
            lemma_pc_peel(b, ev);
            lemma_digits_of_correct(ev.block_timestamp as nat);
        }
    }
}

/// The window facts the ts-run parse leaves after the bn window.
pub open spec fn pc_ts_window(b: Seq<u8>, bn_d: Seq<u8>, ts_d: Seq<u8>) -> bool {
    &&& canonical_digits(ts_d)
    &&& 287 + bn_d.len() + ts_d.len() <= b.len()
    &&& b.subrange(286 + bn_d.len() as int, 287 + bn_d.len() + ts_d.len() as int) == qrun(ts_d)
}

proof fn lemma_pc_ts_pin(b: Seq<u8>, bn_d: Seq<u8>, ts_d: Seq<u8>, ev: PairCreatedEventV)
    requires
        pc_bn_window(b, bn_d),
        pc_ts_window(b, bn_d, ts_d),
        pair_created_wf(ev),
        b == enc_pair_created(ev),
    ensures
        digits_of(ev.block_timestamp as nat) == ts_d,
        dec_val(ts_d) == ev.block_timestamp as nat,
{
    lemma_pc_bn_pin(b, bn_d, ev);
    lemma_pc_peel(b, ev);
    lemma_digits_of_correct(ev.block_timestamp as nat);
    lemma_digit_seq_no_quote(ts_d);
    lemma_digit_seq_no_quote(digits_of(ev.block_timestamp as nat));
    lemma_delimited_unique(b, 286 + bn_d.len() as int, ts_d, digits_of(ev.block_timestamp as nat));
}

proof fn lemma_pc_none_ts_val(b: Seq<u8>, bn_d: Seq<u8>, ts_d: Seq<u8>)
    requires
        pc_bn_window(b, bn_d),
        pc_ts_window(b, bn_d, ts_d),
        dec_val(ts_d) > u64::MAX,
    ensures
        no_pair_created_encoding(b),
{
    assert forall|ev: PairCreatedEventV|
        pair_created_wf(ev) implies b != enc_pair_created(ev) by {
        if b == enc_pair_created(ev) {
            lemma_pc_ts_pin(b, bn_d, ts_d, ev);
        }
    }
}

proof fn lemma_pc_none_tail(b: Seq<u8>, bn_d: Seq<u8>, ts_d: Seq<u8>)
    requires
        pc_bn_window(b, bn_d),
        pc_ts_window(b, bn_d, ts_d),
        !(288 + bn_d.len() + ts_d.len() == b.len() && b.subrange(
            287 + bn_d.len() + ts_d.len() as int,
            288 + bn_d.len() + ts_d.len() as int,
        ) == lit_close_obj()),
    ensures
        no_pair_created_encoding(b),
{
    assert forall|ev: PairCreatedEventV|
        pair_created_wf(ev) implies b != enc_pair_created(ev) by {
        if b == enc_pair_created(ev) {
            lemma_pc_bn_pin(b, bn_d, ev);
            lemma_pc_ts_pin(b, bn_d, ts_d, ev);
            lemma_pc_peel(b, ev);
        }
    }
}

/// Decode a canonical `PairCreated` encoding. Returns the event exactly
/// when the whole input is the canonical encoding of a well-formed event.
#[verifier::rlimit(100)]
#[verifier::spinoff_prover]
pub fn decode_pair_created(b: &Vec<u8>) -> (r: Option<PairCreatedEvent>)
    ensures
        match r {
            Some(e) => e.wf() && b@ == enc_pair_created(e@),
            None => no_pair_created_encoding(b@),
        },
{
    let l_open = vec_lit_pair_open();
    let i1 = match parse_exact(b, 0, &l_open) {
        Some(j) => j,
        None => {
            proof {
                lemma_pc_none_open(b@);
            }
            return None;
        },
    };
    let (pair_bytes, i2) = match parse_hex(b, i1, 20) {
        Some(v) => v,
        None => {
            proof {
                lemma_pc_none_hex(b@, 11, 51);
            }
            return None;
        },
    };
    let l_t0 = vec_lit_token0_hex();
    let i3 = match parse_exact(b, i2, &l_t0) {
        Some(j) => j,
        None => {
            proof {
                lemma_pc_none_lit(b@, 51, 65, lit_token0_hex());
            }
            return None;
        },
    };
    let (t0_bytes, i4) = match parse_hex(b, i3, 20) {
        Some(v) => v,
        None => {
            proof {
                lemma_pc_none_hex(b@, 65, 105);
            }
            return None;
        },
    };
    let l_t1 = vec_lit_token1_hex();
    let i5 = match parse_exact(b, i4, &l_t1) {
        Some(j) => j,
        None => {
            proof {
                lemma_pc_none_lit(b@, 105, 119, lit_token1_hex());
            }
            return None;
        },
    };
    let (t1_bytes, i6) = match parse_hex(b, i5, 20) {
        Some(v) => v,
        None => {
            proof {
                lemma_pc_none_hex(b@, 119, 159);
            }
            return None;
        },
    };
    let l_tx = vec_lit_txhash_q();
    let i7 = match parse_exact(b, i6, &l_tx) {
        Some(j) => j,
        None => {
            proof {
                lemma_pc_none_lit(b@, 159, 183, lit_txhash_q());
            }
            return None;
        },
    };
    let (tx_bytes, i8) = match parse_hex(b, i7, 32) {
        Some(v) => v,
        None => {
            proof {
                lemma_pc_none_hex(b@, 183, 247);
            }
            return None;
        },
    };
    let l_bn = vec_lit_block_number();
    let i9 = match parse_exact(b, i8, &l_bn) {
        Some(j) => j,
        None => {
            proof {
                lemma_pc_none_lit(b@, 247, 265, lit_block_number());
            }
            return None;
        },
    };
    let (bn_digits, i10) = match parse_quoted_digits(b, i9) {
        Some(p) => p,
        None => {
            proof {
                lemma_pc_none_bn_run(b@);
            }
            return None;
        },
    };
    let bn = match digits_to_u64(&bn_digits) {
        Some(x) => x,
        None => {
            proof {
                lemma_pc_none_bn_val(b@, bn_digits@);
            }
            return None;
        },
    };
    let l_ts = vec_lit_block_timestamp_c();
    let i11 = match parse_exact(b, i10, &l_ts) {
        Some(j) => j,
        None => {
            proof {
                lemma_pc_none_ts_lit(b@, bn_digits@);
            }
            return None;
        },
    };
    let (ts_digits, i12) = match parse_quoted_digits(b, i11) {
        Some(p) => p,
        None => {
            proof {
                lemma_pc_none_ts_run(b@, bn_digits@);
            }
            return None;
        },
    };
    let ts = match digits_to_u64(&ts_digits) {
        Some(x) => x,
        None => {
            proof {
                lemma_pc_none_ts_val(b@, bn_digits@, ts_digits@);
            }
            return None;
        },
    };
    let l_close = vec_lit_close_obj();
    let close_ok = match parse_exact(b, i12, &l_close) {
        Some(j) => j == b.len(),
        None => false,
    };
    if !close_ok {
        proof {
            lemma_pc_none_tail(b@, bn_digits@, ts_digits@);
        }
        return None;
    }
    let e = PairCreatedEvent {
        pair: Address { bytes: pair_bytes },
        token0: Address { bytes: t0_bytes },
        token1: Address { bytes: t1_bytes },
        transaction_hash: TxHash { bytes: tx_bytes },
        block_number: bn,
        block_timestamp: ts,
    };
    proof {
        lemma_digits_of_unique(bn_digits@);
        lemma_digits_of_unique(ts_digits@);
        let x1 = lit_pair_open();
        let x2 = x1 + hex_of(e@.pair);
        let x3 = x2 + lit_token0_hex();
        let x4 = x3 + hex_of(e@.token0);
        let x5 = x4 + lit_token1_hex();
        let x6 = x5 + hex_of(e@.token1);
        let x7 = x6 + lit_txhash_q();
        let x8 = x7 + hex_of(e@.transaction_hash);
        let x9 = x8 + lit_block_number();
        let x10 = x9 + qrun(bn_digits@);
        let x11 = x10 + lit_block_timestamp_c();
        let x12 = x11 + qrun(ts_digits@);
        lemma_window_join(b@, 0, x1, hex_of(e@.pair));
        lemma_window_join(b@, 0, x2, lit_token0_hex());
        lemma_window_join(b@, 0, x3, hex_of(e@.token0));
        lemma_window_join(b@, 0, x4, lit_token1_hex());
        lemma_window_join(b@, 0, x5, hex_of(e@.token1));
        lemma_window_join(b@, 0, x6, lit_txhash_q());
        lemma_window_join(b@, 0, x7, hex_of(e@.transaction_hash));
        lemma_window_join(b@, 0, x8, lit_block_number());
        lemma_window_join(b@, 0, x9, qrun(bn_digits@));
        lemma_window_join(b@, 0, x10, lit_block_timestamp_c());
        lemma_window_join(b@, 0, x11, qrun(ts_digits@));
        lemma_window_join(b@, 0, x12, lit_close_obj());
        assert(b@.subrange(0, b@.len() as int) =~= b@);
        assert(b@ == enc_pair_created(e@));
    }
    Some(e)
}

/// Canonical `PairCreated` encodings are unique: two well-formed events
/// with the same encoding are the same event.
#[verifier::rlimit(100)]
pub proof fn lemma_pair_created_enc_unique(
    b: Seq<u8>,
    e1: PairCreatedEventV,
    e2: PairCreatedEventV,
)
    requires
        pair_created_wf(e1),
        pair_created_wf(e2),
        b == enc_pair_created(e1),
        b == enc_pair_created(e2),
    ensures
        e1 == e2,
{
    lemma_pc_peel(b, e1);
    lemma_pc_peel(b, e2);
    crate::hexfmt::lemma_hex_of_inj(e1.pair, e2.pair);
    crate::hexfmt::lemma_hex_of_inj(e1.token0, e2.token0);
    crate::hexfmt::lemma_hex_of_inj(e1.token1, e2.token1);
    crate::hexfmt::lemma_hex_of_inj(e1.transaction_hash, e2.transaction_hash);
    lemma_digits_of_correct(e1.block_number as nat);
    lemma_digits_of_correct(e1.block_timestamp as nat);
    let d1 = digits_of(e1.block_number as nat);
    assert(pc_bn_window(b, d1));
    lemma_pc_bn_pin(b, d1, e2);
    assert(e1.block_number == e2.block_number);
    let d2 = digits_of(e1.block_timestamp as nat);
    assert(pc_ts_window(b, d1, d2));
    lemma_pc_ts_pin(b, d1, d2, e2);
    assert(e1.block_timestamp == e2.block_timestamp);
}

} // verus!

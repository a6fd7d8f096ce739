//! The fixed text pieces of the canonical payload encoding, as byte
//! sequences. Each piece has a spec form (the sequence the encoding
//! specifications are written over) and a runtime constructor proved to
//! build exactly that sequence.

use vstd::prelude::*;

verus! {

/// The text `{"pair":"0x`.
pub open spec fn lit_pair_open() -> Seq<u8> {
    seq![123u8, 34, 112, 97, 105, 114, 34, 58, 34, 48, 120]
}

pub fn vec_lit_pair_open() -> (v: Vec<u8>)
    ensures
        v@ == lit_pair_open(),
{
    let mut v: Vec<u8> = Vec::new();
    v.push(123);
    v.push(34);
    v.push(112);
    v.push(97);
    v.push(105);
    v.push(114);
    v.push(34);
    v.push(58);
    v.push(34);
    v.push(48);
    v.push(120);
    proof {
        assert(v@ =~= lit_pair_open());
    }
    v
}

/// The text `","token0":"0x`.
pub open spec fn lit_token0_hex() -> Seq<u8> {
    seq![34u8, 44, 34, 116, 111, 107, 101, 110, 48, 34, 58, 34, 48, 120]
}

pub fn vec_lit_token0_hex() -> (v: Vec<u8>)
    ensures
        v@ == lit_token0_hex(),
{
    let mut v: Vec<u8> = Vec::new();
    v.push(34);
    v.push(44);
    v.push(34);
    v.push(116);
    v.push(111);
    v.push(107);
    v.push(101);
    v.push(110);
    v.push(48);
    v.push(34);
    v.push(58);
    v.push(34);
    v.push(48);
    v.push(120);
    proof {
        assert(v@ =~= lit_token0_hex());
    }
    v
}

/// The text `","token1":"0x`.
pub open spec fn lit_token1_hex() -> Seq<u8> {
    seq![34u8, 44, 34, 116, 111, 107, 101, 110, 49, 34, 58, 34, 48, 120]
}

pub fn vec_lit_token1_hex() -> (v: Vec<u8>)
    ensures
        v@ == lit_token1_hex(),
{
    let mut v: Vec<u8> = Vec::new();
    v.push(34);
    v.push(44);
    v.push(34);
    v.push(116);
    v.push(111);
    v.push(107);
    v.push(101);
    v.push(110);
    v.push(49);
    v.push(34);
    v.push(58);
    v.push(34);
    v.push(48);
    v.push(120);
    proof {
        assert(v@ =~= lit_token1_hex());
    }
    v
}

/// The text `","transaction_hash":"0x`.
pub open spec fn lit_txhash_q() -> Seq<u8> {
    seq![34u8, 44, 34, 116, 114, 97, 110, 115, 97, 99, 116, 105, 111, 110, 95, 104, 97, 115, 104, 34, 58, 34, 48, 120]
}

pub fn vec_lit_txhash_q() -> (v: Vec<u8>)
    ensures
        v@ == lit_txhash_q(),
{
    let mut v: Vec<u8> = Vec::new();
    v.push(34);
    v.push(44);
    v.push(34);
    v.push(116);
    v.push(114);
    v.push(97);
    v.push(110);
    v.push(115);
    v.push(97);
    v.push(99);
    v.push(116);
    v.push(105);
    v.push(111);
    v.push(110);
    v.push(95);
    v.push(104);
    v.push(97);
    v.push(115);
    v.push(104);
    v.push(34);
    v.push(58);
    v.push(34);
    v.push(48);
    v.push(120);
    proof {
        assert(v@ =~= lit_txhash_q());
    }
    v
}

/// The text `,"transaction_hash":"0x`.
pub open spec fn lit_txhash_c() -> Seq<u8> {
    seq![44u8, 34, 116, 114, 97, 110, 115, 97, 99, 116, 105, 111, 110, 95, 104, 97, 115, 104, 34, 58, 34, 48, 120]
}

pub fn vec_lit_txhash_c() -> (v: Vec<u8>)
    ensures
        v@ == lit_txhash_c(),
{
    let mut v: Vec<u8> = Vec::new();
    v.push(44);
    v.push(34);
    v.push(116);
    v.push(114);
    v.push(97);
    v.push(110);
    v.push(115);
    v.push(97);
    v.push(99);
    v.push(116);
    v.push(105);
    v.push(111);
    v.push(110);
    v.push(95);
    v.push(104);
    v.push(97);
    v.push(115);
    v.push(104);
    v.push(34);
    v.push(58);
    v.push(34);
    v.push(48);
    v.push(120);
    proof {
        assert(v@ =~= lit_txhash_c());
    }
    v
}

/// The text `","block_number":"`.
pub open spec fn lit_block_number() -> Seq<u8> {
    seq![34u8, 44, 34, 98, 108, 111, 99, 107, 95, 110, 117, 109, 98, 101, 114, 34, 58, 34]
}

pub fn vec_lit_block_number() -> (v: Vec<u8>)
    ensures
        v@ == lit_block_number(),
{
    let mut v: Vec<u8> = Vec::new();
    v.push(34);
    v.push(44);
    v.push(34);
    v.push(98);
    v.push(108);
    v.push(111);
    v.push(99);
    v.push(107);
    v.push(95);
    v.push(110);
    v.push(117);
    v.push(109);
    v.push(98);
    v.push(101);
    v.push(114);
    v.push(34);
    v.push(58);
    v.push(34);
    proof {
        assert(v@ =~= lit_block_number());
    }
    v
}

/// The text `,"block_timestamp":"`.
pub open spec fn lit_block_timestamp_c() -> Seq<u8> {
    seq![44u8, 34, 98, 108, 111, 99, 107, 95, 116, 105, 109, 101, 115, 116, 97, 109, 112, 34, 58, 34]
}

pub fn vec_lit_block_timestamp_c() -> (v: Vec<u8>)
    ensures
        v@ == lit_block_timestamp_c(),
{
    let mut v: Vec<u8> = Vec::new();
    v.push(44);
    v.push(34);
    v.push(98);
    v.push(108);
    v.push(111);
    v.push(99);
    v.push(107);
    v.push(95);
    v.push(116);
    v.push(105);
    v.push(109);
    v.push(101);
    v.push(115);
    v.push(116);
    v.push(97);
    v.push(109);
    v.push(112);
    v.push(34);
    v.push(58);
    v.push(34);
    proof {
        assert(v@ =~= lit_block_timestamp_c());
    }
    v
}

/// The text `}`.
pub open spec fn lit_close_obj() -> Seq<u8> {
    seq![125u8]
}

pub fn vec_lit_close_obj() -> (v: Vec<u8>)
    ensures
        v@ == lit_close_obj(),
{
    let mut v: Vec<u8> = Vec::new();
    v.push(125);
    proof {
        assert(v@ =~= lit_close_obj());
    }
    v
}

/// The text `","reserve0":"`.
pub open spec fn lit_reserve0() -> Seq<u8> {
    seq![34u8, 44, 34, 114, 101, 115, 101, 114, 118, 101, 48, 34, 58, 34]
}

pub fn vec_lit_reserve0() -> (v: Vec<u8>)
    ensures
        v@ == lit_reserve0(),
{
    let mut v: Vec<u8> = Vec::new();
    v.push(34);
    v.push(44);
    v.push(34);
    v.push(114);
    v.push(101);
    v.push(115);
    v.push(101);
    v.push(114);
    v.push(118);
    v.push(101);
    v.push(48);
    v.push(34);
    v.push(58);
    v.push(34);
    proof {
        assert(v@ =~= lit_reserve0());
    }
    v
}

/// The text `,"reserve1":"`.
pub open spec fn lit_reserve1_c() -> Seq<u8> {
    seq![44u8, 34, 114, 101, 115, 101, 114, 118, 101, 49, 34, 58, 34]
}

pub fn vec_lit_reserve1_c() -> (v: Vec<u8>)
    ensures
        v@ == lit_reserve1_c(),
{
    let mut v: Vec<u8> = Vec::new();
    v.push(44);
    v.push(34);
    v.push(114);
    v.push(101);
    v.push(115);
    v.push(101);
    v.push(114);
    v.push(118);
    v.push(101);
    v.push(49);
    v.push(34);
    v.push(58);
    v.push(34);
    proof {
        assert(v@ =~= lit_reserve1_c());
    }
    v
}

/// The text `{"address":"0x`.
pub open spec fn lit_addr_open() -> Seq<u8> {
    seq![123u8, 34, 97, 100, 100, 114, 101, 115, 115, 34, 58, 34, 48, 120]
}

pub fn vec_lit_addr_open() -> (v: Vec<u8>)
    ensures
        v@ == lit_addr_open(),
{
    let mut v: Vec<u8> = Vec::new();
    v.push(123);
    v.push(34);
    v.push(97);
    v.push(100);
    v.push(100);
    v.push(114);
    v.push(101);
    v.push(115);
    v.push(115);
    v.push(34);
    v.push(58);
    v.push(34);
    v.push(48);
    v.push(120);
    proof {
        assert(v@ =~= lit_addr_open());
    }
    v
}

/// The text `","decimals":"`.
pub open spec fn lit_decimals() -> Seq<u8> {
    seq![34u8, 44, 34, 100, 101, 99, 105, 109, 97, 108, 115, 34, 58, 34]
}

pub fn vec_lit_decimals() -> (v: Vec<u8>)
    ensures
        v@ == lit_decimals(),
{
    let mut v: Vec<u8> = Vec::new();
    v.push(34);
    v.push(44);
    v.push(34);
    v.push(100);
    v.push(101);
    v.push(99);
    v.push(105);
    v.push(109);
    v.push(97);
    v.push(108);
    v.push(115);
    v.push(34);
    v.push(58);
    v.push(34);
    proof {
        assert(v@ =~= lit_decimals());
    }
    v
}

/// The text `,"symbol":"`.
pub open spec fn lit_symbol_c() -> Seq<u8> {
    seq![44u8, 34, 115, 121, 109, 98, 111, 108, 34, 58, 34]
}

pub fn vec_lit_symbol_c() -> (v: Vec<u8>)
    ensures
        v@ == lit_symbol_c(),
{
    let mut v: Vec<u8> = Vec::new();
    v.push(44);
    v.push(34);
    v.push(115);
    v.push(121);
    v.push(109);
    v.push(98);
    v.push(111);
    v.push(108);
    v.push(34);
    v.push(58);
    v.push(34);
    proof {
        assert(v@ =~= lit_symbol_c());
    }
    v
}

/// The text `,"total_supply":"`.
pub open spec fn lit_supply_c() -> Seq<u8> {
    seq![44u8, 34, 116, 111, 116, 97, 108, 95, 115, 117, 112, 112, 108, 121, 34, 58, 34]
}

pub fn vec_lit_supply_c() -> (v: Vec<u8>)
    ensures
        v@ == lit_supply_c(),
{
    let mut v: Vec<u8> = Vec::new();
    v.push(44);
    v.push(34);
    v.push(116);
    v.push(111);
    v.push(116);
    v.push(97);
    v.push(108);
    v.push(95);
    v.push(115);
    v.push(117);
    v.push(112);
    v.push(112);
    v.push(108);
    v.push(121);
    v.push(34);
    v.push(58);
    v.push(34);
    proof {
        assert(v@ =~= lit_supply_c());
    }
    v
}

/// The text `","token0":`.
pub open spec fn lit_pair_token0() -> Seq<u8> {
    seq![34u8, 44, 34, 116, 111, 107, 101, 110, 48, 34, 58]
}

pub fn vec_lit_pair_token0() -> (v: Vec<u8>)
    ensures
        v@ == lit_pair_token0(),
{
    let mut v: Vec<u8> = Vec::new();
    v.push(34);
    v.push(44);
    v.push(34);
    v.push(116);
    v.push(111);
    v.push(107);
    v.push(101);
    v.push(110);
    v.push(48);
    v.push(34);
    v.push(58);
    proof {
        assert(v@ =~= lit_pair_token0());
    }
    v
}

/// The text `,"token1":`.
pub open spec fn lit_pair_token1() -> Seq<u8> {
    seq![44u8, 34, 116, 111, 107, 101, 110, 49, 34, 58]
}

pub fn vec_lit_pair_token1() -> (v: Vec<u8>)
    ensures
        v@ == lit_pair_token1(),
{
    let mut v: Vec<u8> = Vec::new();
    v.push(44);
    v.push(34);
    v.push(116);
    v.push(111);
    v.push(107);
    v.push(101);
    v.push(110);
    v.push(49);
    v.push(34);
    v.push(58);
    proof {
        assert(v@ =~= lit_pair_token1());
    }
    v
}

/// The text `{"pair_address":"0x`.
pub open spec fn lit_tick_pair_addr() -> Seq<u8> {
    seq![123u8, 34, 112, 97, 105, 114, 95, 97, 100, 100, 114, 101, 115, 115, 34, 58, 34, 48, 120]
}

pub fn vec_lit_tick_pair_addr() -> (v: Vec<u8>)
    ensures
        v@ == lit_tick_pair_addr(),
{
    let mut v: Vec<u8> = Vec::new();
    v.push(123);
    v.push(34);
    v.push(112);
    v.push(97);
    v.push(105);
    v.push(114);
    v.push(95);
    v.push(97);
    v.push(100);
    v.push(100);
    v.push(114);
    v.push(101);
    v.push(115);
    v.push(115);
    v.push(34);
    v.push(58);
    v.push(34);
    v.push(48);
    v.push(120);
    proof {
        assert(v@ =~= lit_tick_pair_addr());
    }
    v
}

/// The text `","token0_address":"0x`.
pub open spec fn lit_tick_t0_addr() -> Seq<u8> {
    seq![34u8, 44, 34, 116, 111, 107, 101, 110, 48, 95, 97, 100, 100, 114, 101, 115, 115, 34, 58, 34, 48, 120]
}

pub fn vec_lit_tick_t0_addr() -> (v: Vec<u8>)
    ensures
        v@ == lit_tick_t0_addr(),
{
    let mut v: Vec<u8> = Vec::new();
    v.push(34);
    v.push(44);
    v.push(34);
    v.push(116);
    v.push(111);
    v.push(107);
    v.push(101);
    v.push(110);
    v.push(48);
    v.push(95);
    v.push(97);
    v.push(100);
    v.push(100);
    v.push(114);
    v.push(101);
    v.push(115);
    v.push(115);
    v.push(34);
    v.push(58);
    v.push(34);
    v.push(48);
    v.push(120);
    proof {
        assert(v@ =~= lit_tick_t0_addr());
    }
    v
}

/// The text `","token0_reserve":"`.
pub open spec fn lit_tick_t0_res() -> Seq<u8> {
    seq![34u8, 44, 34, 116, 111, 107, 101, 110, 48, 95, 114, 101, 115, 101, 114, 118, 101, 34, 58, 34]
}

pub fn vec_lit_tick_t0_res() -> (v: Vec<u8>)
    ensures
        v@ == lit_tick_t0_res(),
{
    let mut v: Vec<u8> = Vec::new();
    v.push(34);
    v.push(44);
    v.push(34);
    v.push(116);
    v.push(111);
    v.push(107);
    v.push(101);
    v.push(110);
    v.push(48);
    v.push(95);
    v.push(114);
    v.push(101);
    v.push(115);
    v.push(101);
    v.push(114);
    v.push(118);
    v.push(101);
    v.push(34);
    v.push(58);
    v.push(34);
    proof {
        assert(v@ =~= lit_tick_t0_res());
    }
    v
}

/// The text `,"token0_symbol":"`.
pub open spec fn lit_tick_t0_sym() -> Seq<u8> {
    seq![44u8, 34, 116, 111, 107, 101, 110, 48, 95, 115, 121, 109, 98, 111, 108, 34, 58, 34]
}

pub fn vec_lit_tick_t0_sym() -> (v: Vec<u8>)
    ensures
        v@ == lit_tick_t0_sym(),
{
    let mut v: Vec<u8> = Vec::new();
    v.push(44);
    v.push(34);
    v.push(116);
    v.push(111);
    v.push(107);
    v.push(101);
    v.push(110);
    v.push(48);
    v.push(95);
    v.push(115);
    v.push(121);
    v.push(109);
    v.push(98);
    v.push(111);
    v.push(108);
    v.push(34);
    v.push(58);
    v.push(34);
    proof {
        assert(v@ =~= lit_tick_t0_sym());
    }
    v
}

/// The text `,"token1_address":"0x`.
pub open spec fn lit_tick_t1_addr() -> Seq<u8> {
    seq![44u8, 34, 116, 111, 107, 101, 110, 49, 95, 97, 100, 100, 114, 101, 115, 115, 34, 58, 34, 48, 120]
}

pub fn vec_lit_tick_t1_addr() -> (v: Vec<u8>)
    ensures
        v@ == lit_tick_t1_addr(),
{
    let mut v: Vec<u8> = Vec::new();
    v.push(44);
    v.push(34);
    v.push(116);
    v.push(111);
    v.push(107);
    v.push(101);
    v.push(110);
    v.push(49);
    v.push(95);
    v.push(97);
    v.push(100);
    v.push(100);
    v.push(114);
    v.push(101);
    v.push(115);
    v.push(115);
    v.push(34);
    v.push(58);
    v.push(34);
    v.push(48);
    v.push(120);
    proof {
        assert(v@ =~= lit_tick_t1_addr());
    }
    v
}

/// The text `","token1_reserve":"`.
pub open spec fn lit_tick_t1_res() -> Seq<u8> {
    seq![34u8, 44, 34, 116, 111, 107, 101, 110, 49, 95, 114, 101, 115, 101, 114, 118, 101, 34, 58, 34]
}

pub fn vec_lit_tick_t1_res() -> (v: Vec<u8>)
    ensures
        v@ == lit_tick_t1_res(),
{
    let mut v: Vec<u8> = Vec::new();
    v.push(34);
    v.push(44);
    v.push(34);
    v.push(116);
    v.push(111);
    v.push(107);
    v.push(101);
    v.push(110);
    v.push(49);
    v.push(95);
    v.push(114);
    v.push(101);
    v.push(115);
    v.push(101);
    v.push(114);
    v.push(118);
    v.push(101);
    v.push(34);
    v.push(58);
    v.push(34);
    proof {
        assert(v@ =~= lit_tick_t1_res());
    }
    v
}

/// The text `,"token1_symbol":"`.
pub open spec fn lit_tick_t1_sym() -> Seq<u8> {
    seq![44u8, 34, 116, 111, 107, 101, 110, 49, 95, 115, 121, 109, 98, 111, 108, 34, 58, 34]
}

pub fn vec_lit_tick_t1_sym() -> (v: Vec<u8>)
    ensures
        v@ == lit_tick_t1_sym(),
{
    let mut v: Vec<u8> = Vec::new();
    v.push(44);
    v.push(34);
    v.push(116);
    v.push(111);
    v.push(107);
    v.push(101);
    v.push(110);
    v.push(49);
    v.push(95);
    v.push(115);
    v.push(121);
    v.push(109);
    v.push(98);
    v.push(111);
    v.push(108);
    v.push(34);
    v.push(58);
    v.push(34);
    proof {
        assert(v@ =~= lit_tick_t1_sym());
    }
    v
}

/// The text `,"token0_token1_e18":"`.
pub open spec fn lit_tick_r01() -> Seq<u8> {
    seq![44u8, 34, 116, 111, 107, 101, 110, 48, 95, 116, 111, 107, 101, 110, 49, 95, 101, 49, 56, 34, 58, 34]
}

pub fn vec_lit_tick_r01() -> (v: Vec<u8>)
    ensures
        v@ == lit_tick_r01(),
{
    let mut v: Vec<u8> = Vec::new();
    v.push(44);
    v.push(34);
    v.push(116);
    v.push(111);
    v.push(107);
    v.push(101);
    v.push(110);
    v.push(48);
    v.push(95);
    v.push(116);
    v.push(111);
    v.push(107);
    v.push(101);
    v.push(110);
    v.push(49);
    v.push(95);
    v.push(101);
    v.push(49);
    v.push(56);
    v.push(34);
    v.push(58);
    v.push(34);
    proof {
        assert(v@ =~= lit_tick_r01());
    }
    v
}

/// The text `,"token1_token0_e18":"`.
pub open spec fn lit_tick_r10() -> Seq<u8> {
    seq![44u8, 34, 116, 111, 107, 101, 110, 49, 95, 116, 111, 107, 101, 110, 48, 95, 101, 49, 56, 34, 58, 34]
}

pub fn vec_lit_tick_r10() -> (v: Vec<u8>)
    ensures
        v@ == lit_tick_r10(),
{
    let mut v: Vec<u8> = Vec::new();
    v.push(44);
    v.push(34);
    v.push(116);
    v.push(111);
    v.push(107);
    v.push(101);
    v.push(110);
    v.push(49);
    v.push(95);
    v.push(116);
    v.push(111);
    v.push(107);
    v.push(101);
    v.push(110);
    v.push(48);
    v.push(95);
    v.push(101);
    v.push(49);
    v.push(56);
    v.push(34);
    v.push(58);
    v.push(34);
    proof {
        assert(v@ =~= lit_tick_r10());
    }
    v
}

} // verus!
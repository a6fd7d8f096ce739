//! The price-computation engine: exact, 18-decimal fixed-point exchange
//! rates from raw reserves and token decimals. All arithmetic runs on
//! decimal digit strings, so reserves of full 112-bit width and decimal
//! adjustments of any size never truncate; the only lossy float conversion
//! happens outside this crate.

use vstd::prelude::*;

verus! {

use crate::arith::{long_div, u128_to_digits};
use crate::arith::lemma_dec_val_push;
use crate::digits::{
    canonical_digits, dec_val, digits_of, is_digit_seq, lemma_digits_of_correct, pow10,
};
use crate::model::{Pair, PriceTick, SyncEvent, clone_bytes};

/// The 18-decimal fixed-point ratio of one unit of token0 in token1,
/// after normalizing the two tokens' decimal scales:
/// `reserve1 / reserve0`, scale-adjusted, times 10^18, rounded down.
pub open spec fn ratio_e18(r0: u128, r1: u128, d0: u8, d1: u8) -> nat
    recommends
        r0 > 0,
{
    if d0 >= d1 {
        (r1 as nat * pow10((d0 - d1 + 18) as nat)) / (r0 as nat)
    } else {
        (r1 as nat * pow10(18)) / (r0 as nat * pow10((d1 - d0) as nat))
    }
}

/// The 18-decimal fixed point reciprocal of an 18-decimal fixed point
/// value; zero maps to zero by policy rather than failing.
pub open spec fn inverse_e18(x: nat) -> nat {
    if x == 0 {
        0
    } else {
        pow10(36) / x
    }
}

/// Append `k` zero digits: the value gains a factor of 10^k.
fn append_zeros(v: Vec<u8>, k: usize) -> (r: Vec<u8>)
    requires
        is_digit_seq(v@),
        v@.len() > 0,
    ensures
        is_digit_seq(r@),
        r@.len() == v@.len() + k,
        r@[0] == v@[0],
        dec_val(r@) == dec_val(v@) * pow10(k as nat),
{
    let mut r = v;
    let mut j: usize = 0;
    proof {
        assert(dec_val(r@) * 1 == dec_val(r@)) by (nonlinear_arith);
    }
    while j < k
        invariant
            j <= k,
            is_digit_seq(r@),
            r@.len() == v@.len() + j,
            v@.len() > 0,
            r@[0] == v@[0],
            dec_val(r@) == dec_val(v@) * pow10(j as nat),
        decreases k - j,
    {
        let ghost prev = r@;
        r.push(48);
        proof {
            lemma_dec_val_push(prev, 48);
            assert(pow10((j + 1) as nat) == 10 * pow10(j as nat));
            assert((dec_val(v@) * pow10(j as nat)) * 10 == dec_val(v@) * (10 * pow10(j as nat)))
                by (nonlinear_arith);
        }
        j = j + 1;
    }
    r
}

/// The digit string of 10^36, the fixed-point constant used for the
/// reciprocal rate.
fn e36_digits() -> (r: Vec<u8>)
    ensures
        canonical_digits(r@),
        dec_val(r@) == pow10(36),
{
    let mut one: Vec<u8> = Vec::new();
    one.push(49);
    proof {
        assert(one@ =~= seq![49u8]);
        crate::arith::lemma_dec_val_singleton(49);
    }
    let r = append_zeros(one, 36);
    proof {
        assert(1 * pow10(36) == pow10(36)) by (nonlinear_arith);
    }
    r
}

/// Compute the price observation for one reserve change, given the cached
/// pair record. An empty pool (`reserve0 == 0`) yields no tick; that is a
/// final state, not an error. Otherwise the tick carries both exact
/// 18-decimal fixed-point rates and every identifying field of the event
/// and the pair.
pub fn compute(event: &SyncEvent, pair: &Pair) -> (r: Option<PriceTick>)
    requires
        event.wf(),
        pair.wf(),
    ensures
        match r {
            None => event.reserve0 == 0,
            Some(t) => {
                &&& event.reserve0 > 0
                &&& t.wf()
                &&& t@.pair_address == event@.pair
                &&& t@.token0_address == pair@.token0.address
                &&& t@.token0_reserve == event.reserve0
                &&& t@.token0_symbol == pair@.token0.symbol
                &&& t@.token1_address == pair@.token1.address
                &&& t@.token1_reserve == event.reserve1
                &&& t@.token1_symbol == pair@.token1.symbol
                &&& dec_val(t@.token0_token1_e18) == ratio_e18(
                    event.reserve0,
                    event.reserve1,
                    pair@.token0.decimals,
                    pair@.token1.decimals,
                )
                &&& dec_val(t@.token1_token0_e18) == inverse_e18(
                    ratio_e18(
                        event.reserve0,
                        event.reserve1,
                        pair@.token0.decimals,
                        pair@.token1.decimals,
                    ),
                )
                &&& t@.transaction_hash == event@.transaction_hash
                &&& t@.block_number == event.block_number
                &&& t@.block_timestamp == event.block_timestamp
            },
        },
{
    if event.reserve0 == 0 {
        return None;
    }
    let d0 = pair.token0.decimals;
    let d1 = pair.token1.decimals;
    let r1_digits = u128_to_digits(event.reserve1);
    let r0_digits = u128_to_digits(event.reserve0);
    proof {
        lemma_digits_of_correct(event.reserve0 as nat);
        lemma_digits_of_correct(event.reserve1 as nat);
        assert(r0_digits@[0] != 48);
    }
    let (num, den) = if d0 >= d1 {
        let shift = (d0 - d1) as usize + 18;
        (append_zeros(r1_digits, shift), r0_digits)
    } else {
        let num = append_zeros(r1_digits, 18);
        let den = append_zeros(r0_digits, (d1 - d0) as usize);
        (num, den)
    };
    proof {
        assert(canonical_digits(den@));
        assert(dec_val(den@) > 0) by {
            if dec_val(den@) == 0 {
                assert(dec_val(den@) == event.reserve0 as nat * pow10(
                    (if d0 >= d1 {
                        0int
                    } else {
                        (d1 - d0) as int
                    }) as nat,
                ));
                crate::digits::lemma_pow10_pos(
                    (if d0 >= d1 {
                        0int
                    } else {
                        (d1 - d0) as int
                    }) as nat,
                );
                assert(event.reserve0 as nat * pow10(
                    (if d0 >= d1 {
                        0int
                    } else {
                        (d1 - d0) as int
                    }) as nat,
                ) >= 1) by (nonlinear_arith)
                    requires
                        event.reserve0 as nat >= 1,
                        pow10(
                            (if d0 >= d1 {
                                0int
                            } else {
                                (d1 - d0) as int
                            }) as nat,
                        ) >= 1,
                ;
            }
        }
    }
    let price = long_div(&num, &den);
    let inverse = if price.len() == 1 && price[0] == 48 {
        let mut z: Vec<u8> = Vec::new();
        z.push(48);
        proof {
            assert(price@ =~= seq![48u8]);
            assert(z@ =~= seq![48u8]);
            crate::arith::lemma_dec_val_singleton(48);
        }
        z
    } else {
        proof {
            assert(dec_val(price@) > 0) by {
                if dec_val(price@) == 0 {
                    crate::digits::lemma_digits_of_unique(price@);
                    assert(digits_of(0) == price@);
                    assert(digits_of(0) =~= seq![48u8]);
                }
            }
        }
        let e36 = e36_digits();
        long_div(&e36, &price)
    };
    let tick = PriceTick {
        pair_address: event.pair.dup(),
        token0_address: pair.token0.address.dup(),
        token0_reserve: event.reserve0,
        token0_symbol: clone_bytes(&pair.token0.symbol),
        token1_address: pair.token1.address.dup(),
        token1_reserve: event.reserve1,
        token1_symbol: clone_bytes(&pair.token1.symbol),
        token0_token1_e18: price,
        token1_token0_e18: inverse,
        transaction_hash: event.transaction_hash.dup(),
        block_number: event.block_number,
        block_timestamp: event.block_timestamp,
    };
    Some(tick)
}

/// The reciprocal invariant in exact form: the two stored fixed-point
/// rates multiply back to 10^36 up to the floor-rounding remainder, which
/// is why the float rendering of `token0_token1 * token1_token0` stays
/// within rounding distance of one whenever neither rate is zero.
pub proof fn lemma_reciprocal_e18(x: nat)
    requires
        x > 0,
    ensures
        x * inverse_e18(x) <= pow10(36),
        pow10(36) < x * inverse_e18(x) + x,
{
    vstd::arithmetic::div_mod::lemma_fundamental_div_mod(pow10(36) as int, x as int);
    vstd::arithmetic::div_mod::lemma_mod_bound(pow10(36) as int, x as int);
}

} // verus!

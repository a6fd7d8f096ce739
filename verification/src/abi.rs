//! Decoding of contract call returns: the 32-byte words and dynamic
//! strings that the token metadata reads (`decimals`, `symbol`,
//! `totalSupply`) and the pair linkage reads (`token0`, `token1`) hand
//! back. Each decoder accepts a return exactly when it has the stated
//! shape, and reports the decoded value in terms of the raw bytes.

use vstd::prelude::*;

verus! {

use crate::arith::mul256_add;
use crate::digits::{canonical_digits, dec_val};
use crate::json::copy_range;
use crate::model::Address;
use crate::normalize::{addr_word_ok, be_read, be_val, pow256, zero_prefix};

/// Decode a `uint8` return: one 32-byte word whose first 31 bytes are
/// zero padding.
pub fn decode_uint8_return(ret: &Vec<u8>) -> (r: Option<u8>)
    ensures
        match r {
            Some(x) => {
                &&& ret@.len() >= 32
                &&& (forall|k: int| 0 <= k < 31 ==> #[trigger] ret@[k] == 0)
                &&& x == ret@[31]
            },
            None => !(ret@.len() >= 32 && (forall|k: int|
                0 <= k < 31 ==> #[trigger] ret@[k] == 0)),
        },
{
    if ret.len() < 32 {
        return None;
    }
    if !zero_prefix(ret, 0, 31) {
        return None;
    }
    Some(ret[31])
}

/// Decode an `address` return: one 32-byte word, 12 zero bytes of padding
/// then the 20 address bytes.
pub fn decode_address_return(ret: &Vec<u8>) -> (r: Option<Address>)
    ensures
        match r {
            Some(a) => {
                &&& ret@.len() >= 32
                &&& addr_word_ok(ret@.subrange(0, 32))
                &&& a.wf()
                &&& a@ == ret@.subrange(12, 32)
            },
            None => !(ret@.len() >= 32 && addr_word_ok(ret@.subrange(0, 32))),
        },
{
    if ret.len() < 32 {
        return None;
    }
    if !zero_prefix(ret, 0, 12) {
        proof {
            if addr_word_ok(ret@.subrange(0, 32)) {
                assert forall|k: int| 0 <= k < 12 implies #[trigger] ret@[k] == 0 by {
                    assert(ret@.subrange(0, 32)[k] == ret@[k]);
                }
            }
        }
        return None;
    }
    let bytes = copy_range(ret, 12, 32);
    proof {
        assert forall|k: int| 0 <= k < 12 implies #[trigger] ret@.subrange(0, 32)[k] == 0 by {
            assert(ret@.subrange(0, 32)[k] == ret@[k]);
        }
    }
    Some(Address { bytes })
}

/// Decode a `uint256` return into its exact decimal digit string.
pub fn decode_uint256_return_decimal(ret: &Vec<u8>) -> (r: Option<Vec<u8>>)
    ensures
        match r {
            Some(d) => {
                &&& ret@.len() >= 32
                &&& canonical_digits(d@)
                &&& dec_val(d@) == be_val(ret@.subrange(0, 32))
            },
            None => ret@.len() < 32,
        },
{
    if ret.len() < 32 {
        return None;
    }
    let mut acc: Vec<u8> = Vec::new();
    acc.push(48);
    proof {
        assert(acc@ =~= seq![48u8]);
        crate::arith::lemma_dec_val_singleton(48);
        assert(ret@.subrange(0, 0) =~= Seq::<u8>::empty());
        assert(be_val(Seq::<u8>::empty()) == 0);
    }
    let mut k: usize = 0;
    while k < 32
        invariant
            k <= 32,
            ret@.len() >= 32,
            canonical_digits(acc@),
            dec_val(acc@) == be_val(ret@.subrange(0, k as int)),
        decreases 32 - k,
    {
        let byte = ret[k];
        proof {
            assert(ret@.subrange(0, k + 1).drop_last() =~= ret@.subrange(0, k as int));
            assert(ret@.subrange(0, k + 1).last() == ret@[k as int]);
        }
        acc = mul256_add(&acc, byte);
        k = k + 1;
    }
    Some(acc)
}

/// The shape of an ABI `string` return: an offset word, a length word at
/// the offset, then the string bytes, all within the return data. The
/// two words must fit the return's own length, so their upper padding is
/// zero.
pub open spec fn abi_string_shape(ret: Seq<u8>) -> bool {
    let off = be_val(ret.subrange(24, 32)) as int;
    &&& ret.len() >= 64
    &&& (forall|k: int| 0 <= k < 24 ==> #[trigger] ret[k] == 0)
    &&& off + 32 <= ret.len()
    &&& (forall|k: int| off <= k < off + 24 ==> #[trigger] ret[k] == 0)
    &&& off + 32 + be_val(ret.subrange(off + 24, off + 32)) <= ret.len()
}

/// The string bytes an ABI `string` return carries.
pub open spec fn abi_string_content(ret: Seq<u8>) -> Seq<u8>
    recommends
        abi_string_shape(ret),
{
    let off = be_val(ret.subrange(24, 32)) as int;
    let n = be_val(ret.subrange(off + 24, off + 32)) as int;
    ret.subrange(off + 32, off + 32 + n)
}

/// Decode a `string` return: offset word, length word, bytes.
pub fn decode_string_return(ret: &Vec<u8>) -> (r: Option<Vec<u8>>)
    ensures
        match r {
            Some(s) => abi_string_shape(ret@) && s@ == abi_string_content(ret@),
            None => !abi_string_shape(ret@),
        },
{
    let total = ret.len();
    if total < 64 {
        return None;
    }
    if !zero_prefix(ret, 0, 24) {
        return None;
    }
    let off128 = be_read(ret, 24, 8);
    proof {
        assert(pow256(8) == 0x1_0000_0000_0000_0000) by {
            reveal_with_fuel(pow256, 9);
        }
    }
    if off128 + 32 > total as u128 {
        return None;
    }
    let off = off128 as usize;
    if !zero_prefix(ret, off, 24) {
        return None;
    }
    let n128 = be_read(ret, off + 24, 8);
    if off128 + 32 + n128 > total as u128 {
        return None;
    }
    let n = n128 as usize;
    let s = copy_range(ret, off + 32, off + 32 + n);
    Some(s)
}

} // verus!

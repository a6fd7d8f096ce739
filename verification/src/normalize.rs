//! The event normalizer: canonicalize raw chain log entries into
//! `PairCreated` or `Sync` events with a stable field set. A log whose
//! signature topic matches neither event, or whose payload is not the
//! well-formed ABI shape of the matched event, is a decode failure: such
//! logs are dropped, never retried, because the same bytes can never
//! decode differently. Missing block metadata defaults to zero rather
//! than failing.

use vstd::prelude::*;

verus! {

use crate::json::copy_range;
use crate::model::{
    Address, PairCreatedEvent, PairCreatedEventV, RESERVE_LIMIT, SyncEvent, SyncEventV, TxHash,
    addr_wf, hash_wf,
};

/// The event-signature topic of `PairCreated(address,address,uint256)`.
pub open spec fn pair_created_topic() -> Seq<u8> {
    seq![13u8, 54, 72, 189, 15, 107, 168, 1, 52, 163, 59, 169, 39, 90, 197, 133, 217, 211, 21, 240, 173, 131, 85, 205, 222, 253, 227, 26, 250, 40, 208, 233]
}

pub fn vec_pair_created_topic() -> (v: Vec<u8>)
    ensures
        v@ == pair_created_topic(),
{
    let mut v: Vec<u8> = Vec::new();
    v.push(13);
    v.push(54);
    v.push(72);
    v.push(189);
    v.push(15);
    v.push(107);
    v.push(168);
    v.push(1);
    v.push(52);
    v.push(163);
    v.push(59);
    v.push(169);
    v.push(39);
    v.push(90);
    v.push(197);
    v.push(133);
    v.push(217);
    v.push(211);
    v.push(21);
    v.push(240);
    v.push(173);
    v.push(131);
    v.push(85);
    v.push(205);
    v.push(222);
    v.push(253);
    v.push(227);
    v.push(26);
    v.push(250);
    v.push(40);
    v.push(208);
    v.push(233);
    proof {
        assert(v@ =~= pair_created_topic());
    }
    v
}

/// The event-signature topic of `Sync(uint112,uint112)`.
pub open spec fn sync_topic() -> Seq<u8> {
    seq![28u8, 65, 30, 154, 150, 224, 113, 36, 28, 47, 33, 247, 114, 107, 23, 174, 137, 227, 202, 180, 199, 139, 229, 14, 6, 43, 3, 169, 255, 251, 186, 209]
}

pub fn vec_sync_topic() -> (v: Vec<u8>)
    ensures
        v@ == sync_topic(),
{
    let mut v: Vec<u8> = Vec::new();
    v.push(28);
    v.push(65);
    v.push(30);
    v.push(154);
    v.push(150);
    v.push(224);
    v.push(113);
    v.push(36);
    v.push(28);
    v.push(47);
    v.push(33);
    v.push(247);
    v.push(114);
    v.push(107);
    v.push(23);
    v.push(174);
    v.push(137);
    v.push(227);
    v.push(202);
    v.push(180);
    v.push(199);
    v.push(139);
    v.push(229);
    v.push(14);
    v.push(6);
    v.push(43);
    v.push(3);
    v.push(169);
    v.push(255);
    v.push(251);
    v.push(186);
    v.push(209);
    proof {
        assert(v@ =~= sync_topic());
    }
    v
}

/// A raw log entry as the chain client delivers it: the emitting contract,
/// the indexed topics (32 bytes each), the data payload, and block
/// metadata that may still be missing for a log not yet in a block.
pub struct RawLog {
    pub address: Address,
    pub topics: Vec<Vec<u8>>,
    pub data: Vec<u8>,
    pub transaction_hash: Option<TxHash>,
    pub block_number: Option<u64>,
    pub block_timestamp: Option<u64>,
}

/// Mathematical image of a `RawLog`.
pub struct RawLogV {
    pub address: Seq<u8>,
    pub topics: Seq<Seq<u8>>,
    pub data: Seq<u8>,
    pub transaction_hash: Option<Seq<u8>>,
    pub block_number: Option<u64>,
    pub block_timestamp: Option<u64>,
}

impl View for RawLog {
    type V = RawLogV;

    open spec fn view(&self) -> RawLogV {
        RawLogV {
            address: self.address@,
            topics: self.topics.deep_view(),
            data: self.data@,
            transaction_hash: match self.transaction_hash {
                Some(h) => Some(h@),
                None => None,
            },
            block_number: self.block_number,
            block_timestamp: self.block_timestamp,
        }
    }
}

pub open spec fn raw_log_wf(l: RawLogV) -> bool {
    &&& addr_wf(l.address)
    &&& forall|i: int| 0 <= i < l.topics.len() ==> (#[trigger] l.topics[i]).len() == 32
    &&& match l.transaction_hash {
        Some(h) => hash_wf(h),
        None => true,
    }
}

impl RawLog {
    pub open spec fn wf(&self) -> bool {
        raw_log_wf(self@)
    }
}

/// The all-zero hash used when a log carries no transaction hash yet.
pub open spec fn zero_hash() -> Seq<u8> {
    Seq::new(32, |i: int| 0u8)
}

pub open spec fn default_hash(o: Option<Seq<u8>>) -> Seq<u8> {
    match o {
        Some(h) => h,
        None => zero_hash(),
    }
}

pub open spec fn default_u64(o: Option<u64>) -> u64 {
    match o {
        Some(n) => n,
        None => 0,
    }
}

/// An indexed-address topic or address word: 12 zero bytes of padding,
/// then the 20 address bytes.
pub open spec fn addr_word_ok(w: Seq<u8>) -> bool {
    w.len() == 32 && forall|k: int| 0 <= k < 12 ==> #[trigger] w[k] == 0
}

/// Big-endian value of a byte string.
pub open spec fn be_val(s: Seq<u8>) -> nat
    decreases s.len(),
{
    if s.len() == 0 {
        0
    } else {
        be_val(s.drop_last()) * 256 + s.last() as nat
    }
}

pub open spec fn pow256(e: nat) -> nat
    decreases e,
{
    if e == 0 {
        1
    } else {
        256 * pow256((e - 1) as nat)
    }
}

/// A 14-byte big-endian value fits the 112-bit reserve range exactly.
pub proof fn lemma_pow256_14()
    ensures
        pow256(14) == RESERVE_LIMIT,
{
    reveal_with_fuel(pow256, 15);
}

/// Does the window at `i` carry only zero bytes for `count` positions?
pub(crate) fn zero_prefix(b: &Vec<u8>, i: usize, count: usize) -> (r: bool)
    requires
        i + count <= b@.len(),
        i + count <= usize::MAX,
    ensures
        r == (forall|k: int| i <= k < i + count ==> #[trigger] b@[k] == 0),
{
    let mut k: usize = 0;
    while k < count
        invariant
            k <= count,
            i + count <= b@.len(),
            i + count <= usize::MAX,
            forall|t: int| i <= t < i + k ==> #[trigger] b@[t] == 0,
        decreases count - k,
    {
        if b[i + k] != 0 {
            return false;
        }
        k = k + 1;
    }
    true
}

/// Read a big-endian value of `count` bytes at `i`.
#[verifier::rlimit(100)]
pub(crate) fn be_read(b: &Vec<u8>, i: usize, count: usize) -> (r: u128)
    requires
        i + count <= b@.len(),
        i + count <= usize::MAX,
        count <= 16,
    ensures
        r as nat == be_val(b@.subrange(i as int, i + count)),
        (r as nat) < pow256(count as nat),
{
    proof {
        reveal_with_fuel(pow256, 17);
    }
    let mut acc: u128 = 0;
    let mut k: usize = 0;
    proof {
        assert(b@.subrange(i as int, i as int) =~= Seq::<u8>::empty());
    }
    while k < count
        invariant
            k <= count,
            count <= 16,
            i + count <= b@.len(),
            i + count <= usize::MAX,
            acc as nat == be_val(b@.subrange(i as int, i + k)),
            (acc as nat) < pow256(k as nat),
        decreases count - k,
    {
        let d = b[i + k];
        proof {
            assert(b@.subrange(i as int, i + k + 1).drop_last() =~= b@.subrange(i as int, i + k));
            assert(b@.subrange(i as int, i + k + 1).last() == b@[i + k]);
            assert(pow256((k + 1) as nat) == 256 * pow256(k as nat));
            assert(acc as nat * 256 + 255 < pow256((k + 1) as nat)) by (nonlinear_arith)
                requires
                    (acc as nat) < pow256(k as nat),
                    pow256((k + 1) as nat) == 256 * pow256(k as nat),
            ;
            assert(pow256((k + 1) as nat) <= pow256(16)) by {
                lemma_pow256_increases((k + 1) as nat, 16);
            }
            assert(pow256(16) == 0x1_0000_0000_0000_0000_0000_0000_0000_0000) by {
                reveal_with_fuel(pow256, 17);
            }
        }
        acc = acc * 256 + d as u128;
        k = k + 1;
    }
    acc
}

pub proof fn lemma_pow256_increases(a: nat, b: nat)
    requires
        a <= b,
    ensures
        pow256(a) <= pow256(b),
    decreases b,
{
    if a < b && b > 0 {
        lemma_pow256_increases(a, (b - 1) as nat);
        assert(pow256(b) == 256 * pow256((b - 1) as nat));
        assert(pow256((b - 1) as nat) <= 256 * pow256((b - 1) as nat)) by (nonlinear_arith)
            requires
                pow256((b - 1) as nat) >= 0,
        ;
    }
}

/// The shape of a decodable `PairCreated` log.
pub open spec fn is_pair_created_log(l: RawLogV) -> bool {
    &&& l.topics.len() == 3
    &&& l.topics[0] == pair_created_topic()
    &&& addr_word_ok(l.topics[1])
    &&& addr_word_ok(l.topics[2])
    &&& l.data.len() == 64
    &&& addr_word_ok(l.data.subrange(0, 32))
}

/// The shape of a decodable `Sync` log.
pub open spec fn is_sync_log(l: RawLogV) -> bool {
    &&& l.topics.len() == 1
    &&& l.topics[0] == sync_topic()
    &&& l.data.len() == 64
    &&& (forall|k: int| 0 <= k < 18 ==> #[trigger] l.data[k] == 0)
    &&& (forall|k: int| 32 <= k < 50 ==> #[trigger] l.data[k] == 0)
}

/// One normalized chain event.
pub enum ChainEvent {
    PairCreated(PairCreatedEvent),
    Sync(SyncEvent),
}

/// Normalize a raw log entry. A `PairCreated`-shaped log gives a
/// `PairCreated` event, a `Sync`-shaped log a `Sync` event; anything else
/// is a decode failure and yields nothing. Missing block metadata
/// defaults to zero.
pub fn decode_log(l: &RawLog) -> (r: Option<ChainEvent>)
    requires
        l.wf(),
    ensures
        match r {
            Some(ChainEvent::PairCreated(e)) => {
                &&& is_pair_created_log(l@)
                &&& e.wf()
                &&& e@.pair == l@.data.subrange(12, 32)
                &&& e@.token0 == l@.topics[1].subrange(12, 32)
                &&& e@.token1 == l@.topics[2].subrange(12, 32)
                &&& e@.transaction_hash == default_hash(l@.transaction_hash)
                &&& e@.block_number == default_u64(l@.block_number)
                &&& e@.block_timestamp == default_u64(l@.block_timestamp)
            },
            Some(ChainEvent::Sync(e)) => {
                &&& is_sync_log(l@)
                &&& e.wf()
                &&& e@.pair == l@.address
                &&& e@.reserve0 as nat == be_val(l@.data.subrange(18, 32))
                &&& e@.reserve1 as nat == be_val(l@.data.subrange(50, 64))
                &&& e@.transaction_hash == default_hash(l@.transaction_hash)
                &&& e@.block_number == default_u64(l@.block_number)
                &&& e@.block_timestamp == default_u64(l@.block_timestamp)
            },
            None => !is_pair_created_log(l@) && !is_sync_log(l@),
        },
{
    let tx_hash = match &l.transaction_hash {
        Some(h) => h.dup(),
        None => TxHash::zeroed(),
    };
    let block_number = match l.block_number {
        Some(n) => n,
        None => 0,
    };
    let block_timestamp = match l.block_timestamp {
        Some(n) => n,
        None => 0,
    };
    if l.topics.len() == 3 {
        let t_pc = vec_pair_created_topic();
        if !crate::model::bytes_eq(&l.topics[0], &t_pc) {
            proof {
                assert(l@.topics[0] == l.topics@[0]@);
            }
            return None;
        }
        proof {
            assert(l@.topics[0] == l.topics@[0]@);
            assert(l@.topics[1] == l.topics@[1]@);
            assert(l@.topics[2] == l.topics@[2]@);
        }
        if l.data.len() != 64 {
            return None;
        }
        let w1_ok = zero_prefix(&l.topics[1], 0, 12);
        let w2_ok = zero_prefix(&l.topics[2], 0, 12);
        let wd_ok = zero_prefix(&l.data, 0, 12);
        if !w1_ok || !w2_ok || !wd_ok {
            proof {
                if is_pair_created_log(l@) {
                    assert(addr_word_ok(l@.data.subrange(0, 32)));
                    assert forall|k: int| 0 <= k < 12 implies #[trigger] l@.data[k] == 0 by {
                        assert(l@.data.subrange(0, 32)[k] == l@.data[k]);
                    }
                    assert(false);
                }
            }
            return None;
        }
        let pair_bytes = copy_range(&l.data, 12, 32);
        let t0_bytes = copy_range(&l.topics[1], 12, 32);
        let t1_bytes = copy_range(&l.topics[2], 12, 32);
        let e = PairCreatedEvent {
            pair: Address { bytes: pair_bytes },
            token0: Address { bytes: t0_bytes },
            token1: Address { bytes: t1_bytes },
            transaction_hash: tx_hash,
            block_number,
            block_timestamp,
        };
        proof {
            assert(is_pair_created_log(l@)) by {
                assert forall|k: int| 0 <= k < 12 implies #[trigger] l@.data.subrange(0, 32)[k]
                    == 0 by {
                    assert(l@.data.subrange(0, 32)[k] == l@.data[k]);
                }
            }
        }
        return Some(ChainEvent::PairCreated(e));
    }
    if l.topics.len() == 1 {
        let t_sy = vec_sync_topic();
        if !crate::model::bytes_eq(&l.topics[0], &t_sy) {
            proof {
                assert(l@.topics[0] == l.topics@[0]@);
            }
            return None;
        }
        proof {
            assert(l@.topics[0] == l.topics@[0]@);
        }
        if l.data.len() != 64 {
            return None;
        }
        let z0_ok = zero_prefix(&l.data, 0, 18);
        let z1_ok = zero_prefix(&l.data, 32, 18);
        if !z0_ok || !z1_ok {
            return None;
        }
        let r0 = be_read(&l.data, 18, 14);
        let r1 = be_read(&l.data, 50, 14);
        proof {
            lemma_pow256_14();
        }
        let e = SyncEvent {
            pair: l.address.dup(),
            reserve0: r0,
            reserve1: r1,
            transaction_hash: tx_hash,
            block_number,
            block_timestamp,
        };
        return Some(ChainEvent::Sync(e));
    }
    None
}

} // verus!

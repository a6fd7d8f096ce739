//! Canonical data model of the pipeline: addresses, transaction hashes,
//! token metadata, pairs, the two chain events, and the price tick record.
//!
//! Byte-oriented fields are plain byte vectors: an address is its 20 raw
//! bytes, a hash its 32 raw bytes, a symbol its UTF-8 bytes, and wide
//! integers (total supply, computed ratios) are canonical decimal digit
//! strings, so every field is exact and directly checkable.

use vstd::prelude::*;

verus! {

use crate::digits::canonical_digits;

/// Reserves are 112-bit on chain; this is the first value that does not fit.
pub const RESERVE_LIMIT: u128 = 0x1_0000_0000_0000_0000_0000_0000_0000;

/// A 256-bit total supply needs at most this many decimal digits.
pub const SUPPLY_DIGITS_MAX: usize = 78;

/// A 20-byte account address.
#[derive(Debug, PartialEq, Eq)]
pub struct Address {
    pub bytes: Vec<u8>,
}

impl View for Address {
    type V = Seq<u8>;

    open spec fn view(&self) -> Seq<u8> {
        self.bytes@
    }
}

pub open spec fn addr_wf(a: Seq<u8>) -> bool {
    a.len() == 20
}

impl Address {
    pub open spec fn wf(&self) -> bool {
        addr_wf(self@)
    }

    /// Accepts exactly 20 bytes.
    pub fn new(bytes: Vec<u8>) -> (r: Option<Address>)
        ensures
            match r {
                Some(a) => a@ == bytes@ && a.wf(),
                None => !addr_wf(bytes@),
            },
    {
        if bytes.len() == 20 {
            Some(Address { bytes })
        } else {
            None
        }
    }

    pub fn dup(&self) -> (r: Address)
        ensures
            r@ == self@,
    {
        Address { bytes: clone_bytes(&self.bytes) }
    }
}

/// A 32-byte transaction hash.
#[derive(Debug, PartialEq, Eq)]
pub struct TxHash {
    pub bytes: Vec<u8>,
}

impl View for TxHash {
    type V = Seq<u8>;

    open spec fn view(&self) -> Seq<u8> {
        self.bytes@
    }
}

pub open spec fn hash_wf(h: Seq<u8>) -> bool {
    h.len() == 32
}

impl TxHash {
    pub open spec fn wf(&self) -> bool {
        hash_wf(self@)
    }

    /// Accepts exactly 32 bytes.
    pub fn new(bytes: Vec<u8>) -> (r: Option<TxHash>)
        ensures
            match r {
                Some(h) => h@ == bytes@ && h.wf(),
                None => !hash_wf(bytes@),
            },
    {
        if bytes.len() == 32 {
            Some(TxHash { bytes })
        } else {
            None
        }
    }

    /// The all-zero hash, the default when a log carries no hash yet.
    pub fn zeroed() -> (r: TxHash)
        ensures
            r.wf(),
            r@ =~= Seq::new(32, |i: int| 0u8),
    {
        let mut bytes: Vec<u8> = Vec::new();
        let mut i: usize = 0;
        while i < 32
            invariant
                i <= 32,
                bytes@ =~= Seq::new(i as nat, |j: int| 0u8),
            decreases 32 - i,
        {
            bytes.push(0);
            proof {
                assert(bytes@ =~= Seq::new((i + 1) as nat, |j: int| 0u8));
            }
            i = i + 1;
        }
        TxHash { bytes }
    }

    pub fn dup(&self) -> (r: TxHash)
        ensures
            r@ == self@,
    {
        TxHash { bytes: clone_bytes(&self.bytes) }
    }
}

/// A symbol byte the canonical payload encoding can carry verbatim inside a
/// quoted string: no control bytes, no quote, no backslash.
pub open spec fn symbol_byte_ok(b: u8) -> bool {
    b >= 0x20 && b != 0x22 && b != 0x5c
}

pub open spec fn symbol_wf(s: Seq<u8>) -> bool {
    forall|i: int| 0 <= i < s.len() ==> symbol_byte_ok(#[trigger] s[i])
}

/// `s` with every byte the encoding cannot carry dropped. The canonical
/// quoted-string form carries symbol bytes verbatim, so quotes,
/// backslashes, and control bytes cannot appear in a stored symbol; they
/// are removed once, here, when the token is first assembled. The codec
/// then round-trips the stored symbol byte-for-byte.
pub open spec fn sanitize_symbol(s: Seq<u8>) -> Seq<u8>
    decreases s.len(),
{
    if s.len() == 0 {
        Seq::empty()
    } else {
        let r = sanitize_symbol(s.drop_last());
        if symbol_byte_ok(s.last()) {
            r.push(s.last())
        } else {
            r
        }
    }
}

pub proof fn lemma_sanitize_symbol_wf(s: Seq<u8>)
    ensures
        symbol_wf(sanitize_symbol(s)),
        symbol_wf(s) ==> sanitize_symbol(s) == s,
    decreases s.len(),
{
    if s.len() > 0 {
        lemma_sanitize_symbol_wf(s.drop_last());
        if symbol_wf(s) {
            assert(symbol_wf(s.drop_last()));
            assert(sanitize_symbol(s) =~= s);
        }
    }
}

/// Drop every byte of `v` that a symbol cannot carry.
pub fn sanitize_symbol_bytes(v: &Vec<u8>) -> (r: Vec<u8>)
    ensures
        r@ == sanitize_symbol(v@),
        symbol_wf(r@),
{
    let n = v.len();
    let mut r: Vec<u8> = Vec::new();
    let mut i: usize = 0;
    proof {
        assert(v@.subrange(0, 0) =~= Seq::<u8>::empty());
    }
    while i < n
        invariant
            i <= n,
            n == v.len(),
            r@ == sanitize_symbol(v@.subrange(0, i as int)),
        decreases n - i,
    {
        let b = v[i];
        proof {
            assert(v@.subrange(0, i + 1).drop_last() =~= v@.subrange(0, i as int));
            assert(v@.subrange(0, i + 1).last() == v@[i as int]);
        }
        if b >= 0x20 && b != 0x22 && b != 0x5c {
            r.push(b);
        }
        i = i + 1;
    }
    proof {
        assert(v@.subrange(0, n as int) =~= v@);
        lemma_sanitize_symbol_wf(v@);
    }
    r
}

/// Static metadata of one token.
#[derive(Debug, PartialEq, Eq)]
pub struct Token {
    pub address: Address,
    pub decimals: u8,
    pub symbol: Vec<u8>,
    pub total_supply: Vec<u8>,
}

/// Mathematical image of a `Token`.
pub struct TokenV {
    pub address: Seq<u8>,
    pub decimals: u8,
    pub symbol: Seq<u8>,
    pub total_supply: Seq<u8>,
}

impl View for Token {
    type V = TokenV;

    open spec fn view(&self) -> TokenV {
        TokenV {
            address: self.address@,
            decimals: self.decimals,
            symbol: self.symbol@,
            total_supply: self.total_supply@,
        }
    }
}

pub open spec fn token_wf(t: TokenV) -> bool {
    &&& addr_wf(t.address)
    &&& symbol_wf(t.symbol)
    &&& canonical_digits(t.total_supply)
    &&& t.total_supply.len() <= SUPPLY_DIGITS_MAX as int
}

impl Token {
    pub open spec fn wf(&self) -> bool {
        token_wf(self@)
    }

    /// Combine the three independent chain reads into one record. The
    /// symbol is sanitized; the supply must be a canonical decimal digit
    /// string of a 256-bit-sized value.
    pub fn new(address: Address, decimals: u8, symbol: Vec<u8>, total_supply: Vec<u8>) -> (r:
        Option<Token>)
        requires
            address.wf(),
        ensures
            match r {
                Some(t) => {
                    &&& t.wf()
                    &&& t@.address == address@
                    &&& t@.decimals == decimals
                    &&& t@.symbol == sanitize_symbol(symbol@)
                    &&& t@.total_supply == total_supply@
                },
                None => !(canonical_digits(total_supply@) && total_supply@.len()
                    <= SUPPLY_DIGITS_MAX as int),
            },
    {
        if !crate::arith::is_canonical_digits(&total_supply) {
            return None;
        }
        if total_supply.len() > SUPPLY_DIGITS_MAX {
            return None;
        }
        let symbol = sanitize_symbol_bytes(&symbol);
        Some(Token { address, decimals, symbol, total_supply })
    }

    pub fn dup(&self) -> (r: Token)
        ensures
            r@ == self@,
    {
        Token {
            address: self.address.dup(),
            decimals: self.decimals,
            symbol: clone_bytes(&self.symbol),
            total_supply: clone_bytes(&self.total_supply),
        }
    }
}

/// A liquidity pool with its two resolved tokens.
#[derive(Debug, PartialEq, Eq)]
pub struct Pair {
    pub address: Address,
    pub token0: Token,
    pub token1: Token,
}

/// Mathematical image of a `Pair`.
pub struct PairV {
    pub address: Seq<u8>,
    pub token0: TokenV,
    pub token1: TokenV,
}

impl View for Pair {
    type V = PairV;

    open spec fn view(&self) -> PairV {
        PairV { address: self.address@, token0: self.token0@, token1: self.token1@ }
    }
}

pub open spec fn pair_wf(p: PairV) -> bool {
    &&& addr_wf(p.address)
    &&& token_wf(p.token0)
    &&& token_wf(p.token1)
}

impl Pair {
    pub open spec fn wf(&self) -> bool {
        pair_wf(self@)
    }

    pub fn dup(&self) -> (r: Pair)
        ensures
            r@ == self@,
    {
        Pair { address: self.address.dup(), token0: self.token0.dup(), token1: self.token1.dup() }
    }
}

/// Decoded `PairCreated` event data.
#[derive(Debug, PartialEq, Eq)]
pub struct PairCreatedEvent {
    pub pair: Address,
    pub token0: Address,
    pub token1: Address,
    pub transaction_hash: TxHash,
    pub block_number: u64,
    pub block_timestamp: u64,
}

/// Mathematical image of a `PairCreatedEvent`.
pub struct PairCreatedEventV {
    pub pair: Seq<u8>,
    pub token0: Seq<u8>,
    pub token1: Seq<u8>,
    pub transaction_hash: Seq<u8>,
    pub block_number: u64,
    pub block_timestamp: u64,
}

impl View for PairCreatedEvent {
    type V = PairCreatedEventV;

    open spec fn view(&self) -> PairCreatedEventV {
        PairCreatedEventV {
            pair: self.pair@,
            token0: self.token0@,
            token1: self.token1@,
            transaction_hash: self.transaction_hash@,
            block_number: self.block_number,
            block_timestamp: self.block_timestamp,
        }
    }
}

pub open spec fn pair_created_wf(e: PairCreatedEventV) -> bool {
    &&& addr_wf(e.pair)
    &&& addr_wf(e.token0)
    &&& addr_wf(e.token1)
    &&& hash_wf(e.transaction_hash)
}

impl PairCreatedEvent {
    pub open spec fn wf(&self) -> bool {
        pair_created_wf(self@)
    }
}

/// Decoded `Sync` event data.
#[derive(Debug, PartialEq, Eq)]
pub struct SyncEvent {
    pub pair: Address,
    pub reserve0: u128,
    pub reserve1: u128,
    pub transaction_hash: TxHash,
    pub block_number: u64,
    pub block_timestamp: u64,
}

/// Mathematical image of a `SyncEvent`.
pub struct SyncEventV {
    pub pair: Seq<u8>,
    pub reserve0: u128,
    pub reserve1: u128,
    pub transaction_hash: Seq<u8>,
    pub block_number: u64,
    pub block_timestamp: u64,
}

impl View for SyncEvent {
    type V = SyncEventV;

    open spec fn view(&self) -> SyncEventV {
        SyncEventV {
            pair: self.pair@,
            reserve0: self.reserve0,
            reserve1: self.reserve1,
            transaction_hash: self.transaction_hash@,
            block_number: self.block_number,
            block_timestamp: self.block_timestamp,
        }
    }
}

pub open spec fn sync_wf(e: SyncEventV) -> bool {
    &&& addr_wf(e.pair)
    &&& hash_wf(e.transaction_hash)
    &&& e.reserve0 < RESERVE_LIMIT
    &&& e.reserve1 < RESERVE_LIMIT
}

impl SyncEvent {
    pub open spec fn wf(&self) -> bool {
        sync_wf(self@)
    }
}

/// One computed price observation. The two exchange rates are exact,
/// 18-decimal fixed point: the stored digit string divided by 10^18 is the
/// rate. The only lossy float conversion happens outside this crate.
#[derive(Debug, PartialEq, Eq)]
pub struct PriceTick {
    pub pair_address: Address,
    pub token0_address: Address,
    pub token0_reserve: u128,
    pub token0_symbol: Vec<u8>,
    pub token1_address: Address,
    pub token1_reserve: u128,
    pub token1_symbol: Vec<u8>,
    pub token0_token1_e18: Vec<u8>,
    pub token1_token0_e18: Vec<u8>,
    pub transaction_hash: TxHash,
    pub block_number: u64,
    pub block_timestamp: u64,
}

/// Mathematical image of a `PriceTick`.
pub struct PriceTickV {
    pub pair_address: Seq<u8>,
    pub token0_address: Seq<u8>,
    pub token0_reserve: u128,
    pub token0_symbol: Seq<u8>,
    pub token1_address: Seq<u8>,
    pub token1_reserve: u128,
    pub token1_symbol: Seq<u8>,
    pub token0_token1_e18: Seq<u8>,
    pub token1_token0_e18: Seq<u8>,
    pub transaction_hash: Seq<u8>,
    pub block_number: u64,
    pub block_timestamp: u64,
}

impl View for PriceTick {
    type V = PriceTickV;

    open spec fn view(&self) -> PriceTickV {
        PriceTickV {
            pair_address: self.pair_address@,
            token0_address: self.token0_address@,
            token0_reserve: self.token0_reserve,
            token0_symbol: self.token0_symbol@,
            token1_address: self.token1_address@,
            token1_reserve: self.token1_reserve,
            token1_symbol: self.token1_symbol@,
            token0_token1_e18: self.token0_token1_e18@,
            token1_token0_e18: self.token1_token0_e18@,
            transaction_hash: self.transaction_hash@,
            block_number: self.block_number,
            block_timestamp: self.block_timestamp,
        }
    }
}

pub open spec fn tick_wf(t: PriceTickV) -> bool {
    &&& addr_wf(t.pair_address)
    &&& addr_wf(t.token0_address)
    &&& addr_wf(t.token1_address)
    &&& hash_wf(t.transaction_hash)
    &&& t.token0_reserve < RESERVE_LIMIT
    &&& t.token1_reserve < RESERVE_LIMIT
    &&& symbol_wf(t.token0_symbol)
    &&& symbol_wf(t.token1_symbol)
    &&& canonical_digits(t.token0_token1_e18)
    &&& canonical_digits(t.token1_token0_e18)
}

impl PriceTick {
    pub open spec fn wf(&self) -> bool {
        tick_wf(self@)
    }
}

/// Byte-for-byte copy, with the view preserved.
pub fn clone_bytes(v: &Vec<u8>) -> (r: Vec<u8>)
    ensures
        r@ == v@,
{
    let n = v.len();
    let mut r: Vec<u8> = Vec::new();
    let mut i: usize = 0;
    while i < n
        invariant
            i <= n,
            n == v.len(),
            r@ == v@.subrange(0, i as int),
        decreases n - i,
    {
        let b = v[i];
        r.push(b);
        proof {
            assert(r@ =~= v@.subrange(0, i + 1));
        }
        i = i + 1;
    }
    proof {
        assert(v@.subrange(0, n as int) =~= v@);
    }
    r
}

/// Byte-for-byte equality of two byte vectors.
pub fn bytes_eq(a: &Vec<u8>, b: &Vec<u8>) -> (r: bool)
    ensures
        r == (a@ == b@),
{
    let n = a.len();
    if n != b.len() {
        proof {
            assert(a@.len() != b@.len());
        }
        return false;
    }
    let mut i: usize = 0;
    while i < n
        invariant
            i <= n,
            n == a.len(),
            n == b.len(),
            forall|k: int| 0 <= k < i ==> a@[k] == b@[k],
        decreases n - i,
    {
        if a[i] != b[i] {
            return false;
        }
        i = i + 1;
    }
    proof {
        assert(a@ =~= b@);
    }
    true
}

} // verus!

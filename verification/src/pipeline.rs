//! The per-message step of each consuming service, as a pure function
//! from the message payload (and the cache or resolver results the
//! surrounding service supplies) to a disposition and the produced value.
//! The surrounding services only pull messages, perform the stated side
//! effects, and acknowledge according to the returned disposition.

use vstd::prelude::*;

verus! {

use crate::codec::{
    decode_pair_created, enc_pair_created, encode_pair_created, lemma_pair_created_enc_unique,
    no_pair_created_encoding,
};
use crate::codec_sync::{
    decode_sync, enc_sync, encode_sync, lemma_sync_enc_unique, no_sync_encoding,
};
use crate::delivery::Disposition;
use crate::digits::dec_val;
use crate::hexfmt::{addr_key, canonical_key};
use crate::model::{
    PairCreatedEventV, PriceTick, SyncEventV, Token, bytes_eq, pair_created_wf, sync_wf,
};
use crate::normalize::{
    ChainEvent, RawLog, be_val, decode_log, default_hash, default_u64, is_pair_created_log,
    is_sync_log,
};
use crate::price::{compute, inverse_e18, ratio_e18};
use crate::store::{PairStore, enriched_pair};

/// The source service's step: normalize one raw log entry and produce the
/// canonical payload for the matching topic, or nothing for a log that
/// does not decode. A dropped log is final: the same bytes can never
/// decode differently.
pub fn source_step(l: &RawLog) -> (r: Option<(ChainEvent, Vec<u8>)>)
    requires
        l.wf(),
    ensures
        match r {
            Some((ev, payload)) => match ev {
                ChainEvent::PairCreated(e) => {
                    &&& is_pair_created_log(l@)
                    &&& e.wf()
                    &&& e@.pair == l@.data.subrange(12, 32)
                    &&& e@.token0 == l@.topics[1].subrange(12, 32)
                    &&& e@.token1 == l@.topics[2].subrange(12, 32)
                    &&& e@.transaction_hash == default_hash(l@.transaction_hash)
                    &&& e@.block_number == default_u64(l@.block_number)
                    &&& e@.block_timestamp == default_u64(l@.block_timestamp)
                    &&& payload@ == enc_pair_created(e@)
                },
                ChainEvent::Sync(e) => {
                    &&& is_sync_log(l@)
                    &&& e.wf()
                    &&& e@.pair == l@.address
                    &&& e@.reserve0 as nat == be_val(l@.data.subrange(18, 32))
                    &&& e@.reserve1 as nat == be_val(l@.data.subrange(50, 64))
                    &&& e@.transaction_hash == default_hash(l@.transaction_hash)
                    &&& e@.block_number == default_u64(l@.block_number)
                    &&& e@.block_timestamp == default_u64(l@.block_timestamp)
                    &&& payload@ == enc_sync(e@)
                },
            },
            None => !is_pair_created_log(l@) && !is_sync_log(l@),
        },
{
    match decode_log(l) {
        None => None,
        Some(ChainEvent::PairCreated(e)) => {
            let payload = encode_pair_created(&e);
            Some((ChainEvent::PairCreated(e), payload))
        },
        Some(ChainEvent::Sync(e)) => {
            let payload = encode_sync(&e);
            Some((ChainEvent::Sync(e), payload))
        },
    }
}

/// The pair-enricher's step: decode one `PairCreated` payload and join it
/// with the two concurrently resolved tokens. An undecodable payload is
/// dropped with an acknowledgment; a failed or mismatched resolution
/// leaves the cache untouched and the message unacknowledged, so the
/// broker redelivers it; a successful resolution stores the enriched pair
/// and acknowledges.
#[verifier::rlimit(100)]
pub fn enricher_step(
    store: &mut PairStore,
    payload: &Vec<u8>,
    resolved: Option<(Token, Token)>,
) -> (d: Disposition)
    requires
        old(store).wf(),
        (match resolved {
            Some((t0, t1)) => t0.wf() && t1.wf(),
            None => true,
        }),
    ensures
        final(store).wf(),
        no_pair_created_encoding(payload@) ==> (d is Ack && final(store)@ == old(store)@),
        forall|e: PairCreatedEventV|
            pair_created_wf(e) && payload@ == enc_pair_created(e) ==> (match resolved {
                Some((t0, t1)) => {
                    if t0@.address == e.token0 && t1@.address == e.token1 {
                        d is Ack && final(store)@ == old(store)@.insert(
                            addr_key(e.pair),
                            enriched_pair(e, t0@, t1@),
                        )
                    } else {
                        d is Redeliver && final(store)@ == old(store)@
                    }
                },
                None => d is Redeliver && final(store)@ == old(store)@,
            }),
{
    let decoded = match decode_pair_created(payload) {
        Some(e) => e,
        None => {
            return Disposition::Ack;
        },
    };
    proof {
        assert forall|e: PairCreatedEventV|
            pair_created_wf(e) && payload@ == enc_pair_created(e) implies e == decoded@ by {
            lemma_pair_created_enc_unique(payload@, e, decoded@);
        }
    }
    match resolved {
        None => Disposition::Redeliver,
        Some((t0, t1)) => {
            let addr_ok = bytes_eq(&t0.address.bytes, &decoded.token0.bytes) && bytes_eq(
                &t1.address.bytes,
                &decoded.token1.bytes,
            );
            if addr_ok {
                store.enrich(&decoded, t0, t1);
                Disposition::Ack
            } else {
                Disposition::Redeliver
            }
        },
    }
}

/// The price-injector's step: decode one `Sync` payload, look the pair up
/// in the cache, and compute the tick. An undecodable payload is dropped
/// with an acknowledgment; a pair not yet enriched leaves the message
/// unacknowledged so redelivery retries it once enrichment has caught up;
/// a zero first reserve is acknowledged without a tick; otherwise the
/// computed tick is produced and the message acknowledged.
#[verifier::rlimit(100)]
pub fn injector_step(store: &PairStore, payload: &Vec<u8>) -> (r: (Disposition, Option<PriceTick>))
    requires
        store.wf(),
    ensures
        no_sync_encoding(payload@) ==> (r.0 is Ack && r.1 is None),
        forall|e: SyncEventV|
            sync_wf(e) && payload@ == enc_sync(e) ==> ({
                let key = addr_key(e.pair);
                &&& (!store@.contains_key(key) ==> (r.0 is Redeliver && r.1 is None))
                &&& ((store@.contains_key(key) && e.reserve0 == 0) ==> (r.0 is Ack && r.1
                    is None))
                &&& ((store@.contains_key(key) && e.reserve0 != 0) ==> (r.0 is Ack
                    && (match r.1 {
                    Some(t) => {
                        &&& t.wf()
                        &&& t@.pair_address == e.pair
                        &&& t@.token0_address == store@[key].token0.address
                        &&& t@.token0_reserve == e.reserve0
                        &&& t@.token0_symbol == store@[key].token0.symbol
                        &&& t@.token1_address == store@[key].token1.address
                        &&& t@.token1_reserve == e.reserve1
                        &&& t@.token1_symbol == store@[key].token1.symbol
                        &&& dec_val(t@.token0_token1_e18) == ratio_e18(
                            e.reserve0,
                            e.reserve1,
                            store@[key].token0.decimals,
                            store@[key].token1.decimals,
                        )
                        &&& dec_val(t@.token1_token0_e18) == inverse_e18(
                            ratio_e18(
                                e.reserve0,
                                e.reserve1,
                                store@[key].token0.decimals,
                                store@[key].token1.decimals,
                            ),
                        )
                        &&& t@.transaction_hash == e.transaction_hash
                        &&& t@.block_number == e.block_number
                        &&& t@.block_timestamp == e.block_timestamp
                    },
                    None => false,
                })))
            }),
{
    let decoded = match decode_sync(payload) {
        Some(e) => e,
        None => {
            proof {
                reveal(no_sync_encoding);
            }
            return (Disposition::Ack, None);
        },
    };
    proof {
        assert(!no_sync_encoding(payload@)) by {
            reveal(no_sync_encoding);
        }
        assert forall|e: SyncEventV| sync_wf(e) && payload@ == enc_sync(e) implies e
            == decoded@ by {
            lemma_sync_enc_unique(payload@, e, decoded@);
        }
    }
    let key = canonical_key(&decoded.pair);
    let pair = match store.get(&key) {
        Some(p) => p,
        None => {
            return (Disposition::Redeliver, None);
        },
    };
    match compute(&decoded, pair) {
        None => (Disposition::Ack, None),
        Some(tick) => (Disposition::Ack, Some(tick)),
    }
}

} // verus!

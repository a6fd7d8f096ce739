//! The pair-enrichment cache: a last-writer-wins map from the canonical
//! pair-address key to the enriched `Pair` record. This is the one shared,
//! mutable resource of the pipeline; its puts are unconditional
//! overwrites, so reprocessing a delivery is harmless.

use vstd::prelude::*;

verus! {

use crate::hexfmt::{addr_key, canonical_key};
use crate::model::{Pair, PairCreatedEvent, PairCreatedEventV, PairV, Token, TokenV, pair_wf};

/// One stored record.
pub struct StoreEntry {
    pub key: Vec<u8>,
    pub value: Pair,
}

/// The enrichment cache.
pub struct PairStore {
    pub entries: Vec<StoreEntry>,
}

/// The map a sequence of entries denotes; later entries win.
pub open spec fn map_of(s: Seq<StoreEntry>) -> Map<Seq<u8>, PairV>
    decreases s.len(),
{
    if s.len() == 0 {
        Map::empty()
    } else {
        map_of(s.drop_last()).insert(s.last().key@, s.last().value@)
    }
}

impl View for PairStore {
    type V = Map<Seq<u8>, PairV>;

    open spec fn view(&self) -> Map<Seq<u8>, PairV> {
        map_of(self.entries@)
    }
}

pub open spec fn entries_wf(s: Seq<StoreEntry>) -> bool {
    &&& forall|i: int, j: int|
        0 <= i < j < s.len() ==> (#[trigger] s[i]).key@ != (#[trigger] s[j]).key@
    &&& forall|i: int| 0 <= i < s.len() ==> pair_wf((#[trigger] s[i]).value@)
}

proof fn lemma_map_of_contains(s: Seq<StoreEntry>, k: Seq<u8>)
    ensures
        map_of(s).contains_key(k) <==> exists|i: int| 0 <= i < s.len() && (#[trigger] s[i]).key@
            == k,
    decreases s.len(),
{
    if s.len() > 0 {
        lemma_map_of_contains(s.drop_last(), k);
        if s.last().key@ == k {
            assert(s[s.len() - 1].key@ == k);
        } else {
            if map_of(s).contains_key(k) {
                let i = choose|i: int| 0 <= i < s.drop_last().len() && (#[trigger] s.drop_last()[i]).key@ == k;
                assert(s[i].key@ == k);
            }
            if exists|i: int| 0 <= i < s.len() && (#[trigger] s[i]).key@ == k {
                let i = choose|i: int| 0 <= i < s.len() && (#[trigger] s[i]).key@ == k;
                assert(i < s.len() - 1);
                assert(s.drop_last()[i].key@ == k);
            }
        }
    }
}

proof fn lemma_map_of_get(s: Seq<StoreEntry>, i: int)
    requires
        entries_wf(s),
        0 <= i < s.len(),
    ensures
        map_of(s).contains_key(s[i].key@),
        map_of(s)[s[i].key@] == s[i].value@,
    decreases s.len(),
{
    if i == s.len() - 1 {
    } else {
        assert(entries_wf(s.drop_last())) by {
            assert(forall|a: int, b: int|
                0 <= a < b < s.drop_last().len() ==> (#[trigger] s.drop_last()[a]).key@ != (
                #[trigger] s.drop_last()[b]).key@);
            assert(forall|a: int|
                0 <= a < s.drop_last().len() ==> pair_wf((#[trigger] s.drop_last()[a]).value@));
        }
        lemma_map_of_get(s.drop_last(), i);
        assert(s[i].key@ != s.last().key@);
    }
}

proof fn lemma_map_of_update(s: Seq<StoreEntry>, i: int, e: StoreEntry)
    requires
        entries_wf(s),
        0 <= i < s.len(),
        e.key@ == s[i].key@,
    ensures
        map_of(s.update(i, e)) =~= map_of(s).insert(e.key@, e.value@),
    decreases s.len(),
{
    if i == s.len() - 1 {
        assert(s.update(i, e).drop_last() =~= s.drop_last());
        assert(s.update(i, e).last() == e);
    } else {
        assert(entries_wf(s.drop_last())) by {
            assert(forall|a: int, b: int|
                0 <= a < b < s.drop_last().len() ==> (#[trigger] s.drop_last()[a]).key@ != (
                #[trigger] s.drop_last()[b]).key@);
            assert(forall|a: int|
                0 <= a < s.drop_last().len() ==> pair_wf((#[trigger] s.drop_last()[a]).value@));
        }
        assert(s.update(i, e).drop_last() =~= s.drop_last().update(i, e));
        assert(s.update(i, e).last() == s.last());
        lemma_map_of_update(s.drop_last(), i, e);
        assert(e.key@ != s.last().key@);
    }
}

/// The record the enrichment step builds from an event and its two
/// resolved tokens.
pub open spec fn enriched_pair(e: PairCreatedEventV, t0: TokenV, t1: TokenV) -> PairV {
    PairV { address: e.pair, token0: t0, token1: t1 }
}

impl PairStore {
    pub open spec fn wf(&self) -> bool {
        entries_wf(self.entries@)
    }

    /// An empty cache.
    pub fn new() -> (r: PairStore)
        ensures
            r.wf(),
            r@ == Map::<Seq<u8>, PairV>::empty(),
    {
        PairStore { entries: Vec::new() }
    }

    /// Look a record up by its key.
    pub fn get(&self, key: &Vec<u8>) -> (r: Option<&Pair>)
        requires
            self.wf(),
        ensures
            match r {
                Some(p) => {
                    &&& self@.contains_key(key@)
                    &&& p@ == self@[key@]
                    &&& p.wf()
                },
                None => !self@.contains_key(key@),
            },
    {
        let n = self.entries.len();
        let mut i: usize = 0;
        while i < n
            invariant
                i <= n,
                n == self.entries.len(),
                self.wf(),
                forall|k: int| 0 <= k < i ==> (#[trigger] self.entries@[k]).key@ != key@,
            decreases n - i,
        {
            if crate::model::bytes_eq(&self.entries[i].key, &key) {
                proof {
                    lemma_map_of_get(self.entries@, i as int);
                }
                return Some(&self.entries[i].value);
            }
            i = i + 1;
        }
        proof {
            lemma_map_of_contains(self.entries@, key@);
        }
        None
    }

    /// Store a record under a key, overwriting any previous record for
    /// that key (last writer wins).
    pub fn put(&mut self, key: Vec<u8>, value: Pair)
        requires
            old(self).wf(),
            value.wf(),
        ensures
            final(self).wf(),
            final(self)@ == old(self)@.insert(key@, value@),
    {
        let n = self.entries.len();
        let mut i: usize = 0;
        while i < n
            invariant
                i <= n,
                n == self.entries.len(),
                self.wf(),
                self.entries@ == old(self).entries@,
                value.wf(),
                forall|k: int| 0 <= k < i ==> (#[trigger] self.entries@[k]).key@ != key@,
            decreases n - i,
        {
            if crate::model::bytes_eq(&self.entries[i].key, &key) {
                proof {
                    lemma_map_of_update(
                        self.entries@,
                        i as int,
                        StoreEntry { key: key, value: value },
                    );
                }
                self.entries.set(i, StoreEntry { key, value });
                proof {
                    assert(entries_wf(self.entries@)) by {
                        assert(forall|a: int, b: int|
                            0 <= a < b < self.entries@.len() ==> (
                            #[trigger] self.entries@[a]).key@ != (
                            #[trigger] self.entries@[b]).key@);
                        assert(forall|a: int|
                            0 <= a < self.entries@.len() ==> pair_wf(
                                (#[trigger] self.entries@[a]).value@,
                            ));
                    }
                }
                return ;
            }
            i = i + 1;
        }
        self.entries.push(StoreEntry { key, value });
        proof {
            assert(self.entries@.drop_last() =~= old(self).entries@);
            assert(entries_wf(self.entries@)) by {
                assert(forall|a: int, b: int|
                    0 <= a < b < self.entries@.len() ==> (#[trigger] self.entries@[a]).key@ != (
                    #[trigger] self.entries@[b]).key@);
                assert(forall|a: int|
                    0 <= a < self.entries@.len() ==> pair_wf(
                        (#[trigger] self.entries@[a]).value@,
                    ));
            }
        }
    }

    /// The enrichment step: join the two concurrently resolved tokens
    /// with the event's pair address and store the record under the
    /// pair's canonical key. Reapplying the same event and tokens puts
    /// the same record, so duplicate deliveries are safe.
    pub fn enrich(&mut self, event: &PairCreatedEvent, token0: Token, token1: Token)
        requires
            old(self).wf(),
            event.wf(),
            token0.wf(),
            token1.wf(),
            token0@.address == event@.token0,
            token1@.address == event@.token1,
        ensures
            final(self).wf(),
            final(self)@ == old(self)@.insert(
                addr_key(event@.pair),
                enriched_pair(event@, token0@, token1@),
            ),
    {
        let key = canonical_key(&event.pair);
        let pair = Pair { address: event.pair.dup(), token0, token1 };
        self.put(key, pair);
    }

    /// Bootstrap seeding: store an already-assembled record fetched for a
    /// statically configured pair address.
    pub fn seed(&mut self, pair: Pair)
        requires
            old(self).wf(),
            pair.wf(),
        ensures
            final(self).wf(),
            final(self)@ == old(self)@.insert(addr_key(pair@.address), pair@),
    {
        let key = canonical_key(&pair.address);
        self.put(key, pair);
    }
}

/// Enrichment round trip: after enriching, the cache serves, under the
/// event's pair key, a record whose address is the event's pair and whose
/// token addresses are the event's `token0` and `token1`.
pub proof fn lemma_enrich_round_trip(
    m: Map<Seq<u8>, PairV>,
    e: PairCreatedEventV,
    t0: TokenV,
    t1: TokenV,
)
    requires
        t0.address == e.token0,
        t1.address == e.token1,
    ensures
        ({
            let m2 = m.insert(addr_key(e.pair), enriched_pair(e, t0, t1));
            &&& m2.contains_key(addr_key(e.pair))
            &&& m2[addr_key(e.pair)].address == e.pair
            &&& m2[addr_key(e.pair)].token0.address == e.token0
            &&& m2[addr_key(e.pair)].token1.address == e.token1
        }),
{
}

/// Enrichment is idempotent: enriching twice with the same event and
/// resolved tokens leaves the cache exactly as enriching once does.
pub proof fn lemma_enrich_idempotent(
    m: Map<Seq<u8>, PairV>,
    e: PairCreatedEventV,
    t0: TokenV,
    t1: TokenV,
)
    ensures
        m.insert(addr_key(e.pair), enriched_pair(e, t0, t1)).insert(
            addr_key(e.pair),
            enriched_pair(e, t0, t1),
        ) == m.insert(addr_key(e.pair), enriched_pair(e, t0, t1)),
{
    assert(m.insert(addr_key(e.pair), enriched_pair(e, t0, t1)).insert(
        addr_key(e.pair),
        enriched_pair(e, t0, t1),
    ) =~= m.insert(addr_key(e.pair), enriched_pair(e, t0, t1)));
}

} // verus!

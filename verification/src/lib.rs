//! Verified core of a decentralized-exchange observation pipeline.
//!
//! The library covers the pipeline's data-integrity path: normalizing raw
//! chain log entries into canonical events, a canonical byte-level codec for
//! the queue and key-value payloads, exact decimal arithmetic for the
//! price-computation engine, the pair-enrichment cache, and the
//! acknowledge-or-redeliver delivery discipline. Everything here is plain
//! data in, plain data out; the surrounding services do the I/O.

pub mod abi;
pub mod arith;
pub mod codec;
pub mod codec_pair;
pub mod codec_sync;
pub mod codec_tick;
pub mod delivery;
pub mod digits;
pub mod hexfmt;
pub mod json;
pub mod literals;
pub mod model;
pub mod normalize;
pub mod pipeline;
pub mod price;
pub mod store;

//! A single-chain block store: entry and header codecs, a Merkle commitment,
//! proof-of-work and difficulty bookkeeping, and the ordered block-acceptance
//! pipeline over a typed key-value store.
pub mod block;
pub mod chain;
pub mod digest;
pub mod entry;
pub mod error;
pub mod float_bits;
pub mod header;
pub mod keys;
pub mod merkle;
pub mod node;
pub mod octets;
pub mod order;
pub mod signing;
pub mod store;

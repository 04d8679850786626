//! A single-node proof-of-authority blockchain core: cryptographic hashing
//! and signing, a durable hash-linked ledger of blocks and account state,
//! and a round-robin consensus engine with a FIFO mempool.

pub mod bytesutil;
pub mod types;
pub mod crypto;
pub mod codec;
pub mod ledger;
pub mod consensus;

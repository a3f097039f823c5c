//! A small proof-of-work blockchain: wallets with secp256k1 keys and Base58
//! addresses, signed transactions, Merkle-hashed blocks, a memory pool of
//! candidate chains, and the decision logic of the nodes that share them.

pub mod crypto;
pub mod util;
pub mod blockchain;
pub mod network;

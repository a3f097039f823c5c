//! Blocks and their proof-of-work mining.

use vstd::prelude::*;

use crate::blockchain::merkle::{merkle_root_spec, MerkleTree};
use crate::blockchain::transaction::{txn_encoding, Transaction, TransactionView};
use crate::crypto::sha256_spec;
use crate::util::{append_bytes, be_u128, be_value, copy_bytes, le_bytes, le_bytes_of, zero_bytes, Hashable, DIFFICULTY};

verus! {

/// A block of transactions, linked to its predecessor by `prev_hash`.
#[derive(Debug)]
pub struct Block {
    pub hash: Vec<u8>,
    pub transactions: Vec<Transaction>,
    pub prev_hash: Vec<u8>,
    pub nonce: u64,
    pub difficulty: u128,
    /// Position of the block in its chain.
    pub index: i32,
    pub timestamp: u128,
}

pub struct BlockView {
    pub hash: Seq<u8>,
    pub transactions: Seq<TransactionView>,
    pub prev_hash: Seq<u8>,
    pub nonce: u64,
    pub difficulty: u128,
    pub index: i32,
    pub timestamp: u128,
}

impl View for Block {
    type V = BlockView;

    open spec fn view(&self) -> BlockView {
        BlockView {
            hash: self.hash@,
            transactions: self.transactions@.map_values(|t: Transaction| t@),
            prev_hash: self.prev_hash@,
            nonce: self.nonce,
            difficulty: self.difficulty,
            index: self.index,
            timestamp: self.timestamp,
        }
    }
}

/// Blocks are encoded through the Merkle tree of their transactions, which
/// needs at least one transaction.
pub open spec fn block_encodable(b: BlockView) -> bool {
    1 <= b.transactions.len()
}

/// Encoding of a block: previous hash, Merkle root of the transaction
/// encodings, little-endian nonce and difficulty.
pub open spec fn block_encoding(b: BlockView) -> Seq<u8> {
    b.prev_hash + merkle_root_spec(b.transactions.map_values(|t: TransactionView| txn_encoding(t))).data
        + le_bytes(b.nonce as nat, 8) + le_bytes(b.difficulty as nat, 16)
}

/// The hash of a block's encoding.
pub open spec fn block_hash(b: BlockView) -> Seq<u8> {
    sha256_spec(block_encoding(b))
}

/// The block with another nonce.
pub open spec fn with_nonce(b: BlockView, nonce: u64) -> BlockView {
    BlockView { nonce, ..b }
}

/// Whether a hash meets a difficulty: the big-endian value of its first 16
/// bytes is below it.
pub open spec fn meets_difficulty(hash: Seq<u8>, difficulty: u128) -> bool {
    be_value(hash.subrange(0, 16)) < difficulty
}

/// Whether the block's hash, recomputed, meets its difficulty.
pub open spec fn nonce_works(b: BlockView, nonce: u64) -> bool {
    meets_difficulty(block_hash(with_nonce(b, nonce)), b.difficulty)
}

/// An unmined block: zero hash, zero nonce, the standard difficulty.
pub open spec fn new_block_spec(
    transactions: Seq<TransactionView>,
    index: i32,
    prev_hash: Seq<u8>,
    timestamp: u128,
) -> BlockView {
    BlockView {
        hash: Seq::new(32, |i: int| 0u8),
        transactions,
        prev_hash,
        nonce: 0,
        difficulty: DIFFICULTY,
        index,
        timestamp,
    }
}

/// What mining does to a block: the least nonce whose hash meets the
/// difficulty (or the last nonce tried, `u64::MAX - 1`, when none does),
/// with the hash of the block under that nonce.
pub open spec fn mined(before: BlockView, after: BlockView) -> bool {
    &&& after == (BlockView { nonce: after.nonce, hash: after.hash, ..before })
    &&& after.hash == block_hash(after)
    &&& after.nonce < u64::MAX
    &&& forall|m: u64| m < after.nonce ==> !#[trigger] nonce_works(before, m)
    &&& nonce_works(before, after.nonce) || after.nonce == u64::MAX - 1
}

/// A copy of a vector of transactions.
pub fn duplicate_transactions(transactions: &Vec<Transaction>) -> (copy: Vec<Transaction>)
    ensures
        copy@.map_values(|t: Transaction| t@) == transactions@.map_values(|t: Transaction| t@),
{
    let mut copy: Vec<Transaction> = Vec::new();
    let mut i: usize = 0;
    while i < transactions.len()
        invariant
            i <= transactions@.len(),
            copy@.len() == i,
            forall|j: int| 0 <= j < i ==> (#[trigger] copy@[j])@ == transactions@[j]@,
        decreases transactions@.len() - i,
    {
        copy.push(transactions[i].duplicate());
        i = i + 1;
    }
    assert(copy@.map_values(|t: Transaction| t@) =~= transactions@.map_values(|t: Transaction| t@));
    copy
}

impl Hashable for Block {
    open spec fn encodable(&self) -> bool {
        block_encodable(self@)
    }

    open spec fn encoding(&self) -> Seq<u8> {
        block_encoding(self@)
    }

    fn encode(&self) -> (bytes: Vec<u8>) {
        let mut bytes: Vec<u8> = Vec::new();
        let mut txn_hashes: Vec<Vec<u8>> = Vec::new();
        let ghost txns = self@.transactions;
        let mut i: usize = 0;
        while i < self.transactions.len()
            invariant
                i <= self.transactions@.len(),
                txns == self@.transactions,
                txn_hashes@.len() == i,
                forall|j: int| 0 <= j < i ==> (#[trigger] txn_hashes@[j])@ == txn_encoding(txns[j]),
            decreases self.transactions@.len() - i,
        {
            txn_hashes.push(self.transactions[i].encode());
            i = i + 1;
        }
        assert(txn_hashes@.map_values(|d: Vec<u8>| d@) =~= txns.map_values(|t: TransactionView| txn_encoding(t)));
        let tree = MerkleTree::new(txn_hashes);
        append_bytes(&mut bytes, self.prev_hash.as_slice());
        append_bytes(&mut bytes, tree.root.data.as_slice());
        let nonce = le_bytes_of(self.nonce as u128, 8);
        append_bytes(&mut bytes, nonce.as_slice());
        let difficulty = le_bytes_of(self.difficulty, 16);
        append_bytes(&mut bytes, difficulty.as_slice());
        assert(self.encoding() == block_encoding(self@));
        bytes
    }
}

impl Block {
    /// Returns a new unmined block.
    pub fn new(transactions: Vec<Transaction>, index: i32, prev_hash: Vec<u8>, timestamp: u128) -> (block: Self)
        ensures
            block@ == new_block_spec(transactions@.map_values(|t: Transaction| t@), index, prev_hash@, timestamp),
    {
        Block {
            hash: zero_bytes(32),
            transactions,
            prev_hash,
            nonce: 0,
            difficulty: DIFFICULTY,
            index,
            timestamp,
        }
    }

    /// Returns a new mined block: equivalent to `Block::new` followed by
    /// `mine`.
    pub fn create(transactions: Vec<Transaction>, index: i32, prev_hash: Vec<u8>, timestamp: u128) -> (block: Self)
        requires
            1 <= transactions@.len(),
        ensures
            mined(
                new_block_spec(transactions@.map_values(|t: Transaction| t@), index, prev_hash@, timestamp),
                block@,
            ),
    {
        let mut block = Block::new(transactions, index, prev_hash, timestamp);
        block.mine();
        block
    }

    /// Creates and mines the genesis block: index 0, no previous hash, and
    /// the coinbase transaction as its only transaction.
    pub fn create_genesis_block(coinbase: Transaction, timestamp: u128) -> (block: Block)
        ensures
            mined(new_block_spec(seq![coinbase@], 0, Seq::empty(), timestamp), block@),
    {
        let ghost cv = coinbase@;
        let mut transactions: Vec<Transaction> = Vec::new();
        transactions.push(coinbase);
        assert(transactions@.map_values(|t: Transaction| t@) =~= seq![cv]);
        let prev_hash: Vec<u8> = Vec::new();
        assert(prev_hash@ =~= Seq::<u8>::empty());
        Block::create(transactions, 0, prev_hash, timestamp)
    }

    /// Sets the nonce and hash that satisfy the proof-of-work condition: the
    /// nonces are tried from 0 upwards, and the first whose hash meets the
    /// difficulty is kept.
    pub fn mine(&mut self)
        requires
            block_encodable(old(self)@),
        ensures
            mined(old(self)@, final(self)@),
    {
        let ghost before = self@;
        let mut nonce: u64 = 0;
        while nonce < u64::MAX
            invariant
                self@ == (BlockView { nonce: self.nonce, hash: self.hash@, ..before }),
                before == old(self)@,
                block_encodable(before),
                forall|m: u64| m < nonce ==> !#[trigger] nonce_works(before, m),
                nonce > 0 ==> self.nonce == nonce - 1 && self@.hash == block_hash(self@),
            decreases u64::MAX - nonce,
        {
            self.nonce = nonce;
            let ghost tried = with_nonce(before, nonce);
            assert(block_encoding(self@) == block_encoding(tried));
            self.hash = self.hash();
            assert(block_encoding(self@) == block_encoding(tried));
            assert(self@.hash == block_hash(tried));
            let mut prefix: Vec<u8> = Vec::new();
            let mut i: usize = 0;
            while i < 16
                invariant
                    i <= 16,
                    self.hash@.len() == 32,
                    prefix@ == self.hash@.subrange(0, i as int),
                decreases 16 - i,
            {
                prefix.push(self.hash[i]);
                i = i + 1;
                assert(prefix@ =~= self.hash@.subrange(0, i as int));
            }
            if be_u128(prefix.as_slice()) < self.difficulty {
                assert(nonce_works(before, nonce));
                assert(self@ == (BlockView { nonce: self.nonce, hash: self.hash@, ..before }));
                assert(self@.hash == block_hash(self@));
                return;
            }
            nonce = nonce + 1;
        }
    }

    /// A copy of the block.
    pub fn duplicate(&self) -> (copy: Block)
        ensures
            copy@ == self@,
    {
        Block {
            hash: copy_bytes(self.hash.as_slice()),
            transactions: duplicate_transactions(&self.transactions),
            prev_hash: copy_bytes(self.prev_hash.as_slice()),
            nonce: self.nonce,
            difficulty: self.difficulty,
            index: self.index,
            timestamp: self.timestamp,
        }
    }
}

} // verus!

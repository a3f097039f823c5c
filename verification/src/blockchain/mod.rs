//! The blockchain: blocks, transactions, wallets and the chain itself, with
//! the memory pool of candidate chains received from other nodes.

pub mod block;
pub mod ledger;
pub mod merkle;
pub mod transaction;
pub mod txn;
pub mod wallet;

use vstd::prelude::*;

use crate::blockchain::block::{duplicate_transactions, mined, new_block_spec, Block, BlockView};
use crate::blockchain::transaction::{coinbase_spec, Transaction, COINBASE_DATA_LENGTH};
use crate::blockchain::wallet::address_well_formed;
use crate::util::{bytes_eq, copy_bytes, BLOCK_MEMORY_POOL_SIZE};

verus! {

/// The chain of blocks, its last hash and length, and the memory pool of
/// candidate chains that extend it.
#[derive(Debug)]
pub struct BlockChain {
    pub blocks: Vec<Block>,
    pub last_hash: Vec<u8>,
    pub length: i32,
    /// Candidate chains received from other nodes, waiting to extend the chain.
    pub memory_pool: Vec<Vec<Block>>,
}

pub struct BlockChainView {
    pub blocks: Seq<BlockView>,
    pub last_hash: Seq<u8>,
    pub length: i32,
    pub memory_pool: Seq<Seq<BlockView>>,
}

/// The views of a vector of blocks.
pub open spec fn blocks_view(blocks: Seq<Block>) -> Seq<BlockView> {
    blocks.map_values(|b: Block| b@)
}

impl View for BlockChain {
    type V = BlockChainView;

    open spec fn view(&self) -> BlockChainView {
        BlockChainView {
            blocks: blocks_view(self.blocks@),
            last_hash: self.last_hash@,
            length: self.length,
            memory_pool: self.memory_pool@.map_values(|c: Vec<Block>| blocks_view(c@)),
        }
    }
}

/// A well-formed chain: its length counts its blocks, its last hash is the
/// hash of its last block (empty for an empty chain), and every candidate in
/// the memory pool holds at least one block.
pub open spec fn chain_wf(c: BlockChainView) -> bool {
    &&& c.length as int == c.blocks.len()
    &&& c.last_hash == (if c.blocks.len() == 0 { Seq::empty() } else { c.blocks.last().hash })
    &&& forall|k: int| 0 <= k < c.memory_pool.len() ==> (#[trigger] c.memory_pool[k]).len() >= 1
}

/// Whether `block` can follow `last` in a chain: next index, no earlier
/// timestamp, and linked by hash.
pub open spec fn extends(last: BlockView, block: BlockView) -> bool {
    &&& block.index == last.index + 1
    &&& block.timestamp >= last.timestamp
    &&& block.prev_hash == last.hash
}

/// The chain with a block appended.
pub open spec fn add_block_spec(c: BlockChainView, block: BlockView) -> BlockChainView {
    BlockChainView {
        blocks: c.blocks.push(block),
        last_hash: block.hash,
        length: (c.length + 1) as i32,
        memory_pool: c.memory_pool,
    }
}

/// The memory pool after a block is offered to it: with an empty pool the
/// block starts a new candidate when it follows the chain's last block;
/// otherwise it is appended to every candidate whose last block it follows.
pub open spec fn pool_with(c: BlockChainView, block: BlockView) -> Seq<Seq<BlockView>> {
    if c.memory_pool.len() == 0 {
        if block.index == c.length && block.timestamp >= c.blocks.last().timestamp
            && block.prev_hash == c.last_hash {
            seq![seq![block]]
        } else {
            Seq::empty()
        }
    } else {
        c.memory_pool.map_values(
            |cand: Seq<BlockView>| if extends(cand.last(), block) { cand.push(block) } else { cand },
        )
    }
}

/// Index of the first candidate that reached the pool size, if any.
pub open spec fn first_full_candidate(pool: Seq<Seq<BlockView>>) -> Option<int>
    decreases pool.len(),
{
    if pool.len() == 0 {
        None
    } else {
        match first_full_candidate(pool.drop_last()) {
            Some(k) => Some(k),
            None => if pool.last().len() == BLOCK_MEMORY_POOL_SIZE {
                Some(pool.len() - 1)
            } else {
                None
            },
        }
    }
}

/// The chain after its memory pool is cleared: the first full candidate (if
/// any) is appended to the chain and the pool is emptied; otherwise nothing
/// changes.
pub open spec fn clear_pool_spec(c: BlockChainView) -> BlockChainView {
    match first_full_candidate(c.memory_pool) {
        Some(k) => BlockChainView {
            blocks: c.blocks + c.memory_pool[k],
            last_hash: c.memory_pool[k].last().hash,
            length: (c.length + c.memory_pool[k].len()) as i32,
            memory_pool: Seq::empty(),
        },
        None => c,
    }
}

/// When `clear_memory_pool` can run without overflowing the chain length.
pub open spec fn clear_pool_ok(c: BlockChainView) -> bool {
    match first_full_candidate(c.memory_pool) {
        Some(k) => c.length + c.memory_pool[k].len() <= i32::MAX,
        None => true,
    }
}

/// When `add_block_to_memory_pool` runs without a panic: with an empty pool a
/// block at the chain's length needs a last block to compare with; with a
/// full pool no candidate may end at the largest index; and the chain length
/// must not overflow when a candidate is appended.
pub open spec fn pool_add_ok(c: BlockChainView, block: BlockView) -> bool {
    &&& c.memory_pool.len() == 0 && block.index == c.length ==> c.blocks.len() > 0
    &&& forall|k: int| 0 <= k < c.memory_pool.len() ==> (#[trigger] c.memory_pool[k]).last().index < i32::MAX
    &&& clear_pool_ok(BlockChainView { memory_pool: pool_with(c, block), ..c })
}

/// The chain after a block is offered to the memory pool.
pub open spec fn add_to_pool_spec(c: BlockChainView, block: BlockView) -> BlockChainView {
    clear_pool_spec(BlockChainView { memory_pool: pool_with(c, block), ..c })
}

/// A chain as `BlockChain::new` makes it: well formed, one mined genesis
/// block whose coinbase transaction pays `address` (with 24 random bytes in
/// its input), the genesis hash as last hash, length 1 and an empty memory
/// pool.
pub open spec fn new_chain_spec(address: Seq<u8>, timestamp: u128, c: BlockChainView) -> bool {
    &&& chain_wf(c)
    &&& c.blocks.len() == 1
    &&& mined(
        new_block_spec(
            seq![coinbase_spec(address, c.blocks[0].transactions[0].inputs[0].public_key)],
            0,
            Seq::empty(),
            timestamp,
        ),
        c.blocks[0],
    )
    &&& c.blocks[0].transactions[0].inputs[0].public_key.len() == COINBASE_DATA_LENGTH
    &&& c.last_hash == c.blocks[0].hash
    &&& c.length == 1
    &&& c.memory_pool.len() == 0
}

/// Block `j` of a candidate follows block `j - 1` by hash.
pub open spec fn links_back(cand: Seq<BlockView>, j: int) -> bool {
    cand[j].prev_hash == cand[j - 1].hash
}

/// A candidate of the memory pool that is still waiting: it holds at least
/// one and fewer than `BLOCK_MEMORY_POOL_SIZE` blocks, its first block
/// follows the chain's last hash, and each later block follows the one
/// before it.
pub open spec fn candidate_linked(cand: Seq<BlockView>, last_hash: Seq<u8>) -> bool {
    &&& 1 <= cand.len() < BLOCK_MEMORY_POOL_SIZE
    &&& cand[0].prev_hash == last_hash
    &&& forall|j: int| 0 < j < cand.len() ==> #[trigger] links_back(cand, j)
}

/// Every candidate of the memory pool is linked to the chain.
pub open spec fn pool_linked(c: BlockChainView) -> bool {
    forall|k: int| 0 <= k < c.memory_pool.len() ==> candidate_linked(#[trigger] c.memory_pool[k], c.last_hash)
}

/// Block `j` of a candidate is stamped no earlier than block `j - 1`.
pub open spec fn stamped_after(cand: Seq<BlockView>, j: int) -> bool {
    cand[j].timestamp >= cand[j - 1].timestamp
}

/// The memory pool keeps time: when it is not empty the chain has a last
/// block, and every candidate's first block is stamped no earlier than that
/// block and each later block no earlier than the one before it.
pub open spec fn pool_ordered(c: BlockChainView) -> bool {
    c.memory_pool.len() > 0 ==> {
        &&& c.blocks.len() > 0
        &&& forall|k: int| 0 <= k < c.memory_pool.len() ==> {
            &&& (#[trigger] c.memory_pool[k])[0].timestamp >= c.blocks.last().timestamp
            &&& forall|j: int| 0 < j < c.memory_pool[k].len() ==> #[trigger] stamped_after(c.memory_pool[k], j)
        }
    }
}

/// A copy of a vector of blocks.
pub fn duplicate_blocks(blocks: &Vec<Block>) -> (copy: Vec<Block>)
    ensures
        blocks_view(copy@) == blocks_view(blocks@),
{
    let mut copy: Vec<Block> = Vec::new();
    let mut i: usize = 0;
    while i < blocks.len()
        invariant
            i <= blocks@.len(),
            copy@.len() == i,
            forall|j: int| 0 <= j < i ==> (#[trigger] copy@[j])@ == blocks@[j]@,
        decreases blocks@.len() - i,
    {
        copy.push(blocks[i].duplicate());
        i = i + 1;
    }
    assert(blocks_view(copy@) =~= blocks_view(blocks@));
    copy
}

impl BlockChain {
    /// A chain whose mined genesis block holds a coinbase transaction paying
    /// the reward to `address`; `None` where the random source for the
    /// coinbase data fails.
    pub fn new(address: &Vec<u8>, timestamp: u128) -> (chain: Option<Self>)
        requires
            address_well_formed(address@),
        ensures
            chain matches Some(c) ==> new_chain_spec(address@, timestamp, c@),
    {
        let coinbase_txn = match Transaction::create_coinbase_txn(address) {
            Some(t) => t,
            None => return None,
        };
        let genesis_block = Block::create_genesis_block(coinbase_txn, timestamp);
        let mut blocks: Vec<Block> = Vec::new();
        blocks.push(genesis_block.duplicate());
        let chain = BlockChain {
            blocks,
            last_hash: genesis_block.hash,
            length: 1,
            memory_pool: Vec::new(),
        };
        assert(chain@.memory_pool =~= Seq::<Seq<BlockView>>::empty());
        Some(chain)
    }

    /// An empty chain, to be replaced by one received from another node.
    pub fn new_placeholder() -> (chain: Self)
        ensures
            chain_wf(chain@),
            chain@.blocks.len() == 0,
            chain@.last_hash.len() == 0,
            chain@.length == 0,
            chain@.memory_pool.len() == 0,
    {
        BlockChain { blocks: Vec::new(), last_hash: Vec::new(), length: 0, memory_pool: Vec::new() }
    }

    /// Appends a block to the chain.
    pub fn add_block(&mut self, block: Block)
        requires
            old(self).length < i32::MAX,
        ensures
            final(self)@ == add_block_spec(old(self)@, block@),
    {
        let last_hash = copy_bytes(block.hash.as_slice());
        self.blocks.push(block);
        self.last_hash = last_hash;
        self.length = self.length + 1;
        assert(self@.blocks =~= old(self)@.blocks.push(block@));
    }

    /// Offers a block received from another node to the memory pool, then
    /// moves a candidate that reached the pool size onto the chain.
    pub fn add_block_to_memory_pool(&mut self, block: Block)
        requires
            chain_wf(old(self)@),
            pool_add_ok(old(self)@, block@),
        ensures
            chain_wf(final(self)@),
            final(self)@ == add_to_pool_spec(old(self)@, block@),
            pool_linked(old(self)@) ==> pool_linked(final(self)@),
            pool_linked(old(self)@) && pool_ordered(old(self)@) ==> pool_ordered(final(self)@),
    {
        let ghost before = self@;
        proof {
            if pool_linked(before) {
                lemma_pool_stays_linked(before, block@);
                if pool_ordered(before) {
                    lemma_pool_keeps_time(before, block@);
                }
            }
        }
        if self.memory_pool.len() == 0 {
            if block.index == self.length && block.timestamp >= self.blocks[self.blocks.len() - 1].timestamp
                && bytes_eq(block.prev_hash.as_slice(), self.last_hash.as_slice()) {
                let mut candidate: Vec<Block> = Vec::new();
                candidate.push(block);
                assert(blocks_view(candidate@) =~= seq![block@]);
                self.memory_pool.push(candidate);
                assert(self@.memory_pool =~= pool_with(before, block@));
            } else {
                assert(self@.memory_pool =~= pool_with(before, block@));
            }
        } else {
            let n = self.memory_pool.len();
            let mut new_pool: Vec<Vec<Block>> = Vec::new();
            let ghost expected = pool_with(before, block@);
            let mut i: usize = 0;
            while i < n
                invariant
                    i <= n == self.memory_pool@.len() == before.memory_pool.len(),
                    n > 0,
                    self@ == before,
                    chain_wf(before),
                    pool_add_ok(before, block@),
                    expected == pool_with(before, block@),
                    expected.len() == n,
                    new_pool@.len() == i,
                    forall|k: int| 0 <= k < i ==> blocks_view((#[trigger] new_pool@[k])@) == expected[k],
                decreases n - i,
            {
                let candidate = &self.memory_pool[i];
                let ghost cand = blocks_view(candidate@);
                assert(cand == before.memory_pool[i as int]);
                assert(cand.len() >= 1);
                assert(before.memory_pool[i as int].last().index < i32::MAX);
                let mut copy = duplicate_blocks(candidate);
                let last_block = &candidate[candidate.len() - 1];
                assert(last_block@ == cand.last());
                if block.index == last_block.index + 1 && block.timestamp >= last_block.timestamp
                    && bytes_eq(block.prev_hash.as_slice(), last_block.hash.as_slice()) {
                    copy.push(block.duplicate());
                    assert(blocks_view(copy@) =~= cand.push(block@));
                }
                new_pool.push(copy);
                i = i + 1;
            }
            self.memory_pool = new_pool;
            assert(self@.memory_pool =~= pool_with(before, block@));
        }
        self.clear_memory_pool();
    }

    /// Index of the first candidate of the memory pool that reached the pool
    /// size.
    fn find_full_candidate(&self) -> (found: Option<usize>)
        ensures
            found matches Some(i) ==> first_full_candidate(self@.memory_pool) == Some(i as int)
                && i < self@.memory_pool.len(),
            found is None ==> first_full_candidate(self@.memory_pool) is None,
    {
        let n = self.memory_pool.len();
        let mut i: usize = 0;
        while i < n
            invariant
                i <= n == self.memory_pool@.len(),
                first_full_candidate(self@.memory_pool.take(i as int)) is None,
            decreases n - i,
        {
            assert(self@.memory_pool.take(i + 1).drop_last() =~= self@.memory_pool.take(i as int));
            if self.memory_pool[i].len() == BLOCK_MEMORY_POOL_SIZE {
                assert(first_full_candidate(self@.memory_pool.take(i + 1)) == Some(i as int));
                proof {
                    lemma_first_full_extends(self@.memory_pool, i as int);
                }
                return Some(i);
            }
            i = i + 1;
        }
        assert(self@.memory_pool.take(i as int) =~= self@.memory_pool);
        None
    }

    /// Moves the first candidate of the memory pool that reached the pool
    /// size onto the chain and empties the pool; does nothing when no
    /// candidate is full.
    pub fn clear_memory_pool(&mut self)
        requires
            chain_wf(old(self)@),
            clear_pool_ok(old(self)@),
        ensures
            chain_wf(final(self)@),
            final(self)@ == clear_pool_spec(old(self)@),
    {
        let found = self.find_full_candidate();
        let candidate_found = found.is_some();
        let selected_candidate = match found {
            Some(i) => duplicate_blocks(&self.memory_pool[i]),
            None => Vec::new(),
        };
        assert(candidate_found ==> blocks_view(selected_candidate@) == self@.memory_pool[found.unwrap() as int]);
        let ghost before = self@;
        let ghost selected = blocks_view(selected_candidate@);
        let m = selected_candidate.len();
        let mut j: usize = 0;
        while j < m
            invariant
                j <= m == selected_candidate@.len() == selected.len(),
                selected == blocks_view(selected_candidate@),
                chain_wf(before),
                candidate_found ==> before.length + m <= i32::MAX && found is Some
                    && first_full_candidate(before.memory_pool) == Some(found.unwrap() as int)
                    && selected == before.memory_pool[found.unwrap() as int],
                !candidate_found ==> m == 0,
                m > 0 ==> selected.len() >= 1,
                self@.blocks == before.blocks + selected.take(j as int),
                self@.length == before.length + j,
                self@.memory_pool == before.memory_pool,
                self@.last_hash == (if j == 0 { before.last_hash } else { selected[j - 1].hash }),
            decreases m - j,
        {
            let block = selected_candidate[j].duplicate();
            self.add_block(block);
            assert(self@.blocks =~= before.blocks + selected.take(j + 1));
            j = j + 1;
        }
        assert(selected.take(j as int) =~= selected);
        if candidate_found {
            self.memory_pool = Vec::new();
            assert(self@.memory_pool =~= Seq::<Seq<BlockView>>::empty());
        }
    }
}

impl BlockChain {
    /// A copy of the chain, memory pool included.
    pub fn duplicate(&self) -> (copy: Self)
        ensures
            copy@ == self@,
    {
        let mut pool: Vec<Vec<Block>> = Vec::new();
        let mut i: usize = 0;
        while i < self.memory_pool.len()
            invariant
                i <= self.memory_pool@.len(),
                pool@.len() == i,
                forall|j: int| 0 <= j < i ==> blocks_view((#[trigger] pool@[j])@) == self@.memory_pool[j],
            decreases self.memory_pool@.len() - i,
        {
            pool.push(duplicate_blocks(&self.memory_pool[i]));
            i = i + 1;
        }
        let copy = BlockChain {
            blocks: duplicate_blocks(&self.blocks),
            last_hash: copy_bytes(self.last_hash.as_slice()),
            length: self.length,
            memory_pool: pool,
        };
        assert(copy@.memory_pool =~= self@.memory_pool);
        copy
    }

    /// Whether the chain is well formed (see `chain_wf`).
    pub fn is_well_formed(&self) -> (wf: bool)
        ensures
            wf == chain_wf(self@),
    {
        if self.length < 0 || self.length as usize != self.blocks.len() {
            return false;
        }
        if self.blocks.len() == 0 {
            if self.last_hash.len() != 0 {
                return false;
            }
            assert(self.last_hash@ =~= Seq::<u8>::empty());
        } else {
            let last = &self.blocks[self.blocks.len() - 1];
            assert(last@.hash == self@.blocks.last().hash);
            if !bytes_eq(self.last_hash.as_slice(), last.hash.as_slice()) {
                return false;
            }
        }
        let mut k: usize = 0;
        while k < self.memory_pool.len()
            invariant
                k <= self.memory_pool@.len(),
                forall|j: int| 0 <= j < k ==> (#[trigger] self@.memory_pool[j]).len() >= 1,
            decreases self.memory_pool@.len() - k,
        {
            if self.memory_pool[k].len() == 0 {
                assert(self@.memory_pool[k as int].len() == 0);
                return false;
            }
            k = k + 1;
        }
        true
    }

    /// Whether `add_block_to_memory_pool` can take `block` without a panic.
    pub fn pool_add_ready(&self, block: &Block) -> (ready: bool)
        requires
            chain_wf(self@),
        ensures
            ready == pool_add_ok(self@, block@),
    {
        let ghost c = self@;
        let ghost next = BlockChainView { memory_pool: pool_with(c, block@), ..c };
        if self.memory_pool.len() == 0 {
            if block.index == self.length && self.blocks.len() == 0 {
                return false;
            }
            assert(first_full_candidate(pool_with(c, block@)) is None) by {
                reveal_with_fuel(first_full_candidate, 2);
                let p = pool_with(c, block@);
                if p.len() == 1 {
                    assert(p.drop_last().len() == 0);
                    assert(p.last().len() == 1);
                }
            }
            return true;
        }
        let n = self.memory_pool.len();
        let mut k: usize = 0;
        while k < n
            invariant
                k <= n == c.memory_pool.len(),
                c == self@,
                chain_wf(c),
                forall|j: int| 0 <= j < k ==> (#[trigger] c.memory_pool[j]).last().index < i32::MAX,
            decreases n - k,
        {
            let cand = &self.memory_pool[k];
            assert(blocks_view(cand@) == c.memory_pool[k as int]);
            assert(cand@.len() >= 1);
            if cand[cand.len() - 1].index == i32::MAX {
                return false;
            }
            k = k + 1;
        }
        let ghost p = pool_with(c, block@);
        let mut i: usize = 0;
        while i < n
            invariant
                i <= n == c.memory_pool.len() == p.len(),
                n > 0,
                c == self@,
                chain_wf(c),
                p == pool_with(c, block@),
                forall|j: int| 0 <= j < n ==> (#[trigger] c.memory_pool[j]).last().index < i32::MAX,
                first_full_candidate(p.take(i as int)) is None,
            decreases n - i,
        {
            let cand = &self.memory_pool[i];
            assert(blocks_view(cand@) == c.memory_pool[i as int]);
            assert(c.memory_pool[i as int].last().index < i32::MAX);
            let last_block = &cand[cand.len() - 1];
            let joins = block.index == last_block.index + 1 && block.timestamp >= last_block.timestamp
                && bytes_eq(block.prev_hash.as_slice(), last_block.hash.as_slice());
            let full = if joins {
                cand.len() == BLOCK_MEMORY_POOL_SIZE - 1
            } else {
                cand.len() == BLOCK_MEMORY_POOL_SIZE
            };
            assert(full == (p[i as int].len() == BLOCK_MEMORY_POOL_SIZE));
            assert(p.take(i + 1).drop_last() =~= p.take(i as int));
            if full {
                let new_len = BLOCK_MEMORY_POOL_SIZE;
                assert(first_full_candidate(p.take(i + 1)) == Some(i as int));
                proof {
                    lemma_first_full_extends(p, i as int);
                }
                return (self.length as i64) + (new_len as i64) <= i32::MAX as i64;
            }
            i = i + 1;
        }
        assert(p.take(i as int) =~= p);
        true
    }
}

/// The first full candidate of a prefix of the pool is the first full
/// candidate of the whole pool.
proof fn lemma_first_full_extends(pool: Seq<Seq<BlockView>>, i: int)
    requires
        0 <= i < pool.len(),
        first_full_candidate(pool.take(i + 1)) == Some(i),
    ensures
        first_full_candidate(pool) == Some(i),
    decreases pool.len(),
{
    if pool.len() > i + 1 {
        assert(pool.drop_last().take(i + 1) =~= pool.take(i + 1));
        lemma_first_full_extends(pool.drop_last(), i);
    } else {
        assert(pool.take(i + 1) =~= pool);
    }
}

/// Appending a block to a well-formed chain whose length can still grow
/// keeps it well formed.
pub proof fn lemma_add_block_keeps_wf(c: BlockChainView, block: BlockView)
    requires
        chain_wf(c),
        c.length < i32::MAX,
    ensures
        chain_wf(add_block_spec(c, block)),
{
    let d = add_block_spec(c, block);
    assert(d.blocks.last() == block);
}

/// The chain's blocks are only ever appended to: adding a block or offering
/// one to the memory pool keeps the existing blocks as a prefix.
pub proof fn lemma_blocks_only_appended(c: BlockChainView, block: BlockView)
    ensures
        add_block_spec(c, block).blocks.take(c.blocks.len() as int) == c.blocks,
        add_to_pool_spec(c, block).blocks.take(c.blocks.len() as int) == c.blocks,
        add_to_pool_spec(c, block).blocks.len() >= c.blocks.len(),
{
    assert(add_block_spec(c, block).blocks.take(c.blocks.len() as int) =~= c.blocks);
    let next = BlockChainView { memory_pool: pool_with(c, block), ..c };
    match first_full_candidate(next.memory_pool) {
        Some(k) => {
            assert((c.blocks + next.memory_pool[k]).take(c.blocks.len() as int) =~= c.blocks);
        },
        None => {
            assert(c.blocks.take(c.blocks.len() as int) =~= c.blocks);
        },
    }
}

/// A candidate enters the chain only once it holds a full pool of blocks,
/// and then the whole candidate is appended and the pool emptied; a pool
/// without a full candidate leaves the chain unchanged.
pub proof fn lemma_pool_moves_whole_candidates(c: BlockChainView)
    ensures
        match first_full_candidate(c.memory_pool) {
            Some(k) => {
                &&& 0 <= k < c.memory_pool.len()
                &&& c.memory_pool[k].len() == BLOCK_MEMORY_POOL_SIZE
                &&& clear_pool_spec(c).blocks == c.blocks + c.memory_pool[k]
                &&& clear_pool_spec(c).memory_pool.len() == 0
            },
            None => clear_pool_spec(c) == c,
        },
    decreases c.memory_pool.len(),
{
    lemma_first_full_found(c.memory_pool);
}

proof fn lemma_first_full_found(pool: Seq<Seq<BlockView>>)
    ensures
        first_full_candidate(pool) matches Some(k) ==> 0 <= k < pool.len() && pool[k].len() == BLOCK_MEMORY_POOL_SIZE,
    decreases pool.len(),
{
    if pool.len() > 0 {
        lemma_first_full_found(pool.drop_last());
    }
}

proof fn lemma_first_full_none(pool: Seq<Seq<BlockView>>)
    ensures
        first_full_candidate(pool) is None ==> forall|k: int|
            0 <= k < pool.len() ==> (#[trigger] pool[k]).len() != BLOCK_MEMORY_POOL_SIZE,
    decreases pool.len(),
{
    if pool.len() > 0 {
        lemma_first_full_none(pool.drop_last());
        if first_full_candidate(pool) is None {
            assert forall|k: int| 0 <= k < pool.len() implies (#[trigger] pool[k]).len() != BLOCK_MEMORY_POOL_SIZE by {
                if k < pool.len() - 1 {
                    assert(pool[k] == pool.drop_last()[k]);
                }
            }
        }
    }
}

/// Offering a block to the memory pool keeps the chain well formed and its
/// pool linked: every waiting candidate holds one to fewer than
/// `BLOCK_MEMORY_POOL_SIZE` blocks, starts after the chain's last block and
/// is linked by hash; and the chain's blocks are only appended to.
pub proof fn lemma_pool_stays_linked(c: BlockChainView, block: BlockView)
    requires
        chain_wf(c),
        pool_linked(c),
        pool_add_ok(c, block),
    ensures
        chain_wf(add_to_pool_spec(c, block)),
        pool_linked(add_to_pool_spec(c, block)),
        add_to_pool_spec(c, block).blocks.len() >= c.blocks.len(),
        add_to_pool_spec(c, block).blocks.take(c.blocks.len() as int) == c.blocks,
{
    lemma_blocks_only_appended(c, block);
    let p = pool_with(c, block);
    let next = BlockChainView { memory_pool: p, ..c };
    let n = add_to_pool_spec(c, block);
    lemma_first_full_found(p);
    lemma_first_full_none(p);
    // Every entry of the new pool is a candidate of at least one block,
    // grown by at most one block.
    if c.memory_pool.len() == 0 {
        if p.len() == 1 {
            assert(p[0] == seq![block]);
        }
    } else {
        assert forall|k: int| 0 <= k < p.len() implies (#[trigger] p[k]).len() >= 1 by {
            assert(candidate_linked(c.memory_pool[k], c.last_hash));
        }
    }
    match first_full_candidate(p) {
        Some(k) => {
            let cand = p[k];
            assert(cand.len() >= 1);
            assert(n.blocks == c.blocks + cand);
            assert(n.blocks.last() == cand.last());
            assert(n.memory_pool.len() == 0);
        },
        None => {
            assert(n == next);
            assert forall|k: int| 0 <= k < p.len() implies candidate_linked(#[trigger] p[k], c.last_hash) by {
                assert(p[k].len() != BLOCK_MEMORY_POOL_SIZE);
                if c.memory_pool.len() == 0 {
                    assert(p[k] == seq![block]);
                    assert(block.prev_hash == c.last_hash);
                } else {
                    let cand = c.memory_pool[k];
                    assert(candidate_linked(cand, c.last_hash));
                    if extends(cand.last(), block) {
                        assert(p[k] == cand.push(block));
                        assert forall|j: int| 0 < j < p[k].len() implies #[trigger] links_back(p[k], j) by {
                            if j < cand.len() {
                                assert(links_back(cand, j));
                            }
                        }
                    } else {
                        assert(p[k] == cand);
                    }
                }
            }
        },
    }
}

/// Offering a block to the memory pool never lets time run backwards: the
/// pool keeps its candidates stamped in order after the chain's last block,
/// and every block the pool appends to the chain follows the block before
/// it, by hash and by a timestamp no earlier than that block's.
pub proof fn lemma_pool_keeps_time(c: BlockChainView, block: BlockView)
    requires
        chain_wf(c),
        pool_linked(c),
        pool_ordered(c),
        pool_add_ok(c, block),
    ensures
        pool_ordered(add_to_pool_spec(c, block)),
        forall|j: int| c.blocks.len() <= j < add_to_pool_spec(c, block).blocks.len() && 0 < j ==> {
            &&& (#[trigger] add_to_pool_spec(c, block).blocks[j]).timestamp
                >= add_to_pool_spec(c, block).blocks[j - 1].timestamp
            &&& add_to_pool_spec(c, block).blocks[j].prev_hash == add_to_pool_spec(c, block).blocks[j - 1].hash
        },
{
    lemma_pool_stays_linked(c, block);
    let p = pool_with(c, block);
    let n = add_to_pool_spec(c, block);
    lemma_first_full_found(p);
    // The new pool keeps time.
    assert(p.len() > 0 ==> c.blocks.len() > 0);
    assert forall|k: int| 0 <= k < p.len() implies {
        &&& (#[trigger] p[k])[0].timestamp >= c.blocks.last().timestamp
        &&& forall|j: int| 0 < j < p[k].len() ==> #[trigger] stamped_after(p[k], j)
    } by {
        if c.memory_pool.len() == 0 {
            assert(p[k] == seq![block]);
        } else {
            let cand = c.memory_pool[k];
            assert(candidate_linked(cand, c.last_hash));
            assert(cand[0].timestamp >= c.blocks.last().timestamp);
            if extends(cand.last(), block) {
                assert(p[k] == cand.push(block));
                assert forall|j: int| 0 < j < p[k].len() implies #[trigger] stamped_after(p[k], j) by {
                    if j < cand.len() {
                        assert(stamped_after(cand, j));
                    }
                }
            } else {
                assert(p[k] == cand);
            }
        }
    }
    match first_full_candidate(p) {
        Some(k) => {
            let cand = p[k];
            assert(n.blocks == c.blocks + cand);
            assert(n.memory_pool.len() == 0);
            // The links of the candidate: by hash from pool_linked-style
            // reasoning on the new pool entry.
            assert(cand[0].prev_hash == c.last_hash) by {
                if c.memory_pool.len() == 0 {
                    assert(cand == seq![block]);
                } else {
                    assert(candidate_linked(c.memory_pool[k], c.last_hash));
                }
            }
            assert forall|j: int| 0 < j < cand.len() implies #[trigger] links_back(cand, j) by {
                if c.memory_pool.len() == 0 {
                    assert(cand == seq![block]);
                } else {
                    let old_cand = c.memory_pool[k];
                    assert(candidate_linked(old_cand, c.last_hash));
                    if extends(old_cand.last(), block) {
                        assert(cand == old_cand.push(block));
                        if j < old_cand.len() {
                            assert(links_back(old_cand, j));
                        }
                    } else {
                        assert(cand == old_cand);
                        assert(links_back(old_cand, j));
                    }
                }
            }
            assert forall|j: int| c.blocks.len() <= j < n.blocks.len() && 0 < j implies {
                &&& (#[trigger] n.blocks[j]).timestamp >= n.blocks[j - 1].timestamp
                &&& n.blocks[j].prev_hash == n.blocks[j - 1].hash
            } by {
                let m = j - c.blocks.len();
                assert(n.blocks[j] == cand[m]);
                if m == 0 {
                    assert(n.blocks[j - 1] == c.blocks.last());
                } else {
                    assert(n.blocks[j - 1] == cand[m - 1]);
                    assert(stamped_after(cand, m));
                    assert(links_back(cand, m));
                }
            }
        },
        None => {
            assert(n.blocks == c.blocks);
        },
    }
}

} // verus!

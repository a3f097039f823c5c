//! A node of the network: its copy of the blockchain, the peers it knows,
//! and what it does with each message it receives.
//!
//! Handling a message is a step from the node's state and the message to
//! the node's next state and the actions to perform: messages to send to
//! peers, events to announce, things to print. Performing them (actors,
//! sockets, the console) is left to the caller.

use vstd::prelude::*;

use crate::blockchain::block::{mined, new_block_spec, Block, BlockView};
use crate::blockchain::ledger::{txn_refs_view, unspent_transactions_spec};
use crate::blockchain::transaction::{
    coinbase_spec, new_txn_ok, new_txn_spec, Transaction, TransactionView, COINBASE_DATA_LENGTH,
};
use crate::blockchain::txn::output_locked_with;
use crate::blockchain::wallet::{address_well_formed, Wallet, WalletData};
use crate::blockchain::{
    add_block_spec, add_to_pool_spec, chain_wf, new_chain_spec, pool_add_ok, BlockChain, BlockChainView,
};
use crate::util::copy_bytes;

verus! {

/// Events that a node announces.
#[derive(Debug, Clone, Copy, PartialEq, Eq)]
pub enum Events {
    CreatedBlockchain,
    MinedTransaction,
    UpdatedRoutingInfo,
    DownloadedBlockchain,
    ReceivedFresherBlockchain,
    ReceivedNewBlock,
}

/// The messages a node receives. Peers are named by their identifiers.
#[derive(Debug)]
pub enum Payload {
    CreateBlockchain { address: Vec<u8> },
    UpdateRoutingInfo { addresses: Vec<u64> },
    AddTransactionAndMine { from: Vec<u8>, to: Vec<u8>, amt: i32 },
    PrintInfo,
    UpdateBlockchainFromKnownNodes,
    RequestBlockchain { sender_addr: u64 },
    Blockchain { blockchain: BlockChain },
    Block { block: Block },
    PrintWalletBalance { public_key_hash: Vec<u8> },
}

#[derive(Debug, Clone, Copy, PartialEq, Eq)]
pub enum GenericResponse {
    OK,
}

/// A message to a node.
#[derive(Debug)]
pub struct GenericMessage(pub Payload);

/// What a node asks to be done after handling a message.
#[derive(Debug)]
pub enum Action {
    /// Send the node's blockchain to a peer.
    SendBlockchain { to: u64, blockchain: BlockChain },
    /// Send a newly mined block to a peer.
    SendBlock { to: u64, block: Block },
    /// Ask a peer for its blockchain.
    RequestBlockchain { to: u64 },
    /// Announce an event.
    Announce { event: Events },
    /// Announce that a longer blockchain replaced the node's one.
    AnnounceFresherBlockchain { old_length: i32, new_length: i32 },
    /// Print the node's information.
    PrintInfo,
    /// Print a wallet balance.
    PrintBalance { balance: i32 },
}

/// A node: its name, the peers it knows and its copy of the blockchain.
#[derive(Debug)]
pub struct Node {
    pub address: String,
    pub known_nodes: Vec<u64>,
    pub blockchain: BlockChain,
}

pub struct NodeView {
    pub address: Seq<char>,
    pub known_nodes: Seq<u64>,
    pub blockchain: BlockChainView,
}

impl View for Node {
    type V = NodeView;

    open spec fn view(&self) -> NodeView {
        NodeView { address: self.address@, known_nodes: self.known_nodes@, blockchain: self.blockchain@ }
    }
}

/// Sum of the values of the first `n` outputs of `t` locked to the key.
pub open spec fn locked_sum(t: TransactionView, public_key_hash: Seq<u8>, n: nat) -> int
    decreases n,
{
    if n == 0 {
        0
    } else {
        locked_sum(t, public_key_hash, (n - 1) as nat) + if output_locked_with(t.outputs[n - 1], public_key_hash) {
            t.outputs[n - 1].value as int
        } else {
            0
        }
    }
}

/// Sum, over a list of transactions, of their outputs locked to the key.
pub open spec fn balance_of(txs: Seq<TransactionView>, public_key_hash: Seq<u8>) -> int
    decreases txs.len(),
{
    if txs.len() == 0 {
        0
    } else {
        balance_of(txs.drop_last(), public_key_hash) + locked_sum(txs.last(), public_key_hash, txs.last().outputs.len())
    }
}

/// Every running total `base + locked_sum(t, .., m)` for `m <= n` fits an
/// `i32`.
pub open spec fn locked_sum_ok(base: int, t: TransactionView, public_key_hash: Seq<u8>, n: nat) -> bool
    decreases n,
{
    &&& i32::MIN <= base + locked_sum(t, public_key_hash, n) <= i32::MAX
    &&& n == 0 || locked_sum_ok(base, t, public_key_hash, (n - 1) as nat)
}

/// Every running total of `balance_of` fits an `i32`.
pub open spec fn balance_ok(txs: Seq<TransactionView>, public_key_hash: Seq<u8>) -> bool
    decreases txs.len(),
{
    txs.len() == 0 || (balance_ok(txs.drop_last(), public_key_hash) && locked_sum_ok(
        balance_of(txs.drop_last(), public_key_hash),
        txs.last(),
        public_key_hash,
        txs.last().outputs.len(),
    ))
}

/// The balance a node prints for a wallet: over the wallet's unspent
/// transactions (a transaction counted once per unspent output), the sum of
/// their outputs locked to the wallet.
pub open spec fn wallet_balance_spec(c: BlockChainView, public_key_hash: Seq<u8>) -> int {
    balance_of(unspent_transactions_spec(c, public_key_hash), public_key_hash)
}

/// When computing the balance does not overflow.
pub open spec fn wallet_balance_ok(c: BlockChainView, public_key_hash: Seq<u8>) -> bool {
    balance_ok(unspent_transactions_spec(c, public_key_hash), public_key_hash)
}

/// When `make_transaction_and_mine` runs without a panic.
pub open spec fn mine_ok(c: BlockChainView, from: Seq<u8>, to: Seq<u8>, amount: i32, wallet: WalletData) -> bool {
    &&& new_txn_ok(from, to, amount, c, wallet)
    &&& c.length < i32::MAX
}

/// The block that `make_transaction_and_mine` mines and appends: the new
/// transaction and a coinbase transaction paying `from`, at the chain's
/// length, linked to its last hash.
pub open spec fn mined_block_spec(
    c: BlockChainView,
    from: Seq<u8>,
    to: Seq<u8>,
    amount: i32,
    wallet: WalletData,
    timestamp: u128,
    block: BlockView,
) -> bool {
    let coinbase_data = block.transactions[1].inputs[0].public_key;
    &&& coinbase_data.len() == COINBASE_DATA_LENGTH
    &&& mined(
        new_block_spec(
            seq![new_txn_spec(from, to, amount, c, wallet), coinbase_spec(from, coinbase_data)],
            c.length,
            c.last_hash,
            timestamp,
        ),
        block,
    )
}

/// The peers other than `self_id`.
pub open spec fn other_than(self_id: u64) -> spec_fn(u64) -> bool {
    |a: u64| a != self_id
}

/// `a` sends a blockchain equal to `c` to peer `to`.
pub open spec fn sends_blockchain(a: Action, to: u64, c: BlockChainView) -> bool {
    a matches Action::SendBlockchain { to: t, blockchain } && t == to && blockchain@ == c
}

/// `a` sends a block equal to `b` to peer `to`.
pub open spec fn sends_block(a: Action, to: u64, b: BlockView) -> bool {
    a matches Action::SendBlock { to: t, block } && t == to && block@ == b
}

/// `a` announces `event`.
pub open spec fn announces(a: Action, event: Events) -> bool {
    a matches Action::Announce { event: e } && e == event
}

/// When handling a message runs without a panic: a new chain needs an
/// address that can be taken apart; a new transaction needs the sender's
/// wallet and must be buildable; asking peers needs a known peer; a block
/// offered to the memory pool needs a well-formed chain that can take it;
/// a balance must not overflow.
pub open spec fn handle_ok(node: NodeView, payload: Payload, wallet: Option<WalletData>) -> bool {
    match payload {
        Payload::CreateBlockchain { address } => address_well_formed(address@),
        Payload::AddTransactionAndMine { from, to, amt } => wallet matches Some(w) && mine_ok(
            node.blockchain,
            from@,
            to@,
            amt,
            w,
        ),
        Payload::UpdateBlockchainFromKnownNodes => node.known_nodes.len() > 0,
        Payload::Block { block } => chain_wf(node.blockchain) && pool_add_ok(node.blockchain, block@),
        Payload::PrintWalletBalance { public_key_hash } => wallet_balance_ok(node.blockchain, public_key_hash@),
        _ => true,
    }
}

/// Messages whose handling draws from the operating system's random source
/// (for the data of a coinbase transaction), and so may fail when it fails.
pub open spec fn draws_randomness(payload: Payload) -> bool {
    payload is CreateBlockchain || payload is AddTransactionAndMine
}

/// What handling a message does, when it succeeds, from `before` to `after`
/// with `actions`.
pub open spec fn handle_spec(
    before: NodeView,
    payload: Payload,
    self_id: u64,
    timestamp: u128,
    wallet: Option<WalletData>,
    after: NodeView,
    actions: Seq<Action>,
) -> bool {
    &&& after.address == before.address
    &&& match payload {
        Payload::CreateBlockchain { address } => {
            &&& new_chain_spec(address@, timestamp, after.blockchain)
            &&& after.known_nodes == before.known_nodes
            &&& actions.len() == before.known_nodes.len() + 1
            &&& forall|i: int| 0 <= i < before.known_nodes.len()
                ==> sends_blockchain(#[trigger] actions[i], before.known_nodes[i], after.blockchain)
            &&& announces(actions.last(), Events::CreatedBlockchain)
        },
        Payload::UpdateRoutingInfo { addresses } => {
            &&& after.known_nodes == addresses@.filter(other_than(self_id))
            &&& after.blockchain == before.blockchain
            &&& actions.len() == 1
            &&& announces(actions[0], Events::UpdatedRoutingInfo)
        },
        Payload::AddTransactionAndMine { from, to, amt } => {
            let block = after.blockchain.blocks.last();
            &&& mined_block_spec(before.blockchain, from@, to@, amt, wallet.unwrap(), timestamp, block)
            &&& after.blockchain == add_block_spec(before.blockchain, block)
            &&& after.known_nodes == before.known_nodes
            &&& actions.len() == before.known_nodes.len() + 1
            &&& announces(actions[0], Events::MinedTransaction)
            &&& forall|i: int| 0 <= i < before.known_nodes.len()
                ==> sends_block(#[trigger] actions[i + 1], before.known_nodes[i], block)
        },
        Payload::PrintInfo => {
            &&& after == before
            &&& actions.len() == 1
            &&& actions[0] is PrintInfo
        },
        Payload::UpdateBlockchainFromKnownNodes => {
            &&& after == before
            &&& actions.len() == 2
            &&& actions[0] matches Action::RequestBlockchain { to } && to == before.known_nodes[0]
            &&& announces(actions[1], Events::DownloadedBlockchain)
        },
        Payload::RequestBlockchain { sender_addr } => {
            &&& after == before
            &&& actions.len() == 1
            &&& sends_blockchain(actions[0], sender_addr, before.blockchain)
        },
        Payload::Blockchain { blockchain } => if before.blockchain.blocks.len() < blockchain@.blocks.len() {
            &&& after.blockchain == blockchain@
            &&& after.known_nodes == before.known_nodes
            &&& actions.len() == 1
            &&& actions[0] matches Action::AnnounceFresherBlockchain { old_length, new_length }
                && old_length == before.blockchain.length && new_length == blockchain@.length
        } else {
            &&& after == before
            &&& actions.len() == 0
        },
        Payload::Block { block } => {
            &&& after.blockchain == add_to_pool_spec(before.blockchain, block@)
            &&& after.known_nodes == before.known_nodes
            &&& actions.len() == 1
            &&& announces(actions[0], Events::ReceivedNewBlock)
        },
        Payload::PrintWalletBalance { public_key_hash } => {
            &&& after == before
            &&& actions.len() == 1
            &&& actions[0] matches Action::PrintBalance { balance }
                && balance as int == wallet_balance_spec(before.blockchain, public_key_hash@)
        },
    }
}

impl Node {
    /// A node with no known peers and an empty chain.
    pub fn default(address: String) -> (node: Self)
        ensures
            node@.address == address@,
            node@.known_nodes.len() == 0,
            chain_wf(node@.blockchain),
            node@.blockchain.blocks.len() == 0,
            node@.blockchain.memory_pool.len() == 0,
    {
        Node { address, known_nodes: Vec::new(), blockchain: BlockChain::new_placeholder() }
    }

    /// Starts a new blockchain whose genesis block pays `address`. Returns
    /// whether it did: where the random source for the coinbase data fails,
    /// the node is left as it is.
    pub fn create_blockchain(&mut self, address: &Vec<u8>, timestamp: u128) -> (created: bool)
        requires
            address_well_formed(address@),
        ensures
            created ==> new_chain_spec(address@, timestamp, final(self)@.blockchain),
            !created ==> final(self)@ == old(self)@,
            final(self)@.known_nodes == old(self)@.known_nodes,
            final(self)@.address == old(self)@.address,
    {
        match BlockChain::new(address, timestamp) {
            Some(chain) => {
                self.blockchain = chain;
                true
            },
            None => false,
        }
    }

    /// Builds and signs a transaction paying `amount` from `from` to `to`,
    /// mines a block holding it and a coinbase transaction paying `from`, and
    /// appends the block to the chain. Returns the block and the messages
    /// that pass it on: one `SendBlock` of the appended block to each known
    /// node, in the order of `known_nodes`, to be sent after the append.
    /// `None`, with the node left as it is, where the random source for the
    /// coinbase data fails.
    pub fn make_transaction_and_mine(
        &mut self,
        from: Vec<u8>,
        to: Vec<u8>,
        amount: i32,
        wallet: &WalletData,
        timestamp: u128,
    ) -> (mined: Option<(Block, Vec<Action>)>)
        requires
            mine_ok(old(self)@.blockchain, from@, to@, amount, *wallet),
        ensures
            mined is None ==> final(self)@ == old(self)@,
            mined matches Some((block, sends)) ==> {
                &&& mined_block_spec(old(self)@.blockchain, from@, to@, amount, *wallet, timestamp, block@)
                &&& final(self)@.blockchain == add_block_spec(old(self)@.blockchain, block@)
                &&& final(self)@.blockchain.blocks.last() == block@
                &&& final(self)@.known_nodes == old(self)@.known_nodes
                &&& final(self)@.address == old(self)@.address
                &&& sends@.len() == old(self)@.known_nodes.len()
                &&& forall|i: int| 0 <= i < sends@.len()
                    ==> sends_block(#[trigger] sends@[i], old(self)@.known_nodes[i], block@)
            },
    {
        let txn = Transaction::new(&from, &to, amount, &self.blockchain, wallet);
        let coinbase_txn = match Transaction::create_coinbase_txn(&from) {
            Some(t) => t,
            None => return None,
        };
        let mut transactions: Vec<Transaction> = Vec::new();
        transactions.push(txn);
        transactions.push(coinbase_txn);
        let ghost tv = transactions@.map_values(|t: Transaction| t@);
        let block = Block::create(transactions, self.blockchain.length, copy_bytes(self.blockchain.last_hash.as_slice()), timestamp);
        assert(block@.transactions == tv);
        assert(tv =~= seq![
            new_txn_spec(from@, to@, amount, old(self)@.blockchain, *wallet),
            coinbase_spec(from@, block@.transactions[1].inputs[0].public_key),
        ]);
        self.blockchain.add_block(block.duplicate());
        let mut sends: Vec<Action> = Vec::new();
        let mut i: usize = 0;
        while i < self.known_nodes.len()
            invariant
                i <= self@.known_nodes.len(),
                self@.known_nodes == old(self)@.known_nodes,
                sends@.len() == i,
                forall|j: int| 0 <= j < i ==> sends_block(#[trigger] sends@[j], old(self)@.known_nodes[j], block@),
            decreases self@.known_nodes.len() - i,
        {
            sends.push(Action::SendBlock { to: self.known_nodes[i], block: block.duplicate() });
            i = i + 1;
        }
        Some((block, sends))
    }

    /// The balance of a wallet as the node prints it.
    pub fn wallet_balance(&self, public_key_hash: &Vec<u8>) -> (balance: i32)
        requires
            wallet_balance_ok(self@.blockchain, public_key_hash@),
        ensures
            balance as int == wallet_balance_spec(self@.blockchain, public_key_hash@),
    {
        let ghost pkh = public_key_hash@;
        let unspent_txns = self.blockchain.find_unspent_transactions(public_key_hash);
        let ghost txs = txn_refs_view(unspent_txns@);
        let mut balance: i32 = 0;
        let mut u: usize = 0;
        while u < unspent_txns.len()
            invariant
                u <= txs.len() == unspent_txns@.len(),
                txs == txn_refs_view(unspent_txns@),
                pkh == public_key_hash@,
                balance_ok(txs, pkh),
                balance as int == balance_of(txs.take(u as int), pkh),
            decreases txs.len() - u,
        {
            let txn = unspent_txns[u];
            let ghost tv = txs[u as int];
            assert(txn@ == tv);
            let ghost base = balance_of(txs.take(u as int), pkh);
            assert(txs.take(u + 1).drop_last() =~= txs.take(u as int));
            proof {
                lemma_balance_ok_prefix(txs, pkh, u + 1);
            }
            let mut k: usize = 0;
            while k < txn.outputs.len()
                invariant
                    k <= tv.outputs.len(),
                    tv == txn@,
                    pkh == public_key_hash@,
                    locked_sum_ok(base, tv, pkh, tv.outputs.len()),
                    balance as int == base + locked_sum(tv, pkh, k as nat),
                decreases tv.outputs.len() - k,
            {
                assert(txn.outputs@[k as int]@ == tv.outputs[k as int]);
                proof {
                    lemma_locked_sum_ok_prefix(base, tv, pkh, (k + 1) as nat, tv.outputs.len());
                }
                if txn.outputs[k].is_locked_with_key(public_key_hash) {
                    balance = balance + txn.outputs[k].value;
                }
                k = k + 1;
            }
            assert(balance_of(txs.take(u + 1), pkh) == base + locked_sum(tv, pkh, tv.outputs.len()));
            u = u + 1;
        }
        assert(txs.take(u as int) =~= txs);
        balance
    }

    /// The balance of a wallet, or `None` where computing it overflows.
    pub fn try_wallet_balance(&self, public_key_hash: &Vec<u8>) -> (balance: Option<i32>)
        ensures
            balance is Some <==> wallet_balance_ok(self@.blockchain, public_key_hash@),
            balance matches Some(b) ==> b as int == wallet_balance_spec(self@.blockchain, public_key_hash@),
    {
        let ghost pkh = public_key_hash@;
        let unspent_txns = self.blockchain.find_unspent_transactions(public_key_hash);
        let ghost txs = txn_refs_view(unspent_txns@);
        let mut balance: i32 = 0;
        let mut u: usize = 0;
        while u < unspent_txns.len()
            invariant
                u <= txs.len() == unspent_txns@.len(),
                txs == txn_refs_view(unspent_txns@),
                txs == unspent_transactions_spec(self@.blockchain, pkh),
                pkh == public_key_hash@,
                balance_ok(txs.take(u as int), pkh),
                balance as int == balance_of(txs.take(u as int), pkh),
            decreases txs.len() - u,
        {
            let txn = unspent_txns[u];
            let ghost tv = txs[u as int];
            assert(txn@ == tv);
            let ghost base = balance_of(txs.take(u as int), pkh);
            assert(txs.take(u + 1).drop_last() =~= txs.take(u as int));
            assert(txs.take(u + 1).last() == tv);
            let mut k: usize = 0;
            while k < txn.outputs.len()
                invariant
                    k <= tv.outputs.len(),
                    tv == txn@,
                    pkh == public_key_hash@,
                    locked_sum_ok(base, tv, pkh, k as nat),
                    balance as int == base + locked_sum(tv, pkh, k as nat),
                    u < txs.len(),
                    txs.take(u + 1).drop_last() == txs.take(u as int),
                    txs.take(u + 1).last() == tv,
                    base == balance_of(txs.take(u as int), pkh),
                    balance_ok(txs.take(u as int), pkh),
                    txs == unspent_transactions_spec(self@.blockchain, pkh),
                decreases tv.outputs.len() - k,
            {
                assert(txn.outputs@[k as int]@ == tv.outputs[k as int]);
                if txn.outputs[k].is_locked_with_key(public_key_hash) {
                    match balance.checked_add(txn.outputs[k].value) {
                        Some(b) => {
                            balance = b;
                        },
                        None => {
                            proof {
                                assert(!locked_sum_ok(base, tv, pkh, (k + 1) as nat));
                                if locked_sum_ok(base, tv, pkh, tv.outputs.len()) {
                                    lemma_locked_sum_ok_prefix(base, tv, pkh, (k + 1) as nat, tv.outputs.len());
                                }
                                assert(!balance_ok(txs.take(u + 1), pkh));
                                lemma_balance_ok_prefix_contra(txs, pkh, u + 1);
                            }
                            return None;
                        },
                    }
                }
                k = k + 1;
            }
            assert(balance_of(txs.take(u + 1), pkh) == base + locked_sum(tv, pkh, tv.outputs.len()));
            assert(balance_ok(txs.take(u + 1), pkh));
            u = u + 1;
        }
        assert(txs.take(u as int) =~= txs);
        Some(balance)
    }
}

impl Node {
    /// Whether handling `msg` runs without a panic (see `handle_ok`).
    pub fn handle_ready(&self, msg: &GenericMessage, wallet: &Option<WalletData>) -> (ready: bool)
        ensures
            ready == handle_ok(self@, msg.0, *wallet),
    {
        match &msg.0 {
            Payload::CreateBlockchain { address } => Wallet::check_address(address).is_some(),
            Payload::AddTransactionAndMine { from, to, amt } => match wallet {
                Some(w) => self.blockchain.length < i32::MAX && Transaction::new_ready(from, to, *amt, &self.blockchain, w),
                None => false,
            },
            Payload::UpdateBlockchainFromKnownNodes => self.known_nodes.len() > 0,
            Payload::Block { block } => self.blockchain.is_well_formed() && self.blockchain.pool_add_ready(block),
            Payload::PrintWalletBalance { public_key_hash } => self.try_wallet_balance(public_key_hash).is_some(),
            _ => true,
        }
    }

    /// Handles a message: updates the node and returns the actions to
    /// perform.
    pub fn handle(&mut self, msg: GenericMessage, self_id: u64, timestamp: u128, wallet: Option<WalletData>) -> (result: (
        Result<GenericResponse, String>,
        Vec<Action>,
    ))
        requires
            handle_ok(old(self)@, msg.0, wallet),
        ensures
            !draws_randomness(msg.0) ==> result.0 is Ok,
            result.0 is Ok ==> result.0 == Ok::<GenericResponse, String>(GenericResponse::OK) && handle_spec(
                old(self)@,
                msg.0,
                self_id,
                timestamp,
                wallet,
                final(self)@,
                result.1@,
            ),
            result.0 matches Err(e) ==> {
                &&& draws_randomness(msg.0)
                &&& e@ == "The random source is unavailable"@
                &&& final(self)@ == old(self)@
                &&& result.1@.len() == 0
            },
    {
        proof {
            reveal_strlit("The random source is unavailable");
        }
        let ghost payload = msg.0;
        let ghost before = self@;
        let mut actions: Vec<Action> = Vec::new();
        match msg.0 {
            Payload::CreateBlockchain { address } => {
                if !self.create_blockchain(&address, timestamp) {
                    return (Err("The random source is unavailable".to_string()), actions);
                }
                let mut i: usize = 0;
                while i < self.known_nodes.len()
                    invariant
                        i <= self@.known_nodes.len(),
                        self@.known_nodes == before.known_nodes,
                        actions@.len() == i,
                        forall|j: int| 0 <= j < i ==> sends_blockchain(#[trigger] actions@[j], before.known_nodes[j], self@.blockchain),
                    decreases self@.known_nodes.len() - i,
                {
                    actions.push(Action::SendBlockchain { to: self.known_nodes[i], blockchain: self.blockchain.duplicate() });
                    i = i + 1;
                }
                actions.push(Action::Announce { event: Events::CreatedBlockchain });
            },
            Payload::UpdateRoutingInfo { addresses } => {
                let ghost pred = other_than(self_id);
                let mut filtered_addresses: Vec<u64> = Vec::new();
                let mut i: usize = 0;
                while i < addresses.len()
                    invariant
                        i <= addresses@.len(),
                        filtered_addresses@ == addresses@.take(i as int).filter(pred),
                        pred == other_than(self_id),
                    decreases addresses@.len() - i,
                {
                    assert(addresses@.take(i + 1).drop_last() =~= addresses@.take(i as int));
                    assert(addresses@.take(i + 1).last() == addresses@[i as int]);
                    proof {
                        reveal_with_fuel(Seq::<_>::filter, 1);
                    }
                    let ghost before_filter = filtered_addresses@;
                    if addresses[i] != self_id {
                        filtered_addresses.push(addresses[i]);
                    }
                    assert(filtered_addresses@ == addresses@.take(i + 1).filter(pred));
                    i = i + 1;
                }
                assert(addresses@.take(i as int) =~= addresses@);
                self.known_nodes = filtered_addresses;
                actions.push(Action::Announce { event: Events::UpdatedRoutingInfo });
            },
            Payload::UpdateBlockchainFromKnownNodes => {
                let random_node = self.known_nodes[0];
                actions.push(Action::RequestBlockchain { to: random_node });
                actions.push(Action::Announce { event: Events::DownloadedBlockchain });
            },
            Payload::PrintInfo => {
                actions.push(Action::PrintInfo);
            },
            Payload::AddTransactionAndMine { from, to, amt } => {
                let w = wallet.unwrap();
                match self.make_transaction_and_mine(from, to, amt, &w, timestamp) {
                    None => {
                        return (Err("The random source is unavailable".to_string()), actions);
                    },
                    Some((block, mut sends)) => {
                        actions.push(Action::Announce { event: Events::MinedTransaction });
                        let ghost first = actions@;
                        let ghost passed = sends@;
                        actions.append(&mut sends);
                        assert(actions@ == first + passed);
                        assert(forall|i: int| 0 <= i < passed.len() ==> #[trigger] actions@[i + 1] == passed[i]);
                        assert(self@.blockchain.blocks.last() == block@);
                    },
                }
            },
            Payload::RequestBlockchain { sender_addr } => {
                actions.push(Action::SendBlockchain { to: sender_addr, blockchain: self.blockchain.duplicate() });
            },
            Payload::Blockchain { blockchain } => {
                if self.blockchain.blocks.len() < blockchain.blocks.len() {
                    let old_blockchain_length = self.blockchain.length;
                    self.blockchain = blockchain;
                    let new_blockchain_length = self.blockchain.length;
                    actions.push(Action::AnnounceFresherBlockchain {
                        old_length: old_blockchain_length,
                        new_length: new_blockchain_length,
                    });
                }
            },
            Payload::Block { block } => {
                self.blockchain.add_block_to_memory_pool(block);
                actions.push(Action::Announce { event: Events::ReceivedNewBlock });
            },
            Payload::PrintWalletBalance { public_key_hash } => {
                let balance = self.wallet_balance(&public_key_hash);
                actions.push(Action::PrintBalance { balance });
            },
        }
        (Ok(GenericResponse::OK), actions)
    }

    /// Handles a message as `handle` does, or returns `None` (leaving the
    /// node as it is) where `handle` would panic.
    pub fn try_handle(&mut self, msg: GenericMessage, self_id: u64, timestamp: u128, wallet: Option<WalletData>) -> (result: Option<(
        Result<GenericResponse, String>,
        Vec<Action>,
    )>)
        ensures
            result is None <==> !handle_ok(old(self)@, msg.0, wallet),
            result is None ==> final(self)@ == old(self)@,
            result matches Some(r) ==> {
                &&& !draws_randomness(msg.0) ==> r.0 is Ok
                &&& r.0 is Ok ==> r.0 == Ok::<GenericResponse, String>(GenericResponse::OK) && handle_spec(
                    old(self)@,
                    msg.0,
                    self_id,
                    timestamp,
                    wallet,
                    final(self)@,
                    r.1@,
                )
                &&& r.0 matches Err(e) ==> {
                    &&& draws_randomness(msg.0)
                    &&& e@ == "The random source is unavailable"@
                    &&& final(self)@ == old(self)@
                    &&& r.1@.len() == 0
                }
            },
    {
        if !self.handle_ready(&msg, &wallet) {
            return None;
        }
        Some(self.handle(msg, self_id, timestamp, wallet))
    }
}

proof fn lemma_balance_ok_prefix(txs: Seq<TransactionView>, pkh: Seq<u8>, i: int)
    requires
        0 <= i <= txs.len(),
        balance_ok(txs, pkh),
    ensures
        balance_ok(txs.take(i), pkh),
        i > 0 ==> locked_sum_ok(
            balance_of(txs.take(i - 1), pkh),
            txs[i - 1],
            pkh,
            txs[i - 1].outputs.len(),
        ),
    decreases txs.len(),
{
    if i < txs.len() {
        assert(txs.drop_last().take(i) =~= txs.take(i));
        assert(i > 0 ==> txs.drop_last().take(i - 1) =~= txs.take(i - 1));
        lemma_balance_ok_prefix(txs.drop_last(), pkh, i);
    } else {
        assert(txs.take(i) =~= txs);
        if i > 0 {
            assert(txs.drop_last() =~= txs.take(i - 1));
        }
    }
}

proof fn lemma_balance_ok_prefix_contra(txs: Seq<TransactionView>, pkh: Seq<u8>, i: int)
    requires
        0 <= i <= txs.len(),
        !balance_ok(txs.take(i), pkh),
    ensures
        !balance_ok(txs, pkh),
{
    if balance_ok(txs, pkh) {
        lemma_balance_ok_prefix(txs, pkh, i);
    }
}

proof fn lemma_locked_sum_ok_prefix(base: int, t: TransactionView, pkh: Seq<u8>, m: nat, n: nat)
    requires
        m <= n,
        locked_sum_ok(base, t, pkh, n),
    ensures
        locked_sum_ok(base, t, pkh, m),
    decreases n,
{
    if m < n {
        lemma_locked_sum_ok_prefix(base, t, pkh, m, (n - 1) as nat);
    }
}

/// After routing information is updated, a node never lists itself among
/// its peers, and keeps every other listed peer.
pub proof fn lemma_routing_excludes_self(addresses: Seq<u64>, self_id: u64)
    ensures
        !addresses.filter(other_than(self_id)).contains(self_id),
        forall|i: int| 0 <= i < addresses.len() && addresses[i] != self_id
            ==> addresses.filter(other_than(self_id)).contains(#[trigger] addresses[i]),
{
    let f = addresses.filter(other_than(self_id));
    if f.contains(self_id) {
        let j = choose|j: int| 0 <= j < f.len() && f[j] == self_id;
        addresses.lemma_filter_pred(other_than(self_id), j);
    }
    assert forall|i: int| 0 <= i < addresses.len() && addresses[i] != self_id
        implies f.contains(#[trigger] addresses[i]) by {
        addresses.lemma_filter_contains(other_than(self_id), i);
    }
}

} // verus!

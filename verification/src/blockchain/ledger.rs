//! Reading the ledger: which transaction outputs are still unspent for a
//! public key hash, which of them pay for an amount, and looking up a
//! transaction by its id.
//!
//! The chain is scanned from its newest block to its oldest, each block's
//! transactions in order. An output counts as spent when an input of a
//! transaction met earlier in that scan (a newer one) refers to it with the
//! same key.

use vstd::prelude::*;

use crate::blockchain::block::BlockView;
use crate::blockchain::transaction::{
    all_inputs_known, is_coinbase_spec, outputs_total, prev_lookup, prevs_view, sign_ok, signed_spec, verify_outcome,
    Transaction, TransactionView, VerifyOutcome,
};
use crate::blockchain::txn::{input_uses_key, output_locked_with, TxnInputView, TxnOutput, TxnOutputView};
use crate::blockchain::{BlockChain, BlockChainView};
use crate::util::{bytes_eq, copy_bytes};
use crate::crypto::secp_public_key_of;

verus! {

/// The transactions of blocks `i..` in scan order: newest block first, each
/// block's transactions in order.
pub open spec fn scan_from(blocks: Seq<BlockView>, i: int) -> Seq<TransactionView>
    decreases blocks.len() - i,
{
    if i < 0 || i >= blocks.len() {
        Seq::empty()
    } else {
        scan_from(blocks, i + 1) + blocks[i].transactions
    }
}

/// All transactions of the chain in scan order.
pub open spec fn scan_order(blocks: Seq<BlockView>) -> Seq<TransactionView> {
    scan_from(blocks, 0)
}

/// The outputs (transaction id, index) that a sequence of inputs spends
/// with the given key.
pub open spec fn inputs_spent(inputs: Seq<TxnInputView>, public_key_hash: Seq<u8>) -> Seq<(Seq<u8>, i32)>
    decreases inputs.len(),
{
    if inputs.len() == 0 {
        Seq::empty()
    } else {
        inputs_spent(inputs.drop_last(), public_key_hash) + if input_uses_key(inputs.last(), public_key_hash) {
            seq![(inputs.last().id, inputs.last().out)]
        } else {
            Seq::empty()
        }
    }
}

/// The outputs that a transaction spends with the given key (none for a
/// coinbase transaction).
pub open spec fn txn_spent(t: TransactionView, public_key_hash: Seq<u8>) -> Seq<(Seq<u8>, i32)> {
    if is_coinbase_spec(t) {
        Seq::empty()
    } else {
        inputs_spent(t.inputs, public_key_hash)
    }
}

/// The outputs spent with the given key by a sequence of transactions.
pub open spec fn spent_list(txs: Seq<TransactionView>, public_key_hash: Seq<u8>) -> Seq<(Seq<u8>, i32)>
    decreases txs.len(),
{
    if txs.len() == 0 {
        Seq::empty()
    } else {
        spent_list(txs.drop_last(), public_key_hash) + txn_spent(txs.last(), public_key_hash)
    }
}

/// Whether output `k` of `t` is locked to the key and not in `spent`.
pub open spec fn output_unspent(
    t: TransactionView,
    k: int,
    spent: Seq<(Seq<u8>, i32)>,
    public_key_hash: Seq<u8>,
) -> bool {
    output_locked_with(t.outputs[k], public_key_hash) && !spent.contains((t.id, k as i32))
}

/// How many of the first `n` outputs of `t` are unspent for the key.
pub open spec fn unspent_count(
    t: TransactionView,
    spent: Seq<(Seq<u8>, i32)>,
    public_key_hash: Seq<u8>,
    n: nat,
) -> nat
    decreases n,
{
    if n == 0 {
        0
    } else {
        unspent_count(t, spent, public_key_hash, (n - 1) as nat) + if output_unspent(
            t,
            n - 1,
            spent,
            public_key_hash,
        ) {
            1nat
        } else {
            0nat
        }
    }
}

/// `t` repeated `n` times.
pub open spec fn repeat(t: TransactionView, n: nat) -> Seq<TransactionView> {
    Seq::new(n, |j: int| t)
}

/// The unspent transactions of a scan: each transaction appears once for
/// every output of it that is locked to the key and not spent by a
/// transaction scanned before it.
pub open spec fn unspent_list(txs: Seq<TransactionView>, public_key_hash: Seq<u8>) -> Seq<TransactionView>
    decreases txs.len(),
{
    if txs.len() == 0 {
        Seq::empty()
    } else {
        unspent_list(txs.drop_last(), public_key_hash) + repeat(
            txs.last(),
            unspent_count(
                txs.last(),
                spent_list(txs.drop_last(), public_key_hash),
                public_key_hash,
                txs.last().outputs.len(),
            ),
        )
    }
}

/// What `find_unspent_transactions` returns.
pub open spec fn unspent_transactions_spec(c: BlockChainView, public_key_hash: Seq<u8>) -> Seq<TransactionView> {
    unspent_list(scan_order(c.blocks), public_key_hash)
}

/// The view of a list of spent outputs.
pub open spec fn spent_view(spent: Seq<(Vec<u8>, i32)>) -> Seq<(Seq<u8>, i32)> {
    spent.map_values(|p: (Vec<u8>, i32)| (p.0@, p.1))
}

/// The views of a list of transaction references.
pub open spec fn txn_refs_view(txns: Seq<&Transaction>) -> Seq<TransactionView> {
    txns.map_values(|t: &Transaction| t@)
}

fn spent_contains(spent: &Vec<(Vec<u8>, i32)>, id: &Vec<u8>, out: i32) -> (found: bool)
    ensures
        found == spent_view(spent@).contains((id@, out)),
{
    let mut j: usize = 0;
    while j < spent.len()
        invariant
            j <= spent@.len(),
            forall|k: int| 0 <= k < j ==> spent_view(spent@)[k] != (id@, out),
        decreases spent@.len() - j,
    {
        if spent[j].1 == out && bytes_eq(spent[j].0.as_slice(), id.as_slice()) {
            assert(spent_view(spent@)[j as int] == (id@, out));
            return true;
        }
        j = j + 1;
    }
    false
}

proof fn lemma_scan_step(blocks: Seq<BlockView>, b: int, t: int)
    requires
        0 <= b < blocks.len(),
        0 <= t < blocks[b].transactions.len(),
    ensures
        (scan_from(blocks, b + 1) + blocks[b].transactions.take(t + 1)).drop_last()
            == scan_from(blocks, b + 1) + blocks[b].transactions.take(t),
        (scan_from(blocks, b + 1) + blocks[b].transactions.take(t + 1)).last() == blocks[b].transactions[t],
{
    assert((scan_from(blocks, b + 1) + blocks[b].transactions.take(t + 1)).drop_last()
        =~= scan_from(blocks, b + 1) + blocks[b].transactions.take(t));
}

proof fn lemma_scan_block_done(blocks: Seq<BlockView>, b: int)
    requires
        0 <= b < blocks.len(),
    ensures
        scan_from(blocks, b + 1) + blocks[b].transactions.take(blocks[b].transactions.len() as int)
            == scan_from(blocks, b),
{
    assert(blocks[b].transactions.take(blocks[b].transactions.len() as int) =~= blocks[b].transactions);
}

proof fn lemma_inputs_spent_contains(inputs: Seq<TxnInputView>, public_key_hash: Seq<u8>, i: int)
    requires
        0 <= i < inputs.len(),
        input_uses_key(inputs[i], public_key_hash),
    ensures
        inputs_spent(inputs, public_key_hash).contains((inputs[i].id, inputs[i].out)),
    decreases inputs.len(),
{
    let x = (inputs[i].id, inputs[i].out);
    let rest = inputs_spent(inputs.drop_last(), public_key_hash);
    let last = if input_uses_key(inputs.last(), public_key_hash) {
        seq![(inputs.last().id, inputs.last().out)]
    } else {
        Seq::<(Seq<u8>, i32)>::empty()
    };
    assert(inputs_spent(inputs, public_key_hash) == rest + last);
    if i < inputs.len() - 1 {
        assert(inputs.drop_last()[i] == inputs[i]);
        lemma_inputs_spent_contains(inputs.drop_last(), public_key_hash, i);
        let j = choose|j: int| 0 <= j < rest.len() && rest[j] == x;
        assert((rest + last)[j] == x);
    } else {
        assert((rest + last)[rest.len() as int] == x);
    }
}

proof fn lemma_spent_list_contains(txs: Seq<TransactionView>, public_key_hash: Seq<u8>, a: int, x: (Seq<u8>, i32))
    requires
        0 <= a < txs.len(),
        txn_spent(txs[a], public_key_hash).contains(x),
    ensures
        spent_list(txs, public_key_hash).contains(x),
    decreases txs.len(),
{
    let rest = spent_list(txs.drop_last(), public_key_hash);
    let last = txn_spent(txs.last(), public_key_hash);
    assert(spent_list(txs, public_key_hash) == rest + last);
    if a < txs.len() - 1 {
        assert(txs.drop_last()[a] == txs[a]);
        lemma_spent_list_contains(txs.drop_last(), public_key_hash, a, x);
        let j = choose|j: int| 0 <= j < rest.len() && rest[j] == x;
        assert((rest + last)[j] == x);
    } else {
        let j = choose|j: int| 0 <= j < last.len() && last[j] == x;
        assert((rest + last)[rest.len() + j] == x);
    }
}

/// A spent output is never unspent: when a transaction scanned before
/// `txs[b]` (that is, a newer one) is not a coinbase and has an input that
/// uses the key and spends output `k` of `txs[b]`, that output is not among
/// the unspent outputs of `txs[b]`, so it adds no entry to the unspent list
/// and nothing to the wallet's balance.
pub proof fn lemma_spent_output_not_unspent(txs: Seq<TransactionView>, public_key_hash: Seq<u8>, a: int, b: int, i: int)
    requires
        0 <= a < b < txs.len(),
        !is_coinbase_spec(txs[a]),
        0 <= i < txs[a].inputs.len(),
        input_uses_key(txs[a].inputs[i], public_key_hash),
        txs[a].inputs[i].id == txs[b].id,
        0 <= txs[a].inputs[i].out < txs[b].outputs.len(),
    ensures
        spent_list(txs.take(b), public_key_hash).contains((txs[b].id, txs[a].inputs[i].out)),
        !output_unspent(txs[b], txs[a].inputs[i].out as int, spent_list(txs.take(b), public_key_hash), public_key_hash),
{
    lemma_inputs_spent_contains(txs[a].inputs, public_key_hash, i);
    assert(txs.take(b)[a] == txs[a]);
    lemma_spent_list_contains(txs.take(b), public_key_hash, a, (txs[a].inputs[i].id, txs[a].inputs[i].out));
    let k = txs[a].inputs[i].out;
    assert(k as int as i32 == k);
}

proof fn lemma_unspent_count_zero(t: TransactionView, spent: Seq<(Seq<u8>, i32)>, public_key_hash: Seq<u8>, n: nat)
    requires
        n <= t.outputs.len(),
        forall|k: int| 0 <= k < n ==> !#[trigger] output_unspent(t, k, spent, public_key_hash),
    ensures
        unspent_count(t, spent, public_key_hash, n) == 0,
    decreases n,
{
    if n > 0 {
        assert(!output_unspent(t, n - 1, spent, public_key_hash));
        lemma_unspent_count_zero(t, spent, public_key_hash, (n - 1) as nat);
    }
}

/// A transaction whose every output locked to the key is spent, with the
/// key, by an input of a newer (earlier scanned) transaction other than a
/// coinbase is not listed at all: scanning it adds nothing to the unspent
/// list, so it adds nothing to the wallet's balance either.
pub proof fn lemma_fully_spent_not_listed(txs: Seq<TransactionView>, public_key_hash: Seq<u8>, b: int)
    requires
        0 <= b < txs.len(),
        forall|k: int|
            0 <= k < txs[b].outputs.len() && output_locked_with(#[trigger] txs[b].outputs[k], public_key_hash)
                ==> exists|a: int, i: int|
                0 <= a < b && !is_coinbase_spec(txs[a]) && 0 <= i < txs[a].inputs.len()
                    && input_uses_key(#[trigger] txs[a].inputs[i], public_key_hash)
                    && txs[a].inputs[i].id == txs[b].id && txs[a].inputs[i].out == k,
    ensures
        unspent_list(txs.take(b + 1), public_key_hash) == unspent_list(txs.take(b), public_key_hash),
{
    let t = txs[b];
    let spent = spent_list(txs.take(b), public_key_hash);
    assert forall|k: int| 0 <= k < t.outputs.len() implies !#[trigger] output_unspent(t, k, spent, public_key_hash) by {
        if output_locked_with(t.outputs[k], public_key_hash) {
            assert(output_locked_with(txs[b].outputs[k], public_key_hash));
            let (a, i) = choose|a: int, i: int|
                0 <= a < b && !is_coinbase_spec(txs[a]) && 0 <= i < txs[a].inputs.len()
                    && input_uses_key(#[trigger] txs[a].inputs[i], public_key_hash)
                    && txs[a].inputs[i].id == txs[b].id && txs[a].inputs[i].out == k;
            lemma_spent_output_not_unspent(txs, public_key_hash, a, b, i);
        }
    }
    lemma_unspent_count_zero(t, spent, public_key_hash, t.outputs.len());
    let pre = txs.take(b + 1);
    assert(pre.drop_last() =~= txs.take(b));
    assert(pre.last() == t);
    assert(repeat(t, 0) =~= Seq::<TransactionView>::empty());
    assert(unspent_list(pre, public_key_hash) =~= unspent_list(txs.take(b), public_key_hash));
}

impl BlockChain {
    /// The transactions with outputs locked to `public_key_hash` that no
    /// newer input with the same key spends; a transaction is listed once
    /// for each such output.
    pub fn find_unspent_transactions(&self, public_key_hash: &Vec<u8>) -> (txns: Vec<&Transaction>)
        ensures
            txn_refs_view(txns@) == unspent_transactions_spec(self@, public_key_hash@),
    {
        let ghost bv = self@.blocks;
        let ghost pkh = public_key_hash@;
        let mut unspent_transactions: Vec<&Transaction> = Vec::new();
        let mut spent_txos: Vec<(Vec<u8>, i32)> = Vec::new();
        let mut b: usize = self.blocks.len();
        while b > 0
            invariant
                b <= self.blocks@.len(),
                bv == self@.blocks,
                pkh == public_key_hash@,
                txn_refs_view(unspent_transactions@) == unspent_list(scan_from(bv, b as int), pkh),
                spent_view(spent_txos@) == spent_list(scan_from(bv, b as int), pkh),
            decreases b,
        {
            b = b - 1;
            let block = &self.blocks[b];
            assert(block@ == bv[b as int]);
            let ghost txs = bv[b as int].transactions;
            let mut t: usize = 0;
            while t < block.transactions.len()
                invariant
                    b < self.blocks@.len(),
                    bv == self@.blocks,
                    pkh == public_key_hash@,
                    block@ == bv[b as int],
                    txs == bv[b as int].transactions,
                    t <= txs.len(),
                    txn_refs_view(unspent_transactions@) == unspent_list(scan_from(bv, b + 1) + txs.take(t as int), pkh),
                    spent_view(spent_txos@) == spent_list(scan_from(bv, b + 1) + txs.take(t as int), pkh),
                decreases txs.len() - t,
            {
                let txn = &block.transactions[t];
                let ghost prefix = scan_from(bv, b + 1) + txs.take(t as int);
                let ghost tv = txn@;
                assert(tv == txs[t as int]);
                proof {
                    lemma_scan_step(bv, b as int, t as int);
                }
                let ghost spent0 = spent_list(prefix, pkh);
                let mut k: usize = 0;
                while k < txn.outputs.len()
                    invariant
                        k <= tv.outputs.len(),
                        tv == txn@,
                        pkh == public_key_hash@,
                        spent_view(spent_txos@) == spent0,
                        txn_refs_view(unspent_transactions@) == unspent_list(prefix, pkh)
                            + repeat(tv, unspent_count(tv, spent0, pkh, k as nat)),
                    decreases tv.outputs.len() - k,
                {
                    let found = spent_contains(&spent_txos, &txn.id, k as i32);
                    assert(txn.outputs@[k as int]@ == tv.outputs[k as int]);
                    if !found && txn.outputs[k].is_locked_with_key(public_key_hash) {
                        assert(output_unspent(tv, k as int, spent0, pkh));
                        assert(unspent_count(tv, spent0, pkh, (k + 1) as nat) == unspent_count(tv, spent0, pkh, k as nat) + 1);
                        let ghost old_view = txn_refs_view(unspent_transactions@);
                        unspent_transactions.push(txn);
                        assert(txn_refs_view(unspent_transactions@) =~= old_view.push(tv));
                        assert(repeat(tv, unspent_count(tv, spent0, pkh, (k + 1) as nat))
                            =~= repeat(tv, unspent_count(tv, spent0, pkh, k as nat)).push(tv));
                        assert(txn_refs_view(unspent_transactions@) =~= unspent_list(prefix, pkh)
                            + repeat(tv, unspent_count(tv, spent0, pkh, (k + 1) as nat)));
                    } else {
                        assert(repeat(tv, unspent_count(tv, spent0, pkh, k as nat))
                            =~= repeat(tv, unspent_count(tv, spent0, pkh, (k + 1) as nat)));
                    }
                    k = k + 1;
                }
                if !txn.is_coinbase() {
                    let mut i: usize = 0;
                    while i < txn.inputs.len()
                        invariant
                            i <= tv.inputs.len(),
                            tv == txn@,
                            pkh == public_key_hash@,
                            !is_coinbase_spec(tv),
                            spent_view(spent_txos@) == spent0 + inputs_spent(tv.inputs.take(i as int), pkh),
                        decreases tv.inputs.len() - i,
                    {
                        assert(tv.inputs.take(i + 1).drop_last() =~= tv.inputs.take(i as int));
                        assert(txn.inputs@[i as int]@ == tv.inputs[i as int]);
                        assert(tv.inputs.take(i + 1).last() == tv.inputs[i as int]);
                        if txn.inputs[i].is_uses_key(public_key_hash) {
                            let ghost old_spent = spent_view(spent_txos@);
                            let id_copy = copy_bytes(txn.inputs[i].id.as_slice());
                            spent_txos.push((id_copy, txn.inputs[i].out));
                            assert(spent_view(spent_txos@) =~= old_spent.push((tv.inputs[i as int].id, tv.inputs[i as int].out)));
                            assert(inputs_spent(tv.inputs.take(i + 1), pkh) == inputs_spent(tv.inputs.take(i as int), pkh)
                                + seq![(tv.inputs[i as int].id, tv.inputs[i as int].out)]);
                            assert(spent_view(spent_txos@) =~= spent0 + inputs_spent(tv.inputs.take(i + 1), pkh));
                        } else {
                            assert(spent_view(spent_txos@) =~= spent0 + inputs_spent(tv.inputs.take(i + 1), pkh));
                        }
                        i = i + 1;
                    }
                    assert(tv.inputs.take(i as int) =~= tv.inputs);
                } else {
                    assert(spent_view(spent_txos@) =~= spent0 + txn_spent(tv, pkh));
                }
                assert(spent_view(spent_txos@) =~= spent_list(scan_from(bv, b + 1) + txs.take(t + 1), pkh));
                assert(txn_refs_view(unspent_transactions@) =~= unspent_list(scan_from(bv, b + 1) + txs.take(t + 1), pkh));
                t = t + 1;
            }
            proof {
                lemma_scan_block_done(bv, b as int);
            }
        }
        unspent_transactions
    }
}


/// Where `find_spendable_outputs` stands while it walks over the unspent
/// transactions: the amount gathered, the outputs taken (transaction id and
/// index) and whether the amount is reached.
pub struct SpendState {
    pub acc: int,
    pub pairs: Seq<(Seq<u8>, i32)>,
    pub done: bool,
}

pub open spec fn spend_init() -> SpendState {
    SpendState { acc: 0, pairs: Seq::empty(), done: false }
}

/// Whether output `k` of `t` is taken: it is locked to the key and the amount
/// is not reached yet.
pub open spec fn takes_output(st: SpendState, t: TransactionView, k: int, public_key_hash: Seq<u8>, amount: i32) -> bool {
    !st.done && output_locked_with(t.outputs[k], public_key_hash) && st.acc < amount
}

/// One step of the walk: output `k` of `t` is taken when it is locked to
/// the key and the amount is not reached; the walk stops once the amount is
/// reached.
pub open spec fn spend_step(st: SpendState, t: TransactionView, k: int, public_key_hash: Seq<u8>, amount: i32) -> SpendState {
    if st.done {
        st
    } else {
        let take = takes_output(st, t, k, public_key_hash, amount);
        let acc = if take { st.acc + t.outputs[k].value } else { st.acc };
        let pairs = if take { st.pairs.push((t.id, k as i32)) } else { st.pairs };
        SpendState { acc, pairs, done: acc >= amount }
    }
}

/// The walk over the first `n` outputs of `t`.
pub open spec fn spend_txn(st: SpendState, t: TransactionView, public_key_hash: Seq<u8>, amount: i32, n: nat) -> SpendState
    decreases n,
{
    if n == 0 {
        st
    } else {
        spend_step(spend_txn(st, t, public_key_hash, amount, (n - 1) as nat), t, n - 1, public_key_hash, amount)
    }
}

/// The walk over a sequence of transactions.
pub open spec fn spend_scan(txs: Seq<TransactionView>, public_key_hash: Seq<u8>, amount: i32) -> SpendState
    decreases txs.len(),
{
    if txs.len() == 0 {
        spend_init()
    } else {
        spend_txn(
            spend_scan(txs.drop_last(), public_key_hash, amount),
            txs.last(),
            public_key_hash,
            amount,
            txs.last().outputs.len(),
        )
    }
}

/// A step does not overflow the `i32` running total.
pub open spec fn step_ok(st: SpendState, t: TransactionView, k: int, public_key_hash: Seq<u8>, amount: i32) -> bool {
    takes_output(st, t, k, public_key_hash, amount) ==> i32::MIN <= st.acc + t.outputs[k].value <= i32::MAX
}

pub open spec fn spend_txn_ok(st: SpendState, t: TransactionView, public_key_hash: Seq<u8>, amount: i32, n: nat) -> bool
    decreases n,
{
    n == 0 || (spend_txn_ok(st, t, public_key_hash, amount, (n - 1) as nat) && step_ok(
        spend_txn(st, t, public_key_hash, amount, (n - 1) as nat),
        t,
        n - 1,
        public_key_hash,
        amount,
    ))
}

/// No step of the walk overflows the `i32` running total.
pub open spec fn spend_scan_ok(txs: Seq<TransactionView>, public_key_hash: Seq<u8>, amount: i32) -> bool
    decreases txs.len(),
{
    txs.len() == 0 || (spend_scan_ok(txs.drop_last(), public_key_hash, amount) && spend_txn_ok(
        spend_scan(txs.drop_last(), public_key_hash, amount),
        txs.last(),
        public_key_hash,
        amount,
        txs.last().outputs.len(),
    ))
}

/// Position of the entry with key `id` in a grouping, searching from the
/// end.
pub open spec fn key_position(g: Seq<(Seq<u8>, Seq<i32>)>, id: Seq<u8>) -> Option<int>
    decreases g.len(),
{
    if g.len() == 0 {
        None
    } else if g.last().0 == id {
        Some(g.len() - 1)
    } else {
        key_position(g.drop_last(), id)
    }
}

/// Adds output `o` under key `id`, as `entry(id).or_insert(vec![]).push(o)`
/// does on a map.
pub open spec fn group_insert(g: Seq<(Seq<u8>, Seq<i32>)>, id: Seq<u8>, o: i32) -> Seq<(Seq<u8>, Seq<i32>)> {
    match key_position(g, id) {
        Some(p) => g.update(p, (g[p].0, g[p].1.push(o))),
        None => g.push((id, seq![o])),
    }
}

/// The outputs taken, grouped by transaction id (keys in order of first
/// appearance).
pub open spec fn group_pairs(pairs: Seq<(Seq<u8>, i32)>) -> Seq<(Seq<u8>, Seq<i32>)>
    decreases pairs.len(),
{
    if pairs.len() == 0 {
        Seq::empty()
    } else {
        group_insert(group_pairs(pairs.drop_last()), pairs.last().0, pairs.last().1)
    }
}

/// What `find_spendable_outputs` returns: the amount gathered and the
/// outputs taken, grouped by transaction id.
pub open spec fn spendable_spec(c: BlockChainView, public_key_hash: Seq<u8>, amount: i32) -> (int, Seq<(Seq<u8>, Seq<i32>)>) {
    let st = spend_scan(unspent_transactions_spec(c, public_key_hash), public_key_hash, amount);
    (st.acc, group_pairs(st.pairs))
}

/// When `find_spendable_outputs` runs without overflowing its total.
pub open spec fn spendable_ok(c: BlockChainView, public_key_hash: Seq<u8>, amount: i32) -> bool {
    spend_scan_ok(unspent_transactions_spec(c, public_key_hash), public_key_hash, amount)
}

/// `out` is output `k` of a transaction of `all` whose id and position
/// `pair` names, and it is locked to the key.
pub open spec fn taken_from(
    all: Seq<TransactionView>,
    pair: (Seq<u8>, i32),
    out: TxnOutputView,
    public_key_hash: Seq<u8>,
) -> bool {
    &&& output_locked_with(out, public_key_hash)
    &&& exists|m: int, k: int|
        0 <= m < all.len() && 0 <= k < all[m].outputs.len() && #[trigger] all[m].outputs[k] == out
            && all[m].id == pair.0 && pair.1 == k as i32
}

/// The names (transaction id, position) of taken outputs.
pub open spec fn taken_names(taken: Seq<((Seq<u8>, i32), TxnOutputView)>) -> Seq<(Seq<u8>, i32)> {
    taken.map_values(|e: ((Seq<u8>, i32), TxnOutputView)| e.0)
}

/// The total value of taken outputs.
pub open spec fn taken_total(taken: Seq<((Seq<u8>, i32), TxnOutputView)>) -> int {
    outputs_total(taken.map_values(|e: ((Seq<u8>, i32), TxnOutputView)| e.1))
}

spec fn spend_witness(
    all: Seq<TransactionView>,
    st: SpendState,
    taken: Seq<((Seq<u8>, i32), TxnOutputView)>,
    public_key_hash: Seq<u8>,
) -> bool {
    &&& taken_names(taken) == st.pairs
    &&& st.acc == taken_total(taken)
    &&& forall|j: int| 0 <= j < taken.len() ==> taken_from(all, (#[trigger] taken[j]).0, taken[j].1, public_key_hash)
}

proof fn lemma_spend_txn_witness(
    all: Seq<TransactionView>,
    m: int,
    st: SpendState,
    taken: Seq<((Seq<u8>, i32), TxnOutputView)>,
    public_key_hash: Seq<u8>,
    amount: i32,
    n: nat,
) -> (taken2: Seq<((Seq<u8>, i32), TxnOutputView)>)
    requires
        0 <= m < all.len(),
        n <= all[m].outputs.len(),
        spend_witness(all, st, taken, public_key_hash),
    ensures
        spend_witness(all, spend_txn(st, all[m], public_key_hash, amount, n), taken2, public_key_hash),
    decreases n,
{
    if n == 0 {
        taken
    } else {
        let prev = lemma_spend_txn_witness(all, m, st, taken, public_key_hash, amount, (n - 1) as nat);
        let t = all[m];
        let k = n - 1;
        let s1 = spend_txn(st, t, public_key_hash, amount, (n - 1) as nat);
        if takes_output(s1, t, k, public_key_hash, amount) {
            let o = t.outputs[k];
            let e = ((t.id, k as i32), o);
            let r = prev.push(e);
            assert(taken_names(r) =~= taken_names(prev).push((t.id, k as i32)));
            let vals = r.map_values(|x: ((Seq<u8>, i32), TxnOutputView)| x.1);
            assert(vals.drop_last() =~= prev.map_values(|x: ((Seq<u8>, i32), TxnOutputView)| x.1));
            assert(vals.last() == o);
            assert(all[m].outputs[k] == o);
            assert(taken_from(all, e.0, e.1, public_key_hash));
            assert forall|j: int| 0 <= j < r.len() implies taken_from(all, (#[trigger] r[j]).0, r[j].1, public_key_hash) by {
                if j < prev.len() {
                    assert(r[j] == prev[j]);
                }
            }
            r
        } else {
            prev
        }
    }
}

proof fn lemma_spend_scan_witness(all: Seq<TransactionView>, txs: Seq<TransactionView>, public_key_hash: Seq<u8>, amount: i32)
    -> (taken: Seq<((Seq<u8>, i32), TxnOutputView)>)
    requires
        txs.len() <= all.len(),
        forall|i: int| 0 <= i < txs.len() ==> txs[i] == all[i],
    ensures
        spend_witness(all, spend_scan(txs, public_key_hash, amount), taken, public_key_hash),
    decreases txs.len(),
{
    if txs.len() == 0 {
        let e = Seq::<((Seq<u8>, i32), TxnOutputView)>::empty();
        assert(taken_names(e) =~= Seq::<(Seq<u8>, i32)>::empty());
        assert(e.map_values(|x: ((Seq<u8>, i32), TxnOutputView)| x.1) =~= Seq::<TxnOutputView>::empty());
        e
    } else {
        let prev = lemma_spend_scan_witness(all, txs.drop_last(), public_key_hash, amount);
        let m = txs.len() - 1;
        assert(txs.last() == all[m]);
        lemma_spend_txn_witness(
            all,
            m,
            spend_scan(txs.drop_last(), public_key_hash, amount),
            prev,
            public_key_hash,
            amount,
            all[m].outputs.len(),
        )
    }
}

proof fn lemma_key_position_found(g: Seq<(Seq<u8>, Seq<i32>)>, id: Seq<u8>)
    ensures
        key_position(g, id) matches Some(p) ==> 0 <= p < g.len() && g[p].0 == id,
    decreases g.len(),
{
    if g.len() > 0 && g.last().0 != id {
        lemma_key_position_found(g.drop_last(), id);
    }
}

/// Every output that a grouping names was among the grouped pairs.
proof fn lemma_group_pairs_members(pairs: Seq<(Seq<u8>, i32)>)
    ensures
        forall|g: int, i: int| 0 <= g < group_pairs(pairs).len() && 0 <= i < group_pairs(pairs)[g].1.len()
            ==> pairs.contains((group_pairs(pairs)[g].0, #[trigger] group_pairs(pairs)[g].1[i])),
    decreases pairs.len(),
{
    if pairs.len() > 0 {
        let rest = pairs.drop_last();
        lemma_group_pairs_members(rest);
        let gp = group_pairs(rest);
        let id = pairs.last().0;
        let o = pairs.last().1;
        lemma_key_position_found(gp, id);
        let res = group_pairs(pairs);
        assert(res == group_insert(gp, id, o));
        assert(pairs[pairs.len() - 1] == (id, o));
        assert forall|g: int, i: int| 0 <= g < res.len() && 0 <= i < res[g].1.len()
            implies pairs.contains((res[g].0, #[trigger] res[g].1[i])) by {
            let x = (res[g].0, res[g].1[i]);
            if x == (id, o) {
            } else {
                match key_position(gp, id) {
                    Some(p) => {
                        if g == p {
                            assert(i < gp[p].1.len());
                            assert(res[g].1[i] == gp[p].1[i]);
                        } else {
                            assert(res[g] == gp[g]);
                        }
                    },
                    None => {
                        assert(g < gp.len());
                        assert(res[g] == gp[g]);
                    },
                }
                assert(rest.contains(x));
                let j = choose|j: int| 0 <= j < rest.len() && rest[j] == x;
                assert(pairs[j] == x);
            }
        }
    }
}

/// Output `o` (a position, as `i32`) of a transaction of `all` with id `id`
/// is locked to the key.
pub open spec fn locked_output_named(all: Seq<TransactionView>, id: Seq<u8>, o: i32, public_key_hash: Seq<u8>) -> bool {
    exists|m: int, k: int|
        #![trigger all[m].outputs[k]]
        0 <= m < all.len() && 0 <= k < all[m].outputs.len() && all[m].id == id && o == k as i32
            && output_locked_with(all[m].outputs[k], public_key_hash)
}

/// Every output that a grouping names (by transaction id and position) is
/// an output, locked to the key, of a transaction of `all` with that id.
pub open spec fn names_locked_outputs(
    all: Seq<TransactionView>,
    groups: Seq<(Seq<u8>, Seq<i32>)>,
    public_key_hash: Seq<u8>,
) -> bool {
    forall|g: int, i: int|
        0 <= g < groups.len() && 0 <= i < groups[g].1.len()
            ==> #[trigger] locked_output_named(all, groups[g].0, groups[g].1[i], public_key_hash)
}

proof fn lemma_names_locked(
    all: Seq<TransactionView>,
    pairs: Seq<(Seq<u8>, i32)>,
    taken: Seq<((Seq<u8>, i32), TxnOutputView)>,
    public_key_hash: Seq<u8>,
)
    requires
        taken_names(taken) == pairs,
        forall|j: int| 0 <= j < taken.len() ==> taken_from(all, (#[trigger] taken[j]).0, taken[j].1, public_key_hash),
    ensures
        names_locked_outputs(all, group_pairs(pairs), public_key_hash),
{
    lemma_group_pairs_members(pairs);
    let groups = group_pairs(pairs);
    assert forall|g: int, i: int| 0 <= g < groups.len() && 0 <= i < groups[g].1.len()
        implies #[trigger] locked_output_named(all, groups[g].0, groups[g].1[i], public_key_hash) by {
        let x = (groups[g].0, groups[g].1[i]);
        assert(pairs.contains(x));
        let j = choose|j: int| 0 <= j < pairs.len() && pairs[j] == x;
        assert(taken_names(taken)[j] == taken[j].0);
        assert(taken_from(all, taken[j].0, taken[j].1, public_key_hash));
        let (m, k) = choose|m: int, k: int|
            0 <= m < all.len() && 0 <= k < all[m].outputs.len() && #[trigger] all[m].outputs[k] == taken[j].1
                && all[m].id == taken[j].0.0 && taken[j].0.1 == k as i32;
        assert(all[m].outputs[k] == taken[j].1);
    }
}

/// Gathering spendable outputs takes only outputs locked to the key: every
/// output that `find_spendable_outputs` names (by transaction id and
/// position) is an output, locked to the key, of one of the wallet's unspent
/// transactions; and the total it returns is exactly the sum of the values
/// of the outputs it took, which the returned grouping names.
pub proof fn lemma_spendable_outputs_locked(c: BlockChainView, public_key_hash: Seq<u8>, amount: i32)
    -> (taken: Seq<((Seq<u8>, i32), TxnOutputView)>)
    ensures
        spendable_spec(c, public_key_hash, amount).0 == taken_total(taken),
        spendable_spec(c, public_key_hash, amount).1 == group_pairs(taken_names(taken)),
        forall|j: int| 0 <= j < taken.len() ==> taken_from(
            unspent_transactions_spec(c, public_key_hash),
            (#[trigger] taken[j]).0,
            taken[j].1,
            public_key_hash,
        ),
        names_locked_outputs(
            unspent_transactions_spec(c, public_key_hash),
            spendable_spec(c, public_key_hash, amount).1,
            public_key_hash,
        ),
{
    let all = unspent_transactions_spec(c, public_key_hash);
    let taken = lemma_spend_scan_witness(all, all, public_key_hash, amount);
    let st = spend_scan(all, public_key_hash, amount);
    lemma_names_locked(all, st.pairs, taken, public_key_hash);
    taken
}

/// The view of a grouping of outputs by transaction id.
pub open spec fn groups_view(g: Seq<(Vec<u8>, Vec<i32>)>) -> Seq<(Seq<u8>, Seq<i32>)> {
    g.map_values(|e: (Vec<u8>, Vec<i32>)| (e.0@, e.1@))
}

proof fn lemma_key_position_last_match(g: Seq<(Seq<u8>, Seq<i32>)>, id: Seq<u8>, p: int)
    requires
        0 <= p < g.len(),
        g[p].0 == id,
        forall|m: int| p < m < g.len() ==> g[m].0 != id,
    ensures
        key_position(g, id) == Some(p),
    decreases g.len(),
{
    if p < g.len() - 1 {
        lemma_key_position_last_match(g.drop_last(), id, p);
    }
}

proof fn lemma_key_position_none(g: Seq<(Seq<u8>, Seq<i32>)>, id: Seq<u8>)
    requires
        forall|m: int| 0 <= m < g.len() ==> g[m].0 != id,
    ensures
        key_position(g, id) is None,
    decreases g.len(),
{
    if g.len() > 0 {
        lemma_key_position_none(g.drop_last(), id);
    }
}

fn group_push(groups: &mut Vec<(Vec<u8>, Vec<i32>)>, id: &Vec<u8>, o: i32)
    ensures
        groups_view(final(groups)@) == group_insert(groups_view(old(groups)@), id@, o),
{
    let ghost g = groups_view(groups@);
    let mut j: usize = groups.len();
    while j > 0
        invariant
            j <= groups@.len(),
            g == groups_view(groups@),
            groups@ == old(groups)@,
            forall|m: int| j <= m < g.len() ==> g[m].0 != id@,
        decreases j,
    {
        if bytes_eq(groups[j - 1].0.as_slice(), id.as_slice()) {
            let p = j - 1;
            proof {
                lemma_key_position_last_match(g, id@, p as int);
            }
            let (key, mut outs) = groups.remove(p);
            outs.push(o);
            groups.insert(p, (key, outs));
            assert(groups_view(groups@) =~= g.update(p as int, (g[p as int].0, g[p as int].1.push(o))));
            return;
        }
        j = j - 1;
    }
    proof {
        lemma_key_position_none(g, id@);
    }
    let mut outs: Vec<i32> = Vec::new();
    outs.push(o);
    groups.push((copy_bytes(id.as_slice()), outs));
    assert(groups_view(groups@) =~= g.push((id@, seq![o])));
}

proof fn lemma_spend_txn_done(st: SpendState, t: TransactionView, pkh: Seq<u8>, amount: i32, j: nat, n: nat)
    requires
        j <= n,
        spend_txn(st, t, pkh, amount, j).done,
    ensures
        spend_txn(st, t, pkh, amount, n) == spend_txn(st, t, pkh, amount, j),
    decreases n,
{
    if n > j {
        lemma_spend_txn_done(st, t, pkh, amount, j, (n - 1) as nat);
    }
}

proof fn lemma_spend_scan_done(txs: Seq<TransactionView>, pkh: Seq<u8>, amount: i32, i: int)
    requires
        0 <= i <= txs.len(),
        spend_scan(txs.take(i), pkh, amount).done,
    ensures
        spend_scan(txs, pkh, amount) == spend_scan(txs.take(i), pkh, amount),
    decreases txs.len(),
{
    if i < txs.len() {
        assert(txs.drop_last().take(i) =~= txs.take(i));
        lemma_spend_scan_done(txs.drop_last(), pkh, amount, i);
        let st = spend_scan(txs.drop_last(), pkh, amount);
        lemma_spend_txn_done(st, txs.last(), pkh, amount, 0, txs.last().outputs.len());
    } else {
        assert(txs.take(i) =~= txs);
    }
}

proof fn lemma_spend_scan_ok_prefix(txs: Seq<TransactionView>, pkh: Seq<u8>, amount: i32, i: int)
    requires
        0 <= i <= txs.len(),
        spend_scan_ok(txs, pkh, amount),
    ensures
        spend_scan_ok(txs.take(i), pkh, amount),
    decreases txs.len(),
{
    if i < txs.len() {
        assert(txs.drop_last().take(i) =~= txs.take(i));
        lemma_spend_scan_ok_prefix(txs.drop_last(), pkh, amount, i);
    } else {
        assert(txs.take(i) =~= txs);
    }
}

proof fn lemma_spend_txn_ok_prefix(st: SpendState, t: TransactionView, pkh: Seq<u8>, amount: i32, k: nat, n: nat)
    requires
        k < n,
        spend_txn_ok(st, t, pkh, amount, n),
    ensures
        step_ok(spend_txn(st, t, pkh, amount, k), t, k as int, pkh, amount),
    decreases n,
{
    if k < n - 1 {
        lemma_spend_txn_ok_prefix(st, t, pkh, amount, k, (n - 1) as nat);
    }
}

impl BlockChain {
    /// Walks over the unspent transactions of `public_key_hash` and takes
    /// their outputs locked to it until `amount` is reached; returns the
    /// amount gathered and the outputs taken, grouped by transaction id.
    pub fn find_spendable_outputs(&self, public_key_hash: &Vec<u8>, amount: i32) -> (result: (i32, Vec<(Vec<u8>, Vec<i32>)>))
        requires
            spendable_ok(self@, public_key_hash@, amount),
        ensures
            result.0 as int == spendable_spec(self@, public_key_hash@, amount).0,
            groups_view(result.1@) == spendable_spec(self@, public_key_hash@, amount).1,
    {
        let ghost pkh = public_key_hash@;
        let unspent_txns = self.find_unspent_transactions(public_key_hash);
        let ghost txs = txn_refs_view(unspent_txns@);
        let mut unspent_outputs: Vec<(Vec<u8>, Vec<i32>)> = Vec::new();
        let mut accumulated: i32 = 0;
        let mut u: usize = 0;
        while u < unspent_txns.len()
            invariant
                u <= txs.len() == unspent_txns@.len(),
                txs == txn_refs_view(unspent_txns@),
                txs == unspent_transactions_spec(self@, pkh),
                pkh == public_key_hash@,
                spend_scan_ok(txs, pkh, amount),
                !spend_scan(txs.take(u as int), pkh, amount).done,
                accumulated as int == spend_scan(txs.take(u as int), pkh, amount).acc,
                groups_view(unspent_outputs@) == group_pairs(spend_scan(txs.take(u as int), pkh, amount).pairs),
            decreases txs.len() - u,
        {
            let txn = unspent_txns[u];
            let ghost tv = txs[u as int];
            assert(txn@ == tv);
            let ghost st0 = spend_scan(txs.take(u as int), pkh, amount);
            assert(txs.take(u + 1).drop_last() =~= txs.take(u as int));
            assert(txs.take(u + 1).last() == tv);
            proof {
                lemma_spend_scan_ok_prefix(txs, pkh, amount, u + 1);
            }
            let mut k: usize = 0;
            while k < txn.outputs.len()
                invariant
                    k <= tv.outputs.len(),
                    tv == txn@,
                    pkh == public_key_hash@,
                    spend_txn_ok(st0, tv, pkh, amount, tv.outputs.len()),
                    !spend_txn(st0, tv, pkh, amount, k as nat).done,
                    accumulated as int == spend_txn(st0, tv, pkh, amount, k as nat).acc,
                    groups_view(unspent_outputs@) == group_pairs(spend_txn(st0, tv, pkh, amount, k as nat).pairs),
                    u < txs.len(),
                    txs.take(u + 1).drop_last() == txs.take(u as int),
                    txs.take(u + 1).last() == tv,
                    st0 == spend_scan(txs.take(u as int), pkh, amount),
                    txs == unspent_transactions_spec(self@, pkh),
                    spend_scan_ok(txs, pkh, amount),
                decreases tv.outputs.len() - k,
            {
                let ghost st = spend_txn(st0, tv, pkh, amount, k as nat);
                proof {
                    lemma_spend_txn_ok_prefix(st0, tv, pkh, amount, k as nat, tv.outputs.len());
                }
                assert(txn.outputs@[k as int]@ == tv.outputs[k as int]);
                if txn.outputs[k].is_locked_with_key(public_key_hash) && accumulated < amount {
                    accumulated = accumulated + txn.outputs[k].value;
                    group_push(&mut unspent_outputs, &txn.id, k as i32);
                    assert(st.pairs.push((tv.id, k as i32)).drop_last() =~= st.pairs);
                }
                assert(spend_txn(st0, tv, pkh, amount, (k + 1) as nat) == spend_step(st, tv, k as int, pkh, amount));
                if accumulated >= amount {
                    proof {
                        lemma_spend_txn_done(st0, tv, pkh, amount, (k + 1) as nat, tv.outputs.len());
                        assert(spend_scan(txs.take(u + 1), pkh, amount) == spend_txn(st0, tv, pkh, amount, tv.outputs.len()));
                        lemma_spend_scan_done(txs, pkh, amount, u + 1);
                    }
                    return (accumulated, unspent_outputs);
                }
                k = k + 1;
            }
            assert(spend_scan(txs.take(u + 1), pkh, amount) == spend_txn(st0, tv, pkh, amount, tv.outputs.len()));
            u = u + 1;
        }
        assert(txs.take(u as int) =~= txs);
        (accumulated, unspent_outputs)
    }
}


/// The first transaction of a sequence with the given id.
pub open spec fn first_with_id(ts: Seq<TransactionView>, id: Seq<u8>) -> Option<TransactionView>
    decreases ts.len(),
{
    if ts.len() == 0 {
        None
    } else if ts[0].id == id {
        Some(ts[0])
    } else {
        first_with_id(ts.drop_first(), id)
    }
}

/// Looks for a transaction by id from block `i` down to the first block;
/// the search stops after a block with an empty previous hash.
pub open spec fn lookup_from(blocks: Seq<BlockView>, i: int, id: Seq<u8>) -> Option<TransactionView>
    decreases i + 1,
{
    if i < 0 || i >= blocks.len() {
        None
    } else {
        match first_with_id(blocks[i].transactions, id) {
            Some(t) => Some(t),
            None => if blocks[i].prev_hash.len() == 0 {
                None
            } else {
                lookup_from(blocks, i - 1, id)
            },
        }
    }
}

/// What `find_transaction` finds: the first transaction with the id in
/// the newest block that has one, searching no further back than the
/// newest block with an empty previous hash.
pub open spec fn find_transaction_spec(c: BlockChainView, id: Seq<u8>) -> Option<TransactionView> {
    lookup_from(c.blocks, c.blocks.len() - 1, id)
}

impl BlockChain {
    /// Finds a transaction by its id.
    pub fn find_transaction(&self, id: &Vec<u8>) -> (found: Result<&Transaction, &'static str>)
        ensures
            match found {
                Ok(t) => find_transaction_spec(self@, id@) == Some(t@),
                Err(e) => find_transaction_spec(self@, id@) is None && e@ == "Transaction not found"@,
            },
    {
        let ghost bv = self@.blocks;
        let mut b: usize = self.blocks.len();
        while b > 0
            invariant
                b <= self.blocks@.len(),
                bv == self@.blocks,
                find_transaction_spec(self@, id@) == lookup_from(bv, b - 1, id@),
            decreases b,
        {
            b = b - 1;
            let block = &self.blocks[b];
            assert(block@ == bv[b as int]);
            let ghost ts = bv[b as int].transactions;
            assert(ts.subrange(0, ts.len() as int) =~= ts);
            let mut t: usize = 0;
            while t < block.transactions.len()
                invariant
                    b < bv.len(),
                    bv == self@.blocks,
                    block@ == bv[b as int],
                    ts == bv[b as int].transactions,
                    t <= ts.len(),
                    first_with_id(ts, id@) == first_with_id(ts.subrange(t as int, ts.len() as int), id@),
                    find_transaction_spec(self@, id@) == lookup_from(bv, b as int, id@),
                decreases ts.len() - t,
            {
                let txn = &block.transactions[t];
                assert(txn@ == ts[t as int]);
                assert(ts.subrange(t as int, ts.len() as int).drop_first() =~= ts.subrange(t + 1, ts.len() as int));
                if bytes_eq(txn.id.as_slice(), id.as_slice()) {
                    return Ok(txn);
                }
                t = t + 1;
            }
            assert(ts.subrange(t as int, ts.len() as int) =~= Seq::<TransactionView>::empty());
            if block.prev_hash.len() == 0 {
                proof {
                    reveal_strlit("Transaction not found");
                }
                return Err("Transaction not found");
            }
        }
        proof {
            reveal_strlit("Transaction not found");
        }
        Err("Transaction not found")
    }
}


/// The earlier transactions that `sign_transaction` and
/// `verify_transaction` hand over: for each input, the transaction that
/// `find_transaction` finds for its id.
pub open spec fn chain_prevs(c: BlockChainView, t: TransactionView) -> Seq<TransactionView> {
    t.inputs.map_values(|input: TxnInputView| find_transaction_spec(c, input.id).unwrap())
}

/// `find_transaction` finds the transaction of every input.
pub open spec fn inputs_found(c: BlockChainView, t: TransactionView) -> bool {
    forall|i: int| 0 <= i < t.inputs.len() ==> (#[trigger] find_transaction_spec(c, t.inputs[i].id)) is Some
}

/// When `sign_transaction` runs without a panic.
pub open spec fn sign_transaction_ok(c: BlockChainView, t: TransactionView, secret: Seq<u8>) -> bool {
    inputs_found(c, t) && sign_ok(t, chain_prevs(c, t), secret)
}

/// What `sign_transaction` makes of a transaction.
pub open spec fn sign_transaction_spec(c: BlockChainView, t: TransactionView, secret: Seq<u8>) -> TransactionView {
    if is_coinbase_spec(t) {
        t
    } else {
        signed_spec(t, chain_prevs(c, t), secret)
    }
}

proof fn lemma_first_with_id(ts: Seq<TransactionView>, id: Seq<u8>)
    ensures
        first_with_id(ts, id) matches Some(t) ==> t.id == id,
    decreases ts.len(),
{
    if ts.len() > 0 && ts[0].id != id {
        lemma_first_with_id(ts.drop_first(), id);
    }
}

proof fn lemma_lookup_from_id(blocks: Seq<BlockView>, i: int, id: Seq<u8>)
    ensures
        lookup_from(blocks, i, id) matches Some(t) ==> t.id == id,
    decreases i + 1,
{
    if 0 <= i < blocks.len() {
        lemma_first_with_id(blocks[i].transactions, id);
        lemma_lookup_from_id(blocks, i - 1, id);
    }
}

/// A transaction found by id has that id.
pub proof fn lemma_found_has_id(c: BlockChainView, id: Seq<u8>)
    ensures
        find_transaction_spec(c, id) matches Some(t) ==> t.id == id,
{
    lemma_lookup_from_id(c.blocks, c.blocks.len() - 1, id);
}

proof fn lemma_prev_lookup_some(prevs: Seq<TransactionView>, id: Seq<u8>, j: int)
    requires
        0 <= j < prevs.len(),
        prevs[j].id == id,
    ensures
        prev_lookup(prevs, id) is Some,
    decreases prevs.len(),
{
    if prevs.last().id != id {
        lemma_prev_lookup_some(prevs.drop_last(), id, j);
    }
}

/// When every input is found in the chain, every input is known among the
/// transactions handed to `sign` and `verify`.
pub proof fn lemma_chain_prevs_known(c: BlockChainView, t: TransactionView)
    requires
        inputs_found(c, t),
    ensures
        all_inputs_known(t, chain_prevs(c, t)),
{
    let prevs = chain_prevs(c, t);
    assert forall|i: int| 0 <= i < t.inputs.len() implies (#[trigger] prev_lookup(prevs, t.inputs[i].id)) is Some by {
        assert(find_transaction_spec(c, t.inputs[i].id) is Some);
        lemma_found_has_id(c, t.inputs[i].id);
        lemma_prev_lookup_some(prevs, t.inputs[i].id, i);
    }
}

/// Signing a transaction through the chain is signing it with
/// `Transaction::sign` over the chain's earlier transactions of its inputs:
/// those are all known to `sign`, so a coinbase transaction is left as it is
/// and any other gets every input signed over them.
pub proof fn lemma_sign_transaction_is_sign(c: BlockChainView, t: TransactionView, secret: Seq<u8>)
    requires
        inputs_found(c, t),
    ensures
        all_inputs_known(t, chain_prevs(c, t)),
        is_coinbase_spec(t) ==> sign_transaction_spec(c, t, secret) == t,
        !is_coinbase_spec(t) ==> sign_transaction_spec(c, t, secret) == signed_spec(t, chain_prevs(c, t), secret),
{
    lemma_chain_prevs_known(c, t);
}

impl BlockChain {
    /// The transactions that the inputs of `txn` spend, found in the chain.
    fn collect_prev_txns(&self, txn: &Transaction) -> (prevs: Vec<&Transaction>)
        requires
            inputs_found(self@, txn@),
        ensures
            prevs_view(prevs@) == chain_prevs(self@, txn@),
    {
        let mut prevs: Vec<&Transaction> = Vec::new();
        let mut i: usize = 0;
        while i < txn.inputs.len()
            invariant
                i <= txn@.inputs.len(),
                inputs_found(self@, txn@),
                prevs@.len() == i,
                forall|j: int| 0 <= j < i ==> (#[trigger] prevs@[j])@ == chain_prevs(self@, txn@)[j],
            decreases txn@.inputs.len() - i,
        {
            assert(txn.inputs@[i as int]@ == txn@.inputs[i as int]);
            assert(find_transaction_spec(self@, txn@.inputs[i as int].id) is Some);
            let prev_txn = match self.find_transaction(&txn.inputs[i].id) {
                Ok(t) => t,
                Err(_) => {
                    assert(false);
                    return prevs;
                },
            };
            prevs.push(prev_txn);
            i = i + 1;
        }
        assert(prevs_view(prevs@) =~= chain_prevs(self@, txn@));
        prevs
    }

    /// Whether every input of `txn` is found in the chain.
    pub fn inputs_found(&self, txn: &Transaction) -> (found: bool)
        ensures
            found == inputs_found(self@, txn@),
    {
        let mut i: usize = 0;
        while i < txn.inputs.len()
            invariant
                i <= txn@.inputs.len(),
                forall|j: int| 0 <= j < i ==> (#[trigger] find_transaction_spec(self@, txn@.inputs[j].id)) is Some,
            decreases txn@.inputs.len() - i,
        {
            assert(txn.inputs@[i as int]@ == txn@.inputs[i as int]);
            if self.find_transaction(&txn.inputs[i].id).is_err() {
                assert(!(find_transaction_spec(self@, txn@.inputs[i as int].id) is Some));
                return false;
            }
            i = i + 1;
        }
        true
    }

    /// Signs the inputs of `txn` with `private_key`, handing `sign` the
    /// transactions that the inputs spend.
    pub fn sign_transaction(&self, txn: &mut Transaction, private_key: &Vec<u8>)
        requires
            sign_transaction_ok(self@, old(txn)@, private_key@),
        ensures
            final(txn)@ == sign_transaction_spec(self@, old(txn)@, private_key@),
            !is_coinbase_spec(old(txn)@) ==> forall|i: int|
                0 <= i < final(txn)@.inputs.len() ==> (#[trigger] final(txn)@.inputs[i]).signature.len() == 64,
            (forall|i: int| 0 <= i < old(txn)@.inputs.len()
                ==> (#[trigger] old(txn)@.inputs[i]).public_key == secp_public_key_of(private_key@)) ==> {
                &&& inputs_found(self@, final(txn)@)
                &&& verify_outcome(final(txn)@, chain_prevs(self@, final(txn)@)) == VerifyOutcome::Valid
            },
    {
        let ghost t = txn@;
        let prev_txns = self.collect_prev_txns(txn);
        proof {
            lemma_chain_prevs_known(self@, txn@);
        }
        let result = txn.sign(private_key, &prev_txns);
        proof {
            let f = txn@;
            assert(f.inputs.len() == t.inputs.len());
            assert forall|i: int| 0 <= i < f.inputs.len() implies #[trigger] f.inputs[i].id == t.inputs[i].id by {}
            assert(chain_prevs(self@, f) =~= chain_prevs(self@, t));
            assert forall|i: int| 0 <= i < f.inputs.len() implies
                (#[trigger] find_transaction_spec(self@, f.inputs[i].id)) is Some by {
                assert(f.inputs[i].id == t.inputs[i].id);
                assert(find_transaction_spec(self@, t.inputs[i].id) is Some);
            }
        }
    }

    /// Whether `sign_transaction` can run on `txn` without a panic.
    pub fn sign_transaction_ready(&self, txn: &Transaction, private_key: &Vec<u8>) -> (ready: bool)
        ensures
            ready == sign_transaction_ok(self@, txn@, private_key@),
    {
        if !self.inputs_found(txn) {
            return false;
        }
        let prev_txns = self.collect_prev_txns(txn);
        txn.sign_ready(private_key, &prev_txns)
    }

    /// Verifies the signatures of `txn` against the transactions that its
    /// inputs spend; it returns only when they all verify.
    pub fn verify_transaction(&self, txn: &mut Transaction) -> (valid: bool)
        requires
            inputs_found(self@, old(txn)@),
            verify_outcome(old(txn)@, chain_prevs(self@, old(txn)@)) == VerifyOutcome::Valid,
        ensures
            valid,
            final(txn)@ == old(txn)@,
    {
        let prev_txns = self.collect_prev_txns(txn);
        match txn.verify(&prev_txns) {
            Ok(v) => v,
            Err(_) => false,
        }
    }

    /// `Some(true)` where `verify_transaction` returns, `None` where it
    /// panics: an input is not found, or verification fails or panics.
    pub fn try_verify_transaction(&self, txn: &mut Transaction) -> (valid: Option<bool>)
        ensures
            final(txn)@ == old(txn)@,
            valid is Some <==> inputs_found(self@, old(txn)@)
                && verify_outcome(old(txn)@, chain_prevs(self@, old(txn)@)) == VerifyOutcome::Valid,
            valid is Some ==> valid == Some(true),
    {
        if !self.inputs_found(txn) {
            return None;
        }
        let prev_txns = self.collect_prev_txns(txn);
        match txn.try_verify(&prev_txns) {
            Some(Ok(true)) => Some(self.verify_transaction(txn)),
            _ => None,
        }
    }
}


proof fn lemma_spend_txn_ok_done(st: SpendState, t: TransactionView, pkh: Seq<u8>, amount: i32, j: nat, n: nat)
    requires
        j <= n,
        spend_txn(st, t, pkh, amount, j).done,
        spend_txn_ok(st, t, pkh, amount, j),
    ensures
        spend_txn_ok(st, t, pkh, amount, n),
    decreases n,
{
    if n > j {
        lemma_spend_txn_ok_done(st, t, pkh, amount, j, (n - 1) as nat);
        lemma_spend_txn_done(st, t, pkh, amount, j, (n - 1) as nat);
    }
}

proof fn lemma_spend_scan_ok_done(txs: Seq<TransactionView>, pkh: Seq<u8>, amount: i32, i: int)
    requires
        0 <= i <= txs.len(),
        spend_scan(txs.take(i), pkh, amount).done,
        spend_scan_ok(txs.take(i), pkh, amount),
    ensures
        spend_scan_ok(txs, pkh, amount),
    decreases txs.len(),
{
    if i < txs.len() {
        assert(txs.drop_last().take(i) =~= txs.take(i));
        lemma_spend_scan_ok_done(txs.drop_last(), pkh, amount, i);
        lemma_spend_scan_done(txs.drop_last(), pkh, amount, i);
        let st = spend_scan(txs.drop_last(), pkh, amount);
        lemma_spend_txn_ok_done(st, txs.last(), pkh, amount, 0, txs.last().outputs.len());
    } else {
        assert(txs.take(i) =~= txs);
    }
}

impl BlockChain {
    /// Whether `find_spendable_outputs` runs without overflowing its total.
    pub fn spendable_within_range(&self, public_key_hash: &Vec<u8>, amount: i32) -> (ok: bool)
        ensures
            ok == spendable_ok(self@, public_key_hash@, amount),
    {
        let ghost pkh = public_key_hash@;
        let unspent_txns = self.find_unspent_transactions(public_key_hash);
        let ghost txs = txn_refs_view(unspent_txns@);
        let mut accumulated: i64 = 0;
        let mut u: usize = 0;
        while u < unspent_txns.len()
            invariant
                u <= txs.len() == unspent_txns@.len(),
                txs == txn_refs_view(unspent_txns@),
                txs == unspent_transactions_spec(self@, pkh),
                pkh == public_key_hash@,
                spend_scan_ok(txs.take(u as int), pkh, amount),
                !spend_scan(txs.take(u as int), pkh, amount).done,
                accumulated as int == spend_scan(txs.take(u as int), pkh, amount).acc,
                i32::MIN <= accumulated <= i32::MAX,
            decreases txs.len() - u,
        {
            let txn = unspent_txns[u];
            let ghost tv = txs[u as int];
            assert(txn@ == tv);
            let ghost st0 = spend_scan(txs.take(u as int), pkh, amount);
            assert(txs.take(u + 1).drop_last() =~= txs.take(u as int));
            assert(txs.take(u + 1).last() == tv);
            let mut k: usize = 0;
            while k < txn.outputs.len()
                invariant
                    k <= tv.outputs.len(),
                    tv == txn@,
                    pkh == public_key_hash@,
                    spend_txn_ok(st0, tv, pkh, amount, k as nat),
                    !spend_txn(st0, tv, pkh, amount, k as nat).done,
                    accumulated as int == spend_txn(st0, tv, pkh, amount, k as nat).acc,
                    i32::MIN <= accumulated <= i32::MAX,
                    u < txs.len(),
                    txs.take(u + 1).drop_last() == txs.take(u as int),
                    txs.take(u + 1).last() == tv,
                    st0 == spend_scan(txs.take(u as int), pkh, amount),
                    spend_scan_ok(txs.take(u as int), pkh, amount),
                    txs == unspent_transactions_spec(self@, pkh),
                decreases tv.outputs.len() - k,
            {
                let ghost st = spend_txn(st0, tv, pkh, amount, k as nat);
                assert(txn.outputs@[k as int]@ == tv.outputs[k as int]);
                if txn.outputs[k].is_locked_with_key(public_key_hash) && accumulated < amount as i64 {
                    let next = accumulated + txn.outputs[k].value as i64;
                    if next < i32::MIN as i64 || next > i32::MAX as i64 {
                        assert(!step_ok(st, tv, k as int, pkh, amount));
                        assert(!spend_txn_ok(st0, tv, pkh, amount, (k + 1) as nat));
                        proof {
                            if spend_txn_ok(st0, tv, pkh, amount, tv.outputs.len()) {
                                lemma_spend_txn_ok_mono(st0, tv, pkh, amount, (k + 1) as nat, tv.outputs.len());
                            }
                            assert(!spend_scan_ok(txs.take(u + 1), pkh, amount));
                            lemma_spend_scan_ok_prefix_contra(txs, pkh, amount, u + 1);
                        }
                        return false;
                    }
                    accumulated = next;
                }
                assert(spend_txn(st0, tv, pkh, amount, (k + 1) as nat) == spend_step(st, tv, k as int, pkh, amount));
                assert(spend_txn_ok(st0, tv, pkh, amount, (k + 1) as nat));
                if accumulated >= amount as i64 {
                    proof {
                        lemma_spend_txn_ok_done(st0, tv, pkh, amount, (k + 1) as nat, tv.outputs.len());
                        lemma_spend_txn_done(st0, tv, pkh, amount, (k + 1) as nat, tv.outputs.len());
                        assert(spend_scan(txs.take(u + 1), pkh, amount) == spend_txn(st0, tv, pkh, amount, tv.outputs.len()));
                        assert(spend_scan_ok(txs.take(u + 1), pkh, amount));
                        lemma_spend_scan_ok_done(txs, pkh, amount, u + 1);
                    }
                    return true;
                }
                k = k + 1;
            }
            assert(spend_scan(txs.take(u + 1), pkh, amount) == spend_txn(st0, tv, pkh, amount, tv.outputs.len()));
            assert(spend_scan_ok(txs.take(u + 1), pkh, amount));
            u = u + 1;
        }
        assert(txs.take(u as int) =~= txs);
        true
    }
}

proof fn lemma_spend_txn_ok_mono(st: SpendState, t: TransactionView, pkh: Seq<u8>, amount: i32, m: nat, n: nat)
    requires
        m <= n,
        spend_txn_ok(st, t, pkh, amount, n),
    ensures
        spend_txn_ok(st, t, pkh, amount, m),
    decreases n,
{
    if m < n {
        lemma_spend_txn_ok_mono(st, t, pkh, amount, m, (n - 1) as nat);
    }
}

proof fn lemma_spend_scan_ok_prefix_contra(txs: Seq<TransactionView>, pkh: Seq<u8>, amount: i32, i: int)
    requires
        0 <= i <= txs.len(),
        !spend_scan_ok(txs.take(i), pkh, amount),
    ensures
        !spend_scan_ok(txs, pkh, amount),
{
    if spend_scan_ok(txs, pkh, amount) {
        lemma_spend_scan_ok_prefix(txs, pkh, amount, i);
    }
}


/// Whether some recorded pair is keyed by `id`.
pub open spec fn has_key(spent: Seq<(Seq<u8>, i32)>, id: Seq<u8>) -> bool {
    exists|j: int| 0 <= j < spent.len() && (#[trigger] spent[j]).0 == id
}

/// The (transaction id, output index) pairs that a sequence of inputs refers to.
pub open spec fn input_pairs(inputs: Seq<TxnInputView>) -> Seq<(Seq<u8>, i32)> {
    inputs.map_values(|i: TxnInputView| (i.id, i.out))
}

/// `pairs` repeated `n` times.
pub open spec fn repeat_pairs(pairs: Seq<(Seq<u8>, i32)>, n: nat) -> Seq<(Seq<u8>, i32)>
    decreases n,
{
    if n == 0 {
        Seq::empty()
    } else {
        repeat_pairs(pairs, (n - 1) as nat) + pairs
    }
}

/// The pairs `find_unspent_txn_outputs` records for a transaction: when the
/// transaction's id is not recorded yet and it is not a coinbase
/// transaction, the pairs of all its inputs, once per output.
pub open spec fn uto_txn_spent(spent: Seq<(Seq<u8>, i32)>, t: TransactionView) -> Seq<(Seq<u8>, i32)> {
    if has_key(spent, t.id) || is_coinbase_spec(t) {
        spent
    } else {
        spent + repeat_pairs(input_pairs(t.inputs), t.outputs.len())
    }
}

/// The pairs recorded over a scan.
pub open spec fn uto_spent(txs: Seq<TransactionView>) -> Seq<(Seq<u8>, i32)>
    decreases txs.len(),
{
    if txs.len() == 0 {
        Seq::empty()
    } else {
        uto_txn_spent(uto_spent(txs.drop_last()), txs.last())
    }
}

/// A transaction whose id is already recorded passes only when its first
/// output is recorded too; otherwise the scan would read a missing map
/// entry.
pub open spec fn uto_txn_ok(spent: Seq<(Seq<u8>, i32)>, t: TransactionView) -> bool {
    has_key(spent, t.id) && t.outputs.len() > 0 ==> spent.contains((t.id, 0i32))
}

/// Every transaction of the scan passes.
pub open spec fn uto_ok(txs: Seq<TransactionView>) -> bool
    decreases txs.len(),
{
    txs.len() == 0 || (uto_ok(txs.drop_last()) && uto_txn_ok(uto_spent(txs.drop_last()), txs.last()))
}

/// When `find_unspent_txn_outputs` returns instead of panicking.
pub open spec fn unspent_txn_outputs_ok(c: BlockChainView) -> bool {
    uto_ok(scan_order(c.blocks))
}

fn spent_has_key(spent: &Vec<(Vec<u8>, i32)>, id: &Vec<u8>) -> (found: bool)
    ensures
        found == has_key(spent_view(spent@), id@),
{
    let mut j: usize = 0;
    while j < spent.len()
        invariant
            j <= spent@.len(),
            forall|k: int| 0 <= k < j ==> (#[trigger] spent_view(spent@)[k]).0 != id@,
        decreases spent@.len() - j,
    {
        if bytes_eq(spent[j].0.as_slice(), id.as_slice()) {
            assert(spent_view(spent@)[j as int].0 == id@);
            return true;
        }
        j = j + 1;
    }
    false
}

proof fn lemma_uto_ok_prefix(txs: Seq<TransactionView>, i: int)
    requires
        0 <= i <= txs.len(),
        uto_ok(txs),
    ensures
        uto_ok(txs.take(i)),
    decreases txs.len(),
{
    if i < txs.len() {
        assert(txs.drop_last().take(i) =~= txs.take(i));
        lemma_uto_ok_prefix(txs.drop_last(), i);
    } else {
        assert(txs.take(i) =~= txs);
    }
}

impl BlockChain {
    /// Collects unspent outputs by transaction id. As written, an output is
    /// collected only by reading the collection's entry for its transaction,
    /// which does not exist yet: the function returns (an empty collection)
    /// exactly when no such read happens.
    pub fn find_unspent_txn_outputs(&self) -> (unspent: Vec<(Vec<u8>, Vec<&TxnOutput>)>)
        requires
            unspent_txn_outputs_ok(self@),
        ensures
            unspent@.len() == 0,
    {
        let ghost bv = self@.blocks;
        let ghost all = scan_order(bv);
        let unspent_txn_outputs: Vec<(Vec<u8>, Vec<&TxnOutput>)> = Vec::new();
        let mut spent_txn_outputs: Vec<(Vec<u8>, i32)> = Vec::new();
        let mut b: usize = self.blocks.len();
        while b > 0
            invariant
                b <= self.blocks@.len(),
                bv == self@.blocks,
                all == scan_order(bv),
                uto_ok(all),
                unspent_txn_outputs@.len() == 0,
                spent_view(spent_txn_outputs@) == uto_spent(scan_from(bv, b as int)),
            decreases b,
        {
            b = b - 1;
            let block = &self.blocks[b];
            assert(block@ == bv[b as int]);
            let ghost txs = bv[b as int].transactions;
            let mut t: usize = 0;
            while t < block.transactions.len()
                invariant
                    b < self.blocks@.len(),
                    bv == self@.blocks,
                    all == scan_order(bv),
                    uto_ok(all),
                    block@ == bv[b as int],
                    txs == bv[b as int].transactions,
                    t <= txs.len(),
                    unspent_txn_outputs@.len() == 0,
                    spent_view(spent_txn_outputs@) == uto_spent(scan_from(bv, b + 1) + txs.take(t as int)),
                decreases txs.len() - t,
            {
                let txn = &block.transactions[t];
                let ghost prefix = scan_from(bv, b + 1) + txs.take(t as int);
                let ghost tv = txn@;
                assert(tv == txs[t as int]);
                proof {
                    lemma_scan_step(bv, b as int, t as int);
                    lemma_scan_prefix_ok(bv, b as int, t as int);
                }
                let ghost base = spent_view(spent_txn_outputs@);
                let is_txn_id_in_spent_txn_outputs = spent_has_key(&spent_txn_outputs, &txn.id);
                let coinbase = txn.is_coinbase();
                let mut found: bool = false;
                let mut k: usize = 0;
                while k < txn.outputs.len()
                    invariant
                        k <= tv.outputs.len(),
                        tv == txn@,
                        coinbase == is_coinbase_spec(tv),
                        base == uto_spent(prefix),
                        uto_txn_ok(base, tv),
                        is_txn_id_in_spent_txn_outputs == has_key(base, tv.id),
                        unspent_txn_outputs@.len() == 0,
                        is_txn_id_in_spent_txn_outputs && k > 0 ==> found,
                        spent_view(spent_txn_outputs@) == if is_txn_id_in_spent_txn_outputs || coinbase {
                            base
                        } else {
                            base + repeat_pairs(input_pairs(tv.inputs), k as nat)
                        },
                    decreases tv.outputs.len() - k,
                {
                    if is_txn_id_in_spent_txn_outputs {
                        if spent_contains(&spent_txn_outputs, &txn.id, k as i32) {
                            found = true;
                        }
                        if !found {
                            // Reading the missing entry: excluded by the precondition.
                            assert(k == 0);
                            assert(false);
                        }
                        k = k + 1;
                        continue;
                    }
                    if !coinbase {
                        let ghost start = spent_view(spent_txn_outputs@);
                        let mut i: usize = 0;
                        while i < txn.inputs.len()
                            invariant
                                i <= tv.inputs.len(),
                                tv == txn@,
                                spent_view(spent_txn_outputs@) == start + input_pairs(tv.inputs).take(i as int),
                            decreases tv.inputs.len() - i,
                        {
                            assert(txn.inputs@[i as int]@ == tv.inputs[i as int]);
                            let ghost before = spent_view(spent_txn_outputs@);
                            let input_txn_id = copy_bytes(txn.inputs[i].id.as_slice());
                            spent_txn_outputs.push((input_txn_id, txn.inputs[i].out));
                            assert(spent_view(spent_txn_outputs@) =~= before.push((tv.inputs[i as int].id, tv.inputs[i as int].out)));
                            assert(input_pairs(tv.inputs).take(i + 1) =~= input_pairs(tv.inputs).take(i as int).push(
                                (tv.inputs[i as int].id, tv.inputs[i as int].out)));
                            i = i + 1;
                        }
                        assert(input_pairs(tv.inputs).take(i as int) =~= input_pairs(tv.inputs));
                        assert(spent_view(spent_txn_outputs@) =~= base + repeat_pairs(input_pairs(tv.inputs), (k + 1) as nat));
                    }
                    k = k + 1;
                }
                assert(spent_view(spent_txn_outputs@) == uto_txn_spent(base, tv));
                t = t + 1;
            }
            proof {
                lemma_scan_block_done(bv, b as int);
            }
        }
        unspent_txn_outputs
    }
}

proof fn lemma_scan_prefix_ok(blocks: Seq<BlockView>, b: int, t: int)
    requires
        0 <= b < blocks.len(),
        0 <= t < blocks[b].transactions.len(),
        uto_ok(scan_order(blocks)),
    ensures
        uto_ok(scan_from(blocks, b + 1) + blocks[b].transactions.take(t + 1)),
{
    lemma_scan_prefix_of_order(blocks, b, t);
    lemma_scan_from_prefix(blocks, 0, b);
    assert(scan_from(blocks, b) == scan_from(blocks, b + 1) + blocks[b].transactions);
    let p = scan_from(blocks, b + 1) + blocks[b].transactions.take(t + 1);
    lemma_uto_ok_prefix(scan_order(blocks), p.len() as int);
}

/// The transactions scanned before (and including) transaction `t` of block
/// `b` are a prefix of the whole scan.
proof fn lemma_scan_prefix_of_order(blocks: Seq<BlockView>, b: int, t: int)
    requires
        0 <= b < blocks.len(),
        0 <= t < blocks[b].transactions.len(),
    ensures
        scan_order(blocks).take((scan_from(blocks, b + 1).len() + t + 1) as int)
            == scan_from(blocks, b + 1) + blocks[b].transactions.take(t + 1),
{
    lemma_scan_from_prefix(blocks, 0, b);
    let head = scan_from(blocks, b + 1) + blocks[b].transactions;
    assert(scan_from(blocks, b) == head);
    let l = (scan_from(blocks, b + 1).len() + t + 1) as int;
    let m = scan_from(blocks, b).len() as int;
    assert(scan_order(blocks).take(m) == head);
    assert(scan_order(blocks).take(l) =~= scan_order(blocks).take(m).take(l));
    assert(head.take(l) =~= scan_from(blocks, b + 1) + blocks[b].transactions.take(t + 1));
}

/// `scan_from(blocks, b)` is a prefix of `scan_from(blocks, i)` for `i <= b`.
proof fn lemma_scan_from_prefix(blocks: Seq<BlockView>, i: int, b: int)
    requires
        0 <= i <= b < blocks.len(),
    ensures
        scan_from(blocks, i).take(scan_from(blocks, b).len() as int) == scan_from(blocks, b),
        scan_from(blocks, b).len() <= scan_from(blocks, i).len(),
    decreases b - i,
{
    if i < b {
        lemma_scan_from_prefix(blocks, i + 1, b);
        let s1 = scan_from(blocks, i + 1);
        assert((s1 + blocks[i].transactions).take(scan_from(blocks, b).len() as int)
            =~= s1.take(scan_from(blocks, b).len() as int));
    } else {
        assert(scan_from(blocks, i).take(scan_from(blocks, b).len() as int) =~= scan_from(blocks, b));
    }
}

} // verus!

//! Transactions: their encoding and id, coinbase transactions, and the
//! signing and verification of their inputs.

use vstd::prelude::*;

use crate::blockchain::txn::{
    input_encoding, output_encoding, TxnInput, TxnInputView, TxnOutput, TxnOutputView,
};
use crate::blockchain::ledger::{
    chain_prevs, groups_view, inputs_found, sign_transaction_ok, sign_transaction_spec, spendable_ok, spendable_spec,
};
use crate::blockchain::wallet::{address_public_key_hash, address_well_formed, Wallet, WalletData};
use crate::blockchain::BlockChain;
use crate::crypto::{
    ecdsa_sign, ecdsa_verify, random_bytes, secret_key_is_valid, secp_public_key_of, secp_public_key_parses, secp_secret_key_valid, secp_sign_compact,
    secp_signature_parses, secp_verifies, sha256_spec,
};
use crate::util::{append_bytes, bytes_eq, copy_bytes, zero_bytes, Hashable, COINBASE_REWARD};

verus! {

/// A transaction: its id (the hash of its encoding), the outputs it spends
/// and the outputs it creates.
#[derive(Debug)]
pub struct Transaction {
    pub id: Vec<u8>,
    pub inputs: Vec<TxnInput>,
    pub outputs: Vec<TxnOutput>,
}

pub struct TransactionView {
    pub id: Seq<u8>,
    pub inputs: Seq<TxnInputView>,
    pub outputs: Seq<TxnOutputView>,
}

impl View for Transaction {
    type V = TransactionView;

    open spec fn view(&self) -> TransactionView {
        TransactionView {
            id: self.id@,
            inputs: self.inputs@.map_values(|i: TxnInput| i@),
            outputs: self.outputs@.map_values(|o: TxnOutput| o@),
        }
    }
}

/// Concatenated encodings of a sequence of inputs.
pub open spec fn inputs_encoding(inputs: Seq<TxnInputView>) -> Seq<u8>
    decreases inputs.len(),
{
    if inputs.len() == 0 {
        Seq::empty()
    } else {
        inputs_encoding(inputs.drop_last()) + input_encoding(inputs.last())
    }
}

/// Concatenated encodings of a sequence of outputs.
pub open spec fn outputs_encoding(outputs: Seq<TxnOutputView>) -> Seq<u8>
    decreases outputs.len(),
{
    if outputs.len() == 0 {
        Seq::empty()
    } else {
        outputs_encoding(outputs.drop_last()) + output_encoding(outputs.last())
    }
}

/// Encoding of a transaction: id, then its inputs, then its outputs.
pub open spec fn txn_encoding(t: TransactionView) -> Seq<u8> {
    t.id + inputs_encoding(t.inputs) + outputs_encoding(t.outputs)
}

/// The hash of a transaction's encoding.
pub open spec fn txn_hash(t: TransactionView) -> Seq<u8> {
    sha256_spec(txn_encoding(t))
}

/// The transaction with its id replaced.
pub open spec fn with_id(t: TransactionView, id: Seq<u8>) -> TransactionView {
    TransactionView { id, ..t }
}

/// Coinbase transactions have one input, whose id is empty and whose `out`
/// is -1.
pub open spec fn is_coinbase_spec(t: TransactionView) -> bool {
    t.inputs.len() == 1 && t.inputs[0].id.len() == 0 && t.inputs[0].out == -1
}

/// The coinbase transaction paying the reward to `to`, with `data` in its
/// input; its id is the hash of the transaction with an empty id.
pub open spec fn coinbase_spec(to: Seq<u8>, data: Seq<u8>) -> TransactionView {
    let body = TransactionView {
        id: Seq::empty(),
        inputs: seq![TxnInputView { id: Seq::empty(), out: -1i32, signature: Seq::empty(), public_key: data }],
        outputs: seq![TxnOutputView { value: COINBASE_REWARD, public_key_hash: address_public_key_hash(to) }],
    };
    with_id(body, txn_hash(body))
}

/// Number of random bytes in the input of a coinbase transaction.
pub const COINBASE_DATA_LENGTH: usize = 24;

impl Hashable for Transaction {
    open spec fn encodable(&self) -> bool {
        true
    }

    open spec fn encoding(&self) -> Seq<u8> {
        txn_encoding(self@)
    }

    fn encode(&self) -> (bytes: Vec<u8>) {
        let mut bytes: Vec<u8> = Vec::new();
        append_bytes(&mut bytes, self.id.as_slice());
        let ghost ins = self@.inputs;
        let mut i: usize = 0;
        while i < self.inputs.len()
            invariant
                i <= self.inputs@.len(),
                ins == self@.inputs,
                bytes@ == self.id@ + inputs_encoding(ins.take(i as int)),
            decreases self.inputs@.len() - i,
        {
            let encoded = self.inputs[i].encode();
            append_bytes(&mut bytes, encoded.as_slice());
            assert(ins.take(i + 1).drop_last() =~= ins.take(i as int));
            i = i + 1;
        }
        assert(ins.take(i as int) =~= ins);
        let ghost outs = self@.outputs;
        let mut j: usize = 0;
        while j < self.outputs.len()
            invariant
                j <= self.outputs@.len(),
                outs == self@.outputs,
                bytes@ == self.id@ + inputs_encoding(ins) + outputs_encoding(outs.take(j as int)),
            decreases self.outputs@.len() - j,
        {
            let encoded = self.outputs[j].encode();
            append_bytes(&mut bytes, encoded.as_slice());
            assert(outs.take(j + 1).drop_last() =~= outs.take(j as int));
            j = j + 1;
        }
        assert(outs.take(j as int) =~= outs);
        assert(bytes@ =~= txn_encoding(self@));
        assert(self.encoding() == txn_encoding(self@));
        bytes
    }
}

/// A copy of a vector of inputs.
pub fn duplicate_inputs(inputs: &Vec<TxnInput>) -> (copy: Vec<TxnInput>)
    ensures
        copy@.map_values(|i: TxnInput| i@) == inputs@.map_values(|i: TxnInput| i@),
{
    let mut copy: Vec<TxnInput> = Vec::new();
    let mut i: usize = 0;
    while i < inputs.len()
        invariant
            i <= inputs@.len(),
            copy@.len() == i,
            forall|j: int| 0 <= j < i ==> (#[trigger] copy@[j])@ == inputs@[j]@,
        decreases inputs@.len() - i,
    {
        copy.push(inputs[i].duplicate());
        i = i + 1;
    }
    assert(copy@.map_values(|x: TxnInput| x@) =~= inputs@.map_values(|x: TxnInput| x@));
    copy
}

/// A copy of a vector of outputs.
pub fn duplicate_outputs(outputs: &Vec<TxnOutput>) -> (copy: Vec<TxnOutput>)
    ensures
        copy@.map_values(|o: TxnOutput| o@) == outputs@.map_values(|o: TxnOutput| o@),
{
    let mut copy: Vec<TxnOutput> = Vec::new();
    let mut i: usize = 0;
    while i < outputs.len()
        invariant
            i <= outputs@.len(),
            copy@.len() == i,
            forall|j: int| 0 <= j < i ==> (#[trigger] copy@[j])@ == outputs@[j]@,
        decreases outputs@.len() - i,
    {
        copy.push(outputs[i].duplicate());
        i = i + 1;
    }
    assert(copy@.map_values(|x: TxnOutput| x@) =~= outputs@.map_values(|x: TxnOutput| x@));
    copy
}

impl Transaction {
    /// A copy of the transaction.
    pub fn duplicate(&self) -> (copy: Transaction)
        ensures
            copy@ == self@,
    {
        Transaction {
            id: copy_bytes(self.id.as_slice()),
            inputs: duplicate_inputs(&self.inputs),
            outputs: duplicate_outputs(&self.outputs),
        }
    }

    /// Whether this is a coinbase transaction: it has one input, whose `id`
    /// is empty and whose `out` is -1.
    pub fn is_coinbase(&self) -> (coinbase: bool)
        ensures
            coinbase == is_coinbase_spec(self@),
    {
        self.inputs.len() == 1 && self.inputs[0].id.len() == 0 && self.inputs[0].out == -1
    }

    /// The coinbase transaction paying the reward to `to`, with `data` in its
    /// single input.
    pub fn coinbase_with_data(to: &Vec<u8>, data: Vec<u8>) -> (txn: Self)
        requires
            address_well_formed(to@),
        ensures
            txn@ == coinbase_spec(to@, data@),
    {
        let txin = TxnInput { id: Vec::new(), out: -1, signature: Vec::new(), public_key: data };
        let txout = TxnOutput::new(COINBASE_REWARD, to);
        let mut inputs: Vec<TxnInput> = Vec::new();
        inputs.push(txin);
        let mut outputs: Vec<TxnOutput> = Vec::new();
        outputs.push(txout);
        let mut transaction = Transaction { id: Vec::new(), inputs, outputs };
        let ghost body = transaction@;
        assert(body.inputs =~= seq![TxnInputView { id: Seq::empty(), out: -1i32, signature: Seq::empty(), public_key: data@ }]);
        assert(body.outputs =~= seq![TxnOutputView { value: COINBASE_REWARD, public_key_hash: address_public_key_hash(to@) }]);
        assert(body.id =~= Seq::<u8>::empty());
        transaction.id = transaction.hash();
        assert(transaction@ =~= with_id(body, txn_hash(body)));
        transaction
    }

    /// Creates a coinbase transaction, the first transaction of a block,
    /// paying the reward to `to`; its input carries random data from the
    /// operating system's random source. `None` where that source fails.
    pub fn create_coinbase_txn(to: &Vec<u8>) -> (txn: Option<Self>)
        requires
            address_well_formed(to@),
        ensures
            txn matches Some(t) ==> {
                &&& t@ == coinbase_spec(to@, t@.inputs[0].public_key)
                &&& t@.inputs[0].public_key.len() == COINBASE_DATA_LENGTH
            },
    {
        match random_bytes(COINBASE_DATA_LENGTH) {
            Some(data) => Some(Self::coinbase_with_data(to, data)),
            None => None,
        }
    }
}


/// The views of a list of transaction references.
pub open spec fn prevs_view(prevs: Seq<&Transaction>) -> Seq<TransactionView> {
    prevs.map_values(|t: &Transaction| t@)
}

/// The earlier transaction with the given id among those handed to `sign`
/// or `verify`; the last one with that id counts, as a map keeps the last
/// value inserted under a key.
pub open spec fn prev_lookup(prevs: Seq<TransactionView>, id: Seq<u8>) -> Option<TransactionView>
    decreases prevs.len(),
{
    if prevs.len() == 0 {
        None
    } else if prevs.last().id == id {
        Some(prevs.last())
    } else {
        prev_lookup(prevs.drop_last(), id)
    }
}

/// Every input refers to a transaction among `prevs`.
pub open spec fn all_inputs_known(t: TransactionView, prevs: Seq<TransactionView>) -> bool {
    forall|i: int| 0 <= i < t.inputs.len() ==> (#[trigger] prev_lookup(prevs, t.inputs[i].id)) is Some
}

/// The output that input `i` spends.
pub open spec fn spent_output(t: TransactionView, prevs: Seq<TransactionView>, i: int) -> TxnOutputView {
    prev_lookup(prevs, t.inputs[i].id).unwrap().outputs[t.inputs[i].out as int]
}

/// Input `i` refers to an existing output of its earlier transaction.
pub open spec fn input_in_range(t: TransactionView, prevs: Seq<TransactionView>, i: int) -> bool {
    0 <= t.inputs[i].out < prev_lookup(prevs, t.inputs[i].id).unwrap().outputs.len()
}

/// The transaction with input `i` replaced.
pub open spec fn set_input(t: TransactionView, i: int, input: TxnInputView) -> TransactionView {
    TransactionView { inputs: t.inputs.update(i, input), ..t }
}

/// An input with its signature emptied.
pub open spec fn unsigned_input(input: TxnInputView) -> TxnInputView {
    TxnInputView { signature: Seq::empty(), ..input }
}

/// The transaction with the signature of every input emptied.
pub open spec fn strip_signatures(t: TransactionView) -> TransactionView {
    TransactionView { inputs: t.inputs.map_values(|i: TxnInputView| unsigned_input(i)), ..t }
}

/// The trimmed copy that signing and verification work on, after `k`
/// inputs. It starts from the transaction with every signature emptied, so
/// that signing (before any signature is set) and verification (after all
/// are set) hash the same bytes. Then, for each input in turn, its public
/// key is replaced by the public key hash of the output it spends, the
/// copy's id becomes the hash of the copy, and the public key is emptied
/// again.
pub open spec fn trimmed_copy(t: TransactionView, prevs: Seq<TransactionView>, k: nat) -> TransactionView
    decreases k,
{
    if k == 0 {
        strip_signatures(t)
    } else {
        let i = k - 1;
        let c = trimmed_copy(t, prevs, (k - 1) as nat);
        let c1 = set_input(
            c,
            i,
            TxnInputView {
                signature: Seq::empty(),
                public_key: spent_output(t, prevs, i).public_key_hash,
                ..c.inputs[i]
            },
        );
        let c2 = with_id(c1, txn_hash(c1));
        set_input(c2, i, TxnInputView { public_key: Seq::empty(), ..c2.inputs[i] })
    }
}

/// The digest signed (and verified) for input `i`.
pub open spec fn signing_digest(t: TransactionView, prevs: Seq<TransactionView>, i: int) -> Seq<u8> {
    trimmed_copy(t, prevs, (i + 1) as nat).id
}

/// The transaction with every input signed with `secret`.
pub open spec fn signed_spec(t: TransactionView, prevs: Seq<TransactionView>, secret: Seq<u8>) -> TransactionView {
    TransactionView {
        inputs: Seq::new(
            t.inputs.len(),
            |i: int|
                TxnInputView {
                    signature: secp_sign_compact(signing_digest(t, prevs, i), secret),
                    ..t.inputs[i]
                },
        ),
        ..t
    }
}

/// When `sign` runs without a panic: every input spends an existing output
/// and the secret key is valid (both matter only when signing happens).
pub open spec fn sign_ok(t: TransactionView, prevs: Seq<TransactionView>, secret: Seq<u8>) -> bool {
    !is_coinbase_spec(t) && all_inputs_known(t, prevs) ==> {
        &&& forall|i: int| 0 <= i < t.inputs.len() ==> #[trigger] input_in_range(t, prevs, i)
        &&& secp_secret_key_valid(secret)
    }
}

/// Every input refers to a transaction among `prevs` and carries the public
/// key of `secret`.
pub open spec fn inputs_keyed_by(t: TransactionView, prevs: Seq<TransactionView>, secret: Seq<u8>) -> bool {
    &&& all_inputs_known(t, prevs)
    &&& forall|i: int| 0 <= i < t.inputs.len() ==> (#[trigger] t.inputs[i]).public_key == secp_public_key_of(secret)
}

/// Two transactions that differ at most in the signatures of their inputs
/// have the same trimmed copies, and so are signed and verified over the
/// same digests.
pub proof fn lemma_digest_ignores_signatures(t: TransactionView, s: TransactionView, prevs: Seq<TransactionView>, k: nat)
    requires
        strip_signatures(s) == strip_signatures(t),
        k <= t.inputs.len(),
    ensures
        trimmed_copy(s, prevs, k) == trimmed_copy(t, prevs, k),
    decreases k,
{
    if k > 0 {
        lemma_digest_ignores_signatures(t, s, prevs, (k - 1) as nat);
        let i = k - 1;
        assert(strip_signatures(s).inputs.len() == s.inputs.len());
        assert(strip_signatures(s).inputs[i] == unsigned_input(s.inputs[i]));
        assert(strip_signatures(t).inputs[i] == unsigned_input(t.inputs[i]));
        assert(s.inputs[i].id == t.inputs[i].id && s.inputs[i].out == t.inputs[i].out);
        assert(spent_output(s, prevs, i) == spent_output(t, prevs, i));
    }
}

/// How verification of a transaction ends.
pub enum VerifyOutcome {
    /// `Ok(true)`.
    Valid,
    /// `Err("The transaction is not present in the history")`.
    NotInHistory,
    /// `Err("secp256k1 error")`.
    BadSignature,
    /// Verification cannot go on: an input spends a missing output, or its
    /// signature or public key does not parse.
    Panics,
}

/// How verification goes on from input `i`.
pub open spec fn verify_from(t: TransactionView, prevs: Seq<TransactionView>, i: int) -> VerifyOutcome
    decreases t.inputs.len() - i,
{
    if i < 0 || i >= t.inputs.len() {
        VerifyOutcome::Valid
    } else if !input_in_range(t, prevs, i) {
        VerifyOutcome::Panics
    } else if !(secp_signature_parses(t.inputs[i].signature) && secp_public_key_parses(t.inputs[i].public_key)) {
        VerifyOutcome::Panics
    } else if !secp_verifies(signing_digest(t, prevs, i), t.inputs[i].signature, t.inputs[i].public_key) {
        VerifyOutcome::BadSignature
    } else {
        verify_from(t, prevs, i + 1)
    }
}

/// How verification of a transaction ends: coinbase transactions are valid;
/// otherwise every input must refer to a known transaction, then each
/// input's signature must verify against its public key.
pub open spec fn verify_outcome(t: TransactionView, prevs: Seq<TransactionView>) -> VerifyOutcome {
    if is_coinbase_spec(t) {
        VerifyOutcome::Valid
    } else if !all_inputs_known(t, prevs) {
        VerifyOutcome::NotInHistory
    } else {
        verify_from(t, prevs, 0)
    }
}

/// Input `i` spends an existing output and its signature parses and
/// verifies against its public key.
pub open spec fn input_verifies(t: TransactionView, prevs: Seq<TransactionView>, i: int) -> bool {
    &&& input_in_range(t, prevs, i)
    &&& secp_signature_parses(t.inputs[i].signature)
    &&& secp_public_key_parses(t.inputs[i].public_key)
    &&& secp_verifies(signing_digest(t, prevs, i), t.inputs[i].signature, t.inputs[i].public_key)
}

/// Verification from input `i` succeeds when every later input verifies.
proof fn lemma_verify_from_valid(t: TransactionView, prevs: Seq<TransactionView>, i: int)
    requires
        0 <= i <= t.inputs.len(),
        forall|j: int| i <= j < t.inputs.len() ==> #[trigger] input_verifies(t, prevs, j),
    ensures
        verify_from(t, prevs, i) == VerifyOutcome::Valid,
    decreases t.inputs.len() - i,
{
    if i < t.inputs.len() {
        assert(input_verifies(t, prevs, i));
        lemma_verify_from_valid(t, prevs, i + 1);
    }
}

proof fn lemma_verify_from_sound(t: TransactionView, prevs: Seq<TransactionView>, i: int)
    requires
        0 <= i <= t.inputs.len(),
        verify_from(t, prevs, i) == VerifyOutcome::Valid,
    ensures
        forall|j: int| i <= j < t.inputs.len() ==> #[trigger] input_verifies(t, prevs, j),
    decreases t.inputs.len() - i,
{
    if i < t.inputs.len() {
        lemma_verify_from_sound(t, prevs, i + 1);
        assert forall|j: int| i <= j < t.inputs.len() implies #[trigger] input_verifies(t, prevs, j) by {
            if j > i {
                assert(input_verifies(t, prevs, j));
            }
        }
    }
}

/// Verification is sound: a transaction other than a coinbase verifies only
/// when every input refers to a known transaction, spends an existing output
/// of it, and carries a signature that verifies against the input's public
/// key over that input's digest.
pub proof fn lemma_verify_sound(t: TransactionView, prevs: Seq<TransactionView>)
    requires
        !is_coinbase_spec(t),
        verify_outcome(t, prevs) == VerifyOutcome::Valid,
    ensures
        all_inputs_known(t, prevs),
        forall|i: int| #![trigger t.inputs[i]] 0 <= i < t.inputs.len() ==> {
            &&& 0 <= t.inputs[i].out < prev_lookup(prevs, t.inputs[i].id).unwrap().outputs.len()
            &&& secp_verifies(signing_digest(t, prevs, i), t.inputs[i].signature, t.inputs[i].public_key)
        },
{
    lemma_verify_from_sound(t, prevs, 0);
    assert forall|i: int| #![trigger t.inputs[i]] 0 <= i < t.inputs.len() implies {
        &&& 0 <= t.inputs[i].out < prev_lookup(prevs, t.inputs[i].id).unwrap().outputs.len()
        &&& secp_verifies(signing_digest(t, prevs, i), t.inputs[i].signature, t.inputs[i].public_key)
    } by {
        assert(input_verifies(t, prevs, i));
    }
}

/// The trimmed copy keeps the outputs and the number of inputs.
pub proof fn lemma_trimmed_copy_shape(t: TransactionView, prevs: Seq<TransactionView>, k: nat)
    requires
        k <= t.inputs.len(),
    ensures
        trimmed_copy(t, prevs, k).inputs.len() == t.inputs.len(),
        trimmed_copy(t, prevs, k).outputs == t.outputs,
    decreases k,
{
    if k > 0 {
        lemma_trimmed_copy_shape(t, prevs, (k - 1) as nat);
    }
}

/// The last transaction among `prevs` with the given id.
fn prev_find<'a>(prevs: &Vec<&'a Transaction>, id: &Vec<u8>) -> (found: Option<&'a Transaction>)
    ensures
        match found {
            Some(t) => prev_lookup(prevs_view(prevs@), id@) == Some(t@),
            None => prev_lookup(prevs_view(prevs@), id@) is None,
        },
{
    let ghost pv = prevs_view(prevs@);
    assert(pv.take(pv.len() as int) =~= pv);
    let mut j: usize = prevs.len();
    while j > 0
        invariant
            j <= prevs@.len(),
            pv == prevs_view(prevs@),
            prev_lookup(pv, id@) == prev_lookup(pv.take(j as int), id@),
        decreases j,
    {
        assert(pv.take(j as int).drop_last() =~= pv.take(j - 1));
        assert(pv.take(j as int).last() == prevs@[j - 1]@);
        if bytes_eq(prevs[j - 1].id.as_slice(), id.as_slice()) {
            return Some(prevs[j - 1]);
        }
        j = j - 1;
    }
    None
}

impl Transaction {
    /// Whether every input refers to a transaction among `prevs`.
    fn inputs_known(&self, prev_txns: &Vec<&Transaction>) -> (known: bool)
        ensures
            known == all_inputs_known(self@, prevs_view(prev_txns@)),
    {
        let mut i: usize = 0;
        while i < self.inputs.len()
            invariant
                i <= self.inputs@.len(),
                forall|j: int| 0 <= j < i ==> (#[trigger] prev_lookup(prevs_view(prev_txns@), self@.inputs[j].id)) is Some,
            decreases self.inputs@.len() - i,
        {
            assert(self.inputs@[i as int]@ == self@.inputs[i as int]);
            if prev_find(prev_txns, &self.inputs[i].id).is_none() {
                assert(prev_lookup(prevs_view(prev_txns@), self@.inputs[i as int].id) is None);
                return false;
            }
            i = i + 1;
        }
        true
    }

    /// A copy of the transaction with every signature emptied.
    fn stripped_copy(&self) -> (copy: Transaction)
        ensures
            copy@ == strip_signatures(self@),
    {
        let mut inputs: Vec<TxnInput> = Vec::new();
        let mut i: usize = 0;
        while i < self.inputs.len()
            invariant
                i <= self.inputs@.len(),
                inputs@.len() == i,
                forall|j: int| 0 <= j < i ==> (#[trigger] inputs@[j])@ == unsigned_input(self.inputs@[j]@),
            decreases self.inputs@.len() - i,
        {
            let input = &self.inputs[i];
            inputs.push(TxnInput {
                id: copy_bytes(input.id.as_slice()),
                out: input.out,
                signature: Vec::new(),
                public_key: copy_bytes(input.public_key.as_slice()),
            });
            i = i + 1;
        }
        let copy = Transaction {
            id: copy_bytes(self.id.as_slice()),
            inputs,
            outputs: duplicate_outputs(&self.outputs),
        };
        assert(copy@.inputs =~= strip_signatures(self@).inputs);
        copy
    }

    /// Performs step `i` of the trimmed copy on `copy`, returning the digest
    /// (the new id of the copy).
    fn trim_step(copy: &mut Transaction, original: &Transaction, prev: &Transaction, i: usize) -> (digest: Vec<u8>)
        requires
            i < old(copy)@.inputs.len() == original@.inputs.len(),
            0 <= original@.inputs[i as int].out < prev@.outputs.len(),
        ensures
            final(copy)@ == ({
                let c = old(copy)@;
                let c1 = set_input(
                    c,
                    i as int,
                    TxnInputView {
                        signature: Seq::empty(),
                        public_key: prev@.outputs[original@.inputs[i as int].out as int].public_key_hash,
                        ..c.inputs[i as int]
                    },
                );
                let c2 = with_id(c1, txn_hash(c1));
                set_input(c2, i as int, TxnInputView { public_key: Seq::empty(), ..c2.inputs[i as int] })
            }),
            digest@ == final(copy)@.id,
            digest@.len() == 32,
    {
        let out = original.inputs[i].out as usize;
        assert(original.inputs@[i as int]@ == original@.inputs[i as int]);
        assert(prev.outputs@[out as int]@ == prev@.outputs[out as int]);
        let ghost c = copy@;
        let old_input = copy.inputs[i].duplicate();
        assert(copy.inputs@[i as int]@ == c.inputs[i as int]);
        let input1 = TxnInput {
            id: old_input.id,
            out: old_input.out,
            signature: Vec::new(),
            public_key: copy_bytes(prev.outputs[out].public_key_hash.as_slice()),
        };
        copy.inputs.set(i, input1);
        let ghost c1 = copy@;
        assert(c1.inputs =~= c.inputs.update(i as int, TxnInputView {
            signature: Seq::empty(),
            public_key: prev@.outputs[original@.inputs[i as int].out as int].public_key_hash,
            ..c.inputs[i as int]
        }));
        let digest = copy.hash();
        copy.id = copy_bytes(digest.as_slice());
        let ghost c2 = copy@;
        let mid_input = copy.inputs[i].duplicate();
        assert(copy.inputs@[i as int]@ == c2.inputs[i as int]);
        let input2 = TxnInput {
            id: mid_input.id,
            out: mid_input.out,
            signature: mid_input.signature,
            public_key: Vec::new(),
        };
        copy.inputs.set(i, input2);
        assert(copy@.inputs =~= c2.inputs.update(i as int, TxnInputView { public_key: Seq::empty(), ..c2.inputs[i as int] }));
        digest
    }

    /// Signs every input with `private_key`. Coinbase transactions are left
    /// as they are; when an input refers to a transaction missing from
    /// `prev_txns` nothing is signed and an error is returned.
    pub fn sign(&mut self, private_key: &Vec<u8>, prev_txns: &Vec<&Transaction>) -> (result: Result<(), String>)
        requires
            sign_ok(old(self)@, prevs_view(prev_txns@), private_key@),
        ensures
            is_coinbase_spec(old(self)@) ==> result is Ok && final(self)@ == old(self)@,
            !is_coinbase_spec(old(self)@) && !all_inputs_known(old(self)@, prevs_view(prev_txns@)) ==> {
                &&& result matches Err(e) && e@ == "The transaction is not present in the history"@
                &&& final(self)@ == old(self)@
            },
            !is_coinbase_spec(old(self)@) && all_inputs_known(old(self)@, prevs_view(prev_txns@)) ==> {
                &&& result is Ok
                &&& final(self)@ == signed_spec(old(self)@, prevs_view(prev_txns@), private_key@)
            },
            !is_coinbase_spec(old(self)@) && all_inputs_known(old(self)@, prevs_view(prev_txns@)) ==> forall|i: int|
                0 <= i < final(self)@.inputs.len() ==> (#[trigger] final(self)@.inputs[i]).signature.len() == 64,
            inputs_keyed_by(old(self)@, prevs_view(prev_txns@), private_key@)
                ==> verify_outcome(final(self)@, prevs_view(prev_txns@)) == VerifyOutcome::Valid,
    {
        let ghost t = self@;
        let ghost pv = prevs_view(prev_txns@);
        if self.is_coinbase() {
            return Ok(());
        }
        if !self.inputs_known(prev_txns) {
            proof {
                reveal_strlit("The transaction is not present in the history");
            }
            return Err("The transaction is not present in the history".to_string());
        }
        let original = self.duplicate();
        let mut txn_copy = self.stripped_copy();
        let n = self.inputs.len();
        let mut input_idx: usize = 0;
        while input_idx < n
            invariant
                n == t.inputs.len() == self@.inputs.len(),
                forall|i: int| 0 <= i < input_idx ==> (#[trigger] self@.inputs[i]).signature.len() == 64,
                input_idx <= n,
                original@ == t,
                pv == prevs_view(prev_txns@),
                all_inputs_known(t, pv),
                forall|i: int| 0 <= i < t.inputs.len() ==> #[trigger] input_in_range(t, pv, i),
                secp_secret_key_valid(private_key@),
                txn_copy@ == trimmed_copy(t, pv, input_idx as nat),
                self@.id == t.id,
                self@.outputs == t.outputs,
                forall|i: int| 0 <= i < input_idx ==> #[trigger] self@.inputs[i] == signed_spec(t, pv, private_key@).inputs[i],
                forall|i: int| input_idx <= i < n ==> #[trigger] self@.inputs[i] == t.inputs[i],
                forall|i: int| 0 <= i < input_idx ==> {
                    &&& secp_signature_parses(#[trigger] self@.inputs[i].signature)
                    &&& secp_verifies(signing_digest(t, pv, i), self@.inputs[i].signature, secp_public_key_of(private_key@))
                },
                input_idx > 0 ==> secp_public_key_parses(secp_public_key_of(private_key@)),
            decreases n - input_idx,
        {
            assert(original.inputs@[input_idx as int]@ == t.inputs[input_idx as int]);
            assert(prev_lookup(pv, t.inputs[input_idx as int].id) is Some);
            let prev_txn = prev_find(prev_txns, &original.inputs[input_idx].id).unwrap();
            proof {
                lemma_trimmed_copy_shape(t, pv, input_idx as nat);
            }
            assert(input_in_range(t, pv, input_idx as int));
            let digest = Self::trim_step(&mut txn_copy, &original, prev_txn, input_idx);
            assert(txn_copy@ == trimmed_copy(t, pv, (input_idx + 1) as nat));
            let signature = ecdsa_sign(digest.as_slice(), private_key.as_slice()).unwrap();
            let input_data = self.inputs[input_idx].duplicate();
            assert(self@.inputs[input_idx as int] == t.inputs[input_idx as int]);
            assert(self.inputs@[input_idx as int]@ == t.inputs[input_idx as int]);
            let signed = TxnInput {
                id: input_data.id,
                out: input_data.out,
                signature,
                public_key: input_data.public_key,
            };
            let ghost before_inputs = self@.inputs;
            let ghost signed_view = signed_spec(t, pv, private_key@).inputs[input_idx as int];
            assert(signed@ == signed_view);
            self.inputs.set(input_idx, signed);
            assert(self@.inputs =~= before_inputs.update(input_idx as int, signed_view));
            input_idx = input_idx + 1;
        }
        assert(self@.inputs =~= signed_spec(t, pv, private_key@).inputs);
        proof {
            let st = self@;
            assert(strip_signatures(st).inputs =~= strip_signatures(t).inputs);
            assert(strip_signatures(st) == strip_signatures(t));
            if inputs_keyed_by(t, pv, private_key@) {
                assert(all_inputs_known(st, pv)) by {
                    assert forall|i: int| 0 <= i < st.inputs.len() implies
                        (#[trigger] prev_lookup(pv, st.inputs[i].id)) is Some by {
                        assert(st.inputs[i].id == t.inputs[i].id);
                        assert(prev_lookup(pv, t.inputs[i].id) is Some);
                    }
                }
                assert forall|j: int| 0 <= j < st.inputs.len() implies #[trigger] input_verifies(st, pv, j) by {
                    lemma_digest_ignores_signatures(t, st, pv, (j + 1) as nat);
                    assert(st.inputs[j].id == t.inputs[j].id && st.inputs[j].out == t.inputs[j].out);
                    assert(input_in_range(t, pv, j));
                    assert(t.inputs[j].public_key == secp_public_key_of(private_key@));
                    assert(secp_signature_parses(st.inputs[j].signature));
                }
                lemma_verify_from_valid(st, pv, 0);
            }
        }
        Ok(())
    }
}


impl Transaction {
    /// Whether input `i` spends an existing output of its earlier transaction.
    fn input_spends_existing(&self, prev_txns: &Vec<&Transaction>, i: usize) -> (ok: bool)
        requires
            i < self@.inputs.len(),
            prev_lookup(prevs_view(prev_txns@), self@.inputs[i as int].id) is Some,
        ensures
            ok == input_in_range(self@, prevs_view(prev_txns@), i as int),
    {
        assert(self.inputs@[i as int]@ == self@.inputs[i as int]);
        let prev_txn = prev_find(prev_txns, &self.inputs[i].id).unwrap();
        let out = self.inputs[i].out;
        out >= 0 && (out as usize) < prev_txn.outputs.len()
    }

    /// Whether `sign` can run on this transaction without a panic.
    pub fn sign_ready(&self, private_key: &Vec<u8>, prev_txns: &Vec<&Transaction>) -> (ready: bool)
        ensures
            ready == sign_ok(self@, prevs_view(prev_txns@), private_key@),
    {
        if self.is_coinbase() || !self.inputs_known(prev_txns) {
            return true;
        }
        let mut i: usize = 0;
        while i < self.inputs.len()
            invariant
                i <= self@.inputs.len(),
                all_inputs_known(self@, prevs_view(prev_txns@)),
                !is_coinbase_spec(self@),
                forall|j: int| 0 <= j < i ==> #[trigger] input_in_range(self@, prevs_view(prev_txns@), j),
            decreases self@.inputs.len() - i,
        {
            assert(prev_lookup(prevs_view(prev_txns@), self@.inputs[i as int].id) is Some);
            if !self.input_spends_existing(prev_txns, i) {
                return false;
            }
            i = i + 1;
        }
        secret_key_is_valid(private_key.as_slice())
    }

    /// Signs the inputs as `sign` does, or returns `None` (changing nothing)
    /// where `sign` would panic: an input spends a missing output, or the
    /// secret key is not valid.
    pub fn try_sign(&mut self, private_key: &Vec<u8>, prev_txns: &Vec<&Transaction>) -> (result: Option<Result<(), String>>)
        ensures
            result is None <==> !sign_ok(old(self)@, prevs_view(prev_txns@), private_key@),
            result is None ==> final(self)@ == old(self)@,
            result matches Some(r) ==> {
                &&& is_coinbase_spec(old(self)@) ==> r is Ok && final(self)@ == old(self)@
                &&& !is_coinbase_spec(old(self)@) && !all_inputs_known(old(self)@, prevs_view(prev_txns@)) ==> {
                    &&& r matches Err(e) && e@ == "The transaction is not present in the history"@
                    &&& final(self)@ == old(self)@
                }
                &&& !is_coinbase_spec(old(self)@) && all_inputs_known(old(self)@, prevs_view(prev_txns@)) ==> {
                    &&& r is Ok
                    &&& final(self)@ == signed_spec(old(self)@, prevs_view(prev_txns@), private_key@)
                }
            },
    {
        if self.sign_ready(private_key, prev_txns) {
            Some(self.sign(private_key, prev_txns))
        } else {
            None
        }
    }

    /// How verification ends, computed without panicking.
    fn check_inputs(&self, prev_txns: &Vec<&Transaction>) -> (outcome: VerifyOutcome)
        ensures
            outcome == verify_outcome(self@, prevs_view(prev_txns@)),
    {
        let ghost t = self@;
        let ghost pv = prevs_view(prev_txns@);
        if self.is_coinbase() {
            return VerifyOutcome::Valid;
        }
        if !self.inputs_known(prev_txns) {
            return VerifyOutcome::NotInHistory;
        }
        let original = self.duplicate();
        let mut txn_copy = self.stripped_copy();
        let n = self.inputs.len();
        let mut input_idx: usize = 0;
        while input_idx < n
            invariant
                n == t.inputs.len(),
                input_idx <= n,
                original@ == t,
                t == self@,
                pv == prevs_view(prev_txns@),
                all_inputs_known(t, pv),
                !is_coinbase_spec(t),
                txn_copy@ == trimmed_copy(t, pv, input_idx as nat),
                verify_outcome(t, pv) == verify_from(t, pv, input_idx as int),
            decreases n - input_idx,
        {
            assert(prev_lookup(pv, t.inputs[input_idx as int].id) is Some);
            if !original.input_spends_existing(prev_txns, input_idx) {
                return VerifyOutcome::Panics;
            }
            assert(original.inputs@[input_idx as int]@ == t.inputs[input_idx as int]);
            let prev_txn = prev_find(prev_txns, &original.inputs[input_idx].id).unwrap();
            proof {
                lemma_trimmed_copy_shape(t, pv, input_idx as nat);
            }
            let digest = Self::trim_step(&mut txn_copy, &original, prev_txn, input_idx);
            assert(txn_copy@ == trimmed_copy(t, pv, (input_idx + 1) as nat));
            let input_data = &original.inputs[input_idx];
            match ecdsa_verify(digest.as_slice(), input_data.signature.as_slice(), input_data.public_key.as_slice()) {
                None => {
                    return VerifyOutcome::Panics;
                },
                Some(false) => {
                    return VerifyOutcome::BadSignature;
                },
                Some(true) => {},
            }
            input_idx = input_idx + 1;
        }
        VerifyOutcome::Valid
    }

    /// Verifies the signature of every input against the public key it
    /// carries. Coinbase transactions are valid; an input that refers to a
    /// transaction missing from `prev_txns` gives an error, as does a
    /// signature that does not verify.
    pub fn verify(&mut self, prev_txns: &Vec<&Transaction>) -> (result: Result<bool, &'static str>)
        requires
            verify_outcome(old(self)@, prevs_view(prev_txns@)) != VerifyOutcome::Panics,
        ensures
            final(self)@ == old(self)@,
            match verify_outcome(old(self)@, prevs_view(prev_txns@)) {
                VerifyOutcome::Valid => result == Ok::<bool, &str>(true),
                VerifyOutcome::NotInHistory => result matches Err(e)
                    && e@ == "The transaction is not present in the history"@,
                VerifyOutcome::BadSignature => result matches Err(e) && e@ == "secp256k1 error"@,
                VerifyOutcome::Panics => false,
            },
            result == Ok::<bool, &str>(true) && !is_coinbase_spec(old(self)@) ==> forall|i: int|
                0 <= i < old(self)@.inputs.len() ==> #[trigger] input_verifies(old(self)@, prevs_view(prev_txns@), i),
    {
        proof {
            reveal_strlit("The transaction is not present in the history");
            reveal_strlit("secp256k1 error");
            if !is_coinbase_spec(self@) && verify_outcome(self@, prevs_view(prev_txns@)) == VerifyOutcome::Valid {
                lemma_verify_from_sound(self@, prevs_view(prev_txns@), 0);
            }
        }
        match self.check_inputs(prev_txns) {
            VerifyOutcome::Valid => Ok(true),
            VerifyOutcome::NotInHistory => Err("The transaction is not present in the history"),
            VerifyOutcome::BadSignature => Err("secp256k1 error"),
            VerifyOutcome::Panics => Err("secp256k1 error"),
        }
    }

    /// Verifies as `verify` does, or returns `None` where `verify` would
    /// panic (an input spends a missing output, or a signature or public key
    /// does not parse).
    pub fn try_verify(&mut self, prev_txns: &Vec<&Transaction>) -> (result: Option<Result<bool, &'static str>>)
        ensures
            final(self)@ == old(self)@,
            result is None <==> verify_outcome(old(self)@, prevs_view(prev_txns@)) == VerifyOutcome::Panics,
            result matches Some(r) ==> match verify_outcome(old(self)@, prevs_view(prev_txns@)) {
                VerifyOutcome::Valid => r == Ok::<bool, &str>(true),
                VerifyOutcome::NotInHistory => r matches Err(e)
                    && e@ == "The transaction is not present in the history"@,
                VerifyOutcome::BadSignature => r matches Err(e) && e@ == "secp256k1 error"@,
                VerifyOutcome::Panics => false,
            },
    {
        match self.check_inputs(prev_txns) {
            VerifyOutcome::Panics => None,
            _ => Some(self.verify(prev_txns)),
        }
    }
}


/// The inputs spending one group of outputs of a transaction.
pub open spec fn group_inputs(group: (Seq<u8>, Seq<i32>), public_key: Seq<u8>) -> Seq<TxnInputView> {
    Seq::new(
        group.1.len(),
        |j: int| TxnInputView { id: group.0, out: group.1[j], signature: Seq::empty(), public_key },
    )
}

/// The inputs spending the outputs of every group, group by group.
pub open spec fn inputs_from_groups(groups: Seq<(Seq<u8>, Seq<i32>)>, public_key: Seq<u8>) -> Seq<TxnInputView>
    decreases groups.len(),
{
    if groups.len() == 0 {
        Seq::empty()
    } else {
        inputs_from_groups(groups.drop_last(), public_key) + group_inputs(groups.last(), public_key)
    }
}

/// Every input built from groups carries the given public key.
proof fn lemma_inputs_from_groups_key(groups: Seq<(Seq<u8>, Seq<i32>)>, public_key: Seq<u8>)
    ensures
        forall|i: int| 0 <= i < inputs_from_groups(groups, public_key).len()
            ==> (#[trigger] inputs_from_groups(groups, public_key)[i]).public_key == public_key,
    decreases groups.len(),
{
    if groups.len() > 0 {
        lemma_inputs_from_groups_key(groups.drop_last(), public_key);
        let a = inputs_from_groups(groups.drop_last(), public_key);
        let b = group_inputs(groups.last(), public_key);
        assert forall|i: int| 0 <= i < (a + b).len() implies (#[trigger] (a + b)[i]).public_key == public_key by {
            if i >= a.len() {
                assert((a + b)[i] == b[i - a.len()]);
            }
        }
    }
}

/// The transaction that `Transaction::new` builds before signing it: it
/// spends the outputs that `find_spendable_outputs` gathers for the wallet,
/// pays `amount` to `to` and returns any excess to `from`; its id is the
/// hash of the transaction with a zero id.
pub open spec fn unsigned_txn_spec(
    from: Seq<u8>,
    to: Seq<u8>,
    amount: i32,
    c: crate::blockchain::BlockChainView,
    public_key_hash: Seq<u8>,
    public_key: Seq<u8>,
) -> TransactionView {
    let spendable = spendable_spec(c, public_key_hash, amount);
    let acc = spendable.0;
    let pay = TxnOutputView { value: amount, public_key_hash: address_public_key_hash(to) };
    let change = TxnOutputView { value: (acc - amount) as i32, public_key_hash: address_public_key_hash(from) };
    let body = TransactionView {
        id: Seq::new(32, |i: int| 0u8),
        inputs: inputs_from_groups(spendable.1, public_key),
        outputs: if acc > amount {
            seq![pay, change]
        } else {
            seq![pay]
        },
    };
    with_id(body, txn_hash(body))
}

/// When the unsigned transaction can be built: both addresses can be taken
/// apart, the gathering of outputs does not overflow, it reaches the amount,
/// and the change fits an `i32`.
pub open spec fn unsigned_txn_ok(
    from: Seq<u8>,
    to: Seq<u8>,
    amount: i32,
    c: crate::blockchain::BlockChainView,
    public_key_hash: Seq<u8>,
) -> bool {
    &&& address_well_formed(from)
    &&& address_well_formed(to)
    &&& spendable_ok(c, public_key_hash, amount)
    &&& spendable_spec(c, public_key_hash, amount).0 >= amount
    &&& spendable_spec(c, public_key_hash, amount).0 - amount <= i32::MAX
}

/// When `Transaction::new` runs without a panic.
pub open spec fn new_txn_ok(
    from: Seq<u8>,
    to: Seq<u8>,
    amount: i32,
    c: crate::blockchain::BlockChainView,
    wallet: WalletData,
) -> bool {
    &&& unsigned_txn_ok(from, to, amount, c, wallet.public_key_hash@)
    &&& secp_secret_key_valid(wallet.private_key@)
    &&& sign_transaction_ok(
        c,
        unsigned_txn_spec(from, to, amount, c, wallet.public_key_hash@, wallet.public_key@),
        wallet.private_key@,
    )
}

/// The transaction that `Transaction::new` returns: the unsigned one, signed
/// with the wallet's secret key.
pub open spec fn new_txn_spec(
    from: Seq<u8>,
    to: Seq<u8>,
    amount: i32,
    c: crate::blockchain::BlockChainView,
    wallet: WalletData,
) -> TransactionView {
    sign_transaction_spec(
        c,
        unsigned_txn_spec(from, to, amount, c, wallet.public_key_hash@, wallet.public_key@),
        wallet.private_key@,
    )
}

impl Transaction {
    /// The transaction paying `amount` from the wallet at `from` to `to`,
    /// before it is signed.
    pub fn unsigned(from: &Vec<u8>, to: &Vec<u8>, amount: i32, chain: &BlockChain, wallet: &WalletData) -> (txn: Self)
        requires
            unsigned_txn_ok(from@, to@, amount, chain@, wallet.public_key_hash@),
        ensures
            txn@ == unsigned_txn_spec(from@, to@, amount, chain@, wallet.public_key_hash@, wallet.public_key@),
    {
        let ghost pk = wallet.public_key@;
        let (acc, valid_outputs) = chain.find_spendable_outputs(&wallet.public_key_hash, amount);
        let ghost gv = groups_view(valid_outputs@);
        let mut inputs: Vec<TxnInput> = Vec::new();
        let mut g: usize = 0;
        while g < valid_outputs.len()
            invariant
                g <= gv.len() == valid_outputs@.len(),
                gv == groups_view(valid_outputs@),
                pk == wallet.public_key@,
                inputs@.map_values(|i: TxnInput| i@) == inputs_from_groups(gv.take(g as int), pk),
            decreases gv.len() - g,
        {
            let group = &valid_outputs[g];
            let ghost gr = gv[g as int];
            assert(group.0@ == gr.0 && group.1@ == gr.1);
            let mut o: usize = 0;
            while o < group.1.len()
                invariant
                    o <= gr.1.len(),
                    group.0@ == gr.0,
                    group.1@ == gr.1,
                    pk == wallet.public_key@,
                    inputs@.map_values(|i: TxnInput| i@)
                        == inputs_from_groups(gv.take(g as int), pk) + group_inputs(gr, pk).take(o as int),
                decreases gr.1.len() - o,
            {
                let ghost before = inputs@.map_values(|i: TxnInput| i@);
                let input = TxnInput {
                    id: copy_bytes(group.0.as_slice()),
                    out: group.1[o],
                    signature: Vec::new(),
                    public_key: copy_bytes(wallet.public_key.as_slice()),
                };
                inputs.push(input);
                assert(inputs@.map_values(|i: TxnInput| i@) =~= before.push(group_inputs(gr, pk)[o as int]));
                assert(group_inputs(gr, pk).take(o + 1) =~= group_inputs(gr, pk).take(o as int).push(group_inputs(gr, pk)[o as int]));
                o = o + 1;
            }
            assert(group_inputs(gr, pk).take(o as int) =~= group_inputs(gr, pk));
            assert(gv.take(g + 1).drop_last() =~= gv.take(g as int));
            g = g + 1;
        }
        assert(gv.take(g as int) =~= gv);
        let mut outputs: Vec<TxnOutput> = Vec::new();
        outputs.push(TxnOutput::new(amount, to));
        if acc > amount {
            outputs.push(TxnOutput::new(acc - amount, from));
        }
        let mut txn = Transaction { id: zero_bytes(32), inputs, outputs };
        let ghost body = txn@;
        txn.id = txn.hash();
        assert(txn@.outputs =~= unsigned_txn_spec(from@, to@, amount, chain@, wallet.public_key_hash@, wallet.public_key@).outputs);
        assert(txn@ =~= with_id(body, txn_hash(body)));
        txn
    }

    /// The transaction paying `amount` from the wallet at `from` to `to`:
    /// it spends the wallet's unspent outputs until the amount is gathered,
    /// returns the excess to `from`, and is signed with the wallet's secret
    /// key.
    pub fn new(from: &Vec<u8>, to: &Vec<u8>, amount: i32, chain: &BlockChain, wallet: &WalletData) -> (txn: Self)
        requires
            new_txn_ok(from@, to@, amount, chain@, *wallet),
        ensures
            txn@ == new_txn_spec(from@, to@, amount, chain@, *wallet),
            !is_coinbase_spec(txn@) ==> forall|i: int|
                0 <= i < txn@.inputs.len() ==> (#[trigger] txn@.inputs[i]).signature.len() == 64,
            wallet.public_key@ == secp_public_key_of(wallet.private_key@) ==> {
                &&& inputs_found(chain@, txn@)
                &&& verify_outcome(txn@, chain_prevs(chain@, txn@)) == VerifyOutcome::Valid
            },
    {
        let mut txn = Self::unsigned(from, to, amount, chain, wallet);
        proof {
            lemma_inputs_from_groups_key(spendable_spec(chain@, wallet.public_key_hash@, amount).1, wallet.public_key@);
        }
        chain.sign_transaction(&mut txn, &wallet.private_key);
        txn
    }

    /// Whether `new` can build the transaction without a panic.
    pub fn new_ready(from: &Vec<u8>, to: &Vec<u8>, amount: i32, chain: &BlockChain, wallet: &WalletData) -> (ready: bool)
        ensures
            ready == new_txn_ok(from@, to@, amount, chain@, *wallet),
    {
        if Wallet::check_address(from).is_none() || Wallet::check_address(to).is_none() {
            return false;
        }
        if !secret_key_is_valid(wallet.private_key.as_slice()) {
            return false;
        }
        if !chain.spendable_within_range(&wallet.public_key_hash, amount) {
            return false;
        }
        let (acc, _outputs) = chain.find_spendable_outputs(&wallet.public_key_hash, amount);
        if acc < amount || acc as i64 - amount as i64 > i32::MAX as i64 {
            return false;
        }
        let unsigned = Self::unsigned(from, to, amount, chain, wallet);
        chain.sign_transaction_ready(&unsigned, &wallet.private_key)
    }

    /// The transaction that `new` builds, or `None` where `new` would panic:
    /// an address that cannot be taken apart, an invalid secret key, not
    /// enough funds, an overflowing total or change, or an input whose
    /// transaction is not found.
    pub fn try_new(from: &Vec<u8>, to: &Vec<u8>, amount: i32, chain: &BlockChain, wallet: &WalletData) -> (txn: Option<Self>)
        ensures
            txn is Some <==> new_txn_ok(from@, to@, amount, chain@, *wallet),
            txn matches Some(t) ==> t@ == new_txn_spec(from@, to@, amount, chain@, *wallet),
    {
        if !Self::new_ready(from, to, amount, chain, wallet) {
            return None;
        }
        Some(Self::new(from, to, amount, chain, wallet))
    }
}

/// The outputs of a payment: the first pays exactly `amount` to the public
/// key hash of `to`; when the gathered outputs hold more than `amount`, a
/// second returns the excess to the public key hash of `from`, and there is
/// no other output. Signing changes no output, so this holds of the
/// transaction `Transaction::new` returns as of the unsigned one.
pub proof fn lemma_payment_outputs(
    from: Seq<u8>,
    to: Seq<u8>,
    amount: i32,
    c: crate::blockchain::BlockChainView,
    wallet: WalletData,
)
    ensures
        ({
            let acc = spendable_spec(c, wallet.public_key_hash@, amount).0;
            let unsigned = unsigned_txn_spec(from, to, amount, c, wallet.public_key_hash@, wallet.public_key@);
            let signed = new_txn_spec(from, to, amount, c, wallet);
            &&& signed.outputs == unsigned.outputs
            &&& unsigned.outputs[0] == (TxnOutputView { value: amount, public_key_hash: address_public_key_hash(to) })
            &&& acc > amount ==> unsigned.outputs.len() == 2 && unsigned.outputs[1] == (TxnOutputView {
                value: (acc - amount) as i32,
                public_key_hash: address_public_key_hash(from),
            })
            &&& acc <= amount ==> unsigned.outputs.len() == 1
        }),
{
}

/// Total value of a sequence of outputs.
pub open spec fn outputs_total(outputs: Seq<TxnOutputView>) -> int
    decreases outputs.len(),
{
    if outputs.len() == 0 {
        0
    } else {
        outputs_total(outputs.drop_last()) + outputs.last().value as int
    }
}

/// A coinbase transaction is recognised as one, and pays the reward to the
/// public key hash of its address.
pub proof fn lemma_coinbase_is_coinbase(to: Seq<u8>, data: Seq<u8>)
    ensures
        is_coinbase_spec(coinbase_spec(to, data)),
        coinbase_spec(to, data).outputs.len() == 1,
        coinbase_spec(to, data).outputs[0].value == COINBASE_REWARD,
        coinbase_spec(to, data).outputs[0].public_key_hash == address_public_key_hash(to),
{
}

/// A new transaction creates exactly the value it gathers: its outputs (the
/// payment and any change) add up to the amount that
/// `find_spendable_outputs` gathered.
pub proof fn lemma_new_txn_conserves_value(
    from: Seq<u8>,
    to: Seq<u8>,
    amount: i32,
    c: crate::blockchain::BlockChainView,
    public_key_hash: Seq<u8>,
    public_key: Seq<u8>,
)
    requires
        unsigned_txn_ok(from, to, amount, c, public_key_hash),
    ensures
        outputs_total(unsigned_txn_spec(from, to, amount, c, public_key_hash, public_key).outputs)
            == spendable_spec(c, public_key_hash, amount).0,
{
    let t = unsigned_txn_spec(from, to, amount, c, public_key_hash, public_key);
    let acc = spendable_spec(c, public_key_hash, amount).0;
    reveal_with_fuel(outputs_total, 3);
    if acc > amount {
        assert(t.outputs.drop_last().drop_last() =~= Seq::<TxnOutputView>::empty());
        assert(t.outputs.drop_last().last() == t.outputs[0]);
    } else {
        assert(t.outputs.drop_last() =~= Seq::<TxnOutputView>::empty());
    }
}

} // verus!

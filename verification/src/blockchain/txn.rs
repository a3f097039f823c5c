//! Transaction inputs and outputs.

use vstd::prelude::*;

use crate::blockchain::wallet::{address_public_key_hash, address_well_formed, hash160, Wallet};
use crate::crypto::base58_decode;
use crate::util::{append_bytes, copy_bytes, i32_le_bytes, i32_to_le_bytes, Hashable, CHECKSUM_LENGTH};

verus! {

/// A reference to an output of an earlier transaction, with the data that
/// unlocks it.
#[derive(Debug)]
pub struct TxnInput {
    /// The id (hash) of the transaction whose output is spent.
    pub id: Vec<u8>,
    /// The index of the spent output in that transaction.
    pub out: i32,
    pub signature: Vec<u8>,
    /// The public key (not hashed) of the spender.
    pub public_key: Vec<u8>,
}

pub struct TxnInputView {
    pub id: Seq<u8>,
    pub out: i32,
    pub signature: Seq<u8>,
    pub public_key: Seq<u8>,
}

impl View for TxnInput {
    type V = TxnInputView;

    open spec fn view(&self) -> TxnInputView {
        TxnInputView {
            id: self.id@,
            out: self.out,
            signature: self.signature@,
            public_key: self.public_key@,
        }
    }
}

/// Encoding of an input: id, little-endian `out`, signature, public key.
pub open spec fn input_encoding(input: TxnInputView) -> Seq<u8> {
    input.id + i32_le_bytes(input.out) + input.signature + input.public_key
}

/// Whether an input is signed with the public key whose hash is given.
pub open spec fn input_uses_key(input: TxnInputView, public_key_hash: Seq<u8>) -> bool {
    hash160(input.public_key) == public_key_hash
}

impl Hashable for TxnInput {
    open spec fn encodable(&self) -> bool {
        true
    }

    open spec fn encoding(&self) -> Seq<u8> {
        input_encoding(self@)
    }

    fn encode(&self) -> (bytes: Vec<u8>) {
        let mut bytes: Vec<u8> = Vec::new();
        append_bytes(&mut bytes, self.id.as_slice());
        let out = i32_to_le_bytes(self.out);
        append_bytes(&mut bytes, out.as_slice());
        append_bytes(&mut bytes, self.signature.as_slice());
        append_bytes(&mut bytes, self.public_key.as_slice());
        assert(bytes@ =~= input_encoding(self@));
        assert(self.encoding() == input_encoding(self@));
        bytes
    }
}

impl TxnInput {
    /// Whether the input is signed with the public key whose hash is given.
    pub fn is_uses_key(&self, public_key_hash: &Vec<u8>) -> (uses: bool)
        ensures
            uses == input_uses_key(self@, public_key_hash@),
    {
        let locking_hash = Wallet::generate_sha256_ripemd160_hash(&self.public_key);
        crate::util::bytes_eq(locking_hash.as_slice(), public_key_hash.as_slice())
    }

    /// A copy of the input.
    pub fn duplicate(&self) -> (copy: TxnInput)
        ensures
            copy@ == self@,
    {
        TxnInput {
            id: copy_bytes(self.id.as_slice()),
            out: self.out,
            signature: copy_bytes(self.signature.as_slice()),
            public_key: copy_bytes(self.public_key.as_slice()),
        }
    }
}

/// An amount locked to the hash of a public key.
#[derive(Debug)]
pub struct TxnOutput {
    pub value: i32,
    /// Needed to unlock the tokens in the `value` field.
    pub public_key_hash: Vec<u8>,
}

pub struct TxnOutputView {
    pub value: i32,
    pub public_key_hash: Seq<u8>,
}

impl View for TxnOutput {
    type V = TxnOutputView;

    open spec fn view(&self) -> TxnOutputView {
        TxnOutputView { value: self.value, public_key_hash: self.public_key_hash@ }
    }
}

/// Encoding of an output: little-endian value, then the public key hash.
pub open spec fn output_encoding(output: TxnOutputView) -> Seq<u8> {
    i32_le_bytes(output.value) + output.public_key_hash
}

/// Whether an output is locked to the given public key hash.
pub open spec fn output_locked_with(output: TxnOutputView, public_key_hash: Seq<u8>) -> bool {
    output.public_key_hash == public_key_hash
}

impl Hashable for TxnOutput {
    open spec fn encodable(&self) -> bool {
        true
    }

    open spec fn encoding(&self) -> Seq<u8> {
        output_encoding(self@)
    }

    fn encode(&self) -> (bytes: Vec<u8>) {
        let mut bytes: Vec<u8> = Vec::new();
        let value = i32_to_le_bytes(self.value);
        append_bytes(&mut bytes, value.as_slice());
        append_bytes(&mut bytes, self.public_key_hash.as_slice());
        assert(bytes@ =~= output_encoding(self@));
        assert(self.encoding() == output_encoding(self@));
        bytes
    }
}

impl TxnOutput {
    /// An output of `value` locked to the public key hash inside `address`.
    pub fn new(value: i32, address: &Vec<u8>) -> (output: Self)
        requires
            address_well_formed(address@),
        ensures
            output@ == (TxnOutputView { value, public_key_hash: address_public_key_hash(address@) }),
    {
        let mut txn_output = Self { value, public_key_hash: Vec::new() };
        txn_output.lock(address);
        txn_output
    }

    /// An output of `value` locked to the public key hash inside `address`,
    /// or `None` where the address does not decode or is too short.
    pub fn try_new(value: i32, address: &Vec<u8>) -> (output: Option<Self>)
        ensures
            output is Some <==> address_well_formed(address@),
            output matches Some(o) ==> o@ == (TxnOutputView {
                value,
                public_key_hash: address_public_key_hash(address@),
            }),
    {
        match base58_decode(address.as_slice()) {
            None => None,
            Some(decoded) => {
                if decoded.len() < 1 + CHECKSUM_LENGTH {
                    None
                } else {
                    Some(Self::new(value, address))
                }
            },
        }
    }

    /// Locks the output to the public key hash inside `address`.
    pub fn lock(&mut self, address: &Vec<u8>)
        requires
            address_well_formed(address@),
        ensures
            final(self)@ == (TxnOutputView {
                value: old(self).value,
                public_key_hash: address_public_key_hash(address@),
            }),
    {
        let decoded_address = base58_decode(address.as_slice()).unwrap();
        self.public_key_hash = Wallet::decoded_public_key_hash(decoded_address.as_slice());
    }

    /// Whether the output is locked to the given public key hash.
    pub fn is_locked_with_key(&self, public_key_hash: &Vec<u8>) -> (locked: bool)
        ensures
            locked == output_locked_with(self@, public_key_hash@),
    {
        crate::util::bytes_eq(self.public_key_hash.as_slice(), public_key_hash.as_slice())
    }

    /// A copy of the output.
    pub fn duplicate(&self) -> (copy: TxnOutput)
        ensures
            copy@ == self@,
    {
        TxnOutput { value: self.value, public_key_hash: copy_bytes(self.public_key_hash.as_slice()) }
    }
}

/// An output locked to a wallet's address is unlocked by that wallet's
/// public key hash, and an input carrying the wallet's public key uses that
/// key.
pub proof fn lemma_lock_and_unlock(wallet: Wallet, value: i32, input: TxnInputView)
    requires
        wallet.consistent(),
        input.public_key == wallet.public_key@,
    ensures
        address_well_formed(wallet.address@),
        output_locked_with(
            TxnOutputView { value, public_key_hash: address_public_key_hash(wallet.address@) },
            wallet.public_key_hash@,
        ),
        input_uses_key(input, wallet.public_key_hash@),
{
    crate::blockchain::wallet::lemma_wallet_address_round_trip(wallet);
}

} // verus!

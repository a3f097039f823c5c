//! Wallets: a secp256k1 key pair, the hash of its public key and the Base58
//! address built from that hash.
//!
//! ```text
//! Public Key -> SHA256 -> RIPEMD-160 -> Public Key Hash
//! Public Key Hash -> SHA256 -> SHA256 -> Checksum
//! address = Base58(VERSION + Public Key Hash + Checksum)
//! ```

use vstd::prelude::*;

use crate::crypto::{
    base58_decode, base58_decode_spec, base58_encode, base58_encode_spec, public_key_of, random_bytes,
    ripemd160, ripemd160_spec, secp_public_key_of, secp_public_key_parses, secp_secret_key_valid,
    sha256, sha256_spec,
};
use crate::util::{append_bytes, bytes_eq, copy_bytes, CHECKSUM_LENGTH, VERSION};

verus! {

/// `RIPEMD-160(SHA-256(payload))`.
pub open spec fn hash160(payload: Seq<u8>) -> Seq<u8> {
    ripemd160_spec(sha256_spec(payload))
}

/// The first four bytes of `SHA-256(SHA-256(payload))`.
pub open spec fn checksum_spec(payload: Seq<u8>) -> Seq<u8> {
    sha256_spec(sha256_spec(payload)).subrange(0, CHECKSUM_LENGTH as int)
}

/// The bytes that a wallet address is built from: the version byte, the
/// public key hash and the checksum of those two.
pub open spec fn full_hash_spec(public_key_hash: Seq<u8>) -> Seq<u8> {
    let payload = seq![VERSION] + public_key_hash;
    payload + checksum_spec(payload)
}

/// The address of a public key hash.
pub open spec fn address_spec(public_key_hash: Seq<u8>) -> Seq<u8> {
    base58_encode_spec(full_hash_spec(public_key_hash))
}

/// An address that decodes and is long enough to hold a version byte and a
/// checksum, so that it can be taken apart.
pub open spec fn address_well_formed(address: Seq<u8>) -> bool {
    match base58_decode_spec(address) {
        Some(d) => d.len() >= 1 + CHECKSUM_LENGTH,
        None => false,
    }
}

/// The decoded bytes of a well-formed address.
pub open spec fn decoded_address(address: Seq<u8>) -> Seq<u8> {
    base58_decode_spec(address).unwrap()
}

/// The public key hash carried by decoded address bytes: everything between
/// the version byte and the checksum.
pub open spec fn decoded_public_key_hash(decoded: Seq<u8>) -> Seq<u8> {
    decoded.subrange(1, decoded.len() - CHECKSUM_LENGTH)
}

/// The public key hash carried by a well-formed address.
pub open spec fn address_public_key_hash(address: Seq<u8>) -> Seq<u8> {
    decoded_public_key_hash(decoded_address(address))
}

/// Decoded address bytes whose last four bytes are the checksum of the rest.
pub open spec fn decoded_checksum_ok(decoded: Seq<u8>) -> bool {
    decoded.subrange(decoded.len() - CHECKSUM_LENGTH, decoded.len() as int) == checksum_spec(
        decoded.subrange(0, decoded.len() - CHECKSUM_LENGTH),
    )
}

/// A wallet: its key pair and the data derived from the public key.
pub struct Wallet {
    pub private_key: Vec<u8>,
    pub public_key: Vec<u8>,
    pub address: Vec<u8>,
    pub public_key_hash: Vec<u8>,
    pub checksum: Vec<u8>,
    pub full_hash: Vec<u8>,
}

/// The part of a wallet that is stored: its keys and public key hash.
pub struct WalletData {
    pub private_key: Vec<u8>,
    pub public_key: Vec<u8>,
    pub public_key_hash: Vec<u8>,
}

impl Wallet {
    /// The derived fields of the wallet follow from its key pair.
    pub open spec fn consistent(&self) -> bool {
        &&& self.private_key@.len() == 32
        &&& secp_secret_key_valid(self.private_key@)
        &&& self.public_key@ == secp_public_key_of(self.private_key@)
        &&& self.public_key@.len() == 33
        &&& secp_public_key_parses(self.public_key@)
        &&& self.public_key_hash@ == hash160(self.public_key@)
        &&& self.public_key_hash@.len() == 20
        &&& self.checksum@ == checksum_spec(seq![VERSION] + self.public_key_hash@)
        &&& self.checksum@.len() == CHECKSUM_LENGTH
        &&& self.full_hash@ == full_hash_spec(self.public_key_hash@)
        &&& self.address@ == address_spec(self.public_key_hash@)
        &&& base58_decode_spec(self.address@) == Some(self.full_hash@)
    }

    /// A new wallet with a freshly generated key pair: 32 bytes from the
    /// operating system's random source as the secret key, and its public
    /// key. `None` where the random source fails or the bytes are not a
    /// valid secret key.
    pub fn new() -> (wallet: Option<Self>)
        ensures
            wallet matches Some(w) ==> w.consistent(),
    {
        let secret_key = match random_bytes(32) {
            Some(b) => b,
            None => return None,
        };
        let public_key = match public_key_of(secret_key.as_slice()) {
            Some(p) => p,
            None => return None,
        };
        Some(Self::from_key_pair(secret_key, public_key))
    }

    /// The wallet of a key pair: the keys as given, and the public key hash,
    /// checksum, full hash and address derived from the public key.
    pub fn from_key_pair(private_key: Vec<u8>, public_key: Vec<u8>) -> (wallet: Self)
        ensures
            wallet.private_key@ == private_key@,
            wallet.public_key@ == public_key@,
            wallet.public_key_hash@ == hash160(public_key@),
            wallet.public_key_hash@.len() == 20,
            wallet.checksum@ == checksum_spec(seq![VERSION] + hash160(public_key@)),
            wallet.checksum@.len() == CHECKSUM_LENGTH,
            wallet.full_hash@ == full_hash_spec(hash160(public_key@)),
            wallet.address@ == address_spec(hash160(public_key@)),
            base58_decode_spec(wallet.address@) == Some(wallet.full_hash@),
    {
        let mut wallet = Wallet {
            private_key,
            public_key,
            address: Vec::new(),
            public_key_hash: Vec::new(),
            checksum: Vec::new(),
            full_hash: Vec::new(),
        };
        wallet.set_public_key_hash();
        wallet.set_address();
        wallet
    }

    fn set_public_key_hash(&mut self)
        ensures
            final(self).public_key_hash@ == hash160(old(self).public_key@),
            final(self).public_key_hash@.len() == 20,
            final(self).private_key == old(self).private_key,
            final(self).public_key == old(self).public_key,
            final(self).address == old(self).address,
            final(self).checksum == old(self).checksum,
            final(self).full_hash == old(self).full_hash,
    {
        let public_key_hash = sha256(self.public_key.as_slice());
        let hashed_result = ripemd160(public_key_hash.as_slice());
        self.public_key_hash = hashed_result;
    }

    fn set_address(&mut self)
        requires
            old(self).public_key_hash@.len() == 20,
        ensures
            final(self).checksum@ == checksum_spec(seq![VERSION] + old(self).public_key_hash@),
            final(self).full_hash@ == full_hash_spec(old(self).public_key_hash@),
            final(self).address@ == address_spec(old(self).public_key_hash@),
            final(self).checksum@.len() == CHECKSUM_LENGTH,
            base58_decode_spec(final(self).address@) == Some(final(self).full_hash@),
            final(self).private_key == old(self).private_key,
            final(self).public_key == old(self).public_key,
            final(self).public_key_hash == old(self).public_key_hash,
    {
        let mut hash: Vec<u8> = Vec::new();
        hash.push(VERSION);
        append_bytes(&mut hash, self.public_key_hash.as_slice());
        assert(hash@ =~= seq![VERSION] + self.public_key_hash@);
        let checksum = Self::generate_checksum(&hash);
        append_bytes(&mut hash, checksum.as_slice());
        self.full_hash = copy_bytes(hash.as_slice());
        self.checksum = checksum;
        self.address = base58_encode(hash.as_slice());
    }

    fn generate_checksum(payload: &Vec<u8>) -> (checksum: Vec<u8>)
        ensures
            checksum@ == checksum_spec(payload@),
            checksum@.len() == CHECKSUM_LENGTH,
    {
        let first_hash = sha256(payload.as_slice());
        let second_hash = sha256(first_hash.as_slice());
        let mut checksum: Vec<u8> = Vec::new();
        let mut i: usize = 0;
        while i < CHECKSUM_LENGTH
            invariant
                i <= CHECKSUM_LENGTH,
                second_hash@ == sha256_spec(sha256_spec(payload@)),
                second_hash@.len() == 32,
                checksum@ == second_hash@.subrange(0, i as int),
            decreases CHECKSUM_LENGTH - i,
        {
            checksum.push(second_hash[i]);
            i = i + 1;
            assert(checksum@ =~= second_hash@.subrange(0, i as int));
        }
        checksum
    }

    /// `RIPEMD-160(SHA-256(payload))`.
    pub fn generate_sha256_ripemd160_hash(payload: &Vec<u8>) -> (hash: Vec<u8>)
        ensures
            hash@ == hash160(payload@),
            hash@.len() == 20,
    {
        let public_key_hash = sha256(payload.as_slice());
        ripemd160(public_key_hash.as_slice())
    }

    /// Whether decoded address bytes end with the checksum of the bytes
    /// before it.
    pub fn decoded_address_checksum_matches(hash: &[u8]) -> (valid: bool)
        requires
            hash@.len() >= 1 + CHECKSUM_LENGTH,
        ensures
            valid == decoded_checksum_ok(hash@),
    {
        let len = hash.len();
        let version = hash[0];
        let mut new_hash: Vec<u8> = Vec::new();
        new_hash.push(version);
        let mut i: usize = 1;
        while i < len - CHECKSUM_LENGTH
            invariant
                1 <= i <= len - CHECKSUM_LENGTH,
                len == hash@.len(),
                new_hash@ == hash@.subrange(0, i as int),
            decreases len - CHECKSUM_LENGTH - i,
        {
            new_hash.push(hash[i]);
            i = i + 1;
            assert(new_hash@ =~= hash@.subrange(0, i as int));
        }
        let target_checksum = Self::generate_checksum(&new_hash);
        let mut actual_checksum: Vec<u8> = Vec::new();
        let mut j: usize = len - CHECKSUM_LENGTH;
        while j < len
            invariant
                len - CHECKSUM_LENGTH <= j <= len,
                len >= 1 + CHECKSUM_LENGTH,
                len == hash@.len(),
                actual_checksum@ == hash@.subrange(len - CHECKSUM_LENGTH, j as int),
            decreases len - j,
        {
            actual_checksum.push(hash[j]);
            j = j + 1;
            assert(actual_checksum@ =~= hash@.subrange(len - CHECKSUM_LENGTH, j as int));
        }
        bytes_eq(actual_checksum.as_slice(), target_checksum.as_slice())
    }

    /// Whether the checksum inside a (well-formed) address is right.
    pub fn is_address_valid(address: &Vec<u8>) -> (valid: bool)
        requires
            address_well_formed(address@),
        ensures
            valid == decoded_checksum_ok(decoded_address(address@)),
    {
        let hash = base58_decode(address.as_slice()).unwrap();
        Self::decoded_address_checksum_matches(hash.as_slice())
    }

    /// `Some` of whether the checksum inside the address is right, or `None`
    /// where the address does not decode or is too short to take apart.
    pub fn check_address(address: &Vec<u8>) -> (valid: Option<bool>)
        ensures
            valid is Some <==> address_well_formed(address@),
            valid matches Some(v) ==> v == decoded_checksum_ok(decoded_address(address@)),
    {
        match base58_decode(address.as_slice()) {
            None => None,
            Some(hash) => {
                if hash.len() < 1 + CHECKSUM_LENGTH {
                    None
                } else {
                    Some(Self::is_address_valid(address))
                }
            },
        }
    }

    /// The public key hash carried by decoded address bytes.
    pub fn decoded_public_key_hash(hash: &[u8]) -> (public_key_hash: Vec<u8>)
        requires
            hash@.len() >= 1 + CHECKSUM_LENGTH,
        ensures
            public_key_hash@ == decoded_public_key_hash(hash@),
    {
        let len = hash.len();
        let mut public_key_hash: Vec<u8> = Vec::new();
        let mut i: usize = 1;
        while i < len - CHECKSUM_LENGTH
            invariant
                1 <= i <= len - CHECKSUM_LENGTH,
                len == hash@.len(),
                public_key_hash@ == hash@.subrange(1, i as int),
            decreases len - CHECKSUM_LENGTH - i,
        {
            public_key_hash.push(hash[i]);
            i = i + 1;
            assert(public_key_hash@ =~= hash@.subrange(1, i as int));
        }
        public_key_hash
    }

    /// The public key hash carried by a (well-formed) address.
    pub fn get_public_key_hash_from_address(address: &Vec<u8>) -> (public_key_hash: Vec<u8>)
        requires
            address_well_formed(address@),
        ensures
            public_key_hash@ == address_public_key_hash(address@),
    {
        let hash = base58_decode(address.as_slice()).unwrap();
        Self::decoded_public_key_hash(hash.as_slice())
    }

    /// The public key hash carried by an address, or `None` where the address
    /// does not decode or is too short to take apart.
    pub fn try_public_key_hash_from_address(address: &Vec<u8>) -> (public_key_hash: Option<Vec<u8>>)
        ensures
            public_key_hash is Some <==> address_well_formed(address@),
            public_key_hash matches Some(h) ==> h@ == address_public_key_hash(address@),
    {
        match base58_decode(address.as_slice()) {
            None => None,
            Some(hash) => {
                if hash.len() < 1 + CHECKSUM_LENGTH {
                    None
                } else {
                    Some(Self::get_public_key_hash_from_address(address))
                }
            },
        }
    }

    /// The data of the wallet that is stored.
    pub fn data(&self) -> (data: WalletData)
        ensures
            data.private_key@ == self.private_key@,
            data.public_key@ == self.public_key@,
            data.public_key_hash@ == self.public_key_hash@,
    {
        WalletData {
            private_key: copy_bytes(self.private_key.as_slice()),
            public_key: copy_bytes(self.public_key.as_slice()),
            public_key_hash: copy_bytes(self.public_key_hash.as_slice()),
        }
    }
}

/// A wallet's address decodes to its version byte, its public key hash and
/// the checksum of those, so the address checks out and gives the public key
/// hash back.
pub proof fn lemma_wallet_address_round_trip(wallet: Wallet)
    requires
        wallet.consistent(),
    ensures
        address_well_formed(wallet.address@),
        decoded_address(wallet.address@) == wallet.full_hash@,
        decoded_checksum_ok(decoded_address(wallet.address@)),
        address_public_key_hash(wallet.address@) == wallet.public_key_hash@,
{
    let pkh = wallet.public_key_hash@;
    let payload = seq![VERSION] + pkh;
    let full = full_hash_spec(pkh);
    assert(full.subrange(0, full.len() - CHECKSUM_LENGTH) =~= payload);
    assert(full.subrange(full.len() - CHECKSUM_LENGTH, full.len() as int) =~= checksum_spec(payload));
    assert(full.subrange(1, full.len() - CHECKSUM_LENGTH) =~= pkh);
}

} // verus!

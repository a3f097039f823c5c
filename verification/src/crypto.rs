//! The calls into the hashing, encoding, signing and randomness crates.
//!
//! Every function here is trusted: Verus believes its contract and does not
//! read its body. The names below stand for what the outside functions
//! compute; the contracts tie each result to its arguments through them.

use vstd::prelude::*;

use ripemd160::Digest;

verus! {

/// The SHA-256 digest of a byte string.
pub uninterp spec fn sha256_spec(data: Seq<u8>) -> Seq<u8>;

/// The RIPEMD-160 digest of a byte string.
pub uninterp spec fn ripemd160_spec(data: Seq<u8>) -> Seq<u8>;

/// The Base58 (Bitcoin alphabet) text of a byte string, as ASCII bytes.
pub uninterp spec fn base58_encode_spec(data: Seq<u8>) -> Seq<u8>;

/// The bytes that a Base58 text decodes to, if it is valid Base58.
pub uninterp spec fn base58_decode_spec(text: Seq<u8>) -> Option<Seq<u8>>;

/// Whether 32 bytes form a valid secp256k1 secret key.
pub uninterp spec fn secp_secret_key_valid(secret: Seq<u8>) -> bool;

/// The 33-byte compressed public key of a secp256k1 secret key.
pub uninterp spec fn secp_public_key_of(secret: Seq<u8>) -> Seq<u8>;

/// Whether bytes parse as a secp256k1 public key.
pub uninterp spec fn secp_public_key_parses(public_key: Seq<u8>) -> bool;

/// The compact (64-byte) ECDSA signature of a 32-byte message with a secret
/// key (deterministic RFC 6979 nonce).
pub uninterp spec fn secp_sign_compact(message: Seq<u8>, secret: Seq<u8>) -> Seq<u8>;

/// Whether 64 bytes parse as a compact ECDSA signature.
pub uninterp spec fn secp_signature_parses(signature: Seq<u8>) -> bool;

/// Whether an ECDSA signature verifies for a message and a public key.
pub uninterp spec fn secp_verifies(message: Seq<u8>, signature: Seq<u8>, public_key: Seq<u8>) -> bool;

/// `crypto_hash::digest(Algorithm::SHA256, data)`: the SHA-256 digest of
/// `data`, which is 32 bytes long.
#[verifier::external_body]
pub(crate) fn sha256(data: &[u8]) -> (digest: Vec<u8>)
    ensures
        digest@ == sha256_spec(data@),
        digest@.len() == 32,
{
    crypto_hash::digest(crypto_hash::Algorithm::SHA256, data)
}

/// `ripemd160::Ripemd160` fed with `data`: the RIPEMD-160 digest of `data`,
/// which is 20 bytes long.
#[verifier::external_body]
pub(crate) fn ripemd160(data: &[u8]) -> (digest: Vec<u8>)
    ensures
        digest@ == ripemd160_spec(data@),
        digest@.len() == 20,
{
    let mut hasher = ripemd160::Ripemd160::new();
    hasher.input(data);
    hasher.result().to_vec()
}

/// `bs58::encode(data).into_vec()`: the Base58 text of `data`. Decoding that
/// text gives `data` back.
#[verifier::external_body]
pub(crate) fn base58_encode(data: &[u8]) -> (text: Vec<u8>)
    ensures
        text@ == base58_encode_spec(data@),
        base58_decode_spec(text@) == Some(data@),
{
    bs58::encode(data).into_vec()
}

/// `bs58::decode(text).into_vec()`: the decoded bytes, or `None` where the
/// crate reports an error (a character outside the alphabet).
#[verifier::external_body]
pub(crate) fn base58_decode(text: &[u8]) -> (data: Option<Vec<u8>>)
    ensures
        match data {
            Some(d) => base58_decode_spec(text@) == Some(d@),
            None => base58_decode_spec(text@) is None,
        },
{
    match bs58::decode(text).into_vec() {
        Ok(d) => Some(d),
        Err(_) => None,
    }
}

/// `n` bytes from the operating system's random source: `OsRng::new()`,
/// then `RngCore::try_fill_bytes` into `n` zero bytes. `None` where the
/// source cannot be opened or a read fails. Nothing is stated of the bytes'
/// values.
#[verifier::external_body]
pub(crate) fn random_bytes(n: usize) -> (bytes: Option<Vec<u8>>)
    ensures
        bytes matches Some(b) ==> b@.len() == n,
{
    let mut rng = rand::rngs::OsRng::new().ok()?;
    let mut buf = vec![0u8; n];
    rand::RngCore::try_fill_bytes(&mut rng, &mut buf).ok()?;
    Some(buf)
}

/// `PublicKey::from_secret_key` of `SecretKey::from_slice(secret)`,
/// serialized in compressed form: the 33-byte public key of `secret`, or
/// `None` where `SecretKey::from_slice` refuses `secret`.
#[verifier::external_body]
pub(crate) fn public_key_of(secret: &[u8]) -> (public: Option<Vec<u8>>)
    ensures
        public is Some <==> secp_secret_key_valid(secret@),
        public matches Some(p) ==> {
            &&& secret@.len() == 32
            &&& p@ == secp_public_key_of(secret@)
            &&& p@.len() == 33
            &&& secp_public_key_parses(p@)
        },
{
    let secp = secp256k1::Secp256k1::new();
    let key = secp256k1::SecretKey::from_slice(secret).ok()?;
    Some(secp256k1::PublicKey::from_secret_key(&secp, &key).serialize().to_vec())
}

/// `SecretKey::from_slice(secret)` succeeds.
#[verifier::external_body]
pub(crate) fn secret_key_is_valid(secret: &[u8]) -> (valid: bool)
    ensures
        valid == secp_secret_key_valid(secret@),
        valid ==> secret@.len() == 32,
{
    secp256k1::SecretKey::from_slice(secret).is_ok()
}

/// `Secp256k1::sign` of `message` with `secret`, serialized in compact form.
/// `None` where `Message::from_slice` or `SecretKey::from_slice` refuses its
/// argument. The signature parses again and verifies against the public key
/// of `secret`.
#[verifier::external_body]
pub(crate) fn ecdsa_sign(message: &[u8], secret: &[u8]) -> (signature: Option<Vec<u8>>)
    ensures
        signature is Some <==> (message@.len() == 32 && secp_secret_key_valid(secret@)),
        signature matches Some(s) ==> {
            &&& s@ == secp_sign_compact(message@, secret@)
            &&& s@.len() == 64
            &&& secp_signature_parses(s@)
            &&& secp_public_key_parses(secp_public_key_of(secret@))
            &&& secp_verifies(message@, s@, secp_public_key_of(secret@))
        },
{
    let secp = secp256k1::Secp256k1::new();
    let msg = secp256k1::Message::from_slice(message).ok()?;
    let key = secp256k1::SecretKey::from_slice(secret).ok()?;
    Some(secp.sign(&msg, &key).serialize_compact().to_vec())
}

/// `Secp256k1::verify` of a compact signature for `message` and a serialized
/// public key: `Some(true)` when it returns `Ok`, `Some(false)` when it
/// returns an error, `None` where `Message::from_slice`,
/// `Signature::from_compact` or `PublicKey::from_slice` refuses its argument.
#[verifier::external_body]
pub(crate) fn ecdsa_verify(message: &[u8], signature: &[u8], public_key: &[u8]) -> (verdict: Option<bool>)
    ensures
        verdict is Some <==> (message@.len() == 32 && secp_signature_parses(signature@)
            && secp_public_key_parses(public_key@)),
        verdict matches Some(v) ==> v == secp_verifies(message@, signature@, public_key@),
{
    let secp = secp256k1::Secp256k1::new();
    let msg = secp256k1::Message::from_slice(message).ok()?;
    let sig = secp256k1::Signature::from_compact(signature).ok()?;
    let key = secp256k1::PublicKey::from_slice(public_key).ok()?;
    Some(secp.verify(&msg, &sig, &key).is_ok())
}

} // verus!

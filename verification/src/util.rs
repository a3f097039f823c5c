//! Constants, byte-level helpers and the `Hashable` trait shared by the
//! blockchain types.

use vstd::prelude::*;

use crate::crypto::{sha256, sha256_spec};

verus! {

/// Number of checksum bytes at the end of a decoded wallet address.
pub const CHECKSUM_LENGTH: usize = 4;

/// Version byte that starts every decoded wallet address.
pub const VERSION: u8 = 0x00;

/// Proof-of-work target: a block is mined once the big-endian value of the
/// first 16 bytes of its hash is below this number.
pub const DIFFICULTY: u128 = 0x0fffffffffffffffffffffffffffffff;

/// Number of blocks a candidate chain in the memory pool must reach before
/// it is appended to the blockchain.
pub const BLOCK_MEMORY_POOL_SIZE: usize = 2;

/// Reward paid by every coinbase transaction.
pub const COINBASE_REWARD: i32 = 20;

/// What a caller has to report about a finished operation: `None` when it
/// succeeded, or the description of the operation together with the error.
pub fn handle_result<T, E>(result: Result<T, E>, desc: &'static str) -> (report: Option<(&'static str, E)>)
    ensures
        match result {
            Ok(_) => report is None,
            Err(e) => report == Some((desc, e)),
        },
{
    match result {
        Ok(_) => None,
        Err(err) => Some((desc, err)),
    }
}

/// The `n` least significant base-256 digits of `v`, least significant first.
pub open spec fn le_bytes(v: nat, n: nat) -> Seq<u8>
    decreases n,
{
    if n == 0 {
        Seq::empty()
    } else {
        seq![(v % 256) as u8] + le_bytes(v / 256, (n - 1) as nat)
    }
}

/// Little-endian two's-complement bytes of an `i32`.
pub open spec fn i32_le_bytes(x: i32) -> Seq<u8> {
    le_bytes((x as u32) as nat, 4)
}

/// Big-endian value of a byte sequence.
pub open spec fn be_value(s: Seq<u8>) -> nat
    decreases s.len(),
{
    if s.len() == 0 {
        0
    } else {
        be_value(s.drop_last()) * 256 + s.last() as nat
    }
}

/// `256` to the power `n`.
pub open spec fn pow256(n: nat) -> nat
    decreases n,
{
    if n == 0 {
        1
    } else {
        256 * pow256((n - 1) as nat)
    }
}

proof fn lemma_be_value_bound(s: Seq<u8>)
    ensures
        be_value(s) < pow256(s.len()),
    decreases s.len(),
{
    if s.len() > 0 {
        lemma_be_value_bound(s.drop_last());
        let a = be_value(s.drop_last());
        let p = pow256(s.drop_last().len());
        let b = s.last() as nat;
        assert(a * 256 + b < p * 256) by (nonlinear_arith)
            requires
                a < p,
                b < 256,
        ;
    }
}

/// The first `n` little-endian bytes of `v`.
pub fn le_bytes_of(v: u128, n: usize) -> (bytes: Vec<u8>)
    ensures
        bytes@ == le_bytes(v as nat, n as nat),
{
    let mut bytes: Vec<u8> = Vec::new();
    let mut x: u128 = v;
    let mut i: usize = 0;
    while i < n
        invariant
            i <= n,
            bytes@ + le_bytes(x as nat, (n - i) as nat) == le_bytes(v as nat, n as nat),
        decreases n - i,
    {
        let ghost rest = le_bytes(x as nat, (n - i) as nat);
        assert(rest == seq![(x as nat % 256) as u8] + le_bytes(x as nat / 256, (n - i - 1) as nat));
        bytes.push((x % 256) as u8);
        x = x / 256;
        i = i + 1;
        assert(bytes@ + le_bytes(x as nat, (n - i) as nat) =~= le_bytes(v as nat, n as nat));
    }
    assert(le_bytes(x as nat, 0) =~= Seq::<u8>::empty());
    assert(bytes@ =~= le_bytes(v as nat, n as nat));
    bytes
}

/// Little-endian bytes of an `i32`, as `i32::to_le_bytes` gives them.
pub fn i32_to_le_bytes(x: i32) -> (bytes: Vec<u8>)
    ensures
        bytes@ == i32_le_bytes(x),
{
    let u: u32 = x as u32;
    le_bytes_of(u as u128, 4)
}

/// Big-endian value of at most 16 bytes, as `u128::from_be_bytes` gives it.
pub fn be_u128(bytes: &[u8]) -> (v: u128)
    requires
        bytes@.len() <= 16,
    ensures
        v as nat == be_value(bytes@),
{
    let mut acc: u128 = 0;
    let mut i: usize = 0;
    proof {
        reveal_with_fuel(pow256, 17);
    }
    assert(pow256(16) == 0x1_0000_0000_0000_0000_0000_0000_0000_0000);
    while i < bytes.len()
        invariant
            i <= bytes@.len() <= 16,
            pow256(16) == 0x1_0000_0000_0000_0000_0000_0000_0000_0000,
            acc as nat == be_value(bytes@.subrange(0, i as int)),
        decreases bytes@.len() - i,
    {
        let ghost prefix = bytes@.subrange(0, i as int);
        let ghost next = bytes@.subrange(0, i + 1);
        assert(next.drop_last() =~= prefix);
        proof {
            lemma_be_value_bound(prefix);
            lemma_pow256_mono(i as nat, 15);
            let a = acc as nat;
            let p = pow256(i as nat);
            let q = pow256(15);
            assert(a * 256 + 255 < q * 256) by (nonlinear_arith)
                requires
                    a < p,
                    p <= q,
            ;
        }
        acc = acc * 256 + bytes[i] as u128;
        i = i + 1;
    }
    assert(bytes@.subrange(0, i as int) =~= bytes@);
    acc
}

proof fn lemma_pow256_mono(a: nat, b: nat)
    requires
        a <= b,
    ensures
        pow256(a) <= pow256(b),
    decreases b,
{
    if a < b {
        lemma_pow256_mono(a, (b - 1) as nat);
    }
}

/// Appends `src` to `dst`.
pub fn append_bytes(dst: &mut Vec<u8>, src: &[u8])
    ensures
        final(dst)@ == old(dst)@ + src@,
{
    let mut i: usize = 0;
    while i < src.len()
        invariant
            i <= src@.len(),
            dst@ == old(dst)@ + src@.subrange(0, i as int),
        decreases src@.len() - i,
    {
        dst.push(src[i]);
        i = i + 1;
        assert(dst@ =~= old(dst)@ + src@.subrange(0, i as int));
    }
    assert(src@.subrange(0, i as int) =~= src@);
}

/// A fresh vector holding the bytes of `src`.
pub fn copy_bytes(src: &[u8]) -> (bytes: Vec<u8>)
    ensures
        bytes@ == src@,
{
    let mut bytes: Vec<u8> = Vec::new();
    append_bytes(&mut bytes, src);
    assert(bytes@ =~= src@);
    bytes
}

/// Byte-wise equality of two byte strings.
pub fn bytes_eq(a: &[u8], b: &[u8]) -> (eq: bool)
    ensures
        eq == (a@ == b@),
{
    if a.len() != b.len() {
        return false;
    }
    let mut i: usize = 0;
    while i < a.len()
        invariant
            i <= a@.len(),
            a@.len() == b@.len(),
            forall|j: int| 0 <= j < i ==> a@[j] == b@[j],
        decreases a@.len() - i,
    {
        if a[i] != b[i] {
            return false;
        }
        i = i + 1;
    }
    assert(a@ =~= b@);
    true
}

/// A vector of `n` zero bytes.
pub fn zero_bytes(n: usize) -> (bytes: Vec<u8>)
    ensures
        bytes@ == Seq::new(n as nat, |i: int| 0u8),
{
    let mut bytes: Vec<u8> = Vec::new();
    let mut i: usize = 0;
    while i < n
        invariant
            i <= n,
            bytes@ == Seq::new(i as nat, |j: int| 0u8),
        decreases n - i,
    {
        bytes.push(0u8);
        i = i + 1;
        assert(bytes@ =~= Seq::new(i as nat, |j: int| 0u8));
    }
    bytes
}

/// Things with a canonical byte encoding, hashed with SHA-256.
pub trait Hashable {
    /// Whether `encode` can be computed for this value.
    spec fn encodable(&self) -> bool;

    /// The canonical byte encoding.
    spec fn encoding(&self) -> Seq<u8>;

    fn encode(&self) -> (bytes: Vec<u8>)
        requires
            self.encodable(),
        ensures
            bytes@ == self.encoding(),
    ;

    /// SHA-256 of the encoding.
    fn hash(&self) -> (digest: Vec<u8>)
        requires
            self.encodable(),
        ensures
            digest@ == sha256_spec(self.encoding()),
            digest@.len() == 32,
    {
        let bytes = self.encode();
        sha256(bytes.as_slice())
    }
}

} // verus!

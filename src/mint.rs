//! The identifier minter: a campaign identifier is derived from the chain's
//! entropy seed, the creating account and the creation counter, by hashing
//! their SCALE encoding with BLAKE2b-256.
use crate::balances::AccountId;
use vstd::prelude::*;

verus! {

/// The entropy seed that the chain provides for a height.
pub type Seed = [u8; 32];

/// The first `n` little-endian base-256 digits of `x`.
pub open spec fn le_bytes(x: nat, n: nat) -> Seq<u8>
    decreases n,
{
    if n == 0 {
        Seq::empty()
    } else {
        seq![(x % 256) as u8] + le_bytes(x / 256, (n - 1) as nat)
    }
}

/// The number that the bytes `s` stand for, least significant first.
pub open spec fn le_value(s: Seq<u8>) -> nat
    decreases s.len(),
{
    if s.len() == 0 {
        0
    } else {
        s[0] as nat + 256 * le_value(s.drop_first())
    }
}

/// `256` to the power `n`.
pub open spec fn pow256(n: nat) -> nat
    decreases n,
{
    if n == 0 {
        1
    } else {
        256 * pow256((n - 1) as nat)
    }
}

/// The SCALE encoding of the triple (seed, account, nonce): the seed's bytes,
/// then the account and the nonce as eight little-endian bytes each.
pub open spec fn mint_input(seed: Seq<u8>, sender: AccountId, nonce: u64) -> Seq<u8> {
    seed + le_bytes(sender as nat, 8) + le_bytes(nonce as nat, 8)
}

/// The BLAKE2b-256 digest of `data`.
pub uninterp spec fn blake2_256_of(data: Seq<u8>) -> Seq<u8>;

/// The identifier minted from `seed`, `sender` and `nonce`: the first eight
/// bytes of the digest of their encoding, read little-endian.
pub open spec fn minted_id(seed: Seq<u8>, sender: AccountId, nonce: u64) -> u64 {
    le_value(blake2_256_of(mint_input(seed, sender, nonce)).subrange(0, 8)) as u64
}

/// Relies on parity_codec's `Encode` for a tuple of `[u8; 32]`, `u64` and
/// `u64`: the tuple's fields one after the other, the array as its bytes and
/// each integer as eight little-endian bytes.
#[verifier::external_body]
fn encode_mint_input(seed: &Seed, sender: AccountId, nonce: u64) -> (r: Vec<u8>)
    ensures
        r@ == mint_input(seed@, sender, nonce),
{
    parity_codec::Encode::encode(&(*seed, sender, nonce))
}

/// Relies on blake2's `Blake2b<U32>`: the BLAKE2b digest of `data` with a
/// 32-byte output.
#[verifier::external_body]
fn blake2_256(data: &[u8]) -> (r: [u8; 32])
    ensures
        r@ == blake2_256_of(data@),
{
    <blake2::Blake2b<blake2::digest::consts::U32> as blake2::Digest>::digest(data).into()
}

proof fn lemma_le_value_bound(s: Seq<u8>)
    ensures
        le_value(s) < pow256(s.len()),
    decreases s.len(),
{
    if s.len() > 0 {
        lemma_le_value_bound(s.drop_first());
        let v = le_value(s.drop_first());
        let p = pow256(s.drop_first().len());
        let b = s[0] as nat;
        assert(b + 256 * v < 256 * p) by (nonlinear_arith)
            requires
                b < 256,
                v < p,
        ;
    }
}

/// The identifier minted for a campaign that `sender` creates under entropy
/// `random_seed` when `nonce` campaigns exist.
pub fn mint_campaign_id(random_seed: &Seed, sender: AccountId, nonce: u64) -> (r: u64)
    ensures
        r == minted_id(random_seed@, sender, nonce),
{
    let bytes = encode_mint_input(random_seed, sender, nonce);
    let digest = blake2_256(bytes.as_slice());
    let ghost d = digest@;
    proof {
        assert(d.len() == 32);
        assert(d.subrange(8, 8) =~= Seq::<u8>::empty());
        assert(pow256(0) == 1);
        assert(pow256(1) == 256);
        assert(pow256(2) == 65536);
        assert(pow256(3) == 16777216);
        assert(pow256(4) == 4294967296);
        assert(pow256(5) == 1099511627776);
        assert(pow256(6) == 281474976710656);
        assert(pow256(7) == 72057594037927936);
    }
    let mut acc: u64 = 0;
    let mut i: usize = 8;
    while i > 0
        invariant
            i <= 8,
            d == digest@,
            d.len() == 32,
            acc as nat == le_value(d.subrange(i as int, 8)),
            pow256(7) == 72057594037927936,
        decreases i,
    {
        i = i - 1;
        proof {
            let rest = d.subrange(i + 1, 8);
            assert(d.subrange(i as int, 8).drop_first() =~= rest);
            lemma_le_value_bound(rest);
            assert(pow256(rest.len()) <= pow256(7)) by {
                lemma_pow256_mono(rest.len(), 7);
            }
            assert(acc * 256 + 255 < 0x1_0000_0000_0000_0000) by (nonlinear_arith)
                requires
                    acc < 72057594037927936,
            ;
        }
        acc = acc * 256 + digest[i] as u64;
    }
    proof {
        assert(d.subrange(0, 8) == blake2_256_of(mint_input(random_seed@, sender, nonce)).subrange(
            0,
            8,
        ));
    }
    acc
}

proof fn lemma_pow256_mono(a: nat, b: nat)
    requires
        a <= b,
    ensures
        pow256(a) <= pow256(b),
    decreases b,
{
    if a < b {
        lemma_pow256_mono(a, (b - 1) as nat);
        assert(pow256(b) == 256 * pow256((b - 1) as nat));
    }
}

} // verus!

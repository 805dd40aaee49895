//! Identifiers and plain values shared by the whole library.

use vstd::prelude::*;

verus! {

/// A digest, as handed over by the hashing layer.
#[derive(Clone, Copy, Debug, PartialEq, Eq, Structural, Hash)]
pub struct HashValue(pub u64);

/// A signature, as handed over by the signing layer.
#[derive(Clone, Copy, Debug, PartialEq, Eq, Structural, Hash)]
pub struct Signature(pub u64);

/// The public key that owns a chain.
#[derive(Clone, Copy, Debug, PartialEq, Eq, Structural, Hash)]
pub struct Owner(pub u64);

/// The name (public key) of a validator.
#[derive(Clone, Copy, Debug, PartialEq, Eq, Structural, Hash)]
pub struct ValidatorName(pub u64);

/// Block heights count from zero and have no gaps.
pub type BlockHeight = u64;

/// Attempt counter for one height of a multi-owner chain.
pub type RoundNumber = u64;

/// An amount of tokens.
pub type Amount = u64;

/// A chain: either a genesis chain or one opened by an operation of another chain.
#[derive(Clone, Copy, Debug, PartialEq, Eq, Structural, Hash)]
pub struct ChainId(pub u64);

/// The place of an operation: chain, height of its block, index in the block.
#[derive(Clone, Copy, Debug, PartialEq, Eq, Structural, Hash)]
pub struct OperationId {
    pub chain_id: ChainId,
    pub height: BlockHeight,
    pub index: u64,
}

/// Multiplier of the identifier mixing function.
pub const MIX_PRIME: u64 = 0x100000001b3;

/// Offset of the identifier mixing function.
pub const MIX_OFFSET: u64 = 0xcbf29ce484222325;

/// One mixing step: xor in a word, then multiply modulo 2^64.
pub open spec fn mix(acc: u64, w: u64) -> u64 {
    (((acc ^ w) as nat * MIX_PRIME as nat) % 0x1_0000_0000_0000_0000) as u64
}

fn mix_exec(acc: u64, w: u64) -> (r: u64)
    ensures
        r == mix(acc, w),
{
    (acc ^ w).wrapping_mul(MIX_PRIME)
}

/// The identifier of the chain opened by the operation `id`.
pub open spec fn child_id(id: OperationId) -> ChainId {
    ChainId(mix(mix(mix(MIX_OFFSET, id.chain_id.0), id.height), id.index))
}

impl ChainId {
    /// The chain opened by the operation `id`: a function of `id` alone.
    pub fn child(id: OperationId) -> (r: ChainId)
        ensures
            r == child_id(id),
    {
        let a = mix_exec(MIX_OFFSET, id.chain_id.0);
        let b = mix_exec(a, id.height);
        ChainId(mix_exec(b, id.index))
    }
}

/// A signing key pair: the owner it stands for and its secret part.
#[derive(Clone, Copy, Debug, PartialEq, Eq, Structural, Hash)]
pub struct KeyPair {
    pub public: Owner,
    pub secret: u64,
}

impl KeyPair {
    /// The owner this key pair signs for.
    pub fn public(&self) -> (r: Owner)
        ensures
            r == self.public,
    {
        self.public
    }
}

} // verus!

//! Errors reported by nodes and by the chain driver.

use vstd::prelude::*;
use crate::base::{BlockHeight, ChainId};

verus! {

/// An error answered by a validator or by the local node.
#[derive(Clone, Copy, Debug, PartialEq, Eq, Structural, Hash)]
pub enum NodeError {
    InvalidSignature,
    InvalidCertificate,
    InvalidBlockChaining,
    MissingPreviousBlock(BlockHeight),
    InactiveChain(ChainId),
    ClientErrorWhileQueryingCertificate,
    /// The block waits for messages that another chain has not delivered yet.
    MissingCrossChainUpdate,
    /// Any other failure, by its code.
    Other(u64),
}

/// An error of the chain driver.
#[derive(Clone, Copy, Debug, PartialEq, Eq, Structural, Hash)]
pub enum ClientError {
    /// A node answered with an error.
    Node(NodeError),
    /// No value reached a quorum; the error reported by more than a third of
    /// the voting power, if any.
    QuorumNotReached(Option<NodeError>),
    /// The local history does not match the tip known to the session.
    InvalidBlockChaining,
    /// The chain has no owner.
    InactiveChain(ChainId),
    /// No known key belongs to an owner of the chain.
    NoSigningKey,
    /// Several known keys belong to owners of a multi-owner chain.
    AmbiguousIdentity,
    /// A different block is already pending.
    DifferentPendingBlock,
    /// The block is not at the next height.
    UnexpectedBlockHeight,
    /// The block does not extend the known tip.
    UnexpectedPreviousBlockHash,
    /// The confirmed block is not the one proposed.
    ConcurrentProposalExecuted,
    /// The amount exceeds the balance.
    InsufficientBalance,
    /// The local node lags behind the session.
    LocalNodeBehind,
    /// A certificate does not confirm a block.
    ExpectedConfirmedBlock,
    /// Voting rights name a validator twice or their total does not fit.
    InvalidVotingRights,
    /// A block height cannot be incremented.
    HeightOverflow,
}

} // verus!

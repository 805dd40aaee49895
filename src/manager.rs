//! Who may propose blocks on a chain, and what a node reports about a chain.

use vstd::prelude::*;
use crate::base::{BlockHeight, ChainId, HashValue, Owner, RoundNumber};
use crate::block::MessageGroup;
use crate::committee::Committee;

verus! {

/// Balances may go below zero while a block is staged.
pub type Balance = i128;

/// How a chain is owned.
#[derive(Clone, Debug)]
pub enum ChainManager {
    /// The chain is inactive.
    Inactive,
    /// One owner proposes blocks; one round of votes suffices.
    Single { owner: Owner },
    /// Several owners compete; blocks take two rounds of votes.
    Multi { owners: Vec<Owner>, next_round: RoundNumber },
}

impl ChainManager {
    /// The round of the next proposal: only multi-owner chains count rounds.
    pub open spec fn next_round_spec(&self) -> RoundNumber {
        match self {
            ChainManager::Multi { next_round, .. } => *next_round,
            _ => 0,
        }
    }

    /// The round of the next proposal.
    pub fn next_round(&self) -> (r: RoundNumber)
        ensures
            r == self.next_round_spec(),
    {
        match self {
            ChainManager::Multi { next_round, .. } => *next_round,
            _ => 0,
        }
    }

    /// Whether the chain has several owners.
    pub fn is_multi(&self) -> (r: bool)
        ensures
            r == self is Multi,
    {
        match self {
            ChainManager::Multi { .. } => true,
            _ => false,
        }
    }
}

/// What a node reports about a chain.
#[derive(Clone, Debug)]
pub struct ChainInfo {
    pub chain_id: ChainId,
    pub next_block_height: BlockHeight,
    pub block_hash: Option<HashValue>,
    pub manager: ChainManager,
    pub balance: Balance,
    pub admin_id: Option<ChainId>,
    pub queried_committees: Vec<Committee>,
    pub queried_pending_messages: Vec<MessageGroup>,
    pub count_received_certificates: u64,
}

} // verus!

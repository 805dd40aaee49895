//! Proposals, certified values, certificates, and how a certificate is
//! assembled from the votes of a quorum.

use vstd::prelude::*;
use crate::base::{BlockHeight, ChainId, HashValue, Owner, RoundNumber, Signature, ValidatorName};
use crate::block::{Block, BlockView};
use crate::error::{ClientError, NodeError};

verus! {

/// A block together with the round it is proposed in.
#[derive(Clone, Debug)]
pub struct BlockAndRound {
    pub block: Block,
    pub round: RoundNumber,
}

/// A block proposal, signed by one owner of the chain.
#[derive(Clone, Debug)]
pub struct BlockProposal {
    pub content: BlockAndRound,
    pub owner: Owner,
    pub signature: Signature,
}

/// A value that validators vote on.
#[derive(Clone, Debug)]
pub enum Value {
    /// A block ratified for execution.
    ConfirmedBlock { block: Block, state_hash: HashValue },
    /// A block that passed the first round on a multi-owner chain.
    ValidatedBlock { block: Block, round: RoundNumber, state_hash: HashValue },
}

/// Mathematical value of a [`Value`].
pub enum ValueView {
    ConfirmedBlock { block: BlockView, state_hash: HashValue },
    ValidatedBlock { block: BlockView, round: RoundNumber, state_hash: HashValue },
}

impl View for Value {
    type V = ValueView;

    open spec fn view(&self) -> ValueView {
        match self {
            Value::ConfirmedBlock { block, state_hash } =>
                ValueView::ConfirmedBlock { block: block@, state_hash: *state_hash },
            Value::ValidatedBlock { block, round, state_hash } =>
                ValueView::ValidatedBlock { block: block@, round: *round, state_hash: *state_hash },
        }
    }
}

/// A value with the signatures of a quorum of validators.
#[derive(Clone, Debug)]
pub struct Certificate {
    pub value: Value,
    pub signatures: Vec<(ValidatorName, Signature)>,
}

/// Mathematical value of a [`Certificate`].
pub struct CertificateView {
    pub value: ValueView,
    pub signatures: Seq<(ValidatorName, Signature)>,
}

impl View for Certificate {
    type V = CertificateView;

    open spec fn view(&self) -> CertificateView {
        CertificateView { value: self.value@, signatures: self.signatures@ }
    }
}

impl Value {
    /// The block a value carries.
    pub open spec fn block_spec(&self) -> Block {
        match self {
            Value::ConfirmedBlock { block, .. } => *block,
            Value::ValidatedBlock { block, .. } => *block,
        }
    }

    /// The confirmed block, if this value confirms one.
    pub fn confirmed_block(&self) -> (r: Option<&Block>)
        ensures
            match self {
                Value::ConfirmedBlock { block, .. } => r == Some(block),
                Value::ValidatedBlock { .. } => r is None,
            },
    {
        match self {
            Value::ConfirmedBlock { block, .. } => Some(block),
            Value::ValidatedBlock { .. } => None,
        }
    }

    /// The validated block, if this value validates one.
    pub fn validated_block(&self) -> (r: Option<&Block>)
        ensures
            match self {
                Value::ValidatedBlock { block, .. } => r == Some(block),
                Value::ConfirmedBlock { .. } => r is None,
            },
    {
        match self {
            Value::ValidatedBlock { block, .. } => Some(block),
            Value::ConfirmedBlock { .. } => None,
        }
    }

    /// The hash of the executed state that the value commits to.
    pub fn state_hash(&self) -> (r: HashValue)
        ensures
            r == match self {
                Value::ConfirmedBlock { state_hash, .. } => *state_hash,
                Value::ValidatedBlock { state_hash, .. } => *state_hash,
            },
    {
        match self {
            Value::ConfirmedBlock { state_hash, .. } => *state_hash,
            Value::ValidatedBlock { state_hash, .. } => *state_hash,
        }
    }
}

impl Certificate {
    /// Puts together a value and its signatures.
    pub fn new(value: Value, signatures: Vec<(ValidatorName, Signature)>) -> (r: Certificate)
        ensures
            r.value == value,
            r.signatures == signatures,
    {
        Certificate { value, signatures }
    }
}

/// What is asked of each validator in one fan-out.
#[derive(Clone, Debug)]
pub enum CommunicateAction {
    /// Single-owner chains: vote to confirm the proposed block.
    SubmitBlockForConfirmation(BlockProposal),
    /// Multi-owner chains, first round: vote to validate the proposed block.
    SubmitBlockForValidation(BlockProposal),
    /// Multi-owner chains, second round: vote to confirm a validated block.
    FinalizeBlock(Certificate),
    /// Learn that the chain has reached this height.
    AdvanceToNextBlockHeight(BlockHeight),
}

/// The certificate that votes for `state_hash` make of `action`, if any.
pub open spec fn certified_value(action: CommunicateAction, state_hash: HashValue) -> Option<Value> {
    match action {
        CommunicateAction::SubmitBlockForConfirmation(p) =>
            Some(Value::ConfirmedBlock { block: p.content.block, state_hash }),
        CommunicateAction::SubmitBlockForValidation(p) => Some(
            Value::ValidatedBlock { block: p.content.block, round: p.content.round, state_hash },
        ),
        CommunicateAction::FinalizeBlock(c) => match c.value {
            Value::ValidatedBlock { block, state_hash: h, .. } =>
                Some(Value::ConfirmedBlock { block, state_hash: h }),
            Value::ConfirmedBlock { .. } => None,
        },
        CommunicateAction::AdvanceToNextBlockHeight(_) => None,
    }
}

/// Assembles the certificate of a fan-out whose quorum voted for `state_hash`
/// with `signatures`: a proposal for confirmation gives its block confirmed, a
/// proposal for validation gives its block validated in its round, and a
/// validated certificate to finalize gives its block confirmed with the state
/// hash it was validated with. An advance of height, or a finalization of a
/// certificate that is not a validated one, gives none.
pub fn certificate_from_votes(
    action: CommunicateAction,
    state_hash: HashValue,
    signatures: Vec<(ValidatorName, Signature)>,
) -> (r: Option<Certificate>)
    ensures
        match certified_value(action, state_hash) {
            Some(v) => r matches Some(c) && c.value == v && c.signatures == signatures,
            None => r is None,
        },
{
    match action {
        CommunicateAction::SubmitBlockForConfirmation(p) => Some(
            Certificate::new(Value::ConfirmedBlock { block: p.content.block, state_hash }, signatures),
        ),
        CommunicateAction::SubmitBlockForValidation(p) => Some(
            Certificate::new(
                Value::ValidatedBlock { block: p.content.block, round: p.content.round, state_hash },
                signatures,
            ),
        ),
        CommunicateAction::FinalizeBlock(c) => match c.value {
            Value::ValidatedBlock { block, state_hash: h, .. } =>
                Some(Certificate::new(Value::ConfirmedBlock { block, state_hash: h }, signatures)),
            Value::ConfirmedBlock { .. } => None,
        },
        CommunicateAction::AdvanceToNextBlockHeight(_) => None,
    }
}

/// What a fan-out about `chain_id` that could not reach a quorum amounts to:
/// nothing to do when it advanced heights and the dominant error says that
/// very chain is inactive; otherwise a failure that carries the dominant error.
pub fn quorum_failure(chain_id: ChainId, is_advance: bool, dominant: Option<NodeError>) -> (r: Result<(), ClientError>)
    ensures
        r == if is_advance && dominant == Some(NodeError::InactiveChain(chain_id)) {
            Ok::<(), ClientError>(())
        } else {
            Err(ClientError::QuorumNotReached(dominant))
        },
{
    match dominant {
        Some(NodeError::InactiveChain(id)) => {
            if id == chain_id && is_advance {
                Ok(())
            } else {
                Err(ClientError::QuorumNotReached(dominant))
            }
        },
        _ => Err(ClientError::QuorumNotReached(dominant)),
    }
}

} // verus!

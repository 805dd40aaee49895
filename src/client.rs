//! The per-chain client session and the decisions of the chain driver.
//!
//! Each method decides one step of an operation from the session state and
//! from what the nodes answered: the fetching, signing and sending around those
//! steps is done by the caller.

use vstd::prelude::*;
use crate::base::{
    Amount, BlockHeight, ChainId, HashValue, KeyPair, OperationId, Owner, RoundNumber,
    Signature, ValidatorName, child_id,
};
use crate::block::{Address, Block, BlockView, MessageGroup, Operation, OperationView, UserData};
use crate::certificate::{BlockAndRound, BlockProposal, certificate_from_votes, certified_value, quorum_failure, Certificate, CommunicateAction, Value};
use crate::quorum::{names_weight, QuorumTally, TallyOutcome};
use crate::committee::{copy_committees, is_quorum_of, rights_map, valid_rights, valid_voting_rights, Committee};
use crate::error::{ClientError, NodeError};
use crate::manager::{Balance, ChainInfo, ChainManager};

verus! {

/// Mathematical value of a session.
pub struct SessionView {
    pub chain_id: ChainId,
    pub block_hash: Option<HashValue>,
    pub next_block_height: BlockHeight,
    pub next_round: RoundNumber,
    pub pending_block: Option<BlockView>,
    pub keys: Map<Owner, KeyPair>,
    pub trackers: Map<ValidatorName, u64>,
}

/// The keys known from a list of key pairs; a later pair of the same owner wins.
pub open spec fn key_map(s: Seq<KeyPair>) -> Map<Owner, KeyPair>
    decreases s.len(),
{
    if s.len() == 0 {
        Map::empty()
    } else {
        key_map(s.drop_last()).insert(s.last().public, s.last())
    }
}

/// The cursors recorded in a list; a later entry of the same validator wins.
pub open spec fn tracker_map(s: Seq<(ValidatorName, u64)>) -> Map<ValidatorName, u64>
    decreases s.len(),
{
    if s.len() == 0 {
        Map::empty()
    } else {
        tracker_map(s.drop_last()).insert(s.last().0, s.last().1)
    }
}

/// The cursor of a validator, zero when none is recorded.
pub open spec fn cursor(m: Map<ValidatorName, u64>, v: ValidatorName) -> u64 {
    if m.contains_key(v) { m[v] } else { 0 }
}

/// The pending block, if any, extends the tip at the next height.
pub open spec fn pending_fits(s: SessionView) -> bool {
    s.pending_block matches Some(b) ==> b.height == s.next_block_height && b.previous_block_hash
        == s.block_hash
}

/// The session after a node reported the tip `(height, round, hash)`: the tip
/// moves only to a greater `(height, round)`, taking the three together, and a
/// pending block that no longer extends it is dropped.
pub open spec fn tip_updated(
    s: SessionView,
    height: BlockHeight,
    round: RoundNumber,
    hash: Option<HashValue>,
) -> SessionView {
    if height > s.next_block_height || (height == s.next_block_height && round > s.next_round) {
        let moved = SessionView { next_block_height: height, next_round: round, block_hash: hash, ..s };
        if pending_fits(moved) {
            moved
        } else {
            SessionView { pending_block: None, ..moved }
        }
    } else {
        s
    }
}

/// The session after the local node processed a certificate and reported `info`.
pub open spec fn certificate_processed(s: SessionView, info: ChainInfo) -> SessionView {
    if info.chain_id == s.chain_id {
        tip_updated(s, info.next_block_height, info.manager.next_round_spec(), info.block_hash)
    } else {
        s
    }
}

/// Starting (or resuming) the proposal of `b`.
pub open spec fn proposal_started(s: SessionView, b: BlockView) -> Result<SessionView, ClientError> {
    if s.pending_block matches Some(p) && p != b {
        Err(ClientError::DifferentPendingBlock)
    } else if b.height != s.next_block_height {
        Err(ClientError::UnexpectedBlockHeight)
    } else if b.previous_block_hash != s.block_hash {
        Err(ClientError::UnexpectedPreviousBlockHash)
    } else {
        Ok(SessionView { pending_block: Some(b), ..s })
    }
}

/// Whether a certified value confirms the block `b`.
pub open spec fn confirms(v: Value, b: BlockView) -> bool {
    v matches Value::ConfirmedBlock { block, .. } && block@ == b
}

/// Checking the final certified value `v` of the proposal of the pending block.
pub open spec fn proposal_confirmed(s: SessionView, v: Value) -> Result<SessionView, ClientError> {
    if s.pending_block matches Some(b) && confirms(v, b) {
        Ok(s)
    } else {
        Err(ClientError::ConcurrentProposalExecuted)
    }
}

/// The session after recording that `count` received certificates of `name`
/// were processed.
pub open spec fn tracker_updated(s: SessionView, name: ValidatorName, count: u64) -> SessionView {
    let c = cursor(s.trackers, name);
    SessionView { trackers: s.trackers.insert(name, if count > c { count } else { c }), ..s }
}

/// The owners in `owners` whose key is known, each once.
pub open spec fn known_in(owners: Seq<Owner>, keys: Map<Owner, KeyPair>) -> Seq<Owner>
    decreases owners.len(),
{
    if owners.len() == 0 {
        Seq::empty()
    } else {
        let rest = known_in(owners.drop_last(), keys);
        if keys.contains_key(owners.last()) && !rest.contains(owners.last()) {
            rest.push(owners.last())
        } else {
            rest
        }
    }
}

/// The owner this session signs as, on a chain managed by `m`.
pub open spec fn identity_of(s: SessionView, m: ChainManager) -> Result<Owner, ClientError> {
    match m {
        ChainManager::Inactive => Err(ClientError::InactiveChain(s.chain_id)),
        ChainManager::Single { owner } => if s.keys.contains_key(owner) {
            Ok(owner)
        } else {
            Err(ClientError::NoSigningKey)
        },
        ChainManager::Multi { owners, .. } => {
            let k = known_in(owners@, s.keys);
            if k.len() == 0 {
                Err(ClientError::NoSigningKey)
            } else if k.len() >= 2 {
                Err(ClientError::AmbiguousIdentity)
            } else {
                Ok(k[0])
            }
        },
    }
}

/// The block that extends the tip of `s` with `incoming` and `operations`.
pub open spec fn next_block(s: SessionView, incoming: Seq<MessageGroup>, operations: Seq<OperationView>) -> BlockView {
    BlockView {
        chain_id: s.chain_id,
        height: s.next_block_height,
        previous_block_hash: s.block_hash,
        incoming_messages: incoming,
        operations,
    }
}

/// `p` proposes `block` in `round`, by `owner`, with `signature`.
pub open spec fn proposes(p: BlockProposal, block: Block, round: RoundNumber, owner: Owner, signature: Signature) -> bool {
    p.content.block == block && p.content.round == round && p.owner == owner && p.signature == signature
}

/// How many rounds of votes a proposal takes.
#[derive(Clone, Copy, Debug, PartialEq, Eq, Structural)]
pub enum Protocol {
    /// Single-owner chains: submit for confirmation.
    OneRound,
    /// Multi-owner chains: submit for validation, then finalize.
    TwoRounds,
}

/// The client session of one chain.
#[derive(Debug)]
pub struct ChainClientState {
    chain_id: ChainId,
    validators: Vec<ValidatorName>,
    block_hash: Option<HashValue>,
    next_block_height: BlockHeight,
    next_round: RoundNumber,
    pending_block: Option<Block>,
    known_key_pairs: Vec<KeyPair>,
    received_certificate_trackers: Vec<(ValidatorName, u64)>,
    cross_chain_delay_ms: u64,
    cross_chain_retries: u64,
}

impl ChainClientState {
    /// Mathematical value of the session.
    pub closed spec fn session(&self) -> SessionView {
        SessionView {
            chain_id: self.chain_id,
            block_hash: self.block_hash,
            next_block_height: self.next_block_height,
            next_round: self.next_round,
            pending_block: match self.pending_block {
                Some(b) => Some(b@),
                None => None,
            },
            keys: key_map(self.known_key_pairs@),
            trackers: tracker_map(self.received_certificate_trackers@),
        }
    }

    /// The validators this session talks to.
    pub closed spec fn validators_spec(&self) -> Seq<ValidatorName> {
        self.validators@
    }

    /// The session invariant.
    pub open spec fn wf(&self) -> bool {
        pending_fits(self.session()) && self.cursors_distinct()
    }

    /// Each validator has at most one recorded cursor.
    pub closed spec fn cursors_distinct(&self) -> bool {
        let t = self.received_certificate_trackers@;
        forall|i: int, j: int| 0 <= i < j < t.len() ==> t[i].0 != t[j].0
    }

    /// A session with a possibly stale tip, no pending block and no cursor.
    pub fn new(
        chain_id: ChainId,
        known_key_pairs: Vec<KeyPair>,
        validators: Vec<ValidatorName>,
        block_hash: Option<HashValue>,
        next_block_height: BlockHeight,
        cross_chain_delay_ms: u64,
        cross_chain_retries: u64,
    ) -> (r: ChainClientState)
        ensures
            r.wf(),
            r.session() == (SessionView {
                chain_id,
                block_hash,
                next_block_height,
                next_round: 0,
                pending_block: None,
                keys: key_map(known_key_pairs@),
                trackers: Map::empty(),
            }),
            r.validators_spec() == validators@,
            r.cross_chain_delay_ms() == cross_chain_delay_ms,
            r.cross_chain_retries() == cross_chain_retries,
    {
        let r = ChainClientState {
            chain_id,
            validators,
            block_hash,
            next_block_height,
            next_round: 0,
            pending_block: None,
            known_key_pairs,
            received_certificate_trackers: Vec::new(),
            cross_chain_delay_ms,
            cross_chain_retries,
        };
        assert(tracker_map(r.received_certificate_trackers@) == Map::<ValidatorName, u64>::empty());
        r
    }

    /// The chain of this session.
    pub fn chain_id(&self) -> (r: ChainId)
        ensures
            r == self.session().chain_id,
    {
        self.chain_id
    }

    /// Hash of the tip, if the chain has a block.
    pub fn block_hash(&self) -> (r: Option<HashValue>)
        ensures
            r == self.session().block_hash,
    {
        self.block_hash
    }

    /// Height of the next block.
    pub fn next_block_height(&self) -> (r: BlockHeight)
        ensures
            r == self.session().next_block_height,
    {
        self.next_block_height
    }

    /// Round of the next proposal.
    pub fn next_round(&self) -> (r: RoundNumber)
        ensures
            r == self.session().next_round,
    {
        self.next_round
    }

    /// The block being proposed, if any.
    pub fn pending_block(&self) -> (r: &Option<Block>)
        ensures
            match r {
                Some(b) => self.session().pending_block == Some(b@),
                None => self.session().pending_block is None,
            },
    {
        &self.pending_block
    }

    /// The validators this session talks to.
    pub fn validators(&self) -> (r: &Vec<ValidatorName>)
        ensures
            r@ == self.validators_spec(),
    {
        &self.validators
    }

    /// Milliseconds to wait before retrying a block that waits on another chain.
    pub closed spec fn cross_chain_delay_ms(&self) -> u64 {
        self.cross_chain_delay_ms
    }

    /// How often to retry a block that waits on another chain.
    pub closed spec fn cross_chain_retries(&self) -> u64 {
        self.cross_chain_retries
    }

    /// Milliseconds to wait before retrying a block that waits on another chain.
    pub fn cross_chain_delay(&self) -> (r: u64)
        ensures
            r == self.cross_chain_delay_ms(),
    {
        self.cross_chain_delay_ms
    }

    /// How often to retry a block that waits on another chain.
    pub fn retries(&self) -> (r: u64)
        ensures
            r == self.cross_chain_retries(),
    {
        self.cross_chain_retries
    }

    /// Configuration that no step changes.
    pub open spec fn same_config(&self, other: &ChainClientState) -> bool {
        &&& self.validators_spec() == other.validators_spec()
        &&& self.cross_chain_delay_ms() == other.cross_chain_delay_ms()
        &&& self.cross_chain_retries() == other.cross_chain_retries()
    }

    fn update_tip(&mut self, height: BlockHeight, round: RoundNumber, hash: Option<HashValue>)
        requires
            old(self).wf(),
        ensures
            final(self).wf(),
            final(self).same_config(old(self)),
            final(self).session() == tip_updated(old(self).session(), height, round, hash),
    {
        if height > self.next_block_height || (height == self.next_block_height && round > self.next_round) {
            self.next_block_height = height;
            self.next_round = round;
            self.block_hash = hash;
            let fits = match &self.pending_block {
                Some(b) => b.height == height && b.previous_block_hash == hash,
                None => true,
            };
            if !fits {
                self.pending_block = None;
            }
        }
    }

    /// First step of preparing the chain, on the chain information that the
    /// local node reports once it has downloaded the history up to the
    /// session's next height. When the node is at that height its tip must be
    /// the session's tip, else `InvalidBlockChaining`. On a multi-owner chain
    /// the answer is `Ok(true)` and nothing changes: the caller synchronizes
    /// the chain state with the validators and hands the result to
    /// [`Self::finish_prepare_chain`]. Otherwise the tip is updated from `info`
    /// and the answer is `Ok(false)`.
    pub fn prepare_chain(&mut self, info: &ChainInfo) -> (r: Result<bool, ClientError>)
        requires
            old(self).wf(),
        ensures
            final(self).wf(),
            final(self).same_config(old(self)),
            ({
                let s = old(self).session();
                if info.next_block_height == s.next_block_height && info.block_hash != s.block_hash {
                    r == Err::<bool, ClientError>(ClientError::InvalidBlockChaining)
                        && final(self).session() == s
                } else if info.manager is Multi {
                    r == Ok::<bool, ClientError>(true) && final(self).session() == s
                } else {
                    r == Ok::<bool, ClientError>(false) && final(self).session() == tip_updated(
                        s,
                        info.next_block_height,
                        info.manager.next_round_spec(),
                        info.block_hash,
                    )
                }
            }),
    {
        if info.next_block_height == self.next_block_height && info.block_hash != self.block_hash {
            return Err(ClientError::InvalidBlockChaining);
        }
        if info.manager.is_multi() {
            return Ok(true);
        }
        let round = info.manager.next_round();
        self.update_tip(info.next_block_height, round, info.block_hash);
        Ok(false)
    }

    /// Last step of preparing a multi-owner chain: takes the tip of the chain
    /// state synchronized from the validators.
    pub fn finish_prepare_chain(&mut self, info: &ChainInfo)
        requires
            old(self).wf(),
        ensures
            final(self).wf(),
            final(self).same_config(old(self)),
            final(self).session() == tip_updated(
                old(self).session(),
                info.next_block_height,
                info.manager.next_round_spec(),
                info.block_hash,
            ),
    {
        let round = info.manager.next_round();
        self.update_tip(info.next_block_height, round, info.block_hash);
    }

    /// Takes in what the local node reports after processing a certificate:
    /// for this chain, the tip moves forward if the report is ahead.
    pub fn process_certificate(&mut self, info: &ChainInfo)
        requires
            old(self).wf(),
        ensures
            final(self).wf(),
            final(self).same_config(old(self)),
            final(self).session() == certificate_processed(old(self).session(), *info),
    {
        if info.chain_id == self.chain_id {
            let round = info.manager.next_round();
            self.update_tip(info.next_block_height, round, info.block_hash);
        }
    }

    /// First step of proposing `block`: it must be the pending block, if there
    /// is one, and extend the tip at the next height. It then becomes the
    /// pending block.
    pub fn propose_block(&mut self, block: Block) -> (r: Result<(), ClientError>)
        requires
            old(self).wf(),
        ensures
            final(self).wf(),
            final(self).same_config(old(self)),
            match proposal_started(old(self).session(), block@) {
                Ok(s) => r is Ok && final(self).session() == s,
                Err(e) => r == Err::<(), ClientError>(e) && final(self).session() == old(self).session(),
            },
    {
        let differs = match &self.pending_block {
            Some(p) => !p.same_as(&block),
            None => false,
        };
        if differs {
            return Err(ClientError::DifferentPendingBlock);
        }
        if block.height != self.next_block_height {
            return Err(ClientError::UnexpectedBlockHeight);
        }
        if block.previous_block_hash != self.block_hash {
            return Err(ClientError::UnexpectedPreviousBlockHash);
        }
        self.pending_block = Some(block);
        Ok(())
    }

    /// Checks the final certificate of a proposal against the pending block.
    /// When it confirms another block, a concurrent proposal won: the pending
    /// block is dropped and the error is `ConcurrentProposalExecuted`.
    pub fn confirm_proposal(&mut self, certificate: &Certificate) -> (r: Result<(), ClientError>)
        requires
            old(self).wf(),
            old(self).session().pending_block is Some,
        ensures
            final(self).wf(),
            final(self).same_config(old(self)),
            match proposal_confirmed(old(self).session(), certificate.value) {
                Ok(s) => r is Ok && final(self).session() == s,
                Err(e) => r == Err::<(), ClientError>(e) && final(self).session() == (SessionView {
                    pending_block: None,
                    ..old(self).session()
                }),
            },
    {
        let ok = match (&certificate.value, &self.pending_block) {
            (Value::ConfirmedBlock { block, .. }, Some(p)) => block.same_as(p),
            _ => false,
        };
        if ok {
            Ok(())
        } else {
            self.pending_block = None;
            Err(ClientError::ConcurrentProposalExecuted)
        }
    }

    /// Forgets the pending block.
    pub fn clear_pending_block(&mut self)
        requires
            old(self).wf(),
        ensures
            final(self).wf(),
            final(self).same_config(old(self)),
            final(self).session() == (SessionView { pending_block: None, ..old(self).session() }),
    {
        self.pending_block = None;
    }

    /// The first request of the proposal of `block`: the block in the
    /// session's round, proposed by the session's identity with `signature`
    /// (made with that identity's key pair), submitted for confirmation on a
    /// single-owner chain and for validation on a multi-owner one.
    pub fn build_proposal(&self, manager: &ChainManager, block: Block, signature: Signature) -> (r: Result<CommunicateAction, ClientError>)
        ensures
            match identity_of(self.session(), *manager) {
                Err(e) => r == Err::<CommunicateAction, ClientError>(e),
                Ok(o) => r matches Ok(a) && match a {
                    CommunicateAction::SubmitBlockForConfirmation(p) => manager is Single
                        && proposes(p, block, self.session().next_round, o, signature),
                    CommunicateAction::SubmitBlockForValidation(p) => manager is Multi
                        && proposes(p, block, self.session().next_round, o, signature),
                    _ => false,
                },
            },
    {
        let owner = self.identity(manager)?;
        let proposal = BlockProposal {
            content: BlockAndRound { block, round: self.next_round },
            owner,
            signature,
        };
        match manager {
            ChainManager::Multi { .. } => Ok(CommunicateAction::SubmitBlockForValidation(proposal)),
            _ => Ok(CommunicateAction::SubmitBlockForConfirmation(proposal)),
        }
    }

    /// The request that follows a round of a proposal, given the certificate
    /// the round produced. A validated certificate of the proposed block in its
    /// round is finalized next; a confirmed certificate ends the protocol
    /// (`Ok(None)`); a validated certificate of anything else means another
    /// proposal won: `ConcurrentProposalExecuted`.
    pub fn next_proposal_step(&self, previous: &CommunicateAction, certificate: Certificate) -> (r: Result<Option<CommunicateAction>, ClientError>)
        ensures
            match certificate.value {
                Value::ConfirmedBlock { .. } => r == Ok::<Option<CommunicateAction>, ClientError>(None),
                Value::ValidatedBlock { block, round, .. } => if (previous matches CommunicateAction::SubmitBlockForValidation(p)
                    && p.content.block@ == block@ && p.content.round == round) {
                    r matches Ok(Some(a)) && a matches CommunicateAction::FinalizeBlock(c) && c == certificate
                } else {
                    r == Err::<Option<CommunicateAction>, ClientError>(ClientError::ConcurrentProposalExecuted)
                },
            },
    {
        let matches_proposal = match (&certificate.value, previous) {
            (Value::ValidatedBlock { block, round, .. }, CommunicateAction::SubmitBlockForValidation(p)) =>
                block.same_as(&p.content.block) && *round == p.content.round,
            _ => false,
        };
        match &certificate.value {
            Value::ConfirmedBlock { .. } => Ok(None),
            Value::ValidatedBlock { .. } => {
                if matches_proposal {
                    Ok(Some(CommunicateAction::FinalizeBlock(certificate)))
                } else {
                    Err(ClientError::ConcurrentProposalExecuted)
                }
            },
        }
    }

    /// The request that tells validators the session's next height.
    pub fn advance_action(&self) -> (r: CommunicateAction)
        ensures
            r matches CommunicateAction::AdvanceToNextBlockHeight(h) && h == self.session().next_block_height,
    {
        CommunicateAction::AdvanceToNextBlockHeight(self.next_block_height)
    }

    /// How many rounds of votes a proposal takes on a chain managed by `manager`.
    pub fn protocol(&self, manager: &ChainManager) -> (r: Result<Protocol, ClientError>)
        ensures
            r == match manager {
                ChainManager::Inactive => Err(ClientError::InactiveChain(self.session().chain_id)),
                ChainManager::Single { .. } => Ok(Protocol::OneRound),
                ChainManager::Multi { .. } => Ok(Protocol::TwoRounds),
            },
    {
        match manager {
            ChainManager::Inactive => Err(ClientError::InactiveChain(self.chain_id)),
            ChainManager::Single { .. } => Ok(Protocol::OneRound),
            ChainManager::Multi { .. } => Ok(Protocol::TwoRounds),
        }
    }

    fn find_key(&self, owner: Owner) -> (r: Option<KeyPair>)
        ensures
            r == if self.session().keys.contains_key(owner) {
                Some(self.session().keys[owner])
            } else {
                None::<KeyPair>
            },
    {
        let ghost s = self.known_key_pairs@;
        let mut j: usize = self.known_key_pairs.len();
        assert(s.subrange(0, j as int) =~= s);
        while j > 0
            invariant
                j <= s.len(),
                s == self.known_key_pairs@,
                key_map(s).contains_key(owner) == key_map(s.subrange(0, j as int)).contains_key(owner),
                key_map(s).contains_key(owner) ==> key_map(s)[owner] == key_map(s.subrange(0, j as int))[owner],
            decreases j,
        {
            assert(s.subrange(0, j as int).drop_last() =~= s.subrange(0, j - 1));
            if self.known_key_pairs[j - 1].public == owner {
                return Some(self.known_key_pairs[j - 1]);
            }
            j = j - 1;
        }
        None
    }

    /// The owner this session signs as: the sole owner of a single-owner chain
    /// if its key is known; the one owner of a multi-owner chain whose key is
    /// known, failing when there is none or several.
    pub fn identity(&self, manager: &ChainManager) -> (r: Result<Owner, ClientError>)
        ensures
            r == identity_of(self.session(), *manager),
    {
        match manager {
            ChainManager::Inactive => Err(ClientError::InactiveChain(self.chain_id)),
            ChainManager::Single { owner } => {
                if self.find_key(*owner).is_some() {
                    Ok(*owner)
                } else {
                    Err(ClientError::NoSigningKey)
                }
            },
            ChainManager::Multi { owners, .. } => {
                let ghost keys = self.session().keys;
                let mut identities: Vec<Owner> = Vec::new();
                let mut i: usize = 0;
                while i < owners.len()
                    invariant
                        i <= owners.len(),
                        keys == self.session().keys,
                        identities@ == known_in(owners@.subrange(0, i as int), keys),
                    decreases owners.len() - i,
                {
                    assert(owners@.subrange(0, i + 1).drop_last() =~= owners@.subrange(0, i as int));
                    if self.find_key(owners[i]).is_some() && !contains_owner(&identities, owners[i]) {
                        identities.push(owners[i]);
                    }
                    i = i + 1;
                }
                assert(owners@.subrange(0, i as int) =~= owners@);
                if identities.len() == 0 {
                    Err(ClientError::NoSigningKey)
                } else if identities.len() >= 2 {
                    Err(ClientError::AmbiguousIdentity)
                } else {
                    Ok(identities[0])
                }
            },
        }
    }

    /// The key pair of [`Self::identity`].
    pub fn key_pair(&self, manager: &ChainManager) -> (r: Result<KeyPair, ClientError>)
        ensures
            match identity_of(self.session(), *manager) {
                Ok(o) => r == Ok::<KeyPair, ClientError>(self.session().keys[o]) && self.session().keys[o].public == o,
                Err(e) => r == Err::<KeyPair, ClientError>(e),
            },
    {
        let id = self.identity(manager)?;
        proof {
            lemma_key_map_public(self.known_key_pairs@, id);
            assert(identity_of(self.session(), *manager) == Ok::<Owner, ClientError>(id));
            self.lemma_identity_known(*manager);
        }
        match self.find_key(id) {
            Some(kp) => Ok(kp),
            None => Err(ClientError::NoSigningKey),
        }
    }

    proof fn lemma_identity_known(&self, manager: ChainManager)
        ensures
            identity_of(self.session(), manager) matches Ok(o) ==> self.session().keys.contains_key(o),
    {
        if let ChainManager::Multi { owners, .. } = manager {
            lemma_known_in(owners@, self.session().keys);
        }
    }

    /// Records that all received certificates a validator reported, `count` of
    /// them, were processed. The cursor never moves back.
    pub fn update_tracker(&mut self, name: ValidatorName, count: u64)
        requires
            old(self).wf(),
        ensures
            final(self).wf(),
            final(self).same_config(old(self)),
            final(self).session() == tracker_updated(old(self).session(), name, count),
    {
        let c = self.tracker(name);
        let v = if count > c { count } else { c };
        let ghost t = self.received_certificate_trackers@;
        match self.find_tracker(name) {
            Some(j) => {
                self.received_certificate_trackers.set(j, (name, v));
                proof {
                    lemma_tracker_update(t, j as int, v);
                    assert forall|a: int, b: int| 0 <= a < b < t.len() implies
                        self.received_certificate_trackers@[a].0 != self.received_certificate_trackers@[b].0 by {
                        assert(t[a].0 != t[b].0);
                    }
                }
                return;
            },
            None => {},
        }
        self.received_certificate_trackers.push((name, v));
        assert(self.received_certificate_trackers@.drop_last() =~= old(self).received_certificate_trackers@);
    }

    /// Ends a batch: the validator's cursor moves only when none of its
    /// certificates failed.
    pub fn finish_batch(&mut self, progress: &BatchProgress)
        requires
            old(self).wf(),
        ensures
            final(self).wf(),
            final(self).same_config(old(self)),
            final(self).session() == if !progress.failed {
                tracker_updated(old(self).session(), progress.validator, progress.count)
            } else {
                old(self).session()
            },
    {
        self.received_batch(progress.validator, progress.count, !progress.failed);
    }

    fn find_tracker(&self, name: ValidatorName) -> (r: Option<usize>)
        ensures
            match r {
                Some(j) => j < self.received_certificate_trackers@.len()
                    && self.received_certificate_trackers@[j as int].0 == name,
                None => forall|k: int| 0 <= k < self.received_certificate_trackers@.len()
                    ==> self.received_certificate_trackers@[k].0 != name,
            },
    {
        let mut j: usize = 0;
        while j < self.received_certificate_trackers.len()
            invariant
                j <= self.received_certificate_trackers@.len(),
                forall|k: int| 0 <= k < j ==> self.received_certificate_trackers@[k].0 != name,
            decreases self.received_certificate_trackers@.len() - j,
        {
            if self.received_certificate_trackers[j].0 == name {
                return Some(j);
            }
            j = j + 1;
        }
        None
    }

    /// Takes in the result of receiving one validator's batch of `count`
    /// certificates: when all of them were received the validator's cursor
    /// moves as [`Self::update_tracker`] says; when one failed, nothing
    /// changes, so that a faulty validator cannot move its own cursor.
    pub fn received_batch(&mut self, name: ValidatorName, count: u64, all_received: bool)
        requires
            old(self).wf(),
        ensures
            final(self).wf(),
            final(self).same_config(old(self)),
            final(self).session() == if all_received {
                tracker_updated(old(self).session(), name, count)
            } else {
                old(self).session()
            },
    {
        if all_received {
            self.update_tracker(name, count);
        }
    }

    /// The number of received certificates already taken from `name`.
    pub fn tracker(&self, name: ValidatorName) -> (r: u64)
        ensures
            r == cursor(self.session().trackers, name),
    {
        let ghost s = self.received_certificate_trackers@;
        let mut j: usize = self.received_certificate_trackers.len();
        assert(s.subrange(0, j as int) =~= s);
        while j > 0
            invariant
                j <= s.len(),
                s == self.received_certificate_trackers@,
                cursor(tracker_map(s), name) == cursor(tracker_map(s.subrange(0, j as int)), name),
            decreases j,
        {
            assert(s.subrange(0, j as int).drop_last() =~= s.subrange(0, j - 1));
            if self.received_certificate_trackers[j - 1].0 == name {
                return self.received_certificate_trackers[j - 1].1;
            }
            j = j - 1;
        }
        0
    }
}

impl ChainClientState {
    fn make_block(&self, incoming: Vec<MessageGroup>, operation: Option<Operation>) -> (r: Block)
        ensures
            r@ == next_block(
                self.session(),
                incoming@,
                match operation {
                    Some(op) => seq![op@],
                    None => Seq::<OperationView>::empty(),
                },
            ),
    {
        let mut operations: Vec<Operation> = Vec::new();
        match operation {
            Some(op) => operations.push(op),
            None => {},
        }
        let r = Block {
            chain_id: self.chain_id,
            height: self.next_block_height,
            previous_block_hash: self.block_hash,
            incoming_messages: incoming,
            operations,
        };
        assert(r@.operations =~= match operation {
            Some(op) => seq![op@],
            None => Seq::<OperationView>::empty(),
        });
        r
    }

    /// The block that sends `amount` to `recipient`, once the synchronized
    /// `balance` covers it; `InsufficientBalance` otherwise.
    pub fn transfer(
        &self,
        amount: Amount,
        recipient: Address,
        user_data: UserData,
        balance: Balance,
        incoming: Vec<MessageGroup>,
    ) -> (r: Result<Block, ClientError>)
        ensures
            amount as int > balance ==> r == Err::<Block, ClientError>(ClientError::InsufficientBalance),
            amount as int <= balance ==> (r matches Ok(b) && b@ == next_block(
                self.session(),
                incoming@,
                seq![OperationView::Transfer { recipient, amount, user_data }],
            )),
    {
        if amount as i128 > balance {
            return Err(ClientError::InsufficientBalance);
        }
        Ok(self.make_block(incoming, Some(Operation::Transfer { recipient, amount, user_data })))
    }

    /// [`Self::transfer`] to the account of a chain.
    pub fn transfer_to_chain(
        &self,
        amount: Amount,
        recipient: ChainId,
        user_data: UserData,
        balance: Balance,
        incoming: Vec<MessageGroup>,
    ) -> (r: Result<Block, ClientError>)
        ensures
            amount as int > balance ==> r == Err::<Block, ClientError>(ClientError::InsufficientBalance),
            amount as int <= balance ==> (r matches Ok(b) && b@ == next_block(
                self.session(),
                incoming@,
                seq![OperationView::Transfer { recipient: Address::Account(recipient), amount, user_data }],
            )),
    {
        self.transfer(amount, Address::Account(recipient), user_data, balance, incoming)
    }

    /// [`Self::transfer`] that destroys the tokens.
    pub fn burn(&self, amount: Amount, user_data: UserData, balance: Balance, incoming: Vec<MessageGroup>) -> (r: Result<Block, ClientError>)
        ensures
            amount as int > balance ==> r == Err::<Block, ClientError>(ClientError::InsufficientBalance),
            amount as int <= balance ==> (r matches Ok(b) && b@ == next_block(
                self.session(),
                incoming@,
                seq![OperationView::Transfer { recipient: Address::Burn, amount, user_data }],
            )),
    {
        self.transfer(amount, Address::Burn, user_data, balance, incoming)
    }

    /// The transfer block, without any check of the balance.
    pub fn transfer_to_chain_unsafe_unconfirmed(
        &self,
        amount: Amount,
        recipient: ChainId,
        user_data: UserData,
        incoming: Vec<MessageGroup>,
    ) -> (r: Block)
        ensures
            r@ == next_block(
                self.session(),
                incoming@,
                seq![OperationView::Transfer { recipient: Address::Account(recipient), amount, user_data }],
            ),
    {
        self.make_block(incoming, Some(Operation::Transfer { recipient: Address::Account(recipient), amount, user_data }))
    }

    /// Remembers `key_pair` and gives the block that makes its owner the sole
    /// owner of the chain. The proposal is still signed by the current identity.
    pub fn rotate_key_pair(&mut self, key_pair: KeyPair, incoming: Vec<MessageGroup>) -> (r: Block)
        requires
            old(self).wf(),
        ensures
            final(self).wf(),
            final(self).same_config(old(self)),
            final(self).session() == (SessionView {
                keys: old(self).session().keys.insert(key_pair.public, key_pair),
                ..old(self).session()
            }),
            r@ == next_block(
                old(self).session(),
                incoming@,
                seq![OperationView::ChangeOwner { new_owner: key_pair.public }],
            ),
    {
        let r = self.make_block(incoming, Some(Operation::ChangeOwner { new_owner: key_pair.public() }));
        self.known_key_pairs.push(key_pair);
        assert(self.known_key_pairs@.drop_last() =~= old(self).known_key_pairs@);
        r
    }

    /// The block that makes `new_owner` the sole owner of the chain.
    pub fn transfer_ownership(&self, new_owner: Owner, incoming: Vec<MessageGroup>) -> (r: Block)
        ensures
            r@ == next_block(self.session(), incoming@, seq![OperationView::ChangeOwner { new_owner }]),
    {
        self.make_block(incoming, Some(Operation::ChangeOwner { new_owner }))
    }

    /// The block that makes the current identity and `new_owner` the owners
    /// of the chain.
    pub fn share_ownership(&self, manager: &ChainManager, new_owner: Owner, incoming: Vec<MessageGroup>) -> (r: Result<Block, ClientError>)
        ensures
            match identity_of(self.session(), *manager) {
                Ok(o) => r matches Ok(b) && b@ == next_block(
                    self.session(),
                    incoming@,
                    seq![OperationView::ChangeMultipleOwners { new_owners: seq![o, new_owner] }],
                ),
                Err(e) => r == Err::<Block, ClientError>(e),
            },
    {
        let owner = self.identity(manager)?;
        let mut new_owners: Vec<Owner> = Vec::new();
        new_owners.push(owner);
        new_owners.push(new_owner);
        assert(new_owners@ =~= seq![owner, new_owner]);
        Ok(self.make_block(incoming, Some(Operation::ChangeMultipleOwners { new_owners })))
    }

    /// The admin chain that `info` reports, or `InactiveChain`.
    pub fn admin_id(&self, info: &ChainInfo) -> (r: Result<ChainId, ClientError>)
        ensures
            r == match info.admin_id {
                Some(a) => Ok::<ChainId, ClientError>(a),
                None => Err(ClientError::InactiveChain(self.session().chain_id)),
            },
    {
        match info.admin_id {
            Some(a) => Ok(a),
            None => Err(ClientError::InactiveChain(self.chain_id)),
        }
    }

    /// The current committee: the last one that `info` reports, or `InactiveChain`.
    pub fn committee<'a>(&self, info: &'a ChainInfo) -> (r: Result<&'a Committee, ClientError>)
        ensures
            info.queried_committees@.len() == 0 ==> r == Err::<&Committee, ClientError>(ClientError::InactiveChain(self.session().chain_id)),
            info.queried_committees@.len() > 0 ==> r == Ok::<&Committee, ClientError>(&info.queried_committees@.last()),
    {
        let n = info.queried_committees.len();
        if n == 0 {
            Err(ClientError::InactiveChain(self.chain_id))
        } else {
            Ok(&info.queried_committees[n - 1])
        }
    }

    /// The identifier of the chain opened at the next height, and the block
    /// that opens it for `owner` with the committees and under the admin chain
    /// that `info` reports.
    pub fn open_chain(&self, owner: Owner, info: &ChainInfo, incoming: Vec<MessageGroup>) -> (r: Result<(ChainId, Block), ClientError>)
        ensures
            match info.admin_id {
                None => r == Err::<(ChainId, Block), ClientError>(ClientError::InactiveChain(self.session().chain_id)),
                Some(admin_id) => r matches Ok((id, b)) && {
                    let s = self.session();
                    &&& id == child_id(OperationId { chain_id: s.chain_id, height: s.next_block_height, index: 0 })
                    &&& b@ == next_block(
                        s,
                        incoming@,
                        seq![OperationView::OpenChain {
                            id,
                            owner,
                            committees: info.queried_committees@.map_values(|c: Committee| c@),
                            admin_id,
                        }],
                    )
                },
            },
    {
        let admin_id = self.admin_id(info)?;
        let id = ChainId::child(OperationId { chain_id: self.chain_id, height: self.next_block_height, index: 0 });
        let committees = copy_committees(&info.queried_committees);
        Ok((id, self.make_block(incoming, Some(Operation::OpenChain { id, owner, committees, admin_id }))))
    }

    /// The block that closes the chain.
    pub fn close_chain(&self, incoming: Vec<MessageGroup>) -> (r: Block)
        ensures
            r@ == next_block(self.session(), incoming@, seq![OperationView::CloseChain]),
    {
        self.make_block(incoming, Some(Operation::CloseChain))
    }

    /// The block of an admin chain that creates a committee with these voting
    /// rights, created by the operation at index 0 of that block;
    /// `InvalidVotingRights` when they name a validator twice or their total
    /// does not fit.
    pub fn stage_new_voting_rights(&self, voting_rights: Vec<(ValidatorName, u64)>, incoming: Vec<MessageGroup>) -> (r: Result<Block, ClientError>)
        ensures
            !valid_rights(voting_rights@) ==> r == Err::<Block, ClientError>(ClientError::InvalidVotingRights),
            valid_rights(voting_rights@) ==> ({
                let s = self.session();
                r matches Ok(b) && b@ == next_block(
                    s,
                    incoming@,
                    seq![OperationView::NewCommittee {
                        admin_id: s.chain_id,
                        rights: voting_rights@,
                        origin: Some(OperationId { chain_id: s.chain_id, height: s.next_block_height, index: 0 }),
                    }],
                )
            }),
    {
        if !valid_voting_rights(&voting_rights) {
            return Err(ClientError::InvalidVotingRights);
        }
        let id = OperationId { chain_id: self.chain_id, height: self.next_block_height, index: 0 };
        let committee = Committee::new(voting_rights, Some(id));
        Ok(self.make_block(incoming, Some(Operation::NewCommittee { admin_id: self.chain_id, committee })))
    }

    /// The block that only takes in the pending messages.
    pub fn process_inbox(&self, incoming: Vec<MessageGroup>) -> (r: Block)
        ensures
            r@ == next_block(self.session(), incoming@, Seq::<OperationView>::empty()),
    {
        self.make_block(incoming, None)
    }

    /// The block that subscribes the chain to the committees of the admin
    /// chain that `info` reports, handing over the committees it reports.
    pub fn subscribe_to_new_committees(&self, info: &ChainInfo, incoming: Vec<MessageGroup>) -> (r: Result<Block, ClientError>)
        ensures
            match info.admin_id {
                None => r == Err::<Block, ClientError>(ClientError::InactiveChain(self.session().chain_id)),
                Some(admin_id) => r matches Ok(b) && b@ == next_block(
                    self.session(),
                    incoming@,
                    seq![OperationView::SubscribeToNewCommittees {
                        id: self.session().chain_id,
                        committees: info.queried_committees@.map_values(|c: Committee| c@),
                        admin_id,
                    }],
                ),
            },
    {
        let admin_id = self.admin_id(info)?;
        let committees = copy_committees(&info.queried_committees);
        Ok(self.make_block(incoming, Some(Operation::SubscribeToNewCommittees { id: self.chain_id, committees, admin_id })))
    }

    /// The block to stage for computing the local balance: the pending
    /// messages and no operation. The local node must be at the session's
    /// height, else `LocalNodeBehind`.
    pub fn local_balance(&self, info: &ChainInfo, incoming: Vec<MessageGroup>) -> (r: Result<Block, ClientError>)
        ensures
            info.next_block_height != self.session().next_block_height ==> r == Err::<Block, ClientError>(ClientError::LocalNodeBehind),
            info.next_block_height == self.session().next_block_height ==> (r matches Ok(b) && b@ == next_block(
                self.session(),
                incoming@,
                Seq::<OperationView>::empty(),
            )),
    {
        if info.next_block_height != self.next_block_height {
            return Err(ClientError::LocalNodeBehind);
        }
        Ok(self.make_block(incoming, None))
    }

    /// What receiving `certificate` involves: the sender chain whose history
    /// to download, and the height to which validators must then advance it.
    pub fn receive_certificate(&self, certificate: &Certificate) -> (r: Result<(ChainId, BlockHeight), ClientError>)
        ensures
            match certificate.value {
                Value::ConfirmedBlock { block, .. } => if block.height == u64::MAX {
                    r == Err::<(ChainId, BlockHeight), ClientError>(ClientError::HeightOverflow)
                } else {
                    r == Ok::<(ChainId, BlockHeight), ClientError>((block.chain_id, (block.height + 1) as u64))
                },
                Value::ValidatedBlock { .. } => r == Err::<(ChainId, BlockHeight), ClientError>(ClientError::ExpectedConfirmedBlock),
            },
    {
        match certificate.value.confirmed_block() {
            None => Err(ClientError::ExpectedConfirmedBlock),
            Some(block) => {
                if block.height == u64::MAX {
                    Err(ClientError::HeightOverflow)
                } else {
                    Ok((block.chain_id, block.height + 1))
                }
            },
        }
    }
}

/// What a fan-out about `chain_id` amounts to once its tally has decided.
/// A certificate it gives is signed by distinct validators that hold strictly
/// more than two thirds of the committee's voting power.
/// A quorum of votes for a state hash gives the certificate that `action`
/// makes of it, signed by those votes; a quorum of answers without a vote gives
/// no certificate. When no quorum can be reached, an advance of height whose
/// dominant error is that this very chain is inactive gives no certificate and
/// no error; anything else fails with `QuorumNotReached`.
pub fn communicate_chain_updates(
    chain_id: ChainId,
    action: CommunicateAction,
    tally: &QuorumTally,
    outcome: TallyOutcome,
) -> (r: Result<Option<Certificate>, ClientError>)
    requires
        tally.wf(),
        outcome !is Pending,
        outcome matches TallyOutcome::Reached(k) ==> tally.reached(k),
    ensures
        match outcome {
            TallyOutcome::Reached(Some(h)) => match certified_value(action, h) {
                Some(v) => r matches Ok(Some(c)) && {
                    let names = c.signatures@.map_values(|x: (ValidatorName, Signature)| x.0);
                    &&& c.value == v
                    &&& c.signatures@ == tally.signatures_spec(Some(h))
                    &&& forall|a: int, b: int| 0 <= a < b < names.len() ==> names[a] != names[b]
                    &&& is_quorum_of(
                        names_weight(tally.committee_spec().rights(), names),
                        tally.committee_spec().total(),
                    )
                },
                None => r == Ok::<Option<Certificate>, ClientError>(None),
            },
            TallyOutcome::Reached(None) => r == Ok::<Option<Certificate>, ClientError>(None),
            TallyOutcome::Impossible(d) => match quorum_failure_spec(chain_id, action is AdvanceToNextBlockHeight, d) {
                Ok(()) => r == Ok::<Option<Certificate>, ClientError>(None),
                Err(e) => r == Err::<Option<Certificate>, ClientError>(e),
            },
            TallyOutcome::Pending => false,
        },
{
    match outcome {
        TallyOutcome::Reached(Some(h)) => {
            let signatures = tally.signatures(Some(h));
            proof { tally.lemma_quorum_soundness(Some(h)); }
            Ok(certificate_from_votes(action, h, signatures))
        },
        TallyOutcome::Reached(None) => Ok(None),
        TallyOutcome::Impossible(d) => {
            let is_advance = match action {
                CommunicateAction::AdvanceToNextBlockHeight(_) => true,
                _ => false,
            };
            match quorum_failure(chain_id, is_advance, d) {
                Ok(()) => Ok(None),
                Err(e) => Err(e),
            }
        },
        TallyOutcome::Pending => Ok(None),
    }
}

/// What `quorum_failure` returns.
pub open spec fn quorum_failure_spec(chain_id: ChainId, is_advance: bool, dominant: Option<NodeError>) -> Result<(), ClientError> {
    if is_advance && dominant == Some(NodeError::InactiveChain(chain_id)) {
        Ok(())
    } else {
        Err(ClientError::QuorumNotReached(dominant))
    }
}

/// Progress through one validator's batch of received certificates, which
/// are taken in order until one fails.
#[derive(Clone, Copy, Debug, PartialEq, Eq, Structural)]
pub struct BatchProgress {
    pub validator: ValidatorName,
    pub count: u64,
    pub failed: bool,
}

impl BatchProgress {
    /// A batch of `count` certificates from `validator`, none taken yet.
    pub fn new(validator: ValidatorName, count: u64) -> (r: BatchProgress)
        ensures
            r == (BatchProgress { validator, count, failed: false }),
    {
        BatchProgress { validator, count, failed: false }
    }

    /// Records whether the next certificate was received, and says whether
    /// to go on with the batch: not after a failure, so that the rest of a
    /// faulty validator's batch is skipped.
    pub fn record(&mut self, received: bool) -> (go_on: bool)
        ensures
            *final(self) == (BatchProgress { failed: old(self).failed || !received, ..*old(self) }),
            go_on == !final(self).failed,
    {
        if !received {
            self.failed = true;
        }
        !self.failed
    }
}

/// Which committees to tell of the new height once a proposed block is
/// confirmed and processed.
#[derive(Clone, Copy, Debug, PartialEq, Eq, Structural)]
pub struct AdvancePlan {
    /// Tell the committee the block was proposed to.
    pub to_previous: bool,
    /// Tell the committee that the block installed.
    pub to_current: bool,
}

/// After a confirmed block: with confirmation asked for, the committee the
/// block was proposed to learns the new height, and so does the committee now
/// current when the block changed it (other voting power or origin). Without
/// confirmation nobody is told.
pub fn advance_plan(with_confirmation: bool, previous: &Committee, current: Result<&Committee, ClientError>) -> (r: AdvancePlan)
    requires
        previous.wf(),
        current matches Ok(c) ==> c.wf(),
    ensures
        r.to_previous == with_confirmation,
        r.to_current == (with_confirmation && match current {
            Ok(c) => !(rights_map(c.rights()) == rights_map(previous.rights()) && c.origin() == previous.origin()),
            Err(_) => false,
        }),
{
    let changed = match current {
        Ok(c) => !c.same_members(previous),
        Err(_) => false,
    };
    AdvancePlan { to_previous: with_confirmation, to_current: with_confirmation && changed }
}

/// The next block height never decreases: not when a node reports a tip, not
/// when the local node processes a certificate, not when a proposal starts or
/// is checked, not when a cursor moves.
pub proof fn lemma_height_never_decreases(
    s: SessionView,
    info: ChainInfo,
    b: BlockView,
    v: Value,
    name: ValidatorName,
    count: u64,
)
    ensures
        tip_updated(s, info.next_block_height, info.manager.next_round_spec(), info.block_hash).next_block_height
            >= s.next_block_height,
        certificate_processed(s, info).next_block_height >= s.next_block_height,
        proposal_started(s, b) matches Ok(t) ==> t.next_block_height == s.next_block_height,
        proposal_confirmed(s, v) matches Ok(t) ==> t.next_block_height == s.next_block_height,
        tracker_updated(s, name, count).next_block_height == s.next_block_height,
{
}

/// The tip is always one reported whole: after a report, the height, round
/// and hash are either all unchanged or all those of the report.
pub proof fn lemma_tip_taken_whole(s: SessionView, height: BlockHeight, round: RoundNumber, hash: Option<HashValue>)
    ensures
        ({
            let t = tip_updated(s, height, round, hash);
            ||| (t.next_block_height, t.next_round, t.block_hash) == (s.next_block_height, s.next_round, s.block_hash)
            ||| (t.next_block_height, t.next_round, t.block_hash) == (height, round, hash)
        }),
{
}

/// At most one pending block, and it extends the tip at the next height:
/// every step that can set or move the tip keeps this so.
pub proof fn lemma_pending_block_fits(s: SessionView, info: ChainInfo, b: BlockView, v: Value, name: ValidatorName, count: u64)
    requires
        pending_fits(s),
    ensures
        pending_fits(tip_updated(s, info.next_block_height, info.manager.next_round_spec(), info.block_hash)),
        pending_fits(certificate_processed(s, info)),
        proposal_started(s, b) matches Ok(t) ==> pending_fits(t) && t.pending_block == Some(b),
        proposal_confirmed(s, v) matches Ok(t) ==> pending_fits(t),
        pending_fits(SessionView { pending_block: None, ..s }),
        pending_fits(tracker_updated(s, name, count)),
{
}

/// The cursor of each validator never decreases.
pub proof fn lemma_cursors_never_decrease(s: SessionView, name: ValidatorName, count: u64)
    ensures
        forall|v: ValidatorName| #[trigger] cursor(tracker_updated(s, name, count).trackers, v) >= cursor(s.trackers, v),
        cursor(tracker_updated(s, name, count).trackers, name) >= count,
{
}

/// Receiving a certificate twice, with the local node reporting the same chain
/// information each time, leaves the session as receiving it once.
pub proof fn lemma_receive_idempotent(s: SessionView, info: ChainInfo)
    ensures
        certificate_processed(certificate_processed(s, info), info) == certificate_processed(s, info),
{
}

/// Retrying the pending block with no change in the session is accepted and
/// changes nothing; its final certificate is then either one for that very
/// block or the step fails with `ConcurrentProposalExecuted`.
pub proof fn lemma_retry_same_block(s: SessionView, v: Value)
    requires
        pending_fits(s),
        s.pending_block is Some,
    ensures
        proposal_started(s, s.pending_block.unwrap()) == Ok::<SessionView, ClientError>(s),
        proposal_confirmed(s, v) is Ok ==> confirms(v, s.pending_block.unwrap()),
        proposal_confirmed(s, v) is Err ==> proposal_confirmed(s, v) == Err::<SessionView, ClientError>(
            ClientError::ConcurrentProposalExecuted,
        ),
{
    let b = s.pending_block.unwrap();
    assert(SessionView { pending_block: Some(b), ..s } == s);
}

/// Overwriting the entry of a validator listed once sets its cursor.
pub proof fn lemma_tracker_update(t: Seq<(ValidatorName, u64)>, j: int, v: u64)
    requires
        0 <= j < t.len(),
        forall|a: int, b: int| 0 <= a < b < t.len() ==> t[a].0 != t[b].0,
    ensures
        tracker_map(t.update(j, (t[j].0, v))) == tracker_map(t).insert(t[j].0, v),
    decreases t.len(),
{
    let name = t[j].0;
    let u = t.update(j, (name, v));
    if j == t.len() - 1 {
        assert(u.drop_last() =~= t.drop_last());
        assert(tracker_map(u) =~= tracker_map(t).insert(name, v));
    } else {
        assert(u.drop_last() =~= t.drop_last().update(j, (name, v)));
        lemma_tracker_update(t.drop_last(), j, v);
        assert(t.last().0 != name);
        assert(tracker_map(u) =~= tracker_map(t).insert(name, v));
    }
}

/// Whether every listed certificate confirms a block.
pub fn all_confirmed(certificates: &Vec<Certificate>) -> (r: bool)
    ensures
        r == forall|i: int| 0 <= i < certificates@.len() ==> (#[trigger] certificates@[i]).value is ConfirmedBlock,
{
    let mut i: usize = 0;
    while i < certificates.len()
        invariant
            i <= certificates.len(),
            forall|k: int| 0 <= k < i ==> (#[trigger] certificates@[k]).value is ConfirmedBlock,
        decreases certificates.len() - i,
    {
        if certificates[i].value.confirmed_block().is_none() {
            return false;
        }
        i = i + 1;
    }
    true
}

/// A proposal that starts, is confirmed, and whose certificate the local
/// node reports as extending this chain by one block, leaves the next height
/// one above the proposed block's.
pub proof fn lemma_confirmed_proposal_height(s: SessionView, b: BlockView, v: Value, info: ChainInfo)
    requires
        proposal_started(s, b) is Ok,
        proposal_confirmed(proposal_started(s, b).unwrap(), v) is Ok,
        info.chain_id == s.chain_id,
        info.next_block_height == b.height + 1,
    ensures
        ({
            let t = proposal_confirmed(proposal_started(s, b).unwrap(), v).unwrap();
            let u = SessionView { pending_block: None, ..certificate_processed(t, info) };
            &&& u.next_block_height == b.height + 1
            &&& u.next_block_height == s.next_block_height + 1
            &&& u.pending_block is None
        }),
{
}

fn contains_owner(v: &Vec<Owner>, o: Owner) -> (r: bool)
    ensures
        r == v@.contains(o),
{
    let mut i: usize = 0;
    while i < v.len()
        invariant
            i <= v.len(),
            forall|k: int| 0 <= k < i ==> v@[k] != o,
        decreases v.len() - i,
    {
        if v[i] == o {
            return true;
        }
        i = i + 1;
    }
    false
}

/// The owners of `owners` whose key is known, as a set.
pub open spec fn known_owners(owners: Seq<Owner>, keys: Map<Owner, KeyPair>) -> Set<Owner> {
    Set::new(|o: Owner| owners.contains(o) && keys.contains_key(o))
}

/// `known_in` lists the known owners, each exactly once.
pub proof fn lemma_known_in_set(owners: Seq<Owner>, keys: Map<Owner, KeyPair>)
    ensures
        known_in(owners, keys).no_duplicates(),
        forall|o: Owner| #[trigger] known_in(owners, keys).contains(o) <==> known_owners(owners, keys).contains(o),
    decreases owners.len(),
{
    if owners.len() > 0 {
        let front = owners.drop_last();
        lemma_known_in_set(front, keys);
        let rest = known_in(front, keys);
        let k = known_in(owners, keys);
        assert forall|o: Owner| #[trigger] k.contains(o) <==> known_owners(owners, keys).contains(o) by {
            if k.contains(o) {
                let i = choose|i: int| 0 <= i < k.len() && k[i] == o;
                if i < rest.len() {
                    assert(rest.contains(o));
                    let j = choose|j: int| 0 <= j < front.len() && front[j] == o;
                    assert(owners[j] == o);
                } else {
                    assert(owners[owners.len() - 1] == o);
                }
            }
            if known_owners(owners, keys).contains(o) {
                let j = choose|j: int| 0 <= j < owners.len() && owners[j] == o;
                if j < owners.len() - 1 {
                    assert(front[j] == o);
                    assert(known_owners(front, keys).contains(o));
                    assert(rest.contains(o));
                    let i = choose|i: int| 0 <= i < rest.len() && rest[i] == o;
                    assert(k[i] == o);
                } else if !rest.contains(o) {
                    assert(k[k.len() - 1] == o);
                } else {
                    let i = choose|i: int| 0 <= i < rest.len() && rest[i] == o;
                    assert(k[i] == o);
                }
            }
        }
    }
}

/// On a multi-owner chain the session signs as `o` exactly when `o` is the
/// one owner whose key is known; with no such owner it has no key, and with
/// several it refuses to choose.
pub proof fn lemma_identity_multi(s: SessionView, owners: Vec<Owner>, round: RoundNumber, o: Owner)
    ensures
        ({
            let m = ChainManager::Multi { owners, next_round: round };
            let k = known_owners(owners@, s.keys);
            &&& identity_of(s, m) == Ok::<Owner, ClientError>(o) <==> (forall|x: Owner| #[trigger] k.contains(x) <==> x == o)
            &&& identity_of(s, m) == Err::<Owner, ClientError>(ClientError::NoSigningKey) <==> (forall|x: Owner| !#[trigger] k.contains(x))
            &&& (k.contains(o) && exists|x: Owner| k.contains(x) && x != o) ==> identity_of(s, m) == Err::<Owner, ClientError>(ClientError::AmbiguousIdentity)
        }),
{
    let m = ChainManager::Multi { owners, next_round: round };
    let kk = known_in(owners@, s.keys);
    let k = known_owners(owners@, s.keys);
    lemma_known_in_set(owners@, s.keys);
    if kk.len() == 1 {
        assert(kk.contains(kk[0]));
        assert forall|x: Owner| #[trigger] k.contains(x) <==> x == kk[0] by {
            if k.contains(x) {
                assert(kk.contains(x));
            }
        }
        assert(k.contains(kk[0]));
        if forall|x: Owner| #[trigger] k.contains(x) <==> x == o {
            assert(k.contains(kk[0]) ==> kk[0] == o);
        }
    } else if kk.len() >= 2 {
        assert(kk[0] != kk[1]);
        assert(kk.contains(kk[0]) && kk.contains(kk[1]));
        assert(k.contains(kk[0]) && k.contains(kk[1]));
        assert(!(forall|x: Owner| #[trigger] k.contains(x) <==> x == o));
        assert(!(forall|x: Owner| !#[trigger] k.contains(x)));
    } else {
        assert forall|x: Owner| !#[trigger] k.contains(x) by {
            if k.contains(x) {
                assert(kk.contains(x));
            }
        }
        assert(!k.contains(o));
    }
}

/// The key pair known for an owner signs as that owner.
pub proof fn lemma_key_map_public(s: Seq<KeyPair>, o: Owner)
    ensures
        key_map(s).contains_key(o) ==> key_map(s)[o].public == o,
    decreases s.len(),
{
    if s.len() > 0 {
        lemma_key_map_public(s.drop_last(), o);
    }
}

/// Each owner listed by `known_in` has a known key.
pub proof fn lemma_known_in(owners: Seq<Owner>, keys: Map<Owner, KeyPair>)
    ensures
        forall|i: int| 0 <= i < known_in(owners, keys).len() ==> keys.contains_key(#[trigger] known_in(owners, keys)[i]),
    decreases owners.len(),
{
    if owners.len() > 0 {
        lemma_known_in(owners.drop_last(), keys);
        let rest = known_in(owners.drop_last(), keys);
        assert forall|i: int| 0 <= i < known_in(owners, keys).len() implies keys.contains_key(
            #[trigger] known_in(owners, keys)[i]) by {
            if i < rest.len() {
                assert(keys.contains_key(rest[i]));
            }
        }
    }
}

} // verus!

use chain_client::base::{ChainId, HashValue, Signature, ValidatorName};
use chain_client::certificate::{
    certificate_from_votes, quorum_failure, BlockAndRound, BlockProposal, Certificate,
    CommunicateAction, Value,
};
use chain_client::client::communicate_chain_updates;
use chain_client::block::Block;
use chain_client::base::Owner;
use chain_client::committee::Committee;
use chain_client::error::{ClientError, NodeError};
use chain_client::quorum::{QuorumTally, TallyOutcome};
use chain_client::updater::{UpdateStep, ValidatorUpdater};

fn four_equal() -> Committee {
    Committee::new(
        vec![
            (ValidatorName(1), 1),
            (ValidatorName(2), 1),
            (ValidatorName(3), 1),
            (ValidatorName(4), 1),
        ],
        None,
    )
}

fn vote(h: u64, sig: u64) -> Result<Option<(HashValue, Signature)>, NodeError> {
    Ok(Some((HashValue(h), Signature(sig))))
}

fn sample_block(height: u64) -> Block {
    Block {
        chain_id: ChainId(7),
        height,
        previous_block_hash: None,
        incoming_messages: vec![],
        operations: vec![],
    }
}

#[test]
fn committee_thresholds() {
    let c = four_equal();
    assert_eq!(c.total_votes(), 4);
    assert_eq!(c.quorum_threshold(), 3);
    assert_eq!(c.validity_threshold(), 2);
    assert_eq!(c.weight(ValidatorName(2)), 1);
    assert_eq!(c.weight(ValidatorName(9)), 0);
    let c2 = Committee::new(vec![(ValidatorName(1), 5), (ValidatorName(2), 2)], None);
    assert_eq!(c2.total_votes(), 7);
    // 3 * 5 = 15 > 14
    assert_eq!(c2.quorum_threshold(), 5);
    assert_eq!(c2.validity_threshold(), 3);
}

#[test]
fn tally_reaches_quorum_with_three_of_four() {
    let mut t = QuorumTally::new(four_equal());
    assert_eq!(t.add_answer(ValidatorName(1), vote(10, 101)), TallyOutcome::Pending);
    assert_eq!(t.add_answer(ValidatorName(2), vote(10, 102)), TallyOutcome::Pending);
    assert_eq!(
        t.add_answer(ValidatorName(3), vote(10, 103)),
        TallyOutcome::Reached(Some(HashValue(10)))
    );
    let sigs = t.signatures(Some(HashValue(10)));
    assert_eq!(
        sigs,
        vec![
            (ValidatorName(1), Signature(101)),
            (ValidatorName(2), Signature(102)),
            (ValidatorName(3), Signature(103)),
        ]
    );
    assert_eq!(
        t.members(Some(HashValue(10))),
        vec![ValidatorName(1), ValidatorName(2), ValidatorName(3)]
    );
}

#[test]
fn tally_ignores_repeated_and_unknown_answers() {
    let mut t = QuorumTally::new(four_equal());
    assert_eq!(t.add_answer(ValidatorName(1), vote(10, 1)), TallyOutcome::Pending);
    assert_eq!(t.add_answer(ValidatorName(1), vote(10, 1)), TallyOutcome::Pending);
    assert_eq!(t.add_answer(ValidatorName(9), vote(10, 1)), TallyOutcome::Pending);
    assert_eq!(t.add_answer(ValidatorName(2), vote(10, 2)), TallyOutcome::Pending);
    assert_eq!(t.members(Some(HashValue(10))).len(), 2);
}

#[test]
fn tally_impossible_reports_dominant_error() {
    let mut t = QuorumTally::new(four_equal());
    assert_eq!(
        t.add_answer(ValidatorName(1), Err(NodeError::InvalidSignature)),
        TallyOutcome::Pending
    );
    assert_eq!(
        t.add_answer(ValidatorName(2), Err(NodeError::InvalidSignature)),
        TallyOutcome::Impossible(Some(NodeError::InvalidSignature))
    );
    assert!(t.is_impossible());
}

#[test]
fn tally_split_votes_have_no_dominant_error() {
    let mut t = QuorumTally::new(four_equal());
    assert_eq!(t.add_answer(ValidatorName(1), vote(1, 1)), TallyOutcome::Pending);
    assert_eq!(t.add_answer(ValidatorName(2), vote(2, 2)), TallyOutcome::Pending);
    assert_eq!(t.add_answer(ValidatorName(3), vote(1, 3)), TallyOutcome::Pending);
    assert_eq!(
        t.add_answer(ValidatorName(4), vote(2, 4)),
        TallyOutcome::Impossible(None)
    );
    assert_eq!(t.find_dominant(), None);
}

#[test]
fn tally_answers_without_vote_form_one_group() {
    let mut t = QuorumTally::new(four_equal());
    assert_eq!(t.add_answer(ValidatorName(4), Ok(None)), TallyOutcome::Pending);
    assert_eq!(t.add_answer(ValidatorName(3), Ok(None)), TallyOutcome::Pending);
    assert_eq!(t.add_answer(ValidatorName(2), Ok(None)), TallyOutcome::Reached(None));
    assert_eq!(
        t.members(None),
        vec![ValidatorName(4), ValidatorName(3), ValidatorName(2)]
    );
}

fn proposal(height: u64, round: u64) -> BlockProposal {
    BlockProposal {
        content: BlockAndRound { block: sample_block(height), round },
        owner: Owner(1),
        signature: Signature(5),
    }
}

#[test]
fn certificates_from_votes() {
    let sigs = vec![(ValidatorName(1), Signature(11))];
    let c = certificate_from_votes(
        CommunicateAction::SubmitBlockForConfirmation(proposal(3, 0)),
        HashValue(44),
        sigs.clone(),
    )
    .unwrap();
    match &c.value {
        Value::ConfirmedBlock { block, state_hash } => {
            assert_eq!(block.height, 3);
            assert_eq!(*state_hash, HashValue(44));
        }
        _ => panic!("expected a confirmed block"),
    }
    assert_eq!(c.signatures, sigs);

    let v = certificate_from_votes(
        CommunicateAction::SubmitBlockForValidation(proposal(3, 2)),
        HashValue(45),
        sigs.clone(),
    )
    .unwrap();
    assert!(matches!(v.value, Value::ValidatedBlock { round: 2, state_hash: HashValue(45), .. }));

    let f = certificate_from_votes(CommunicateAction::FinalizeBlock(v), HashValue(99), sigs.clone())
        .unwrap();
    // The confirmed value keeps the state hash it was validated with.
    assert!(matches!(f.value, Value::ConfirmedBlock { state_hash: HashValue(45), .. }));

    let confirmed = Certificate::new(
        Value::ConfirmedBlock { block: sample_block(1), state_hash: HashValue(1) },
        vec![],
    );
    assert!(certificate_from_votes(CommunicateAction::FinalizeBlock(confirmed), HashValue(1), sigs.clone()).is_none());
    assert!(certificate_from_votes(CommunicateAction::AdvanceToNextBlockHeight(4), HashValue(1), sigs).is_none());
}

#[test]
fn quorum_failure_on_inactive_chain() {
    let id = ChainId(5);
    assert_eq!(quorum_failure(id, true, Some(NodeError::InactiveChain(id))), Ok(()));
    assert_eq!(
        quorum_failure(id, false, Some(NodeError::InactiveChain(id))),
        Err(ClientError::QuorumNotReached(Some(NodeError::InactiveChain(id))))
    );
    assert_eq!(
        quorum_failure(id, true, Some(NodeError::InactiveChain(ChainId(6)))),
        Err(ClientError::QuorumNotReached(Some(NodeError::InactiveChain(ChainId(6)))))
    );
    assert_eq!(quorum_failure(id, true, None), Err(ClientError::QuorumNotReached(None)));
}

#[test]
fn communicate_chain_updates_builds_the_certificate() {
    let mut t = QuorumTally::new(four_equal());
    let mut out = TallyOutcome::Pending;
    for v in 1..=4u64 {
        out = t.add_answer(ValidatorName(v), vote(8, 100 + v));
        if out != TallyOutcome::Pending {
            break;
        }
    }
    assert_eq!(out, TallyOutcome::Reached(Some(HashValue(8))));
    let r = communicate_chain_updates(
        ChainId(7),
        CommunicateAction::SubmitBlockForConfirmation(proposal(0, 0)),
        &t,
        out,
    )
    .unwrap()
    .unwrap();
    assert_eq!(r.signatures.len(), 3);
    assert!(matches!(r.value, Value::ConfirmedBlock { state_hash: HashValue(8), .. }));

    let mut t2 = QuorumTally::new(four_equal());
    t2.add_answer(ValidatorName(1), Err(NodeError::InactiveChain(ChainId(7))));
    let out2 = t2.add_answer(ValidatorName(2), Err(NodeError::InactiveChain(ChainId(7))));
    assert_eq!(out2, TallyOutcome::Impossible(Some(NodeError::InactiveChain(ChainId(7)))));
    let advance = communicate_chain_updates(
        ChainId(7),
        CommunicateAction::AdvanceToNextBlockHeight(1),
        &t2,
        out2,
    );
    assert!(matches!(advance, Ok(None)));
    let propose = communicate_chain_updates(
        ChainId(7),
        CommunicateAction::SubmitBlockForConfirmation(proposal(0, 0)),
        &t2,
        out2,
    );
    assert!(matches!(
        propose,
        Err(ClientError::QuorumNotReached(Some(NodeError::InactiveChain(ChainId(7)))))
    ));
}

#[test]
fn tally_weighs_by_voting_power() {
    let c = Committee::new(
        vec![
            (ValidatorName(1), 5),
            (ValidatorName(2), 1),
            (ValidatorName(3), 1),
            (ValidatorName(4), 1),
        ],
        None,
    );
    let mut t = QuorumTally::new(c);
    // 3 * 5 = 15 is not more than 2 * 8 = 16.
    assert_eq!(t.add_answer(ValidatorName(1), vote(3, 1)), TallyOutcome::Pending);
    assert_eq!(t.add_answer(ValidatorName(2), vote(3, 2)), TallyOutcome::Reached(Some(HashValue(3))));

    let c2 = Committee::new(
        vec![
            (ValidatorName(1), 5),
            (ValidatorName(2), 1),
            (ValidatorName(3), 1),
            (ValidatorName(4), 1),
        ],
        None,
    );
    let mut t2 = QuorumTally::new(c2);
    // Without the heavy validator no value can reach a quorum.
    assert_eq!(
        t2.add_answer(ValidatorName(1), Err(NodeError::Other(4))),
        TallyOutcome::Impossible(Some(NodeError::Other(4)))
    );
}

#[test]
fn updater_retries_then_gives_up() {
    let mut u = ValidatorUpdater::new(2);
    let missing: Result<(), NodeError> = Err(NodeError::MissingPreviousBlock(4));
    let waiting: Result<(), NodeError> = Err(NodeError::MissingCrossChainUpdate);
    assert_eq!(u.next_step(&missing), UpdateStep::UploadAndRetry(4));
    assert_eq!(u.next_step(&waiting), UpdateStep::WaitAndRetry);
    assert_eq!(u.retries_left, 0);
    assert_eq!(u.next_step(&waiting), UpdateStep::Finish);
    let mut fresh = ValidatorUpdater::new(3);
    let ok: Result<u8, NodeError> = Ok(1);
    assert_eq!(fresh.next_step(&ok), UpdateStep::Finish);
    let bad: Result<u8, NodeError> = Err(NodeError::InvalidSignature);
    assert_eq!(fresh.next_step(&bad), UpdateStep::Finish);
    assert_eq!(fresh.retries_left, 3);
}

#[test]
fn closing_a_tally() {
    let mut t = QuorumTally::new(four_equal());
    t.add_answer(ValidatorName(1), vote(1, 1));
    t.add_answer(ValidatorName(2), Err(NodeError::InvalidCertificate));
    // Two validators never answered.
    assert_eq!(t.close(), TallyOutcome::Impossible(None));
    t.add_answer(ValidatorName(3), Err(NodeError::InvalidCertificate));
    assert_eq!(t.close(), TallyOutcome::Impossible(Some(NodeError::InvalidCertificate)));

    let mut r = QuorumTally::new(four_equal());
    r.add_answer(ValidatorName(1), vote(6, 1));
    r.add_answer(ValidatorName(2), vote(6, 2));
    r.add_answer(ValidatorName(3), vote(6, 3));
    assert_eq!(r.close(), TallyOutcome::Reached(Some(HashValue(6))));
}

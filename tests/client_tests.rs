use chain_client::base::{ChainId, HashValue, KeyPair, OperationId, Owner, Signature, ValidatorName};
use chain_client::block::{Address, Block, MessageGroup, Operation, UserData};
use chain_client::certificate::{Certificate, CommunicateAction, Value};
use chain_client::client::{advance_plan, all_confirmed, AdvancePlan, BatchProgress, ChainClientState, Protocol};
use chain_client::committee::{valid_voting_rights, Committee};
use chain_client::error::ClientError;
use chain_client::fuel::{FuelAdjustment, FuelMeter};
use chain_client::manager::{ChainInfo, ChainManager};

const A: ChainId = ChainId(100);
const B: ChainId = ChainId(200);

fn key(o: u64) -> KeyPair {
    KeyPair { public: Owner(o), secret: o * 7 }
}

fn session(keys: Vec<KeyPair>, hash: Option<HashValue>, height: u64) -> ChainClientState {
    ChainClientState::new(
        A,
        keys,
        vec![ValidatorName(1), ValidatorName(2), ValidatorName(3), ValidatorName(4)],
        hash,
        height,
        100,
        3,
    )
}

fn info(chain_id: ChainId, height: u64, hash: Option<HashValue>, manager: ChainManager) -> ChainInfo {
    ChainInfo {
        chain_id,
        next_block_height: height,
        block_hash: hash,
        manager,
        balance: 0,
        admin_id: Some(ChainId(1)),
        queried_committees: vec![],
        queried_pending_messages: vec![],
        count_received_certificates: 0,
    }
}

fn single(o: u64) -> ChainManager {
    ChainManager::Single { owner: Owner(o) }
}

fn confirmed(block: Block) -> Certificate {
    Certificate::new(Value::ConfirmedBlock { block, state_hash: HashValue(77) }, vec![])
}

#[test]
fn single_owner_transfer_advances_the_session() {
    let mut s = session(vec![key(1)], None, 0);
    assert_eq!(s.identity(&single(1)), Ok(Owner(1)));
    assert_eq!(s.protocol(&single(1)), Ok(Protocol::OneRound));
    let msgs = vec![MessageGroup { sender: B, height: 2, index: 0 }];
    let block = s.transfer_to_chain(40, B, UserData(None), 100, msgs).unwrap();
    assert_eq!(block.height, 0);
    assert_eq!(block.chain_id, A);
    assert_eq!(block.previous_block_hash, None);
    assert_eq!(block.incoming_messages.len(), 1);
    assert!(matches!(
        block.operations[0],
        Operation::Transfer { recipient: Address::Account(B), amount: 40, .. }
    ));
    assert_eq!(s.propose_block(block.clone()), Ok(()));
    assert!(s.pending_block().is_some());
    let cert = confirmed(block);
    assert_eq!(s.confirm_proposal(&cert), Ok(()));
    s.process_certificate(&info(A, 1, Some(HashValue(9)), single(1)));
    s.clear_pending_block();
    assert_eq!(s.next_block_height(), 1);
    assert_eq!(s.block_hash(), Some(HashValue(9)));
    assert!(s.pending_block().is_none());
}

#[test]
fn transfer_beyond_balance_fails() {
    let s = session(vec![key(1)], None, 0);
    assert!(matches!(
        s.transfer_to_chain(140, B, UserData(None), 100, vec![]),
        Err(ClientError::InsufficientBalance)
    ));
    assert!(matches!(s.burn(101, UserData(None), 100, vec![]), Err(ClientError::InsufficientBalance)));
    let b = s.burn(100, UserData(Some(HashValue(3))), 100, vec![]).unwrap();
    assert!(matches!(b.operations[0], Operation::Transfer { recipient: Address::Burn, amount: 100, .. }));
    let u = s.transfer_to_chain_unsafe_unconfirmed(500, B, UserData(None), vec![]);
    assert!(matches!(u.operations[0], Operation::Transfer { amount: 500, .. }));
}

#[test]
fn concurrent_proposal_clears_pending() {
    let mut s = session(vec![key(1)], Some(HashValue(5)), 6);
    let mine = s.process_inbox(vec![]);
    assert_eq!(s.propose_block(mine), Ok(()));
    let mut theirs = s.close_chain(vec![]);
    theirs.operations = vec![Operation::ChangeOwner { new_owner: Owner(2) }];
    assert_eq!(
        s.confirm_proposal(&confirmed(theirs)),
        Err(ClientError::ConcurrentProposalExecuted)
    );
    assert!(s.pending_block().is_none());
}

#[test]
fn proposal_preconditions() {
    let mut s = session(vec![key(1)], Some(HashValue(5)), 6);
    let mut wrong_height = s.process_inbox(vec![]);
    wrong_height.height = 7;
    assert_eq!(s.propose_block(wrong_height), Err(ClientError::UnexpectedBlockHeight));
    let mut wrong_hash = s.process_inbox(vec![]);
    wrong_hash.previous_block_hash = Some(HashValue(6));
    assert_eq!(s.propose_block(wrong_hash), Err(ClientError::UnexpectedPreviousBlockHash));
    let block = s.process_inbox(vec![]);
    assert_eq!(s.propose_block(block.clone()), Ok(()));
    // Retrying the same block is accepted; another one is not.
    assert_eq!(s.propose_block(block), Ok(()));
    assert_eq!(s.propose_block(s.close_chain(vec![])), Err(ClientError::DifferentPendingBlock));
}

#[test]
fn identity_rules() {
    let s = session(vec![key(1), key(2)], None, 0);
    assert_eq!(s.identity(&single(1)), Ok(Owner(1)));
    assert_eq!(s.identity(&single(3)), Err(ClientError::NoSigningKey));
    assert_eq!(s.identity(&ChainManager::Inactive), Err(ClientError::InactiveChain(A)));
    let multi_one = ChainManager::Multi { owners: vec![Owner(3), Owner(2)], next_round: 0 };
    assert_eq!(s.identity(&multi_one), Ok(Owner(2)));
    assert_eq!(s.key_pair(&multi_one), Ok(key(2)));
    let multi_two = ChainManager::Multi { owners: vec![Owner(1), Owner(2)], next_round: 0 };
    assert_eq!(s.identity(&multi_two), Err(ClientError::AmbiguousIdentity));
    let multi_none = ChainManager::Multi { owners: vec![Owner(5)], next_round: 0 };
    assert_eq!(s.identity(&multi_none), Err(ClientError::NoSigningKey));
    assert_eq!(s.protocol(&multi_two), Ok(Protocol::TwoRounds));
    assert_eq!(s.protocol(&ChainManager::Inactive), Err(ClientError::InactiveChain(A)));
}

#[test]
fn prepare_chain_checks_and_advances() {
    let mut s = session(vec![key(1)], Some(HashValue(5)), 3);
    assert_eq!(
        s.prepare_chain(&info(A, 3, Some(HashValue(6)), single(1))),
        Err(ClientError::InvalidBlockChaining)
    );
    assert_eq!(s.next_block_height(), 3);
    let multi = ChainManager::Multi { owners: vec![Owner(1)], next_round: 2 };
    assert_eq!(s.prepare_chain(&info(A, 4, Some(HashValue(8)), multi.clone())), Ok(true));
    assert_eq!(s.next_block_height(), 3);
    s.finish_prepare_chain(&info(A, 4, Some(HashValue(8)), multi));
    assert_eq!(s.next_block_height(), 4);
    assert_eq!(s.next_round(), 2);
    assert_eq!(s.prepare_chain(&info(A, 5, Some(HashValue(9)), single(1))), Ok(false));
    assert_eq!(s.next_block_height(), 5);
    assert_eq!(s.next_round(), 0);
    assert_eq!(s.block_hash(), Some(HashValue(9)));
    // A report behind the session never moves it back.
    assert_eq!(s.prepare_chain(&info(A, 2, Some(HashValue(1)), single(1))), Ok(false));
    assert_eq!(s.next_block_height(), 5);
    assert_eq!(s.block_hash(), Some(HashValue(9)));
}

#[test]
fn receiving_twice_equals_receiving_once() {
    let mut s = session(vec![key(1)], None, 0);
    let report = info(A, 2, Some(HashValue(4)), single(1));
    s.process_certificate(&report);
    let (h, b) = (s.next_block_height(), s.block_hash());
    s.process_certificate(&report);
    assert_eq!((s.next_block_height(), s.block_hash()), (h, b));
    assert_eq!(h, 2);
    // Reports about another chain change nothing.
    s.process_certificate(&info(B, 9, Some(HashValue(1)), single(1)));
    assert_eq!(s.next_block_height(), 2);
}

#[test]
fn stale_pending_block_is_dropped_when_tip_moves() {
    let mut s = session(vec![key(1)], None, 0);
    let b = s.process_inbox(vec![]);
    assert_eq!(s.propose_block(b), Ok(()));
    s.process_certificate(&info(A, 1, Some(HashValue(4)), single(1)));
    assert!(s.pending_block().is_none());
}

#[test]
fn receive_certificate_targets() {
    let s = session(vec![key(1)], None, 0);
    let mut blk = s.process_inbox(vec![]);
    blk.chain_id = B;
    blk.height = 4;
    assert_eq!(s.receive_certificate(&confirmed(blk.clone())), Ok((B, 5)));
    let validated = Certificate::new(
        Value::ValidatedBlock { block: blk.clone(), round: 0, state_hash: HashValue(1) },
        vec![],
    );
    assert_eq!(s.receive_certificate(&validated), Err(ClientError::ExpectedConfirmedBlock));
    blk.height = u64::MAX;
    assert_eq!(s.receive_certificate(&confirmed(blk)), Err(ClientError::HeightOverflow));
}

#[test]
fn trackers_skip_failing_validator_and_never_decrease() {
    let mut s = session(vec![key(1)], None, 0);
    s.update_tracker(ValidatorName(1), 5);
    s.update_tracker(ValidatorName(2), 3);
    // Validator 3 served an invalid certificate: its cursor is left alone.
    s.update_tracker(ValidatorName(4), 7);
    assert_eq!(s.tracker(ValidatorName(1)), 5);
    assert_eq!(s.tracker(ValidatorName(2)), 3);
    assert_eq!(s.tracker(ValidatorName(3)), 0);
    assert_eq!(s.tracker(ValidatorName(4)), 7);
    s.update_tracker(ValidatorName(4), 2);
    assert_eq!(s.tracker(ValidatorName(4)), 7);
    s.update_tracker(ValidatorName(4), 9);
    assert_eq!(s.tracker(ValidatorName(4)), 9);
}

#[test]
fn open_chain_derives_child_id() {
    let s = session(vec![key(1)], Some(HashValue(2)), 4);
    let mut report = info(A, 4, Some(HashValue(2)), single(1));
    report.queried_committees = vec![
        Committee::new(vec![(ValidatorName(1), 1), (ValidatorName(2), 3)], None),
        Committee::new(vec![(ValidatorName(3), 2)], Some(OperationId { chain_id: ChainId(1), height: 7, index: 0 })),
    ];
    let (id, block) = s.open_chain(Owner(8), &report, vec![]).unwrap();
    let expected = ChainId::child(OperationId { chain_id: A, height: 4, index: 0 });
    assert_eq!(id, expected);
    assert_ne!(id, A);
    assert_ne!(id, ChainId::child(OperationId { chain_id: A, height: 5, index: 0 }));
    assert_eq!(block.height, 4);
    match &block.operations[0] {
        Operation::OpenChain { id: op_id, owner, committees, admin_id } => {
            assert_eq!(*op_id, id);
            assert_eq!(*owner, Owner(8));
            assert_eq!(*admin_id, ChainId(1));
            assert_eq!(committees.len(), 2);
            assert!(committees[0].same_as(&report.queried_committees[0]));
            assert!(committees[1].same_as(&report.queried_committees[1]));
            assert_eq!(committees[1].total_votes(), 2);
        }
        _ => panic!("expected an open-chain operation"),
    }
    let mut orphan = report.clone();
    orphan.admin_id = None;
    assert!(matches!(s.open_chain(Owner(8), &orphan, vec![]), Err(ClientError::InactiveChain(A))));
    assert!(matches!(s.subscribe_to_new_committees(&orphan, vec![]), Err(ClientError::InactiveChain(A))));
    let sub = s.subscribe_to_new_committees(&report, vec![]).unwrap();
    match &sub.operations[0] {
        Operation::SubscribeToNewCommittees { id, committees, admin_id } => {
            assert_eq!(*id, A);
            assert_eq!(*admin_id, ChainId(1));
            assert_eq!(committees.len(), 2);
            assert!(committees[0].same_as(&report.queried_committees[0]));
            assert_eq!(committees[0].weight(ValidatorName(2)), 3);
        }
        _ => panic!("expected a subscription"),
    }
}

#[test]
fn child_id_known_value() {
    // One mixing step per word, from the fixed offset.
    let p: u64 = 0x100000001b3;
    let mut acc: u64 = 0xcbf29ce484222325;
    for w in [100u64, 4, 0] {
        acc = (acc ^ w).wrapping_mul(p);
    }
    assert_eq!(ChainId::child(OperationId { chain_id: A, height: 4, index: 0 }), ChainId(acc));
}

#[test]
fn ownership_blocks() {
    let mut s = session(vec![key(1)], None, 0);
    let shared = s.share_ownership(&single(1), Owner(2), vec![]).unwrap();
    match &shared.operations[0] {
        Operation::ChangeMultipleOwners { new_owners } => assert_eq!(new_owners, &vec![Owner(1), Owner(2)]),
        _ => panic!("expected a change of owners"),
    }
    assert!(matches!(s.share_ownership(&single(3), Owner(2), vec![]), Err(ClientError::NoSigningKey)));
    let t = s.transfer_ownership(Owner(5), vec![]);
    assert!(matches!(t.operations[0], Operation::ChangeOwner { new_owner: Owner(5) }));
    let r = s.rotate_key_pair(key(9), vec![]);
    assert!(matches!(r.operations[0], Operation::ChangeOwner { new_owner: Owner(9) }));
    assert_eq!(s.identity(&single(9)), Ok(Owner(9)));
    assert!(matches!(s.close_chain(vec![]).operations[0], Operation::CloseChain));
    assert!(s.process_inbox(vec![]).operations.is_empty());
}

#[test]
fn new_voting_rights_block() {
    let s = session(vec![key(1)], None, 3);
    assert!(matches!(
        s.stage_new_voting_rights(vec![(ValidatorName(1), 2), (ValidatorName(1), 1)], vec![]),
        Err(ClientError::InvalidVotingRights)
    ));
    assert!(matches!(
        s.stage_new_voting_rights(vec![(ValidatorName(1), u64::MAX), (ValidatorName(2), 1)], vec![]),
        Err(ClientError::InvalidVotingRights)
    ));
    let b = s.stage_new_voting_rights(vec![(ValidatorName(1), 2), (ValidatorName(5), 1)], vec![]).unwrap();
    match &b.operations[0] {
        Operation::NewCommittee { admin_id, committee } => {
            assert_eq!(*admin_id, A);
            assert_eq!(committee.total_votes(), 3);
            assert_eq!(committee.admin_op(), Some(OperationId { chain_id: A, height: 3, index: 0 }));
        }
        _ => panic!("expected a new committee"),
    }
}

#[test]
fn voting_rights_validity() {
    assert!(valid_voting_rights(&vec![]));
    assert!(valid_voting_rights(&vec![(ValidatorName(1), u64::MAX)]));
    assert!(!valid_voting_rights(&vec![(ValidatorName(1), u64::MAX), (ValidatorName(2), 1)]));
    assert!(!valid_voting_rights(&vec![(ValidatorName(3), 1), (ValidatorName(4), 1), (ValidatorName(3), 1)]));
}

#[test]
fn committee_change_is_detected() {
    let old = Committee::new(vec![(ValidatorName(1), 1), (ValidatorName(2), 3)], None);
    let reordered = Committee::new(vec![(ValidatorName(2), 3), (ValidatorName(1), 1)], None);
    let reweighted = Committee::new(vec![(ValidatorName(1), 2), (ValidatorName(2), 3)], None);
    let grown = Committee::new(vec![(ValidatorName(1), 1), (ValidatorName(2), 3), (ValidatorName(3), 1)], None);
    assert!(old.same_members(&reordered));
    assert!(!old.same_as(&reordered));
    assert!(!old.same_members(&reweighted));
    assert!(!old.same_members(&grown));
    assert!(!grown.same_members(&old));
    let same = advance_plan(true, &old, Ok(&reordered));
    assert_eq!(same, AdvancePlan { to_previous: true, to_current: false });
    let changed = advance_plan(true, &old, Ok(&grown));
    assert_eq!(changed, AdvancePlan { to_previous: true, to_current: true });
    let unconfirmed = advance_plan(false, &old, Ok(&grown));
    assert_eq!(unconfirmed, AdvancePlan { to_previous: false, to_current: false });
    let missing = advance_plan(true, &old, Err(ClientError::InactiveChain(A)));
    assert_eq!(missing, AdvancePlan { to_previous: true, to_current: false });
}

#[test]
fn identity_counts_each_owner_once() {
    let s = session(vec![key(1)], None, 0);
    let repeated = ChainManager::Multi { owners: vec![Owner(1), Owner(1)], next_round: 0 };
    assert_eq!(s.identity(&repeated), Ok(Owner(1)));
    assert_eq!(s.key_pair(&repeated), Ok(key(1)));
    let t = session(vec![key(1), key(2)], None, 0);
    let both = ChainManager::Multi { owners: vec![Owner(1), Owner(2), Owner(1)], next_round: 0 };
    assert_eq!(t.identity(&both), Err(ClientError::AmbiguousIdentity));
}

#[test]
fn proposal_steps() {
    let mut s = session(vec![key(1)], None, 0);
    let block = s.process_inbox(vec![]);
    assert_eq!(s.propose_block(block.clone()), Ok(()));
    let one = s.build_proposal(&single(1), block.clone(), Signature(3)).unwrap();
    match &one {
        CommunicateAction::SubmitBlockForConfirmation(p) => {
            assert!(p.content.block.same_as(&block));
            assert_eq!((p.content.round, p.owner, p.signature), (0, Owner(1), Signature(3)));
        }
        _ => panic!("expected a submission for confirmation"),
    }
    assert!(matches!(s.build_proposal(&single(2), block.clone(), Signature(3)), Err(ClientError::NoSigningKey)));
    let multi = ChainManager::Multi { owners: vec![Owner(1), Owner(4)], next_round: 0 };
    let two = s.build_proposal(&multi, block.clone(), Signature(3)).unwrap();
    assert!(matches!(two, CommunicateAction::SubmitBlockForValidation(_)));
    let validated = Certificate::new(
        Value::ValidatedBlock { block: block.clone(), round: 0, state_hash: HashValue(1) },
        vec![],
    );
    let next = s.next_proposal_step(&two, validated.clone()).unwrap();
    assert!(matches!(next, Some(CommunicateAction::FinalizeBlock(_))));
    let other_round = Certificate::new(
        Value::ValidatedBlock { block: block.clone(), round: 1, state_hash: HashValue(1) },
        vec![],
    );
    assert!(matches!(s.next_proposal_step(&two, other_round), Err(ClientError::ConcurrentProposalExecuted)));
    assert!(matches!(s.next_proposal_step(&one, validated), Err(ClientError::ConcurrentProposalExecuted)));
    assert!(matches!(s.next_proposal_step(&one, confirmed(block)), Ok(None)));
    assert!(matches!(s.advance_action(), CommunicateAction::AdvanceToNextBlockHeight(0)));
}

#[test]
fn batch_progress_stops_at_first_failure() {
    let mut s = session(vec![key(1)], None, 0);
    let mut p = BatchProgress::new(ValidatorName(3), 3);
    assert!(p.record(true));
    assert!(!p.record(false));
    assert!(!p.record(true));
    s.finish_batch(&p);
    assert_eq!(s.tracker(ValidatorName(3)), 0);
    let mut q = BatchProgress::new(ValidatorName(4), 2);
    assert!(q.record(true));
    assert!(q.record(true));
    s.finish_batch(&q);
    assert_eq!(s.tracker(ValidatorName(4)), 2);
}

#[test]
fn local_balance_needs_current_node() {
    let s = session(vec![key(1)], None, 2);
    assert!(matches!(
        s.local_balance(&info(A, 1, None, single(1)), vec![]),
        Err(ClientError::LocalNodeBehind)
    ));
    let b = s.local_balance(&info(A, 2, None, single(1)), vec![]).unwrap();
    assert_eq!(b.height, 2);
    assert!(b.operations.is_empty());
    let mut with_committee = info(A, 2, None, single(1));
    assert!(matches!(s.committee(&with_committee), Err(ClientError::InactiveChain(A))));
    with_committee.queried_committees = vec![
        Committee::new(vec![(ValidatorName(1), 1)], None),
        Committee::new(vec![(ValidatorName(2), 4)], None),
    ];
    assert_eq!(s.committee(&with_committee).unwrap().total_votes(), 4);
}

#[test]
fn fuel_accounting() {
    let mut m = FuelMeter::new();
    assert_eq!(m.configure_initial_fuel(100, 30), FuelAdjustment::Add(70));
    assert_eq!(m.initial_fuel, 100);
    assert_eq!(m.configure_initial_fuel(100, 150), FuelAdjustment::Consume(50));
    assert_eq!(m.configure_initial_fuel(100, 100), FuelAdjustment::Add(0));
    assert_eq!(m.persist_remaining_fuel(40), 60);
    assert_eq!(m.persist_remaining_fuel(100), 0);
}

#[test]
fn received_batch_moves_cursor_only_on_success() {
    let mut s = session(vec![key(1)], None, 0);
    s.received_batch(ValidatorName(3), 4, false);
    assert_eq!(s.tracker(ValidatorName(3)), 0);
    s.received_batch(ValidatorName(3), 4, true);
    assert_eq!(s.tracker(ValidatorName(3)), 4);
    s.received_batch(ValidatorName(3), 9, false);
    assert_eq!(s.tracker(ValidatorName(3)), 4);
    s.received_batch(ValidatorName(3), 6, true);
    assert_eq!(s.tracker(ValidatorName(3)), 6);
}

#[test]
fn batches_must_hold_confirmed_blocks() {
    let s = session(vec![key(1)], None, 0);
    let c = confirmed(s.process_inbox(vec![]));
    let v = Certificate::new(
        Value::ValidatedBlock { block: s.process_inbox(vec![]), round: 1, state_hash: HashValue(1) },
        vec![],
    );
    assert!(all_confirmed(&vec![]));
    assert!(all_confirmed(&vec![c.clone(), c.clone()]));
    assert!(!all_confirmed(&vec![c, v]));
}

#[test]
fn committee_copy_and_validity() {
    let c = Committee::new(vec![(ValidatorName(1), 2), (ValidatorName(2), 5)], Some(OperationId { chain_id: A, height: 1, index: 0 }));
    assert!(c.is_valid());
    let d = c.copy();
    assert!(d.same_as(&c));
    assert!(d.is_valid());
    assert_eq!(d.total_votes(), 7);
    assert_eq!(d.admin_op(), c.admin_op());
}

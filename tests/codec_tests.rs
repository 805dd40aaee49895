use chain_client::base::{ChainId, HashValue, OperationId, Owner, Signature, ValidatorName};
use chain_client::block::{Address, Block, MessageGroup, Operation, UserData};
use chain_client::certificate::{Certificate, Value};
use chain_client::codec::{parse, serialize};
use chain_client::committee::Committee;

fn full_certificate() -> Certificate {
    let block = Block {
        chain_id: ChainId(3),
        height: 9,
        previous_block_hash: Some(HashValue(0xdead_beef)),
        incoming_messages: vec![MessageGroup { sender: ChainId(4), height: 1, index: 2 }],
        operations: vec![
            Operation::Transfer {
                recipient: Address::Account(ChainId(5)),
                amount: 40,
                user_data: UserData(Some(HashValue(6))),
            },
            Operation::Transfer { recipient: Address::Burn, amount: 1, user_data: UserData(None) },
            Operation::ChangeOwner { new_owner: Owner(7) },
            Operation::ChangeMultipleOwners { new_owners: vec![Owner(1), Owner(2)] },
            Operation::OpenChain {
                id: ChainId(8),
                owner: Owner(9),
                committees: vec![
                    Committee::new(vec![(ValidatorName(1), 1), (ValidatorName(4), 2)], None),
                    Committee::new(vec![], Some(OperationId { chain_id: ChainId(1), height: 5, index: 0 })),
                ],
                admin_id: ChainId(1),
            },
            Operation::CloseChain,
            Operation::NewCommittee {
                admin_id: ChainId(1),
                committee: Committee::new(
                    vec![(ValidatorName(1), 3), (ValidatorName(2), u64::MAX - 3)],
                    Some(OperationId { chain_id: ChainId(1), height: 2, index: 0 }),
                ),
            },
            Operation::SubscribeToNewCommittees {
                id: ChainId(3),
                committees: vec![Committee::new(vec![(ValidatorName(2), 9)], None)],
                admin_id: ChainId(1),
            },
        ],
    };
    Certificate::new(
        Value::ValidatedBlock { block, round: 4, state_hash: HashValue(u64::MAX) },
        vec![(ValidatorName(1), Signature(11)), (ValidatorName(2), Signature(12))],
    )
}

#[test]
fn certificate_round_trip() {
    let c = full_certificate();
    let bytes = serialize(&c);
    let back = parse(&bytes).expect("the bytes of a certificate parse");
    assert_eq!(serialize(&back), bytes);
    match (&back.value, &c.value) {
        (
            Value::ValidatedBlock { block: b1, round: r1, state_hash: h1 },
            Value::ValidatedBlock { block: b2, round: r2, state_hash: h2 },
        ) => {
            assert!(b1.same_as(b2));
            assert_eq!(r1, r2);
            assert_eq!(h1, h2);
        }
        _ => panic!("expected a validated block"),
    }
    assert_eq!(back.signatures, c.signatures);
}

#[test]
fn small_certificate_exact_bytes() {
    let block = Block {
        chain_id: ChainId(2),
        height: 1,
        previous_block_hash: None,
        incoming_messages: vec![],
        operations: vec![],
    };
    let c = Certificate::new(Value::ConfirmedBlock { block, state_hash: HashValue(0x0102) }, vec![]);
    let bytes = serialize(&c);
    // tag, chain, height, no previous hash, no messages, no operations, state hash, no signatures
    let words: [u64; 8] = [0, 2, 1, 0, 0, 0, 0x0102, 0];
    let mut expected = Vec::new();
    for w in words {
        expected.extend_from_slice(&w.to_le_bytes());
    }
    assert_eq!(bytes, expected);
    let back = parse(&bytes).unwrap();
    assert!(matches!(back.value, Value::ConfirmedBlock { state_hash: HashValue(0x0102), .. }));
}

#[test]
fn malformed_bytes_are_rejected() {
    let bytes = serialize(&full_certificate());
    assert!(parse(&bytes[..bytes.len() - 8].to_vec()).is_none());
    assert!(parse(&bytes[..bytes.len() - 1].to_vec()).is_none());
    let mut longer = bytes.clone();
    longer.extend_from_slice(&[0u8; 8]);
    assert!(parse(&longer).is_none());
    let mut bad_tag = bytes.clone();
    bad_tag[0] = 2;
    assert!(parse(&bad_tag).is_none());
    assert!(parse(&Vec::new()).is_none());
}

fn to_bytes(words: &[u64]) -> Vec<u8> {
    let mut bytes = Vec::new();
    for w in words {
        bytes.extend_from_slice(&w.to_le_bytes());
    }
    bytes
}

#[test]
fn committee_with_repeated_validator_is_rejected() {
    // A confirmed block with one new-committee operation, then the state hash
    // and no signature.
    let ok = to_bytes(&[0, 1, 1, 0, 0, 1, 5, 1, 2, 7, 1, 8, 1, 0, 9, 0]);
    assert!(parse(&ok).is_some());
    // The same, with a validator named twice.
    let repeated = to_bytes(&[0, 1, 1, 0, 0, 1, 5, 1, 2, 7, 1, 7, 1, 0, 9, 0]);
    assert!(parse(&repeated).is_none());
    // The same, with a total that does not fit.
    let overflow = to_bytes(&[0, 1, 1, 0, 0, 1, 5, 1, 2, 7, u64::MAX, 8, 1, 0, 9, 0]);
    assert!(parse(&overflow).is_none());
}

#[test]
fn open_chain_committees_round_trip() {
    // tag, chain, height, no previous hash, no messages, one operation:
    // open chain 8 for owner 9 under admin 1 with one committee of one right,
    // then the state hash and no signature.
    let words: [u64; 16] = [0, 1, 1, 0, 0, 1, 3, 8, 9, 1, 1, 1, 4, 2, 0, 5];
    let mut bytes = to_bytes(&words);
    bytes.extend_from_slice(&0u64.to_le_bytes());
    let c = parse(&bytes).expect("a well-formed certificate");
    match &c.value {
        Value::ConfirmedBlock { block, state_hash } => {
            assert_eq!(*state_hash, HashValue(5));
            match &block.operations[0] {
                Operation::OpenChain { id, owner, committees, admin_id } => {
                    assert_eq!((*id, *owner, *admin_id), (ChainId(8), Owner(9), ChainId(1)));
                    assert_eq!(committees.len(), 1);
                    assert_eq!(committees[0].weight(ValidatorName(4)), 2);
                    assert_eq!(committees[0].admin_op(), None);
                }
                _ => panic!("expected an open-chain operation"),
            }
        }
        _ => panic!("expected a confirmed block"),
    }
    assert_eq!(serialize(&c), bytes);
}

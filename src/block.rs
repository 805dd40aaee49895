//! Blocks, their operations and the messages they consume.

use vstd::prelude::*;
use crate::base::{Amount, BlockHeight, ChainId, HashValue, Owner, ValidatorName, OperationId};
use crate::committee::{committees_equal, Committee, CommitteeView};

verus! {

/// Where a transfer goes.
#[derive(Clone, Copy, Debug, PartialEq, Eq, Structural, Hash)]
pub enum Address {
    Account(ChainId),
    Burn,
}

/// Free data attached to a transfer.
#[derive(Clone, Copy, Debug, PartialEq, Eq, Structural, Hash)]
pub struct UserData(pub Option<HashValue>);

/// A bundle of cross-chain messages: its sender chain, the height of the sending
/// block, and its index among that block's outgoing messages.
#[derive(Clone, Copy, Debug, PartialEq, Eq, Structural, Hash)]
pub struct MessageGroup {
    pub sender: ChainId,
    pub height: BlockHeight,
    pub index: u64,
}

/// An operation carried by a block.
#[derive(Clone, Debug)]
pub enum Operation {
    Transfer { recipient: Address, amount: Amount, user_data: UserData },
    ChangeOwner { new_owner: Owner },
    ChangeMultipleOwners { new_owners: Vec<Owner> },
    OpenChain { id: ChainId, owner: Owner, committees: Vec<Committee>, admin_id: ChainId },
    CloseChain,
    NewCommittee { admin_id: ChainId, committee: Committee },
    SubscribeToNewCommittees { id: ChainId, committees: Vec<Committee>, admin_id: ChainId },
}

/// Mathematical value of an [`Operation`].
pub enum OperationView {
    Transfer { recipient: Address, amount: Amount, user_data: UserData },
    ChangeOwner { new_owner: Owner },
    ChangeMultipleOwners { new_owners: Seq<Owner> },
    OpenChain { id: ChainId, owner: Owner, committees: Seq<CommitteeView>, admin_id: ChainId },
    CloseChain,
    NewCommittee { admin_id: ChainId, rights: Seq<(ValidatorName, u64)>, origin: Option<OperationId> },
    SubscribeToNewCommittees { id: ChainId, committees: Seq<CommitteeView>, admin_id: ChainId },
}

impl View for Operation {
    type V = OperationView;

    open spec fn view(&self) -> OperationView {
        match self {
            Operation::Transfer { recipient, amount, user_data } =>
                OperationView::Transfer { recipient: *recipient, amount: *amount, user_data: *user_data },
            Operation::ChangeOwner { new_owner } => OperationView::ChangeOwner { new_owner: *new_owner },
            Operation::ChangeMultipleOwners { new_owners } =>
                OperationView::ChangeMultipleOwners { new_owners: new_owners@ },
            Operation::OpenChain { id, owner, committees, admin_id } => OperationView::OpenChain {
                id: *id,
                owner: *owner,
                committees: committees@.map_values(|c: Committee| c@),
                admin_id: *admin_id,
            },
            Operation::CloseChain => OperationView::CloseChain,
            Operation::NewCommittee { admin_id, committee } => OperationView::NewCommittee {
                admin_id: *admin_id,
                rights: committee.rights(),
                origin: committee.origin(),
            },
            Operation::SubscribeToNewCommittees { id, committees, admin_id } =>
                OperationView::SubscribeToNewCommittees {
                    id: *id,
                    committees: committees@.map_values(|c: Committee| c@),
                    admin_id: *admin_id,
                },
        }
    }
}

/// A proposed extension of a chain.
#[derive(Clone, Debug)]
pub struct Block {
    pub chain_id: ChainId,
    pub height: BlockHeight,
    pub previous_block_hash: Option<HashValue>,
    pub incoming_messages: Vec<MessageGroup>,
    pub operations: Vec<Operation>,
}

/// Mathematical value of a [`Block`].
pub struct BlockView {
    pub chain_id: ChainId,
    pub height: BlockHeight,
    pub previous_block_hash: Option<HashValue>,
    pub incoming_messages: Seq<MessageGroup>,
    pub operations: Seq<OperationView>,
}

impl View for Block {
    type V = BlockView;

    open spec fn view(&self) -> BlockView {
        BlockView {
            chain_id: self.chain_id,
            height: self.height,
            previous_block_hash: self.previous_block_hash,
            incoming_messages: self.incoming_messages@,
            operations: self.operations@.map_values(|o: Operation| o@),
        }
    }
}

fn owners_equal(a: &Vec<Owner>, b: &Vec<Owner>) -> (r: bool)
    ensures
        r == (a@ == b@),
{
    if a.len() != b.len() {
        return false;
    }
    let mut i: usize = 0;
    while i < a.len()
        invariant
            i <= a.len(),
            a.len() == b.len(),
            forall|j: int| 0 <= j < i ==> a@[j] == b@[j],
        decreases a.len() - i,
    {
        if a[i] != b[i] {
            return false;
        }
        i = i + 1;
    }
    assert(a@ =~= b@);
    true
}

impl Operation {
    /// Whether two operations have the same value.
    pub fn same_as(&self, other: &Operation) -> (r: bool)
        ensures
            r == (self@ == other@),
    {
        match (self, other) {
            (
                Operation::Transfer { recipient: r1, amount: a1, user_data: u1 },
                Operation::Transfer { recipient: r2, amount: a2, user_data: u2 },
            ) => *r1 == *r2 && *a1 == *a2 && *u1 == *u2,
            (Operation::ChangeOwner { new_owner: o1 }, Operation::ChangeOwner { new_owner: o2 }) =>
                *o1 == *o2,
            (
                Operation::ChangeMultipleOwners { new_owners: o1 },
                Operation::ChangeMultipleOwners { new_owners: o2 },
            ) => owners_equal(o1, o2),
            (
                Operation::OpenChain { id: i1, owner: o1, committees: c1, admin_id: a1 },
                Operation::OpenChain { id: i2, owner: o2, committees: c2, admin_id: a2 },
            ) => *i1 == *i2 && *o1 == *o2 && *a1 == *a2 && committees_equal(c1, c2),
            (Operation::CloseChain, Operation::CloseChain) => true,
            (
                Operation::NewCommittee { admin_id: a1, committee: c1 },
                Operation::NewCommittee { admin_id: a2, committee: c2 },
            ) => *a1 == *a2 && c1.same_as(c2),
            (
                Operation::SubscribeToNewCommittees { id: i1, committees: c1, admin_id: a1 },
                Operation::SubscribeToNewCommittees { id: i2, committees: c2, admin_id: a2 },
            ) => *i1 == *i2 && *a1 == *a2 && committees_equal(c1, c2),
            _ => false,
        }
    }
}

impl Block {
    /// Whether two blocks have the same value.
    pub fn same_as(&self, other: &Block) -> (r: bool)
        ensures
            r == (self@ == other@),
    {
        if self.chain_id != other.chain_id || self.height != other.height
            || self.previous_block_hash != other.previous_block_hash
            || self.incoming_messages.len() != other.incoming_messages.len()
            || self.operations.len() != other.operations.len() {
            assert(self.operations.len() != other.operations.len() ==> self@.operations.len()
                != other@.operations.len());
            return false;
        }
        let mut i: usize = 0;
        while i < self.incoming_messages.len()
            invariant
                i <= self.incoming_messages.len(),
                self.incoming_messages.len() == other.incoming_messages.len(),
                forall|j: int| 0 <= j < i ==> self.incoming_messages@[j] == other.incoming_messages@[j],
            decreases self.incoming_messages.len() - i,
        {
            if self.incoming_messages[i] != other.incoming_messages[i] {
                return false;
            }
            i = i + 1;
        }
        assert(self.incoming_messages@ =~= other.incoming_messages@);
        let mut k: usize = 0;
        while k < self.operations.len()
            invariant
                k <= self.operations.len(),
                self.operations.len() == other.operations.len(),
                forall|j: int| 0 <= j < k ==> self.operations@[j]@ == other.operations@[j]@,
            decreases self.operations.len() - k,
        {
            if !self.operations[k].same_as(&other.operations[k]) {
                assert(self@.operations[k as int] != other@.operations[k as int]);
                return false;
            }
            k = k + 1;
        }
        assert(self@.operations =~= other@.operations);
        true
    }
}

} // verus!

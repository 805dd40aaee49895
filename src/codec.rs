//! The wire format of certificates.
//!
//! A certificate is laid out as a sequence of 64-bit words (tags, counts and
//! values, lists prefixed by their length), each written as eight bytes, least
//! significant first.

use vstd::prelude::*;
use crate::base::{ChainId, HashValue, OperationId, Owner, Signature, ValidatorName};
use crate::block::{Address, Block, BlockView, MessageGroup, Operation, OperationView, UserData};
use crate::certificate::{Certificate, CertificateView, Value, ValueView};
use crate::committee::{valid_rights, valid_voting_rights, Committee, CommitteeView};

verus! {

/// The eight bytes of `x`, least significant first.
pub open spec fn le_bytes(x: u64) -> Seq<u8> {
    seq![
        x as u8,
        (x >> 8u64) as u8,
        (x >> 16u64) as u8,
        (x >> 24u64) as u8,
        (x >> 32u64) as u8,
        (x >> 40u64) as u8,
        (x >> 48u64) as u8,
        (x >> 56u64) as u8,
    ]
}

/// The word whose bytes, least significant first, are `b0` to `b7`.
pub open spec fn word_of(b0: u8, b1: u8, b2: u8, b3: u8, b4: u8, b5: u8, b6: u8, b7: u8) -> u64 {
    (b0 as u64) | ((b1 as u64) << 8u64) | ((b2 as u64) << 16u64) | ((b3 as u64) << 24u64)
        | ((b4 as u64) << 32u64) | ((b5 as u64) << 40u64) | ((b6 as u64) << 48u64) | ((b7 as u64)
        << 56u64)
}

/// The word stored at byte `i` of `b`.
pub open spec fn word_at(b: Seq<u8>, i: int) -> u64 {
    word_of(b[i], b[i + 1], b[i + 2], b[i + 3], b[i + 4], b[i + 5], b[i + 6], b[i + 7])
}

/// The bytes of a sequence of words.
pub open spec fn bytes_of(ws: Seq<u64>) -> Seq<u8>
    decreases ws.len(),
{
    if ws.len() == 0 {
        Seq::empty()
    } else {
        bytes_of(ws.drop_last()) + le_bytes(ws.last())
    }
}

/// The words of a sequence of bytes whose length is a multiple of eight.
pub open spec fn words_of(b: Seq<u8>) -> Seq<u64>
    decreases b.len(),
{
    if b.len() < 8 {
        Seq::empty()
    } else {
        words_of(b.subrange(0, b.len() - 8)).push(word_at(b, b.len() - 8))
    }
}

/// Reading back the bytes of a word gives the word.
pub proof fn lemma_word_round_trip(x: u64)
    ensures
        word_at(le_bytes(x), 0) == x,
{
    assert(word_of(
        x as u8,
        (x >> 8u64) as u8,
        (x >> 16u64) as u8,
        (x >> 24u64) as u8,
        (x >> 32u64) as u8,
        (x >> 40u64) as u8,
        (x >> 48u64) as u8,
        (x >> 56u64) as u8,
    ) == x) by (bit_vector);
}

/// The bytes of `ws` are eight per word.
pub proof fn lemma_bytes_len(ws: Seq<u64>)
    ensures
        bytes_of(ws).len() == 8 * ws.len(),
    decreases ws.len(),
{
    if ws.len() > 0 {
        lemma_bytes_len(ws.drop_last());
    }
}

/// Reading back the bytes of words gives the words.
pub proof fn lemma_words_round_trip(ws: Seq<u64>)
    ensures
        words_of(bytes_of(ws)) == ws,
    decreases ws.len(),
{
    if ws.len() > 0 {
        let b = bytes_of(ws);
        let front = bytes_of(ws.drop_last());
        lemma_bytes_len(ws.drop_last());
        lemma_bytes_len(ws);
        assert(b.subrange(0, b.len() - 8) =~= front);
        lemma_words_round_trip(ws.drop_last());
        lemma_word_round_trip(ws.last());
        let l = le_bytes(ws.last());
        assert(word_at(b, b.len() - 8) == word_at(l, 0)) by {
            assert(forall|k: int| 0 <= k < 8 ==> b[front.len() + k] == l[k]);
        }
        assert(ws.drop_last().push(ws.last()) =~= ws);
    }
}

/// Writes the words `ws` as bytes.
pub fn words_to_bytes(ws: &Vec<u64>) -> (r: Vec<u8>)
    ensures
        r@ == bytes_of(ws@),
{
    let mut r: Vec<u8> = Vec::new();
    let mut i: usize = 0;
    while i < ws.len()
        invariant
            i <= ws.len(),
            r@ == bytes_of(ws@.subrange(0, i as int)),
        decreases ws.len() - i,
    {
        let x = ws[i];
        r.push(x as u8);
        r.push((x >> 8u64) as u8);
        r.push((x >> 16u64) as u8);
        r.push((x >> 24u64) as u8);
        r.push((x >> 32u64) as u8);
        r.push((x >> 40u64) as u8);
        r.push((x >> 48u64) as u8);
        r.push((x >> 56u64) as u8);
        assert(ws@.subrange(0, i + 1).drop_last() =~= ws@.subrange(0, i as int));
        assert(r@ =~= bytes_of(ws@.subrange(0, i + 1)));
        i = i + 1;
    }
    assert(ws@.subrange(0, i as int) =~= ws@);
    r
}

/// Reads bytes back as words; `None` when their number is not a multiple of eight.
pub fn bytes_to_words(b: &Vec<u8>) -> (r: Option<Vec<u64>>)
    ensures
        b@.len() % 8 != 0 ==> r is None,
        b@.len() % 8 == 0 ==> (r matches Some(ws) && ws@ == words_of(b@)),
{
    if b.len() % 8 != 0 {
        return None;
    }
    let len = b.len();
    let n = len / 8;
    let mut ws: Vec<u64> = Vec::new();
    let mut i: usize = 0;
    while i < n
        invariant
            i <= n,
            len == b@.len(),
            n * 8 == b@.len(),
            ws@ == words_of(b@.subrange(0, 8 * i)),
        decreases n - i,
    {
        assert(8 * i + 8 <= b@.len()) by (nonlinear_arith)
            requires
                i < n,
                n * 8 == b@.len(),
        ;
        let k = 8 * i;
        let x = (b[k] as u64) | ((b[k + 1] as u64) << 8u64) | ((b[k + 2] as u64) << 16u64)
            | ((b[k + 3] as u64) << 24u64) | ((b[k + 4] as u64) << 32u64) | ((b[k + 5] as u64)
            << 40u64) | ((b[k + 6] as u64) << 48u64) | ((b[k + 7] as u64) << 56u64);
        proof {
            let sub = b@.subrange(0, 8 * (i + 1));
            assert(sub.subrange(0, sub.len() - 8) =~= b@.subrange(0, 8 * i));
            assert(word_at(sub, sub.len() - 8) == x);
        }
        ws.push(x);
        i = i + 1;
    }
    assert(b@.subrange(0, 8 * i) =~= b@);
    Some(ws)
}


/// `e` stands in `s` from position `p`.
pub open spec fn at(s: Seq<u64>, p: int, e: Seq<u64>) -> bool {
    0 <= p && p + e.len() <= s.len() && s.subrange(p, p + e.len()) == e
}

/// What stands at `p` for `a + b` stands there for `a`, then for `b`.
pub proof fn lemma_split(s: Seq<u64>, p: int, a: Seq<u64>, b: Seq<u64>)
    requires
        at(s, p, a + b),
    ensures
        at(s, p, a),
        at(s, p + a.len(), b),
{
    assert(s.subrange(p, p + a.len()) =~= (a + b).subrange(0, a.len() as int));
    assert((a + b).subrange(0, a.len() as int) =~= a);
    assert(s.subrange(p + a.len(), p + a.len() + b.len()) =~= (a + b).subrange(a.len() as int, (a + b).len() as int));
    assert((a + b).subrange(a.len() as int, (a + b).len() as int) =~= b);
}

/// The word at `p + k` of `s` is the `k`-th of what stands at `p`.
pub proof fn lemma_at_index(s: Seq<u64>, p: int, e: Seq<u64>, k: int)
    requires
        at(s, p, e),
        0 <= k < e.len(),
    ensures
        s[p + k] == e[k],
{
    assert(s.subrange(p, p + e.len())[k] == s[p + k]);
}

/// The words of a list, item after item.
pub open spec fn enc_list<T>(xs: Seq<T>, e: spec_fn(T) -> Seq<u64>) -> Seq<u64>
    decreases xs.len(),
{
    if xs.len() == 0 {
        Seq::empty()
    } else {
        enc_list(xs.drop_last(), e) + e(xs.last())
    }
}

/// Reads `n` items from `p` with the item reader `d`.
pub open spec fn dec_list<T>(
    s: Seq<u64>,
    p: int,
    n: nat,
    d: spec_fn(Seq<u64>, int) -> Option<(T, int)>,
) -> Option<(Seq<T>, int)>
    decreases n,
{
    if n == 0 {
        Some((Seq::empty(), p))
    } else {
        match dec_list(s, p, (n - 1) as nat, d) {
            Some((xs, q)) => match d(s, q) {
                Some((x, q2)) => Some((xs.push(x), q2)),
                None => None,
            },
            None => None,
        }
    }
}

/// A list reads back as written, when each of its items does.
pub proof fn lemma_list_round_trip<T>(
    s: Seq<u64>,
    p: int,
    xs: Seq<T>,
    e: spec_fn(T) -> Seq<u64>,
    d: spec_fn(Seq<u64>, int) -> Option<(T, int)>,
)
    requires
        at(s, p, enc_list(xs, e)),
        forall|q: int, i: int|
            #![trigger d(s, q), xs[i]]
            0 <= i < xs.len() && at(s, q, e(xs[i])) ==> d(s, q) == Some((xs[i], q + e(xs[i]).len())),
    ensures
        dec_list(s, p, xs.len(), d) == Some((xs, p + enc_list(xs, e).len())),
    decreases xs.len(),
{
    if xs.len() > 0 {
        let front = xs.drop_last();
        lemma_split(s, p, enc_list(front, e), e(xs.last()));
        assert forall|q: int, i: int|
            #![trigger d(s, q), front[i]]
            0 <= i < front.len() && at(s, q, e(front[i])) implies d(s, q) == Some((front[i], q + e(front[i]).len())) by {
            assert(front[i] == xs[i]);
        }
        lemma_list_round_trip(s, p, front, e, d);
        let q = p + enc_list(front, e).len();
        assert(d(s, q) == Some((xs[xs.len() - 1], q + e(xs[xs.len() - 1]).len())));
        assert(front.push(xs.last()) =~= xs);
    }
}

/// Once a list cannot be read, no longer one can.
pub proof fn lemma_list_none<T>(s: Seq<u64>, p: int, j: nat, n: nat, d: spec_fn(Seq<u64>, int) -> Option<(T, int)>)
    requires
        j <= n,
        dec_list(s, p, j, d) is None,
    ensures
        dec_list(s, p, n, d) is None,
    decreases n - j,
{
    if j < n {
        lemma_list_none(s, p, j + 1, n, d);
    }
}

/// Reading a list stops after its items.
pub proof fn lemma_list_pos<T>(s: Seq<u64>, p: int, n: nat, d: spec_fn(Seq<u64>, int) -> Option<(T, int)>)
    requires
        forall|q: int| #![trigger d(s, q)] (d(s, q) is Some) ==> q < d(s, q).unwrap().1 <= s.len(),
        0 <= p <= s.len(),
    ensures
        dec_list(s, p, n, d) matches Some((xs, q)) ==> p <= q <= s.len() && xs.len() == n,
    decreases n,
{
    if n > 0 {
        lemma_list_pos(s, p, (n - 1) as nat, d);
    }
}



/// The words of an optional hash: a tag, then the hash if there is one.
pub open spec fn enc_opt_hash(h: Option<HashValue>) -> Seq<u64> {
    match h {
        None => seq![0u64],
        Some(x) => seq![1u64, x.0],
    }
}

/// Reads an optional hash.
pub open spec fn dec_opt_hash(s: Seq<u64>, p: int) -> Option<(Option<HashValue>, int)> {
    if 0 <= p < s.len() && s[p] == 0 {
        Some((None, p + 1))
    } else if 0 <= p && p + 1 < s.len() && s[p] == 1 {
        Some((Some(HashValue(s[p + 1])), p + 2))
    } else {
        None
    }
}

/// The words of an address: a tag, then the chain of an account.
pub open spec fn enc_address(a: Address) -> Seq<u64> {
    match a {
        Address::Account(c) => seq![0u64, c.0],
        Address::Burn => seq![1u64],
    }
}

/// Reads an address.
pub open spec fn dec_address(s: Seq<u64>, p: int) -> Option<(Address, int)> {
    if 0 <= p && p + 1 < s.len() && s[p] == 0 {
        Some((Address::Account(ChainId(s[p + 1])), p + 2))
    } else if 0 <= p < s.len() && s[p] == 1 {
        Some((Address::Burn, p + 1))
    } else {
        None
    }
}

/// The words of an optional operation place: a tag, then chain, height and index.
pub open spec fn enc_opt_opid(o: Option<OperationId>) -> Seq<u64> {
    match o {
        None => seq![0u64],
        Some(i) => seq![1u64, i.chain_id.0, i.height, i.index],
    }
}

/// Reads an optional operation place.
pub open spec fn dec_opt_opid(s: Seq<u64>, p: int) -> Option<(Option<OperationId>, int)> {
    if 0 <= p < s.len() && s[p] == 0 {
        Some((None, p + 1))
    } else if 0 <= p && p + 3 < s.len() && s[p] == 1 {
        Some((Some(OperationId { chain_id: ChainId(s[p + 1]), height: s[p + 2], index: s[p + 3] }), p + 4))
    } else {
        None
    }
}

/// An owner is one word.
pub open spec fn owner_enc() -> spec_fn(Owner) -> Seq<u64> {
    |o: Owner| seq![o.0]
}

/// Reads an owner.
pub open spec fn owner_dec() -> spec_fn(Seq<u64>, int) -> Option<(Owner, int)> {
    |s: Seq<u64>, q: int| if 0 <= q < s.len() { Some((Owner(s[q]), q + 1)) } else { None }
}

/// A voting right is a name and a weight.
pub open spec fn right_enc() -> spec_fn((ValidatorName, u64)) -> Seq<u64> {
    |r: (ValidatorName, u64)| seq![r.0.0, r.1]
}

/// Reads a voting right.
pub open spec fn right_dec() -> spec_fn(Seq<u64>, int) -> Option<((ValidatorName, u64), int)> {
    |s: Seq<u64>, q: int| if 0 <= q && q + 1 < s.len() {
        Some(((ValidatorName(s[q]), s[q + 1]), q + 2))
    } else {
        None
    }
}

/// A message group is its sender, height and index.
pub open spec fn message_enc() -> spec_fn(MessageGroup) -> Seq<u64> {
    |m: MessageGroup| seq![m.sender.0, m.height, m.index]
}

/// Reads a message group.
pub open spec fn message_dec() -> spec_fn(Seq<u64>, int) -> Option<(MessageGroup, int)> {
    |s: Seq<u64>, q: int| if 0 <= q && q + 2 < s.len() {
        Some((MessageGroup { sender: ChainId(s[q]), height: s[q + 1], index: s[q + 2] }, q + 3))
    } else {
        None
    }
}

/// A signature entry is the validator's name and its signature.
pub open spec fn signature_enc() -> spec_fn((ValidatorName, Signature)) -> Seq<u64> {
    |x: (ValidatorName, Signature)| seq![x.0.0, x.1.0]
}

/// Reads a signature entry.
pub open spec fn signature_dec() -> spec_fn(Seq<u64>, int) -> Option<((ValidatorName, Signature), int)> {
    |s: Seq<u64>, q: int| if 0 <= q && q + 1 < s.len() {
        Some(((ValidatorName(s[q]), Signature(s[q + 1])), q + 2))
    } else {
        None
    }
}

/// The words of a committee: the number of rights, the rights, then the
/// operation that created it, if any.
pub open spec fn enc_committee(c: CommitteeView) -> Seq<u64> {
    seq![c.rights.len() as u64] + enc_list(c.rights, right_enc()) + enc_opt_opid(c.origin)
}

/// Reads a committee; its rights must make one.
pub open spec fn dec_committee(s: Seq<u64>, p: int) -> Option<(CommitteeView, int)> {
    if 0 <= p < s.len() {
        match dec_list(s, p + 1, s[p] as nat, right_dec()) {
            Some((rights, q)) => match dec_opt_opid(s, q) {
                Some((origin, q2)) => if valid_rights(rights) {
                    Some((CommitteeView { rights, origin }, q2))
                } else {
                    None
                },
                None => None,
            },
            None => None,
        }
    } else {
        None
    }
}

/// [`enc_committee`] as an item writer.
pub open spec fn committee_enc() -> spec_fn(CommitteeView) -> Seq<u64> {
    |c: CommitteeView| enc_committee(c)
}

/// [`dec_committee`] as an item reader.
pub open spec fn committee_dec() -> spec_fn(Seq<u64>, int) -> Option<(CommitteeView, int)> {
    |s: Seq<u64>, q: int| dec_committee(s, q)
}

/// A committee that can be written.
pub open spec fn committee_ok(c: CommitteeView) -> bool {
    c.rights.len() <= u64::MAX && valid_rights(c.rights)
}

/// A list of committees that can be written.
pub open spec fn committees_ok(cs: Seq<CommitteeView>) -> bool {
    cs.len() <= u64::MAX && forall|i: int| 0 <= i < cs.len() ==> committee_ok(#[trigger] cs[i])
}

/// The words of an operation.
pub open spec fn enc_op(o: OperationView) -> Seq<u64> {
    match o {
        OperationView::Transfer { recipient, amount, user_data } =>
            seq![0u64] + enc_address(recipient) + seq![amount] + enc_opt_hash(user_data.0),
        OperationView::ChangeOwner { new_owner } => seq![1u64, new_owner.0],
        OperationView::ChangeMultipleOwners { new_owners } =>
            seq![2u64, new_owners.len() as u64] + enc_list(new_owners, owner_enc()),
        OperationView::OpenChain { id, owner, committees, admin_id } =>
            seq![3u64, id.0, owner.0, admin_id.0, committees.len() as u64] + enc_list(committees, committee_enc()),
        OperationView::CloseChain => seq![4u64],
        OperationView::NewCommittee { admin_id, rights, origin } =>
            seq![5u64, admin_id.0, rights.len() as u64] + enc_list(rights, right_enc()) + enc_opt_opid(origin),
        OperationView::SubscribeToNewCommittees { id, committees, admin_id } =>
            seq![6u64, id.0, admin_id.0, committees.len() as u64] + enc_list(committees, committee_enc()),
    }
}

/// Reads an operation.
pub open spec fn dec_op(s: Seq<u64>, p: int) -> Option<(OperationView, int)> {
    if !(0 <= p < s.len()) {
        None
    } else if s[p] == 0 {
        match dec_address(s, p + 1) {
            Some((recipient, q)) => if q < s.len() {
                match dec_opt_hash(s, q + 1) {
                    Some((u, q2)) => Some((OperationView::Transfer { recipient, amount: s[q], user_data: UserData(u) }, q2)),
                    None => None,
                }
            } else {
                None
            },
            None => None,
        }
    } else if s[p] == 1 {
        if p + 1 < s.len() { Some((OperationView::ChangeOwner { new_owner: Owner(s[p + 1]) }, p + 2)) } else { None }
    } else if s[p] == 2 {
        if p + 1 < s.len() {
            match dec_list(s, p + 2, s[p + 1] as nat, owner_dec()) {
                Some((new_owners, q)) => Some((OperationView::ChangeMultipleOwners { new_owners }, q)),
                None => None,
            }
        } else {
            None
        }
    } else if s[p] == 3 {
        if p + 4 < s.len() {
            match dec_list(s, p + 5, s[p + 4] as nat, committee_dec()) {
                Some((committees, q)) => Some((OperationView::OpenChain {
                    id: ChainId(s[p + 1]),
                    owner: Owner(s[p + 2]),
                    committees,
                    admin_id: ChainId(s[p + 3]),
                }, q)),
                None => None,
            }
        } else {
            None
        }
    } else if s[p] == 4 {
        Some((OperationView::CloseChain, p + 1))
    } else if s[p] == 5 {
        if p + 2 < s.len() {
            match dec_list(s, p + 3, s[p + 2] as nat, right_dec()) {
                Some((rights, q)) => match dec_opt_opid(s, q) {
                    Some((origin, q2)) => if valid_rights(rights) {
                        Some((OperationView::NewCommittee { admin_id: ChainId(s[p + 1]), rights, origin }, q2))
                    } else {
                        None
                    },
                    None => None,
                },
                None => None,
            }
        } else {
            None
        }
    } else if s[p] == 6 {
        if p + 3 < s.len() {
            match dec_list(s, p + 4, s[p + 3] as nat, committee_dec()) {
                Some((committees, q)) => Some((OperationView::SubscribeToNewCommittees {
                    id: ChainId(s[p + 1]),
                    committees,
                    admin_id: ChainId(s[p + 2]),
                }, q)),
                None => None,
            }
        } else {
            None
        }
    } else {
        None
    }
}

/// [`enc_op`] as an item writer.
pub open spec fn op_enc() -> spec_fn(OperationView) -> Seq<u64> {
    |o: OperationView| enc_op(o)
}

/// [`dec_op`] as an item reader.
pub open spec fn op_dec() -> spec_fn(Seq<u64>, int) -> Option<(OperationView, int)> {
    |s: Seq<u64>, q: int| dec_op(s, q)
}

/// An operation that can be written: its lists fit a word count, and the
/// rights of a new committee make a committee.
pub open spec fn op_ok(o: OperationView) -> bool {
    match o {
        OperationView::ChangeMultipleOwners { new_owners } => new_owners.len() <= u64::MAX,
        OperationView::NewCommittee { rights, .. } => rights.len() <= u64::MAX && valid_rights(rights),
        OperationView::OpenChain { committees, .. } => committees_ok(committees),
        OperationView::SubscribeToNewCommittees { committees, .. } => committees_ok(committees),
        _ => true,
    }
}

/// The words of a block.
pub open spec fn enc_block(b: BlockView) -> Seq<u64> {
    seq![b.chain_id.0, b.height] + enc_opt_hash(b.previous_block_hash) + seq![b.incoming_messages.len() as u64]
        + enc_list(b.incoming_messages, message_enc()) + seq![b.operations.len() as u64] + enc_list(
        b.operations,
        op_enc(),
    )
}

/// Reads a block.
pub open spec fn dec_block(s: Seq<u64>, p: int) -> Option<(BlockView, int)> {
    if 0 <= p && p + 1 < s.len() {
        match dec_opt_hash(s, p + 2) {
            Some((previous_block_hash, q)) => if q < s.len() {
                match dec_list(s, q + 1, s[q] as nat, message_dec()) {
                    Some((incoming_messages, q2)) => if q2 < s.len() {
                        match dec_list(s, q2 + 1, s[q2] as nat, op_dec()) {
                            Some((operations, q3)) => Some((BlockView {
                                chain_id: ChainId(s[p]),
                                height: s[p + 1],
                                previous_block_hash,
                                incoming_messages,
                                operations,
                            }, q3)),
                            None => None,
                        }
                    } else {
                        None
                    },
                    None => None,
                }
            } else {
                None
            },
            None => None,
        }
    } else {
        None
    }
}

/// A block that can be written.
pub open spec fn block_ok(b: BlockView) -> bool {
    &&& b.incoming_messages.len() <= u64::MAX
    &&& b.operations.len() <= u64::MAX
    &&& forall|i: int| 0 <= i < b.operations.len() ==> op_ok(#[trigger] b.operations[i])
}

/// The words of a certified value.
pub open spec fn enc_value(v: ValueView) -> Seq<u64> {
    match v {
        ValueView::ConfirmedBlock { block, state_hash } => seq![0u64] + enc_block(block) + seq![state_hash.0],
        ValueView::ValidatedBlock { block, round, state_hash } =>
            seq![1u64] + enc_block(block) + seq![round, state_hash.0],
    }
}

/// Reads a certified value.
pub open spec fn dec_value(s: Seq<u64>, p: int) -> Option<(ValueView, int)> {
    if 0 <= p < s.len() && s[p] == 0 {
        match dec_block(s, p + 1) {
            Some((block, q)) => if q < s.len() {
                Some((ValueView::ConfirmedBlock { block, state_hash: HashValue(s[q]) }, q + 1))
            } else {
                None
            },
            None => None,
        }
    } else if 0 <= p < s.len() && s[p] == 1 {
        match dec_block(s, p + 1) {
            Some((block, q)) => if q + 1 < s.len() {
                Some((ValueView::ValidatedBlock { block, round: s[q], state_hash: HashValue(s[q + 1]) }, q + 2))
            } else {
                None
            },
            None => None,
        }
    } else {
        None
    }
}

/// The words of a certificate.
pub open spec fn enc_cert(c: CertificateView) -> Seq<u64> {
    enc_value(c.value) + seq![c.signatures.len() as u64] + enc_list(c.signatures, signature_enc())
}

/// Reads a certificate.
pub open spec fn dec_cert(s: Seq<u64>, p: int) -> Option<(CertificateView, int)> {
    match dec_value(s, p) {
        Some((value, q)) => if 0 <= q < s.len() {
            match dec_list(s, q + 1, s[q] as nat, signature_dec()) {
                Some((signatures, q2)) => Some((CertificateView { value, signatures }, q2)),
                None => None,
            }
        } else {
            None
        },
        None => None,
    }
}

/// The block a certified value carries.
pub open spec fn value_block(v: ValueView) -> BlockView {
    match v {
        ValueView::ConfirmedBlock { block, .. } => block,
        ValueView::ValidatedBlock { block, .. } => block,
    }
}

/// A certificate that can be written: its block can, and its signatures fit a
/// word count.
pub open spec fn cert_ok(c: CertificateView) -> bool {
    block_ok(value_block(c.value)) && c.signatures.len() <= u64::MAX
}

/// The bytes of a certificate.
pub open spec fn encode(c: CertificateView) -> Seq<u8> {
    bytes_of(enc_cert(c))
}

/// The certificate whose bytes are exactly `b`, if any.
pub open spec fn decode(b: Seq<u8>) -> Option<CertificateView> {
    if b.len() % 8 != 0 {
        None
    } else {
        let ws = words_of(b);
        match dec_cert(ws, 0) {
            Some((c, q)) => if q == ws.len() { Some(c) } else { None },
            None => None,
        }
    }
}


proof fn lemma_opt_hash_round_trip(s: Seq<u64>, p: int, h: Option<HashValue>)
    requires
        at(s, p, enc_opt_hash(h)),
    ensures
        dec_opt_hash(s, p) == Some((h, p + enc_opt_hash(h).len())),
{
    lemma_at_index(s, p, enc_opt_hash(h), 0);
    if h is Some {
        lemma_at_index(s, p, enc_opt_hash(h), 1);
    }
}

proof fn lemma_address_round_trip(s: Seq<u64>, p: int, a: Address)
    requires
        at(s, p, enc_address(a)),
    ensures
        dec_address(s, p) == Some((a, p + enc_address(a).len())),
{
    lemma_at_index(s, p, enc_address(a), 0);
    if a is Account {
        lemma_at_index(s, p, enc_address(a), 1);
    }
}

proof fn lemma_opt_opid_round_trip(s: Seq<u64>, p: int, o: Option<OperationId>)
    requires
        at(s, p, enc_opt_opid(o)),
    ensures
        dec_opt_opid(s, p) == Some((o, p + enc_opt_opid(o).len())),
{
    let e = enc_opt_opid(o);
    lemma_at_index(s, p, e, 0);
    if o is Some {
        lemma_at_index(s, p, e, 1);
        lemma_at_index(s, p, e, 2);
        lemma_at_index(s, p, e, 3);
    }
}

proof fn lemma_owners_round_trip(s: Seq<u64>, p: int, xs: Seq<Owner>)
    requires
        at(s, p, enc_list(xs, owner_enc())),
    ensures
        dec_list(s, p, xs.len(), owner_dec()) == Some((xs, p + enc_list(xs, owner_enc()).len())),
{
    assert forall|q: int, i: int|
        #![trigger owner_dec()(s, q), xs[i]]
        0 <= i < xs.len() && at(s, q, owner_enc()(xs[i])) implies owner_dec()(s, q) == Some((xs[i], q + owner_enc()(xs[i]).len())) by {
        lemma_at_index(s, q, owner_enc()(xs[i]), 0);
    }
    lemma_list_round_trip(s, p, xs, owner_enc(), owner_dec());
}

proof fn lemma_rights_round_trip(s: Seq<u64>, p: int, xs: Seq<(ValidatorName, u64)>)
    requires
        at(s, p, enc_list(xs, right_enc())),
    ensures
        dec_list(s, p, xs.len(), right_dec()) == Some((xs, p + enc_list(xs, right_enc()).len())),
{
    assert forall|q: int, i: int|
        #![trigger right_dec()(s, q), xs[i]]
        0 <= i < xs.len() && at(s, q, right_enc()(xs[i])) implies right_dec()(s, q) == Some((xs[i], q + right_enc()(xs[i]).len())) by {
        lemma_at_index(s, q, right_enc()(xs[i]), 0);
        lemma_at_index(s, q, right_enc()(xs[i]), 1);
    }
    lemma_list_round_trip(s, p, xs, right_enc(), right_dec());
}

proof fn lemma_messages_round_trip(s: Seq<u64>, p: int, xs: Seq<MessageGroup>)
    requires
        at(s, p, enc_list(xs, message_enc())),
    ensures
        dec_list(s, p, xs.len(), message_dec()) == Some((xs, p + enc_list(xs, message_enc()).len())),
{
    assert forall|q: int, i: int|
        #![trigger message_dec()(s, q), xs[i]]
        0 <= i < xs.len() && at(s, q, message_enc()(xs[i])) implies message_dec()(s, q) == Some((xs[i], q + message_enc()(xs[i]).len())) by {
        lemma_at_index(s, q, message_enc()(xs[i]), 0);
        lemma_at_index(s, q, message_enc()(xs[i]), 1);
        lemma_at_index(s, q, message_enc()(xs[i]), 2);
    }
    lemma_list_round_trip(s, p, xs, message_enc(), message_dec());
}

proof fn lemma_signatures_round_trip(s: Seq<u64>, p: int, xs: Seq<(ValidatorName, Signature)>)
    requires
        at(s, p, enc_list(xs, signature_enc())),
    ensures
        dec_list(s, p, xs.len(), signature_dec()) == Some((xs, p + enc_list(xs, signature_enc()).len())),
{
    assert forall|q: int, i: int|
        #![trigger signature_dec()(s, q), xs[i]]
        0 <= i < xs.len() && at(s, q, signature_enc()(xs[i])) implies signature_dec()(s, q) == Some((xs[i], q + signature_enc()(xs[i]).len())) by {
        lemma_at_index(s, q, signature_enc()(xs[i]), 0);
        lemma_at_index(s, q, signature_enc()(xs[i]), 1);
    }
    lemma_list_round_trip(s, p, xs, signature_enc(), signature_dec());
}

proof fn lemma_committee_round_trip(s: Seq<u64>, p: int, c: CommitteeView)
    requires
        at(s, p, enc_committee(c)),
        committee_ok(c),
    ensures
        dec_committee(s, p) == Some((c, p + enc_committee(c).len())),
{
    let h = seq![c.rights.len() as u64];
    lemma_split(s, p, h + enc_list(c.rights, right_enc()), enc_opt_opid(c.origin));
    lemma_split(s, p, h, enc_list(c.rights, right_enc()));
    lemma_at_index(s, p, h, 0);
    lemma_rights_round_trip(s, p + 1, c.rights);
    lemma_opt_opid_round_trip(s, p + 1 + enc_list(c.rights, right_enc()).len(), c.origin);
}

proof fn lemma_committees_round_trip(s: Seq<u64>, p: int, xs: Seq<CommitteeView>)
    requires
        at(s, p, enc_list(xs, committee_enc())),
        committees_ok(xs),
    ensures
        dec_list(s, p, xs.len(), committee_dec()) == Some((xs, p + enc_list(xs, committee_enc()).len())),
{
    assert forall|q: int, i: int|
        #![trigger committee_dec()(s, q), xs[i]]
        0 <= i < xs.len() && at(s, q, committee_enc()(xs[i])) implies committee_dec()(s, q) == Some((xs[i], q + committee_enc()(xs[i]).len())) by {
        assert(committee_ok(xs[i]));
        lemma_committee_round_trip(s, q, xs[i]);
    }
    lemma_list_round_trip(s, p, xs, committee_enc(), committee_dec());
}

/// Reading a committee moves forward and stays within the words.
proof fn lemma_committee_pos(s: Seq<u64>, p: int)
    ensures
        dec_committee(s, p) matches Some((x, q)) ==> p < q <= s.len(),
{
    if 0 <= p < s.len() {
        lemma_list_pos(s, p + 1, s[p] as nat, right_dec());
    }
}

proof fn lemma_committees_pos(s: Seq<u64>, p: int, n: nat)
    requires
        0 <= p <= s.len(),
    ensures
        dec_list(s, p, n, committee_dec()) matches Some((xs, q)) ==> p <= q <= s.len() && xs.len() == n,
{
    assert forall|q: int| #![trigger committee_dec()(s, q)] (committee_dec()(s, q) is Some) implies q < committee_dec()(s, q).unwrap().1 <= s.len() by {
        lemma_committee_pos(s, q);
    }
    lemma_list_pos(s, p, n, committee_dec());
}

proof fn lemma_op_round_trip(s: Seq<u64>, p: int, o: OperationView)
    requires
        at(s, p, enc_op(o)),
        op_ok(o),
    ensures
        dec_op(s, p) == Some((o, p + enc_op(o).len())),
{
    let e = enc_op(o);
    lemma_at_index(s, p, e, 0);
    match o {
        OperationView::Transfer { recipient, amount, user_data } => {
            let a = seq![0u64] + enc_address(recipient);
            lemma_split(s, p, a + seq![amount], enc_opt_hash(user_data.0));
            lemma_split(s, p, a, seq![amount]);
            lemma_split(s, p, seq![0u64], enc_address(recipient));
            lemma_address_round_trip(s, p + 1, recipient);
            lemma_at_index(s, p + a.len(), seq![amount], 0);
            lemma_opt_hash_round_trip(s, p + a.len() + 1, user_data.0);
        },
        OperationView::ChangeOwner { .. } => {
            lemma_at_index(s, p, e, 1);
        },
        OperationView::ChangeMultipleOwners { new_owners } => {
            lemma_split(s, p, seq![2u64, new_owners.len() as u64], enc_list(new_owners, owner_enc()));
            lemma_at_index(s, p, e, 1);
            lemma_owners_round_trip(s, p + 2, new_owners);
        },
        OperationView::OpenChain { id, owner, committees, admin_id } => {
            let h = seq![3u64, id.0, owner.0, admin_id.0, committees.len() as u64];
            lemma_split(s, p, h, enc_list(committees, committee_enc()));
            lemma_at_index(s, p, h, 1);
            lemma_at_index(s, p, h, 2);
            lemma_at_index(s, p, h, 3);
            lemma_at_index(s, p, h, 4);
            lemma_committees_round_trip(s, p + 5, committees);
        },
        OperationView::CloseChain => {},
        OperationView::NewCommittee { admin_id, rights, origin } => {
            let h = seq![5u64, admin_id.0, rights.len() as u64];
            lemma_split(s, p, h + enc_list(rights, right_enc()), enc_opt_opid(origin));
            lemma_split(s, p, h, enc_list(rights, right_enc()));
            lemma_at_index(s, p, h, 1);
            lemma_at_index(s, p, h, 2);
            lemma_rights_round_trip(s, p + 3, rights);
            lemma_opt_opid_round_trip(s, p + 3 + enc_list(rights, right_enc()).len(), origin);
        },
        OperationView::SubscribeToNewCommittees { id, committees, admin_id } => {
            let h = seq![6u64, id.0, admin_id.0, committees.len() as u64];
            lemma_split(s, p, h, enc_list(committees, committee_enc()));
            lemma_at_index(s, p, h, 1);
            lemma_at_index(s, p, h, 2);
            lemma_at_index(s, p, h, 3);
            lemma_committees_round_trip(s, p + 4, committees);
        },
    }
}

proof fn lemma_block_round_trip(s: Seq<u64>, p: int, b: BlockView)
    requires
        at(s, p, enc_block(b)),
        block_ok(b),
    ensures
        dec_block(s, p) == Some((b, p + enc_block(b).len())),
{
    let h = seq![b.chain_id.0, b.height];
    let oh = enc_opt_hash(b.previous_block_hash);
    let nm = seq![b.incoming_messages.len() as u64];
    let ms = enc_list(b.incoming_messages, message_enc());
    let no = seq![b.operations.len() as u64];
    let os = enc_list(b.operations, op_enc());
    lemma_split(s, p, h + oh + nm + ms + no, os);
    lemma_split(s, p, h + oh + nm + ms, no);
    lemma_split(s, p, h + oh + nm, ms);
    lemma_split(s, p, h + oh, nm);
    lemma_split(s, p, h, oh);
    lemma_at_index(s, p, h, 0);
    lemma_at_index(s, p, h, 1);
    lemma_opt_hash_round_trip(s, p + 2, b.previous_block_hash);
    let q = p + 2 + oh.len();
    lemma_at_index(s, q, nm, 0);
    lemma_messages_round_trip(s, q + 1, b.incoming_messages);
    let q2 = q + 1 + ms.len();
    lemma_at_index(s, q2, no, 0);
    let xs = b.operations;
    assert forall|q: int, i: int|
        #![trigger op_dec()(s, q), xs[i]]
        0 <= i < xs.len() && at(s, q, op_enc()(xs[i])) implies op_dec()(s, q) == Some((xs[i], q + op_enc()(xs[i]).len())) by {
        assert(op_ok(xs[i]));
        lemma_op_round_trip(s, q, xs[i]);
    }
    lemma_list_round_trip(s, q2 + 1, xs, op_enc(), op_dec());
}

proof fn lemma_value_round_trip(s: Seq<u64>, p: int, v: ValueView)
    requires
        at(s, p, enc_value(v)),
        block_ok(value_block(v)),
    ensures
        dec_value(s, p) == Some((v, p + enc_value(v).len())),
{
    lemma_at_index(s, p, enc_value(v), 0);
    match v {
        ValueView::ConfirmedBlock { block, state_hash } => {
            lemma_split(s, p, seq![0u64] + enc_block(block), seq![state_hash.0]);
            lemma_split(s, p, seq![0u64], enc_block(block));
            lemma_block_round_trip(s, p + 1, block);
            lemma_at_index(s, p + 1 + enc_block(block).len(), seq![state_hash.0], 0);
        },
        ValueView::ValidatedBlock { block, round, state_hash } => {
            lemma_split(s, p, seq![1u64] + enc_block(block), seq![round, state_hash.0]);
            lemma_split(s, p, seq![1u64], enc_block(block));
            lemma_block_round_trip(s, p + 1, block);
            lemma_at_index(s, p + 1 + enc_block(block).len(), seq![round, state_hash.0], 0);
            lemma_at_index(s, p + 1 + enc_block(block).len(), seq![round, state_hash.0], 1);
        },
    }
}

proof fn lemma_cert_words_round_trip(c: CertificateView)
    requires
        cert_ok(c),
    ensures
        dec_cert(enc_cert(c), 0) == Some((c, enc_cert(c).len() as int)),
{
    let ws = enc_cert(c);
    assert(ws.subrange(0, ws.len() as int) =~= ws);
    assert(at(ws, 0, ws));
    let v = enc_value(c.value);
    let n = seq![c.signatures.len() as u64];
    lemma_split(ws, 0, v + n, enc_list(c.signatures, signature_enc()));
    lemma_split(ws, 0, v, n);
    lemma_value_round_trip(ws, 0, c.value);
    lemma_at_index(ws, v.len() as int, n, 0);
    lemma_signatures_round_trip(ws, v.len() as int + 1, c.signatures);
}

/// Serialization round trip: the bytes of a certificate read back as that
/// certificate.
pub proof fn lemma_certificate_round_trip(c: CertificateView)
    requires
        cert_ok(c),
    ensures
        decode(encode(c)) == Some(c),
{
    let ws = enc_cert(c);
    lemma_words_round_trip(ws);
    lemma_bytes_len(ws);
    lemma_cert_words_round_trip(c);
    assert(bytes_of(ws).len() % 8 == 0);
}


fn put_opt_hash(out: &mut Vec<u64>, h: Option<HashValue>)
    ensures
        final(out)@ == old(out)@ + enc_opt_hash(h),
{
    match h {
        None => out.push(0),
        Some(x) => {
            out.push(1);
            out.push(x.0);
        },
    }
    assert(final(out)@ =~= old(out)@ + enc_opt_hash(h));
}

fn put_address(out: &mut Vec<u64>, a: Address)
    ensures
        final(out)@ == old(out)@ + enc_address(a),
{
    match a {
        Address::Account(c) => {
            out.push(0);
            out.push(c.0);
        },
        Address::Burn => out.push(1),
    }
    assert(final(out)@ =~= old(out)@ + enc_address(a));
}

fn put_opt_opid(out: &mut Vec<u64>, o: Option<OperationId>)
    ensures
        final(out)@ == old(out)@ + enc_opt_opid(o),
{
    match o {
        None => out.push(0),
        Some(i) => {
            out.push(1);
            out.push(i.chain_id.0);
            out.push(i.height);
            out.push(i.index);
        },
    }
    assert(final(out)@ =~= old(out)@ + enc_opt_opid(o));
}

fn put_owners(out: &mut Vec<u64>, xs: &Vec<Owner>)
    ensures
        final(out)@ == old(out)@ + enc_list(xs@, owner_enc()),
{
    let mut i: usize = 0;
    while i < xs.len()
        invariant
            i <= xs.len(),
            out@ == old(out)@ + enc_list(xs@.subrange(0, i as int), owner_enc()),
        decreases xs.len() - i,
    {
        assert(xs@.subrange(0, i + 1).drop_last() =~= xs@.subrange(0, i as int));
        out.push(xs[i].0);
        assert(out@ =~= old(out)@ + enc_list(xs@.subrange(0, i + 1), owner_enc()));
        i = i + 1;
    }
    assert(xs@.subrange(0, i as int) =~= xs@);
}

fn put_rights(out: &mut Vec<u64>, xs: &Vec<(ValidatorName, u64)>)
    ensures
        final(out)@ == old(out)@ + enc_list(xs@, right_enc()),
{
    let mut i: usize = 0;
    while i < xs.len()
        invariant
            i <= xs.len(),
            out@ == old(out)@ + enc_list(xs@.subrange(0, i as int), right_enc()),
        decreases xs.len() - i,
    {
        assert(xs@.subrange(0, i + 1).drop_last() =~= xs@.subrange(0, i as int));
        out.push(xs[i].0.0);
        out.push(xs[i].1);
        assert(out@ =~= old(out)@ + enc_list(xs@.subrange(0, i + 1), right_enc()));
        i = i + 1;
    }
    assert(xs@.subrange(0, i as int) =~= xs@);
}

fn put_messages(out: &mut Vec<u64>, xs: &Vec<MessageGroup>)
    ensures
        final(out)@ == old(out)@ + enc_list(xs@, message_enc()),
{
    let mut i: usize = 0;
    while i < xs.len()
        invariant
            i <= xs.len(),
            out@ == old(out)@ + enc_list(xs@.subrange(0, i as int), message_enc()),
        decreases xs.len() - i,
    {
        assert(xs@.subrange(0, i + 1).drop_last() =~= xs@.subrange(0, i as int));
        out.push(xs[i].sender.0);
        out.push(xs[i].height);
        out.push(xs[i].index);
        assert(out@ =~= old(out)@ + enc_list(xs@.subrange(0, i + 1), message_enc()));
        i = i + 1;
    }
    assert(xs@.subrange(0, i as int) =~= xs@);
}

fn put_signatures(out: &mut Vec<u64>, xs: &Vec<(ValidatorName, Signature)>)
    ensures
        final(out)@ == old(out)@ + enc_list(xs@, signature_enc()),
{
    let mut i: usize = 0;
    while i < xs.len()
        invariant
            i <= xs.len(),
            out@ == old(out)@ + enc_list(xs@.subrange(0, i as int), signature_enc()),
        decreases xs.len() - i,
    {
        assert(xs@.subrange(0, i + 1).drop_last() =~= xs@.subrange(0, i as int));
        out.push(xs[i].0.0);
        out.push(xs[i].1.0);
        assert(out@ =~= old(out)@ + enc_list(xs@.subrange(0, i + 1), signature_enc()));
        i = i + 1;
    }
    assert(xs@.subrange(0, i as int) =~= xs@);
}

fn put_committee(out: &mut Vec<u64>, c: &Committee)
    ensures
        final(out)@ == old(out)@ + enc_committee(c@),
{
    let rights = c.voting_rights();
    out.push(rights.len() as u64);
    put_rights(out, rights);
    put_opt_opid(out, c.admin_op());
    assert(final(out)@ =~= old(out)@ + enc_committee(c@));
}

fn put_committees(out: &mut Vec<u64>, xs: &Vec<Committee>)
    ensures
        final(out)@ == old(out)@ + enc_list(xs@.map_values(|c: Committee| c@), committee_enc()),
{
    let ghost vs = xs@.map_values(|c: Committee| c@);
    let mut i: usize = 0;
    while i < xs.len()
        invariant
            i <= xs.len(),
            vs == xs@.map_values(|c: Committee| c@),
            out@ == old(out)@ + enc_list(vs.subrange(0, i as int), committee_enc()),
        decreases xs.len() - i,
    {
        assert(vs.subrange(0, i + 1).drop_last() =~= vs.subrange(0, i as int));
        put_committee(out, &xs[i]);
        assert(out@ =~= old(out)@ + enc_list(vs.subrange(0, i + 1), committee_enc()));
        i = i + 1;
    }
    assert(vs.subrange(0, i as int) =~= vs);
}

fn put_op(out: &mut Vec<u64>, o: &Operation)
    ensures
        final(out)@ == old(out)@ + enc_op(o@),
{
    match o {
        Operation::Transfer { recipient, amount, user_data } => {
            out.push(0);
            put_address(out, *recipient);
            out.push(*amount);
            put_opt_hash(out, user_data.0);
        },
        Operation::ChangeOwner { new_owner } => {
            out.push(1);
            out.push(new_owner.0);
        },
        Operation::ChangeMultipleOwners { new_owners } => {
            out.push(2);
            out.push(new_owners.len() as u64);
            put_owners(out, new_owners);
        },
        Operation::OpenChain { id, owner, committees, admin_id } => {
            out.push(3);
            out.push(id.0);
            out.push(owner.0);
            out.push(admin_id.0);
            out.push(committees.len() as u64);
            put_committees(out, committees);
        },
        Operation::CloseChain => out.push(4),
        Operation::NewCommittee { admin_id, committee } => {
            out.push(5);
            out.push(admin_id.0);
            let rights = committee.voting_rights();
            out.push(rights.len() as u64);
            put_rights(out, rights);
            put_opt_opid(out, committee.admin_op());
        },
        Operation::SubscribeToNewCommittees { id, committees, admin_id } => {
            out.push(6);
            out.push(id.0);
            out.push(admin_id.0);
            out.push(committees.len() as u64);
            put_committees(out, committees);
        },
    }
    assert(final(out)@ =~= old(out)@ + enc_op(o@));
}

fn put_ops(out: &mut Vec<u64>, xs: &Vec<Operation>)
    ensures
        final(out)@ == old(out)@ + enc_list(xs@.map_values(|o: Operation| o@), op_enc()),
{
    let ghost vs = xs@.map_values(|o: Operation| o@);
    let mut i: usize = 0;
    while i < xs.len()
        invariant
            i <= xs.len(),
            vs == xs@.map_values(|o: Operation| o@),
            out@ == old(out)@ + enc_list(vs.subrange(0, i as int), op_enc()),
        decreases xs.len() - i,
    {
        assert(vs.subrange(0, i + 1).drop_last() =~= vs.subrange(0, i as int));
        put_op(out, &xs[i]);
        assert(out@ =~= old(out)@ + enc_list(vs.subrange(0, i + 1), op_enc()));
        i = i + 1;
    }
    assert(vs.subrange(0, i as int) =~= vs);
}

fn put_block(out: &mut Vec<u64>, b: &Block)
    ensures
        final(out)@ == old(out)@ + enc_block(b@),
{
    out.push(b.chain_id.0);
    out.push(b.height);
    put_opt_hash(out, b.previous_block_hash);
    out.push(b.incoming_messages.len() as u64);
    put_messages(out, &b.incoming_messages);
    out.push(b.operations.len() as u64);
    put_ops(out, &b.operations);
    assert(final(out)@ =~= old(out)@ + enc_block(b@));
}

/// The bytes of a certificate.
pub fn serialize(c: &Certificate) -> (r: Vec<u8>)
    ensures
        r@ == encode(c@),
{
    let mut ws: Vec<u64> = Vec::new();
    match &c.value {
        Value::ConfirmedBlock { block, state_hash } => {
            ws.push(0);
            put_block(&mut ws, block);
            ws.push(state_hash.0);
        },
        Value::ValidatedBlock { block, round, state_hash } => {
            ws.push(1);
            put_block(&mut ws, block);
            ws.push(*round);
            ws.push(state_hash.0);
        },
    }
    ws.push(c.signatures.len() as u64);
    put_signatures(&mut ws, &c.signatures);
    assert(ws@ =~= enc_cert(c@));
    words_to_bytes(&ws)
}


fn get_owners(s: &Vec<u64>, p: usize, n: u64) -> (r: Option<(Vec<Owner>, usize)>)
    requires
        p <= s@.len(),
    ensures
        match r {
            Some((v, q)) => dec_list(s@, p as int, n as nat, owner_dec()) == Some((v@, q as int)),
            None => dec_list(s@, p as int, n as nat, owner_dec()) is None,
        },
{
    let mut acc: Vec<Owner> = Vec::new();
    let mut pos: usize = p;
    let mut i: u64 = 0;
    while i < n
        invariant
            i <= n,
            pos <= s@.len(),
            dec_list(s@, p as int, i as nat, owner_dec()) == Some((acc@, pos as int)),
        decreases n - i,
    {
        if pos >= s.len() || s.len() - pos <= 0 {
            proof {
                assert(dec_list(s@, p as int, (i + 1) as nat, owner_dec()) is None);
                lemma_list_none(s@, p as int, (i + 1) as nat, n as nat, owner_dec());
            }
            return None;
        }
        acc.push(Owner(s[pos]));
            pos = pos + 1;
        i = i + 1;
    }
    Some((acc, pos))
}

fn get_rights(s: &Vec<u64>, p: usize, n: u64) -> (r: Option<(Vec<(ValidatorName, u64)>, usize)>)
    requires
        p <= s@.len(),
    ensures
        match r {
            Some((v, q)) => dec_list(s@, p as int, n as nat, right_dec()) == Some((v@, q as int)),
            None => dec_list(s@, p as int, n as nat, right_dec()) is None,
        },
{
    let mut acc: Vec<(ValidatorName, u64)> = Vec::new();
    let mut pos: usize = p;
    let mut i: u64 = 0;
    while i < n
        invariant
            i <= n,
            pos <= s@.len(),
            dec_list(s@, p as int, i as nat, right_dec()) == Some((acc@, pos as int)),
        decreases n - i,
    {
        if pos >= s.len() || s.len() - pos <= 1 {
            proof {
                assert(dec_list(s@, p as int, (i + 1) as nat, right_dec()) is None);
                lemma_list_none(s@, p as int, (i + 1) as nat, n as nat, right_dec());
            }
            return None;
        }
        acc.push((ValidatorName(s[pos]), s[pos + 1]));
            pos = pos + 2;
        i = i + 1;
    }
    Some((acc, pos))
}

fn get_messages(s: &Vec<u64>, p: usize, n: u64) -> (r: Option<(Vec<MessageGroup>, usize)>)
    requires
        p <= s@.len(),
    ensures
        match r {
            Some((v, q)) => dec_list(s@, p as int, n as nat, message_dec()) == Some((v@, q as int)),
            None => dec_list(s@, p as int, n as nat, message_dec()) is None,
        },
{
    let mut acc: Vec<MessageGroup> = Vec::new();
    let mut pos: usize = p;
    let mut i: u64 = 0;
    while i < n
        invariant
            i <= n,
            pos <= s@.len(),
            dec_list(s@, p as int, i as nat, message_dec()) == Some((acc@, pos as int)),
        decreases n - i,
    {
        if pos >= s.len() || s.len() - pos <= 2 {
            proof {
                assert(dec_list(s@, p as int, (i + 1) as nat, message_dec()) is None);
                lemma_list_none(s@, p as int, (i + 1) as nat, n as nat, message_dec());
            }
            return None;
        }
        acc.push(MessageGroup { sender: ChainId(s[pos]), height: s[pos + 1], index: s[pos + 2] });
            pos = pos + 3;
        i = i + 1;
    }
    Some((acc, pos))
}

fn get_signatures(s: &Vec<u64>, p: usize, n: u64) -> (r: Option<(Vec<(ValidatorName, Signature)>, usize)>)
    requires
        p <= s@.len(),
    ensures
        match r {
            Some((v, q)) => dec_list(s@, p as int, n as nat, signature_dec()) == Some((v@, q as int)),
            None => dec_list(s@, p as int, n as nat, signature_dec()) is None,
        },
{
    let mut acc: Vec<(ValidatorName, Signature)> = Vec::new();
    let mut pos: usize = p;
    let mut i: u64 = 0;
    while i < n
        invariant
            i <= n,
            pos <= s@.len(),
            dec_list(s@, p as int, i as nat, signature_dec()) == Some((acc@, pos as int)),
        decreases n - i,
    {
        if pos >= s.len() || s.len() - pos <= 1 {
            proof {
                assert(dec_list(s@, p as int, (i + 1) as nat, signature_dec()) is None);
                lemma_list_none(s@, p as int, (i + 1) as nat, n as nat, signature_dec());
            }
            return None;
        }
        acc.push((ValidatorName(s[pos]), Signature(s[pos + 1])));
            pos = pos + 2;
        i = i + 1;
    }
    Some((acc, pos))
}

fn get_opt_hash(s: &Vec<u64>, p: usize) -> (r: Option<(Option<HashValue>, usize)>)
    ensures
        match r {
            Some((v, q)) => dec_opt_hash(s@, p as int) == Some((v, q as int)) && q <= s@.len(),
            None => dec_opt_hash(s@, p as int) is None,
        },
{
    if p < s.len() && s[p] == 0 {
        Some((None, p + 1))
    } else if p < s.len() && s.len() - p > 1 && s[p] == 1 {
        Some((Some(HashValue(s[p + 1])), p + 2))
    } else {
        None
    }
}

fn get_address(s: &Vec<u64>, p: usize) -> (r: Option<(Address, usize)>)
    ensures
        match r {
            Some((v, q)) => dec_address(s@, p as int) == Some((v, q as int)) && q <= s@.len(),
            None => dec_address(s@, p as int) is None,
        },
{
    if p < s.len() && s.len() - p > 1 && s[p] == 0 {
        Some((Address::Account(ChainId(s[p + 1])), p + 2))
    } else if p < s.len() && s[p] == 1 {
        Some((Address::Burn, p + 1))
    } else {
        None
    }
}

fn get_opt_opid(s: &Vec<u64>, p: usize) -> (r: Option<(Option<OperationId>, usize)>)
    ensures
        match r {
            Some((v, q)) => dec_opt_opid(s@, p as int) == Some((v, q as int)) && q <= s@.len(),
            None => dec_opt_opid(s@, p as int) is None,
        },
{
    if p < s.len() && s[p] == 0 {
        Some((None, p + 1))
    } else if p < s.len() && s.len() - p > 3 && s[p] == 1 {
        Some((Some(OperationId { chain_id: ChainId(s[p + 1]), height: s[p + 2], index: s[p + 3] }), p + 4))
    } else {
        None
    }
}

fn get_committee(s: &Vec<u64>, p: usize) -> (r: Option<(Committee, usize)>)
    ensures
        match r {
            Some((v, q)) => dec_committee(s@, p as int) == Some((v@, q as int)) && q <= s@.len(),
            None => dec_committee(s@, p as int) is None,
        },
{
    if p >= s.len() {
        return None;
    }
    let (rights, q) = get_rights(s, p + 1, s[p])?;
    proof { lemma_list_pos(s@, p + 1, s@[p as int] as nat, right_dec()); }
    let (origin, q2) = get_opt_opid(s, q)?;
    if !valid_voting_rights(&rights) {
        return None;
    }
    Some((Committee::new(rights, origin), q2))
}

fn get_committees(s: &Vec<u64>, p: usize, n: u64) -> (r: Option<(Vec<Committee>, usize)>)
    requires
        p <= s@.len(),
    ensures
        match r {
            Some((v, q)) => dec_list(s@, p as int, n as nat, committee_dec()) == Some((v@.map_values(|c: Committee| c@), q as int)),
            None => dec_list(s@, p as int, n as nat, committee_dec()) is None,
        },
{
    let mut acc: Vec<Committee> = Vec::new();
    let mut pos: usize = p;
    let mut i: u64 = 0;
    while i < n
        invariant
            i <= n,
            pos <= s@.len(),
            dec_list(s@, p as int, i as nat, committee_dec()) == Some((acc@.map_values(|c: Committee| c@), pos as int)),
        decreases n - i,
    {
        match get_committee(s, pos) {
            None => {
                proof {
                    assert(dec_list(s@, p as int, (i + 1) as nat, committee_dec()) is None);
                    lemma_list_none(s@, p as int, (i + 1) as nat, n as nat, committee_dec());
                }
                return None;
            },
            Some((c, q)) => {
                let ghost before = acc@;
                acc.push(c);
                assert(acc@.map_values(|c: Committee| c@) =~= before.map_values(|c: Committee| c@).push(c@));
                pos = q;
            },
        }
        i = i + 1;
    }
    Some((acc, pos))
}

fn get_op(s: &Vec<u64>, p: usize) -> (r: Option<(Operation, usize)>)
    ensures
        match r {
            Some((v, q)) => dec_op(s@, p as int) == Some((v@, q as int)) && q <= s@.len(),
            None => dec_op(s@, p as int) is None,
        },
{
    if p >= s.len() {
        return None;
    }
    let tag = s[p];
    if tag == 0 {
        let (recipient, q) = get_address(s, p + 1)?;
        if q >= s.len() {
            return None;
        }
        let amount = s[q];
        let (u, q2) = get_opt_hash(s, q + 1)?;
        Some((Operation::Transfer { recipient, amount, user_data: UserData(u) }, q2))
    } else if tag == 1 {
        if s.len() - p <= 1 {
            return None;
        }
        Some((Operation::ChangeOwner { new_owner: Owner(s[p + 1]) }, p + 2))
    } else if tag == 2 {
        if s.len() - p <= 1 {
            return None;
        }
        let (new_owners, q) = get_owners(s, p + 2, s[p + 1])?;
        proof { lemma_list_pos(s@, p + 2, s@[p + 1] as nat, owner_dec()); }
        Some((Operation::ChangeMultipleOwners { new_owners }, q))
    } else if tag == 3 {
        if s.len() - p <= 4 {
            return None;
        }
        let (committees, q) = get_committees(s, p + 5, s[p + 4])?;
        proof { lemma_committees_pos(s@, p + 5, s@[p + 4] as nat); }
        Some((Operation::OpenChain { id: ChainId(s[p + 1]), owner: Owner(s[p + 2]), committees, admin_id: ChainId(s[p + 3]) }, q))
    } else if tag == 4 {
        Some((Operation::CloseChain, p + 1))
    } else if tag == 5 {
        if s.len() - p <= 2 {
            return None;
        }
        let (rights, q) = get_rights(s, p + 3, s[p + 2])?;
        proof { lemma_list_pos(s@, p + 3, s@[p + 2] as nat, right_dec()); }
        let (origin, q2) = get_opt_opid(s, q)?;
        if !valid_voting_rights(&rights) {
            return None;
        }
        let committee = Committee::new(rights, origin);
        Some((Operation::NewCommittee { admin_id: ChainId(s[p + 1]), committee }, q2))
    } else if tag == 6 {
        if s.len() - p <= 3 {
            return None;
        }
        let (committees, q) = get_committees(s, p + 4, s[p + 3])?;
        proof { lemma_committees_pos(s@, p + 4, s@[p + 3] as nat); }
        Some((Operation::SubscribeToNewCommittees { id: ChainId(s[p + 1]), committees, admin_id: ChainId(s[p + 2]) }, q))
    } else {
        None
    }
}


fn get_ops(s: &Vec<u64>, p: usize, n: u64) -> (r: Option<(Vec<Operation>, usize)>)
    requires
        p <= s@.len(),
    ensures
        match r {
            Some((v, q)) => dec_list(s@, p as int, n as nat, op_dec()) == Some((v@.map_values(|o: Operation| o@), q as int)),
            None => dec_list(s@, p as int, n as nat, op_dec()) is None,
        },
{
    let mut acc: Vec<Operation> = Vec::new();
    let mut pos: usize = p;
    let mut i: u64 = 0;
    while i < n
        invariant
            i <= n,
            pos <= s@.len(),
            dec_list(s@, p as int, i as nat, op_dec()) == Some((acc@.map_values(|o: Operation| o@), pos as int)),
        decreases n - i,
    {
        match get_op(s, pos) {
            None => {
                proof {
                    assert(dec_list(s@, p as int, (i + 1) as nat, op_dec()) is None);
                    lemma_list_none(s@, p as int, (i + 1) as nat, n as nat, op_dec());
                }
                return None;
            },
            Some((o, q)) => {
                let ghost before = acc@;
                acc.push(o);
                assert(acc@.map_values(|o: Operation| o@) =~= before.map_values(|o: Operation| o@).push(o@));
                pos = q;
            },
        }
        i = i + 1;
    }
    Some((acc, pos))
}

fn get_block(s: &Vec<u64>, p: usize) -> (r: Option<(Block, usize)>)
    ensures
        match r {
            Some((v, q)) => dec_block(s@, p as int) == Some((v@, q as int)) && q <= s@.len(),
            None => dec_block(s@, p as int) is None,
        },
{
    if p >= s.len() || s.len() - p <= 1 {
        return None;
    }
    let (previous_block_hash, q) = get_opt_hash(s, p + 2)?;
    if q >= s.len() {
        return None;
    }
    let (incoming_messages, q2) = get_messages(s, q + 1, s[q])?;
    proof { lemma_list_pos(s@, q + 1, s@[q as int] as nat, message_dec()); }
    if q2 >= s.len() {
        return None;
    }
    let (operations, q3) = get_ops(s, q2 + 1, s[q2])?;
    proof {
        assert forall|q: int| #![trigger op_dec()(s@, q)] (op_dec()(s@, q) is Some) implies q < op_dec()(s@, q).unwrap().1 <= s@.len() by {
            lemma_op_pos(s@, q);
        }
        lemma_list_pos(s@, q2 + 1, s@[q2 as int] as nat, op_dec());
    }
    Some((Block { chain_id: ChainId(s[p]), height: s[p + 1], previous_block_hash, incoming_messages, operations }, q3))
}

/// Reading an operation moves forward and stays within the words.
proof fn lemma_op_pos(s: Seq<u64>, p: int)
    ensures
        dec_op(s, p) matches Some((x, q)) ==> p < q <= s.len(),
{
    if 0 <= p < s.len() {
        if s[p] == 2 && p + 1 < s.len() {
            lemma_list_pos(s, p + 2, s[p + 1] as nat, owner_dec());
        }
        if s[p] == 5 && p + 2 < s.len() {
            lemma_list_pos(s, p + 3, s[p + 2] as nat, right_dec());
        }
        if s[p] == 3 && p + 4 < s.len() {
            lemma_committees_pos(s, p + 5, s[p + 4] as nat);
        }
        if s[p] == 6 && p + 3 < s.len() {
            lemma_committees_pos(s, p + 4, s[p + 3] as nat);
        }
    }
}

/// Reads back the certificate whose bytes are exactly `bytes`; `None` when
/// they are not the bytes of a certificate.
pub fn parse(bytes: &Vec<u8>) -> (r: Option<Certificate>)
    ensures
        match decode(bytes@) {
            Some(c) => r matches Some(x) && x@ == c,
            None => r is None,
        },
{
    let ws = bytes_to_words(bytes)?;
    if ws.len() == 0 {
        return None;
    }
    let tag = ws[0];
    let (value, q) = if tag == 0 {
        let (block, q) = get_block(&ws, 1)?;
        if q >= ws.len() {
            return None;
        }
        (Value::ConfirmedBlock { block, state_hash: HashValue(ws[q]) }, q + 1)
    } else if tag == 1 {
        let (block, q) = get_block(&ws, 1)?;
        if q >= ws.len() || ws.len() - q <= 1 {
            return None;
        }
        (Value::ValidatedBlock { block, round: ws[q], state_hash: HashValue(ws[q + 1]) }, q + 2)
    } else {
        return None;
    };
    assert(dec_value(ws@, 0) == Some((value@, q as int)));
    if q >= ws.len() {
        return None;
    }
    let (signatures, q2) = get_signatures(&ws, q + 1, ws[q])?;
    if q2 != ws.len() {
        return None;
    }
    Some(Certificate { value, signatures })
}

} // verus!

//! Tallying of validator answers, weighted by voting power, until one value
//! reaches a quorum or none can.

use vstd::prelude::*;
use crate::base::{HashValue, Signature, ValidatorName};
use crate::committee::{
    distinct_names, is_quorum_of, is_validity_of, sum_rights, weight_in, Committee,
};
use crate::error::NodeError;

verus! {

/// Sum of the voting power of the validators at the positions marked in `mask`,
/// among the first `n`.
pub open spec fn masked_sum(rights: Seq<(ValidatorName, u64)>, mask: Seq<bool>, n: int) -> nat
    decreases n,
{
    if n <= 0 {
        0
    } else {
        masked_sum(rights, mask, n - 1) + if mask[n - 1] { rights[n - 1].1 as nat } else { 0 }
    }
}

/// Sum of the voting power of the validators named in `names`.
pub open spec fn names_weight(rights: Seq<(ValidatorName, u64)>, names: Seq<ValidatorName>) -> nat
    decreases names.len(),
{
    if names.len() == 0 {
        0
    } else {
        names_weight(rights, names.drop_last()) + weight_in(rights, names.last())
    }
}

/// `name` is listed in `r`.
pub open spec fn listed(r: Seq<(ValidatorName, u64)>, name: ValidatorName) -> bool {
    exists|j: int| 0 <= j < r.len() && r[j].0 == name
}

/// One validator's answer, as counted in a group.
#[derive(Clone, Copy, Debug)]
pub struct Member {
    pub name: ValidatorName,
    pub index: usize,
    pub signature: Option<Signature>,
}

/// The names of `ms`, in order.
pub open spec fn member_names(ms: Seq<Member>) -> Seq<ValidatorName> {
    ms.map_values(|m: Member| m.name)
}

/// The answers that agree on one value: the state hash voted for, or `None`
/// for an answer that carries no vote.
#[derive(Clone, Debug)]
pub struct VoteGroup {
    pub key: Option<HashValue>,
    pub weight: u64,
    pub members: Vec<Member>,
}

/// Weight gathered by `key` in `gs`, zero when no group has it.
pub open spec fn key_weight_in(gs: Seq<VoteGroup>, key: Option<HashValue>) -> nat
    decreases gs.len(),
{
    if gs.len() == 0 {
        0
    } else if gs.last().key == key {
        gs.last().weight as nat
    } else {
        key_weight_in(gs.drop_last(), key)
    }
}

/// Largest weight of a group in `gs`.
pub open spec fn max_weight_in(gs: Seq<VoteGroup>) -> nat
    decreases gs.len(),
{
    if gs.len() == 0 {
        0
    } else {
        let m = max_weight_in(gs.drop_last());
        if gs.last().weight as nat > m { gs.last().weight as nat } else { m }
    }
}

/// Weight gathered by the error `e` in `es`.
pub open spec fn error_weight_in(es: Seq<(NodeError, u64)>, e: NodeError) -> nat
    decreases es.len(),
{
    if es.len() == 0 {
        0
    } else if es.last().0 == e {
        es.last().1 as nat
    } else {
        error_weight_in(es.drop_last(), e)
    }
}

/// The last listed error whose weight is more than a third of `total`.
pub open spec fn dominant_in(es: Seq<(NodeError, u64)>, total: nat) -> Option<NodeError>
    decreases es.len(),
{
    if es.len() == 0 {
        None
    } else if is_validity_of(es.last().1 as nat, total) {
        Some(es.last().0)
    } else {
        dominant_in(es.drop_last(), total)
    }
}

/// What a tally says after an answer.
#[derive(Clone, Copy, Debug, PartialEq, Eq, Structural)]
pub enum TallyOutcome {
    /// No decision yet: wait for more answers.
    Pending,
    /// This value gathered more than two thirds of the voting power.
    Reached(Option<HashValue>),
    /// No value can reach a quorum any more; the dominant error, if any.
    Impossible(Option<NodeError>),
}

/// The answer of one validator: a vote (state hash and signature), an answer
/// without a vote, or an error.
pub type Answer = Result<Option<(HashValue, Signature)>, NodeError>;

/// The value an answer counts for.
pub open spec fn answer_key(a: Answer) -> Option<HashValue> {
    match a {
        Ok(Some(v)) => Some(v.0),
        _ => None,
    }
}

/// Running tally of the answers of a committee.
#[derive(Clone, Debug)]
pub struct QuorumTally {
    committee: Committee,
    answered: Vec<bool>,
    answered_weight: u64,
    groups: Vec<VoteGroup>,
    errors: Vec<(NodeError, u64)>,
}

impl QuorumTally {
    /// The committee whose voting power counts.
    pub closed spec fn committee_spec(&self) -> Committee {
        self.committee
    }

    /// Which validators of the committee, by position, have answered.
    pub closed spec fn answered_mask(&self) -> Seq<bool> {
        self.answered@
    }

    /// The groups of agreeing answers.
    pub closed spec fn groups_spec(&self) -> Seq<VoteGroup> {
        self.groups@
    }

    /// The errors received, with their weight.
    pub closed spec fn errors_spec(&self) -> Seq<(NodeError, u64)> {
        self.errors@
    }

    /// Voting power of the validators that have answered.
    pub open spec fn answered_power(&self) -> nat {
        let r = self.committee_spec().rights();
        masked_sum(r, self.answered_mask(), r.len() as int)
    }

    /// Voting power still to answer.
    pub open spec fn outstanding(&self) -> int {
        self.committee_spec().total() - self.answered_power()
    }

    /// Weight gathered by a value.
    pub open spec fn key_weight(&self, key: Option<HashValue>) -> nat {
        key_weight_in(self.groups_spec(), key)
    }

    /// Weight gathered by an error.
    pub open spec fn error_weight(&self, e: NodeError) -> nat {
        error_weight_in(self.errors_spec(), e)
    }

    /// `key` holds a quorum.
    pub open spec fn reached(&self, key: Option<HashValue>) -> bool {
        is_quorum_of(self.key_weight(key), self.committee_spec().total())
    }

    /// Even if every missing answer joined the largest group, it would not
    /// hold a quorum.
    pub open spec fn impossible(&self) -> bool {
        !is_quorum_of(
            (self.outstanding() + max_weight_in(self.groups_spec())) as nat,
            self.committee_spec().total(),
        )
    }

    /// The error reported by more than a third of the voting power, if any.
    pub open spec fn dominant(&self) -> Option<NodeError> {
        dominant_in(self.errors_spec(), self.committee_spec().total())
    }

    /// Members of the group of `key`, if there is one.
    pub open spec fn group_of(&self, key: Option<HashValue>) -> Option<VoteGroup> {
        let gs = self.groups_spec();
        if exists|g: int| 0 <= g < gs.len() && gs[g].key == key {
            let g = choose|g: int| 0 <= g < gs.len() && gs[g].key == key;
            Some(gs[g])
        } else {
            None
        }
    }

    /// The signatures of the answers that voted for `key`, in order of arrival.
    pub open spec fn signatures_spec(&self, key: Option<HashValue>) -> Seq<(ValidatorName, Signature)> {
        match self.group_of(key) {
            Some(g) => g.members@.map_values(|m: Member| (m.name, m.signature.unwrap())),
            None => Seq::empty(),
        }
    }

    /// The names of the validators whose answers count for `key`.
    pub open spec fn members_spec(&self, key: Option<HashValue>) -> Seq<ValidatorName> {
        match self.group_of(key) {
            Some(g) => member_names(g.members@),
            None => Seq::empty(),
        }
    }

    /// Internal consistency of the tally.
    pub closed spec fn wf(&self) -> bool {
        let r = self.committee.rights();
        let n = r.len() as int;
        &&& self.committee.wf()
        &&& self.answered@.len() == r.len()
        &&& self.answered_weight as nat == masked_sum(r, self.answered@, n)
        &&& forall|g: int, h: int|
            0 <= g < h < self.groups@.len() ==> self.groups@[g].key != self.groups@[h].key
        &&& forall|g: int| 0 <= g < self.groups@.len() ==> self.group_ok(#[trigger] self.groups@[g])
        &&& forall|i: int, j: int|
            0 <= i < j < self.errors@.len() ==> self.errors@[i].0 != self.errors@[j].0
        &&& forall|i: int| 0 <= i < self.errors@.len() ==> (#[trigger] self.errors@[i]).1
            <= self.answered_weight
    }

    /// One group is consistent with the committee and the answered mask.
    pub closed spec fn group_ok(&self, g: VoteGroup) -> bool {
        let r = self.committee.rights();
        let ms = g.members@;
        &&& g.weight as nat == names_weight(r, member_names(ms))
        &&& g.weight <= self.answered_weight
        &&& forall|m: int| 0 <= m < ms.len() ==> {
            &&& (#[trigger] ms[m]).index < r.len()
            &&& r[ms[m].index as int].0 == ms[m].name
            &&& self.answered@[ms[m].index as int]
            &&& (ms[m].signature is Some) == (g.key is Some)
        }
        &&& forall|a: int, b: int| 0 <= a < b < ms.len() ==> ms[a].name != ms[b].name
    }

    /// A tally that has heard nobody yet.
    pub fn new(committee: Committee) -> (r: QuorumTally)
        requires
            committee.wf(),
        ensures
            r.wf(),
            r.committee_spec() == committee,
            r.answered_power() == 0,
            forall|k: Option<HashValue>| r.key_weight(k) == 0,
            forall|e: NodeError| r.error_weight(e) == 0,
    {
        let n = committee.voting_rights().len();
        let mut answered: Vec<bool> = Vec::new();
        let mut i: usize = 0;
        while i < n
            invariant
                i <= n,
                answered@.len() == i,
                forall|j: int| 0 <= j < i ==> !answered@[j],
            decreases n - i,
        {
            answered.push(false);
            i = i + 1;
        }
        let r = QuorumTally {
            committee,
            answered,
            answered_weight: 0,
            groups: Vec::new(),
            errors: Vec::new(),
        };
        proof {
            lemma_masked_none(r.committee.rights(), r.answered@, n as int);
        }
        r
    }

    /// The committee whose voting power counts.
    pub fn committee(&self) -> (r: &Committee)
        ensures
            *r == self.committee_spec(),
    {
        &self.committee
    }

    /// Position of `name` in the committee.
    fn index_of(&self, name: ValidatorName) -> (r: Option<usize>)
        requires
            self.wf(),
        ensures
            match r {
                Some(i) => i < self.committee.rights().len() && self.committee.rights()[i as int].0
                    == name,
                None => forall|j: int|
                    0 <= j < self.committee.rights().len() ==> self.committee.rights()[j].0
                        != name,
            },
    {
        let rights = self.committee.voting_rights();
        let mut i: usize = 0;
        while i < rights.len()
            invariant
                i <= rights.len(),
                rights@ == self.committee.rights(),
                forall|j: int| 0 <= j < i ==> rights@[j].0 != name,
            decreases rights.len() - i,
        {
            if rights[i].0 == name {
                return Some(i);
            }
            i = i + 1;
        }
        None
    }

    fn find_group(&self, key: Option<HashValue>) -> (r: Option<usize>)
        ensures
            match r {
                Some(g) => g < self.groups@.len() && self.groups@[g as int].key == key,
                None => forall|g: int| 0 <= g < self.groups@.len() ==> self.groups@[g].key != key,
            },
    {
        let mut g: usize = 0;
        while g < self.groups.len()
            invariant
                g <= self.groups.len(),
                forall|h: int| 0 <= h < g ==> self.groups@[h].key != key,
            decreases self.groups.len() - g,
        {
            if self.groups[g].key == key {
                return Some(g);
            }
            g = g + 1;
        }
        None
    }

    fn find_error(&self, e: NodeError) -> (r: Option<usize>)
        ensures
            match r {
                Some(j) => j < self.errors@.len() && self.errors@[j as int].0 == e,
                None => forall|j: int| 0 <= j < self.errors@.len() ==> self.errors@[j].0 != e,
            },
    {
        let mut j: usize = 0;
        while j < self.errors.len()
            invariant
                j <= self.errors.len(),
                forall|h: int| 0 <= h < j ==> self.errors@[h].0 != e,
            decreases self.errors.len() - j,
        {
            if self.errors[j].0 == e {
                return Some(j);
            }
            j = j + 1;
        }
        None
    }

    /// Whether no value can reach a quorum any more.
    pub fn is_impossible(&self) -> (r: bool)
        requires
            self.wf(),
        ensures
            r == self.impossible(),
    {
        let mut m: u64 = 0;
        let mut g: usize = 0;
        while g < self.groups.len()
            invariant
                g <= self.groups.len(),
                m as nat == max_weight_in(self.groups@.subrange(0, g as int)),
            decreases self.groups.len() - g,
        {
            assert(self.groups@.subrange(0, g + 1).drop_last() =~= self.groups@.subrange(0, g as int));
            if self.groups[g].weight > m {
                m = self.groups[g].weight;
            }
            g = g + 1;
        }
        assert(self.groups@.subrange(0, g as int) =~= self.groups@);
        let ghost r = self.committee.rights();
        proof {
            lemma_masked_le_total(r, self.answered@, r.len() as int);
            assert(r.subrange(0, r.len() as int) =~= r);
        }
        let total = self.committee.total_votes();
        let outstanding = total - self.answered_weight;
        !(3 * (outstanding as u128 + m as u128) > 2 * (total as u128))
    }

    /// The outcome once no more answers will come: the value that holds a
    /// quorum, if one does, else `Impossible` with the dominant error.
    pub fn close(&self) -> (r: TallyOutcome)
        requires
            self.wf(),
        ensures
            r !is Pending,
            r matches TallyOutcome::Reached(k) ==> self.reached(k),
            r matches TallyOutcome::Impossible(d) ==> d == self.dominant()
                && forall|k: Option<HashValue>| !#[trigger] self.reached(k),
    {
        let total = self.committee.total_votes();
        let mut g: usize = 0;
        while g < self.groups.len()
            invariant
                g <= self.groups.len(),
                total as nat == self.committee_spec().total(),
                self.wf(),
                forall|h: int| 0 <= h < g ==> !is_quorum_of(self.groups@[h].weight as nat, total as nat),
            decreases self.groups.len() - g,
        {
            if 3 * (self.groups[g].weight as u128) > 2 * (total as u128) {
                proof { lemma_key_weight_at(self.groups@, g as int); }
                return TallyOutcome::Reached(self.groups[g].key);
            }
            g = g + 1;
        }
        proof {
            assert forall|k: Option<HashValue>| !#[trigger] self.reached(k) by {
                if exists|h: int| 0 <= h < self.groups@.len() && self.groups@[h].key == k {
                    let h = choose|h: int| 0 <= h < self.groups@.len() && self.groups@[h].key == k;
                    lemma_key_weight_at(self.groups@, h);
                } else {
                    lemma_key_weight_absent(self.groups@, k);
                }
            }
        }
        TallyOutcome::Impossible(self.find_dominant())
    }

    /// The error reported by more than a third of the voting power, if any.
    pub fn find_dominant(&self) -> (r: Option<NodeError>)
        requires
            self.wf(),
        ensures
            r == self.dominant(),
    {
        let total = self.committee.total_votes();
        let mut j: usize = self.errors.len();
        assert(self.errors@.subrange(0, j as int) =~= self.errors@);
        while j > 0
            invariant
                j <= self.errors.len(),
                self.dominant() == dominant_in(self.errors@.subrange(0, j as int), total as nat),
                total as nat == self.committee_spec().total(),
            decreases j,
        {
            assert(self.errors@.subrange(0, j as int).drop_last() =~= self.errors@.subrange(0, j - 1));
            if 3 * (self.errors[j - 1].1 as u128) > total as u128 {
                return Some(self.errors[j - 1].0);
            }
            j = j - 1;
        }
        None
    }

    /// The signatures gathered for `key`.
    pub fn signatures(&self, key: Option<HashValue>) -> (r: Vec<(ValidatorName, Signature)>)
        requires
            self.wf(),
            key is Some,
        ensures
            r@ == self.signatures_spec(key),
    {
        let mut r: Vec<(ValidatorName, Signature)> = Vec::new();
        match self.find_group(key) {
            None => {
                proof { self.lemma_group_of_none(key); }
                r
            },
            Some(g) => {
                proof { self.lemma_group_of_some(key, g as int); }
                let ms = &self.groups[g].members;
                let ghost gr = self.groups@[g as int];
                proof { assert(self.group_ok(gr)); }
                let mut k: usize = 0;
                while k < ms.len()
                    invariant
                        k <= ms.len(),
                        ms@ == gr.members@,
                        gr.key is Some,
                        self.group_ok(gr),
                        r@ =~= gr.members@.subrange(0, k as int).map_values(|m: Member| (m.name, m.signature.unwrap())),
                    decreases ms.len() - k,
                {
                    let m = ms[k];
                    assert(m.signature is Some);
                    let sig = match m.signature { Some(x) => x, None => Signature(0) };
                    r.push((m.name, sig));
                    k = k + 1;
                }
                assert(gr.members@.subrange(0, k as int) =~= gr.members@);
                r
            },
        }
    }

    /// The validators whose answers count for `key`.
    pub fn members(&self, key: Option<HashValue>) -> (r: Vec<ValidatorName>)
        requires
            self.wf(),
        ensures
            r@ == self.members_spec(key),
    {
        let mut r: Vec<ValidatorName> = Vec::new();
        match self.find_group(key) {
            None => {
                proof { self.lemma_group_of_none(key); }
                r
            },
            Some(g) => {
                proof { self.lemma_group_of_some(key, g as int); }
                let ms = &self.groups[g].members;
                let mut k: usize = 0;
                while k < ms.len()
                    invariant
                        k <= ms.len(),
                        r@ =~= member_names(ms@.subrange(0, k as int)),
                    decreases ms.len() - k,
                {
                    r.push(ms[k].name);
                    k = k + 1;
                }
                assert(ms@.subrange(0, k as int) =~= ms@);
                r
            },
        }
    }

    proof fn lemma_group_of_none(&self, key: Option<HashValue>)
        requires
            forall|g: int| 0 <= g < self.groups@.len() ==> self.groups@[g].key != key,
        ensures
            self.group_of(key) is None,
    {
    }

    proof fn lemma_group_of_some(&self, key: Option<HashValue>, g: int)
        requires
            self.wf(),
            0 <= g < self.groups@.len(),
            self.groups@[g].key == key,
        ensures
            self.group_of(key) == Some(self.groups@[g]),
    {
        let h = choose|h: int| 0 <= h < self.groups@.len() && self.groups@[h].key == key;
        assert(h == g);
    }

    /// Quorum soundness: once `key` holds a quorum, the validators that signed
    /// for it are distinct members of the committee and together hold
    /// strictly more than two thirds of its voting power.
    pub proof fn lemma_quorum_soundness(&self, key: Option<HashValue>)
        requires
            self.wf(),
            self.reached(key),
        ensures
            ({
                let r = self.committee_spec().rights();
                let ns = self.members_spec(key);
                &&& forall|a: int, b: int| 0 <= a < b < ns.len() ==> ns[a] != ns[b]
                &&& forall|a: int| 0 <= a < ns.len() ==> #[trigger] listed(r, ns[a])
                &&& is_quorum_of(names_weight(r, ns), self.committee_spec().total())
                &&& key is Some ==> self.signatures_spec(key).map_values(|s: (ValidatorName, Signature)| s.0) == ns
            }),
    {
        if exists|g: int| 0 <= g < self.groups@.len() && self.groups@[g].key == key {
            let g = choose|g: int| 0 <= g < self.groups@.len() && self.groups@[g].key == key;
            self.lemma_group_of_some(key, g);
            lemma_key_weight_at(self.groups@, g);
            let gr = self.groups@[g];
            assert(self.group_ok(gr));
            let r = self.committee.rights();
            let ns = member_names(gr.members@);
            assert forall|a: int| 0 <= a < ns.len() implies #[trigger] listed(r, ns[a]) by {
                assert(r[gr.members@[a].index as int].0 == ns[a]);
            }
            assert(self.signatures_spec(key).map_values(|s: (ValidatorName, Signature)| s.0) =~= ns);
        } else {
            lemma_key_weight_absent(self.groups@, key);
        }
    }

    /// Counts the answer of `name`. An answer from outside the committee, or a
    /// second answer of the same validator, changes nothing and leaves the
    /// tally pending. Otherwise the answer adds the validator's voting power
    /// to its value or to its error, and the outcome is `Reached` when its
    /// value now holds a quorum, `Impossible` when no value can reach one any
    /// more, and `Pending` in between.
    pub fn add_answer(&mut self, name: ValidatorName, answer: Answer) -> (out: TallyOutcome)
        requires
            old(self).wf(),
        ensures
            final(self).wf(),
            final(self).committee_spec() == old(self).committee_spec(),
            ({
                let r = old(self).committee_spec().rights();
                let w = old(self).committee_spec().weight_of(name);
                let counted = exists|i: int|
                    0 <= i < r.len() && r[i].0 == name && !old(self).answered_mask()[i];
                if counted {
                    &&& final(self).answered_power() == old(self).answered_power() + w
                    &&& forall|k: Option<HashValue>| #[trigger] final(self).key_weight(k)
                        == old(self).key_weight(k) + if answer is Ok && answer_key(answer) == k {
                        w
                    } else {
                        0
                    }
                    &&& forall|e: NodeError| #[trigger] final(self).error_weight(e)
                        == old(self).error_weight(e) + if answer == Err::<Option<(HashValue, Signature)>, NodeError>(e) {
                        w
                    } else {
                        0
                    }
                    &&& out == if answer is Ok && final(self).reached(answer_key(answer)) {
                        TallyOutcome::Reached(answer_key(answer))
                    } else if final(self).impossible() {
                        TallyOutcome::Impossible(final(self).dominant())
                    } else {
                        TallyOutcome::Pending
                    }
                } else {
                    &&& *final(self) == *old(self)
                    &&& out == TallyOutcome::Pending
                }
            }),
    {
        proof { self.committee.lemma_wf(); }
        let idx = self.index_of(name);
        let i = match idx {
            None => { return TallyOutcome::Pending; },
            Some(i) => i,
        };
        if self.answered[i] {
            proof {
                assert forall|j: int| 0 <= j < self.committee.rights().len() && self.committee.rights()[j].0 == name
                    implies self.answered@[j] by {
                    if j != i { assert(distinct_names(self.committee.rights())); }
                }
            }
            return TallyOutcome::Pending;
        }
        let ghost before = *self;
        let ghost r = self.committee.rights();
        let w = self.committee.voting_rights()[i].1;
        proof {
            lemma_weight_at(r, i as int, name);
            lemma_masked_set(r, self.answered@, i as int, r.len() as int);
            lemma_masked_le_total(r, self.answered@.update(i as int, true), r.len() as int);
            assert(r.subrange(0, r.len() as int) =~= r);
        }
        self.answered.set(i, true);
        self.answered_weight = self.answered_weight + w;
        proof {
            assert forall|g: int| 0 <= g < self.groups@.len() implies self.group_ok(#[trigger] self.groups@[g]) by {
                assert(before.group_ok(before.groups@[g]));
            }
        }
        let member = Member { name, index: i, signature: match answer { Ok(Some(v)) => Some(v.1), _ => None } };
        let mut reached = false;
        match answer {
            Ok(v) => {
                let key = match v { Some(x) => Some(x.0), None => None };
                let found = self.find_group(key);
                match found {
                    Some(g) => {
                        let ghost old_g = self.groups@[g as int];
                        proof { assert(self.group_ok(old_g)); }
                        let grp = &mut self.groups[g];
                        grp.members.push(member);
                        grp.weight = grp.weight + w;
                        proof {
                            let ng = self.groups@[g as int];
                            assert(member_names(ng.members@) =~= member_names(old_g.members@).push(name));
                            assert(member_names(ng.members@).drop_last() =~= member_names(old_g.members@));
                            assert(self.group_ok(ng)) by {
                                assert forall|a: int, b: int| 0 <= a < b < ng.members@.len()
                                    implies ng.members@[a].name != ng.members@[b].name by {
                                    if b == ng.members@.len() - 1 {
                                        let ma = old_g.members@[a];
                                        assert(self.answered@[ma.index as int]);
                                        assert(before.answered@[ma.index as int]);
                                        assert(ma.index != i);
                                    } else {
                                        assert(ng.members@[a] == old_g.members@[a]);
                                        assert(ng.members@[b] == old_g.members@[b]);
                                    }
                                }
                                assert forall|m: int| 0 <= m < ng.members@.len() implies {
                                    &&& (#[trigger] ng.members@[m]).index < r.len()
                                    &&& r[ng.members@[m].index as int].0 == ng.members@[m].name
                                    &&& self.answered@[ng.members@[m].index as int]
                                    &&& (ng.members@[m].signature is Some) == (ng.key is Some)
                                } by {
                                    if m < ng.members@.len() - 1 {
                                        assert(ng.members@[m] == old_g.members@[m]);
                                    }
                                }
                            }
                            assert forall|h: int| 0 <= h < self.groups@.len() implies self.group_ok(#[trigger] self.groups@[h]) by {
                                if h != g {
                                    assert(self.groups@[h] == before.groups@[h]);
                                }
                            }
                            assert(self.groups@ == before.groups@.update(g as int, ng));
                            assert forall|k: Option<HashValue>| #[trigger] self.key_weight(k)
                                == before.key_weight(k) + if k == key { w as nat } else { 0 } by {
                                lemma_key_weight_update(before.groups@, g as int, ng, k);
                                lemma_key_weight_at(before.groups@, g as int);
                            }
                        }
                        reached = 3 * (self.groups[g].weight as u128) > 2 * (self.committee.total_votes() as u128);
                        proof { lemma_key_weight_at(self.groups@, g as int); }
                    },
                    None => {
                        let mut members: Vec<Member> = Vec::new();
                        members.push(member);
                        let ng = VoteGroup { key, weight: w, members };
                        proof {
                            assert(member_names(ng.members@) =~= seq![name]);
                            assert(member_names(ng.members@).drop_last() =~= Seq::<ValidatorName>::empty());
                            assert(names_weight(r, Seq::<ValidatorName>::empty()) == 0);
                            assert(member_names(ng.members@).last() == name);
                            assert(names_weight(r, member_names(ng.members@)) == w);
                            assert(ng.members@[0] == member);
                            assert(self.answered@[i as int]);
                            assert((member.signature is Some) == (key is Some));
                            assert(self.group_ok(ng));
                        }
                        self.groups.push(ng);
                        proof {
                            assert(self.groups@.drop_last() =~= before.groups@);
                            assert forall|h: int| 0 <= h < self.groups@.len() implies self.group_ok(#[trigger] self.groups@[h]) by {
                                if h < before.groups@.len() {
                                    assert(self.groups@[h] == before.groups@[h]);
                                }
                            }
                            assert forall|k: Option<HashValue>| #[trigger] self.key_weight(k)
                                == before.key_weight(k) + if k == key { w as nat } else { 0 } by {
                                lemma_key_weight_absent(before.groups@, key);
                            }
                        }
                        reached = 3 * (w as u128) > 2 * (self.committee.total_votes() as u128);
                    },
                }
            },
            Err(e) => {
                let found = self.find_error(e);
                match found {
                    Some(j) => {
                        let ghost old_es = self.errors@;
                        proof { lemma_error_weight_at(old_es, j as int); }
                        let nw = self.errors[j].1 + w;
                        self.errors.set(j, (e, nw));
                        proof {
                            assert forall|f: NodeError| #[trigger] self.error_weight(f)
                                == before.error_weight(f) + if f == e { w as nat } else { 0 } by {
                                lemma_error_weight_update(old_es, j as int, (e, nw), f);
                            }
                        }
                    },
                    None => {
                        self.errors.push((e, w));
                        proof {
                            assert(self.errors@.drop_last() =~= before.errors@);
                            assert forall|f: NodeError| #[trigger] self.error_weight(f)
                                == before.error_weight(f) + if f == e { w as nat } else { 0 } by {
                                lemma_error_weight_absent(before.errors@, e);
                            }
                        }
                    },
                }
                proof {
                    assert forall|g: int| 0 <= g < self.groups@.len() implies self.group_ok(#[trigger] self.groups@[g]) by {
                        assert(self.groups@[g] == before.groups@[g]);
                    }
                }
            },
        }
        if reached {
            return TallyOutcome::Reached(match answer { Ok(Some(v)) => Some(v.0), _ => None });
        }
        if self.is_impossible() {
            TallyOutcome::Impossible(self.find_dominant())
        } else {
            TallyOutcome::Pending
        }
    }
}

/// In a committee with distinct names, the weight of a listed validator is
/// the one listed.
pub proof fn lemma_weight_at(r: Seq<(ValidatorName, u64)>, i: int, name: ValidatorName)
    requires
        distinct_names(r),
        0 <= i < r.len(),
        r[i].0 == name,
    ensures
        weight_in(r, name) == r[i].1,
    decreases r.len(),
{
    if i < r.len() - 1 {
        lemma_weight_at(r.drop_last(), i, name);
    }
}

/// Marking one more position adds its voting power.
pub proof fn lemma_masked_set(r: Seq<(ValidatorName, u64)>, m: Seq<bool>, i: int, n: int)
    requires
        0 <= i < n <= m.len(),
        !m[i],
    ensures
        masked_sum(r, m.update(i, true), n) == masked_sum(r, m, n) + r[i].1,
    decreases n,
{
    if n - 1 > i {
        lemma_masked_set(r, m, i, n - 1);
    } else {
        lemma_masked_same(r, m, m.update(i, true), i);
    }
}

/// Masks that agree below `n` give the same sum.
pub proof fn lemma_masked_same(r: Seq<(ValidatorName, u64)>, m: Seq<bool>, m2: Seq<bool>, n: int)
    requires
        n <= m.len(),
        n <= m2.len(),
        forall|j: int| 0 <= j < n ==> m[j] == m2[j],
    ensures
        masked_sum(r, m, n) == masked_sum(r, m2, n),
    decreases n,
{
    if n > 0 {
        lemma_masked_same(r, m, m2, n - 1);
    }
}

/// With distinct keys, the weight of a key is that of its group.
pub proof fn lemma_key_weight_at(gs: Seq<VoteGroup>, g: int)
    requires
        0 <= g < gs.len(),
        forall|a: int, b: int| 0 <= a < b < gs.len() ==> gs[a].key != gs[b].key,
    ensures
        key_weight_in(gs, gs[g].key) == gs[g].weight,
    decreases gs.len(),
{
    if g < gs.len() - 1 {
        lemma_key_weight_at(gs.drop_last(), g);
    }
}

/// A key that no group has weighs nothing.
pub proof fn lemma_key_weight_absent(gs: Seq<VoteGroup>, key: Option<HashValue>)
    requires
        forall|g: int| 0 <= g < gs.len() ==> gs[g].key != key,
    ensures
        key_weight_in(gs, key) == 0,
    decreases gs.len(),
{
    if gs.len() > 0 {
        lemma_key_weight_absent(gs.drop_last(), key);
    }
}

/// Replacing a group by one with the same key changes the weight of that key only.
pub proof fn lemma_key_weight_update(gs: Seq<VoteGroup>, g: int, x: VoteGroup, k: Option<HashValue>)
    requires
        0 <= g < gs.len(),
        x.key == gs[g].key,
        forall|a: int, b: int| 0 <= a < b < gs.len() ==> gs[a].key != gs[b].key,
    ensures
        key_weight_in(gs.update(g, x), k) == if k == x.key { x.weight as nat } else { key_weight_in(gs, k) },
{
    let gs2 = gs.update(g, x);
    if k == x.key {
        lemma_key_weight_at(gs2, g);
    } else if exists|h: int| 0 <= h < gs.len() && gs[h].key == k {
        let h = choose|h: int| 0 <= h < gs.len() && gs[h].key == k;
        lemma_key_weight_at(gs, h);
        lemma_key_weight_at(gs2, h);
    } else {
        lemma_key_weight_absent(gs, k);
        lemma_key_weight_absent(gs2, k);
    }
}

/// With distinct errors, the weight of an error is the one listed.
pub proof fn lemma_error_weight_at(es: Seq<(NodeError, u64)>, j: int)
    requires
        0 <= j < es.len(),
        forall|a: int, b: int| 0 <= a < b < es.len() ==> es[a].0 != es[b].0,
    ensures
        error_weight_in(es, es[j].0) == es[j].1,
    decreases es.len(),
{
    if j < es.len() - 1 {
        lemma_error_weight_at(es.drop_last(), j);
    }
}

/// An error that is not listed weighs nothing.
pub proof fn lemma_error_weight_absent(es: Seq<(NodeError, u64)>, e: NodeError)
    requires
        forall|j: int| 0 <= j < es.len() ==> es[j].0 != e,
    ensures
        error_weight_in(es, e) == 0,
    decreases es.len(),
{
    if es.len() > 0 {
        lemma_error_weight_absent(es.drop_last(), e);
    }
}

/// Replacing an entry by one for the same error changes that error's weight only.
pub proof fn lemma_error_weight_update(es: Seq<(NodeError, u64)>, j: int, x: (NodeError, u64), f: NodeError)
    requires
        0 <= j < es.len(),
        x.0 == es[j].0,
        forall|a: int, b: int| 0 <= a < b < es.len() ==> es[a].0 != es[b].0,
    ensures
        error_weight_in(es.update(j, x), f) == if f == x.0 { x.1 as nat } else { error_weight_in(es, f) },
{
    let es2 = es.update(j, x);
    if f == x.0 {
        lemma_error_weight_at(es2, j);
    } else if exists|h: int| 0 <= h < es.len() && es[h].0 == f {
        let h = choose|h: int| 0 <= h < es.len() && es[h].0 == f;
        lemma_error_weight_at(es, h);
        lemma_error_weight_at(es2, h);
    } else {
        lemma_error_weight_absent(es, f);
        lemma_error_weight_absent(es2, f);
    }
}

/// With nothing marked, the masked sum is zero.
pub proof fn lemma_masked_none(r: Seq<(ValidatorName, u64)>, m: Seq<bool>, n: int)
    requires
        n <= m.len(),
        forall|j: int| 0 <= j < n ==> !m[j],
    ensures
        masked_sum(r, m, n) == 0,
    decreases n,
{
    if n > 0 {
        lemma_masked_none(r, m, n - 1);
    }
}

/// A masked sum is no more than the whole sum.
pub proof fn lemma_masked_le_total(r: Seq<(ValidatorName, u64)>, m: Seq<bool>, n: int)
    requires
        0 <= n <= r.len(),
    ensures
        masked_sum(r, m, n) <= sum_rights(r.subrange(0, n)),
    decreases n,
{
    if n > 0 {
        lemma_masked_le_total(r, m, n - 1);
        assert(r.subrange(0, n).drop_last() =~= r.subrange(0, n - 1));
    }
}

} // verus!

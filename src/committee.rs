//! Committees of validators and their voting thresholds.

use vstd::prelude::*;
use crate::base::{OperationId, ValidatorName};
use crate::quorum::lemma_weight_at;

verus! {

/// Sum of the voting powers listed in `s`.
pub open spec fn sum_rights(s: Seq<(ValidatorName, u64)>) -> nat
    decreases s.len(),
{
    if s.len() == 0 {
        0
    } else {
        sum_rights(s.drop_last()) + s.last().1 as nat
    }
}

/// Voting power of `name` in `s`, zero when it is not listed.
pub open spec fn weight_in(s: Seq<(ValidatorName, u64)>, name: ValidatorName) -> nat
    decreases s.len(),
{
    if s.len() == 0 {
        0
    } else if s.last().0 == name {
        s.last().1 as nat
    } else {
        weight_in(s.drop_last(), name)
    }
}

/// The voting rights as a map from validator to voting power.
pub open spec fn rights_map(s: Seq<(ValidatorName, u64)>) -> Map<ValidatorName, nat> {
    Map::new(|n: ValidatorName| exists|i: int| 0 <= i < s.len() && s[i].0 == n, |n: ValidatorName| weight_in(s, n))
}

/// Every validator of `a` is in `b` with the same voting power.
pub open spec fn map_within(a: Map<ValidatorName, nat>, b: Map<ValidatorName, nat>) -> bool {
    forall|n: ValidatorName| #[trigger] a.dom().contains(n) ==> b.dom().contains(n) && a[n] == b[n]
}

/// No validator is listed twice.
pub open spec fn distinct_names(s: Seq<(ValidatorName, u64)>) -> bool {
    forall|i: int, j: int| 0 <= i < j < s.len() ==> s[i].0 != s[j].0
}

/// `w` is strictly more than two thirds of `total`.
pub open spec fn is_quorum_of(w: nat, total: nat) -> bool {
    3 * w > 2 * total
}

/// `w` is strictly more than one third of `total`.
pub open spec fn is_validity_of(w: nat, total: nat) -> bool {
    3 * w > total
}

/// Mathematical value of a [`Committee`].
pub struct CommitteeView {
    pub rights: Seq<(ValidatorName, u64)>,
    pub origin: Option<OperationId>,
}

/// A committee: the voting power of each validator, and the operation of the
/// admin chain that created it, if any.
#[derive(Clone, Debug)]
pub struct Committee {
    voting_rights: Vec<(ValidatorName, u64)>,
    total_votes: u64,
    admin_op: Option<OperationId>,
}

impl View for Committee {
    type V = CommitteeView;

    open spec fn view(&self) -> CommitteeView {
        CommitteeView { rights: self.rights(), origin: self.origin() }
    }
}

impl Committee {
    /// The listed voting rights.
    pub closed spec fn rights(&self) -> Seq<(ValidatorName, u64)> {
        self.voting_rights@
    }

    /// The operation that created this committee.
    pub closed spec fn origin(&self) -> Option<OperationId> {
        self.admin_op
    }

    /// Names are distinct and the total fits in a `u64`.
    pub closed spec fn wf(&self) -> bool {
        &&& distinct_names(self.voting_rights@)
        &&& self.total_votes as nat == sum_rights(self.voting_rights@)
    }

    /// Total voting power of the committee.
    pub open spec fn total(&self) -> nat {
        sum_rights(self.rights())
    }

    /// Voting power of one validator.
    pub open spec fn weight_of(&self, name: ValidatorName) -> nat {
        weight_in(self.rights(), name)
    }

    /// What well-formedness gives to callers.
    pub proof fn lemma_wf(&self)
        requires
            self.wf(),
        ensures
            distinct_names(self.rights()),
            self.total() <= u64::MAX,
    {
    }

    /// Builds a committee from distinct validators and their voting power.
    pub fn new(voting_rights: Vec<(ValidatorName, u64)>, admin_op: Option<OperationId>) -> (r: Committee)
        requires
            distinct_names(voting_rights@),
            sum_rights(voting_rights@) <= u64::MAX,
        ensures
            r.wf(),
            r.rights() == voting_rights@,
            r.origin() == admin_op,
    {
        let mut total: u64 = 0;
        let mut i: usize = 0;
        while i < voting_rights.len()
            invariant
                i <= voting_rights.len(),
                total as nat == sum_rights(voting_rights@.subrange(0, i as int)),
                sum_rights(voting_rights@) <= u64::MAX,
            decreases voting_rights.len() - i,
        {
            proof {
                let s = voting_rights@;
                assert(s.subrange(0, i + 1).drop_last() =~= s.subrange(0, i as int));
                lemma_sum_prefix_le(s, i + 1);
            }
            total = total + voting_rights[i].1;
            i = i + 1;
        }
        assert(voting_rights@.subrange(0, i as int) =~= voting_rights@);
        Committee { voting_rights, total_votes: total, admin_op }
    }

    /// The listed voting rights, in order.
    pub fn voting_rights(&self) -> (r: &Vec<(ValidatorName, u64)>)
        ensures
            r@ == self.rights(),
    {
        &self.voting_rights
    }

    /// The operation of the admin chain that created this committee.
    pub fn admin_op(&self) -> (r: Option<OperationId>)
        ensures
            r == self.origin(),
    {
        self.admin_op
    }

    /// Total voting power.
    pub fn total_votes(&self) -> (r: u64)
        requires
            self.wf(),
        ensures
            r as nat == self.total(),
    {
        self.total_votes
    }

    /// Voting power of `name`; zero for a validator outside the committee.
    pub fn weight(&self, name: ValidatorName) -> (r: u64)
        requires
            self.wf(),
        ensures
            r as nat == self.weight_of(name),
    {
        let s = Ghost(self.voting_rights@);
        proof {
            lemma_weight_le_sum(s@, name);
            assert(s@.subrange(0, s@.len() as int) =~= s@);
        }
        let mut i: usize = self.voting_rights.len();
        while i > 0
            invariant
                i <= self.voting_rights.len(),
                s@ == self.voting_rights@,
                weight_in(s@, name) == weight_in(s@.subrange(0, i as int), name),
            decreases i,
        {
            let (n, w) = self.voting_rights[i - 1];
            assert(s@.subrange(0, i as int).drop_last() =~= s@.subrange(0, i - 1));
            if n == name {
                return w;
            }
            i = i - 1;
        }
        0
    }

    /// Smallest voting power that is strictly more than two thirds of the total.
    pub fn quorum_threshold(&self) -> (r: u64)
        requires
            self.wf(),
        ensures
            forall|w: nat| is_quorum_of(w, self.total()) <==> w >= r,
    {
        let t = self.total_votes;
        let q = t / 3;
        let m = t % 3;
        let r = 2 * q + (if m == 2 { 1u64 } else { 0u64 }) + 1;
        assert forall|w: nat| is_quorum_of(w, self.total()) <==> w >= r by {
            assert(t == 3 * q + m);
            if m == 2 {
                assert(is_quorum_of(w, t as nat) <==> w >= 2 * q + 2) by (nonlinear_arith)
                    requires t == 3 * q + 2;
            } else if m == 1 {
                assert(is_quorum_of(w, t as nat) <==> w >= 2 * q + 1) by (nonlinear_arith)
                    requires t == 3 * q + 1;
            } else {
                assert(is_quorum_of(w, t as nat) <==> w >= 2 * q + 1) by (nonlinear_arith)
                    requires t == 3 * q;
            }
        }
        r
    }

    /// Smallest voting power that is strictly more than one third of the total.
    pub fn validity_threshold(&self) -> (r: u64)
        requires
            self.wf(),
        ensures
            forall|w: nat| is_validity_of(w, self.total()) <==> w >= r,
    {
        let t = self.total_votes;
        let r = t / 3 + 1;
        assert forall|w: nat| is_validity_of(w, self.total()) <==> w >= r by {
            assert(t == 3 * (t / 3) + t % 3);
        }
        r
    }

    /// A copy of this committee.
    pub fn copy(&self) -> (r: Committee)
        ensures
            r@ == self@,
            r.wf() == self.wf(),
    {
        let mut rights: Vec<(ValidatorName, u64)> = Vec::new();
        let mut i: usize = 0;
        while i < self.voting_rights.len()
            invariant
                i <= self.voting_rights.len(),
                rights@ == self.voting_rights@.subrange(0, i as int),
            decreases self.voting_rights.len() - i,
        {
            rights.push(self.voting_rights[i]);
            assert(rights@ =~= self.voting_rights@.subrange(0, i + 1));
            i = i + 1;
        }
        assert(rights@ =~= self.voting_rights@);
        Committee { voting_rights: rights, total_votes: self.total_votes, admin_op: self.admin_op }
    }

    /// Whether the committee is well formed: distinct names, and a stored
    /// total that is the sum of the rights.
    pub fn is_valid(&self) -> (r: bool)
        ensures
            r == self.wf(),
    {
        if !valid_voting_rights(&self.voting_rights) {
            return false;
        }
        let mut total: u64 = 0;
        let mut i: usize = 0;
        while i < self.voting_rights.len()
            invariant
                i <= self.voting_rights.len(),
                total as nat == sum_rights(self.voting_rights@.subrange(0, i as int)),
                sum_rights(self.voting_rights@) <= u64::MAX,
            decreases self.voting_rights.len() - i,
        {
            proof {
                let s = self.voting_rights@;
                assert(s.subrange(0, i + 1).drop_last() =~= s.subrange(0, i as int));
                lemma_sum_prefix_le(s, i + 1);
            }
            total = total + self.voting_rights[i].1;
            i = i + 1;
        }
        assert(self.voting_rights@.subrange(0, i as int) =~= self.voting_rights@);
        total == self.total_votes
    }

    fn find_index(&self, name: ValidatorName) -> (r: Option<usize>)
        ensures
            match r {
                Some(j) => j < self.rights().len() && self.rights()[j as int].0 == name,
                None => forall|k: int| 0 <= k < self.rights().len() ==> self.rights()[k].0 != name,
            },
    {
        let mut j: usize = 0;
        while j < self.voting_rights.len()
            invariant
                j <= self.voting_rights@.len(),
                forall|k: int| 0 <= k < j ==> self.voting_rights@[k].0 != name,
            decreases self.voting_rights@.len() - j,
        {
            if self.voting_rights[j].0 == name {
                return Some(j);
            }
            j = j + 1;
        }
        None
    }

    fn within(&self, other: &Committee) -> (r: bool)
        requires
            self.wf(),
            other.wf(),
        ensures
            r == map_within(rights_map(self.rights()), rights_map(other.rights())),
    {
        let ghost a = self.rights();
        let ghost b = other.rights();
        proof {
            self.lemma_wf();
            other.lemma_wf();
        }
        let mut i: usize = 0;
        while i < self.voting_rights.len()
            invariant
                i <= a.len(),
                a == self.voting_rights@,
                b == other.rights(),
                distinct_names(a),
                distinct_names(b),
                forall|k: int| 0 <= k < i ==> {
                    &&& rights_map(b).dom().contains(#[trigger] a[k].0)
                    &&& rights_map(a)[a[k].0] == rights_map(b)[a[k].0]
                },
            decreases a.len() - i,
        {
            let (name, w) = self.voting_rights[i];
            proof { lemma_weight_at(a, i as int, name); }
            match other.find_index(name) {
                None => {
                    proof {
                        assert(rights_map(a).dom().contains(name));
                        assert(!rights_map(b).dom().contains(name));
                    }
                    return false;
                },
                Some(j) => {
                    proof { lemma_weight_at(b, j as int, name); }
                    if other.voting_rights[j].1 != w {
                        proof {
                            assert(rights_map(a).dom().contains(name));
                            assert(rights_map(a)[name] != rights_map(b)[name]);
                        }
                        return false;
                    }
                },
            }
            i = i + 1;
        }
        proof {
            assert forall|n: ValidatorName| #[trigger] rights_map(a).dom().contains(n) implies
                rights_map(b).dom().contains(n) && rights_map(a)[n] == rights_map(b)[n] by {
                let k = choose|k: int| 0 <= k < a.len() && a[k].0 == n;
            }
        }
        true
    }

    /// Whether two committees give each validator the same voting power, in
    /// whatever order they list them, and come from the same operation.
    pub fn same_members(&self, other: &Committee) -> (r: bool)
        requires
            self.wf(),
            other.wf(),
        ensures
            r == (rights_map(self.rights()) == rights_map(other.rights()) && self.origin() == other.origin()),
    {
        if self.admin_op != other.admin_op {
            return false;
        }
        let a = self.within(other);
        let b = other.within(self);
        proof {
            let ma = rights_map(self.rights());
            let mb = rights_map(other.rights());
            if a && b {
                assert(ma =~= mb);
            }
        }
        a && b
    }

    /// Whether two committees list the same rights, in the same order, with
    /// the same origin.
    pub fn same_as(&self, other: &Committee) -> (r: bool)
        ensures
            r == (self.rights() == other.rights() && self.origin() == other.origin()),
    {
        if self.admin_op != other.admin_op || self.voting_rights.len() != other.voting_rights.len() {
            return false;
        }
        let mut i: usize = 0;
        while i < self.voting_rights.len()
            invariant
                i <= self.voting_rights.len(),
                self.voting_rights.len() == other.voting_rights.len(),
                forall|j: int| 0 <= j < i ==> self.voting_rights@[j] == other.voting_rights@[j],
            decreases self.voting_rights.len() - i,
        {
            if self.voting_rights[i].0 != other.voting_rights[i].0
                || self.voting_rights[i].1 != other.voting_rights[i].1 {
                return false;
            }
            i = i + 1;
        }
        assert(self.voting_rights@ =~= other.voting_rights@);
        true
    }
}

/// A copy of a list of committees.
pub fn copy_committees(cs: &Vec<Committee>) -> (r: Vec<Committee>)
    ensures
        r@.map_values(|c: Committee| c@) == cs@.map_values(|c: Committee| c@),
        r@.len() == cs@.len(),
        forall|i: int| 0 <= i < cs@.len() ==> r@[i].wf() == cs@[i].wf(),
{
    let mut r: Vec<Committee> = Vec::new();
    let mut i: usize = 0;
    while i < cs.len()
        invariant
            i <= cs.len(),
            r@.len() == i,
            forall|j: int| 0 <= j < i ==> r@[j]@ == cs@[j]@ && r@[j].wf() == cs@[j].wf(),
        decreases cs.len() - i,
    {
        r.push(cs[i].copy());
        i = i + 1;
    }
    assert(r@.map_values(|c: Committee| c@) =~= cs@.map_values(|c: Committee| c@));
    r
}

/// Whether two lists of committees have the same value.
pub fn committees_equal(a: &Vec<Committee>, b: &Vec<Committee>) -> (r: bool)
    ensures
        r == (a@.map_values(|c: Committee| c@) == b@.map_values(|c: Committee| c@)),
{
    if a.len() != b.len() {
        assert(a@.map_values(|c: Committee| c@).len() != b@.map_values(|c: Committee| c@).len());
        return false;
    }
    let mut i: usize = 0;
    while i < a.len()
        invariant
            i <= a.len(),
            a.len() == b.len(),
            forall|j: int| 0 <= j < i ==> a@[j]@ == b@[j]@,
        decreases a.len() - i,
    {
        if !a[i].same_as(&b[i]) {
            assert(a@.map_values(|c: Committee| c@)[i as int] != b@.map_values(|c: Committee| c@)[i as int]);
            return false;
        }
        i = i + 1;
    }
    assert(a@.map_values(|c: Committee| c@) =~= b@.map_values(|c: Committee| c@));
    true
}

/// Voting rights that make a committee: distinct names, a total that fits.
pub open spec fn valid_rights(rs: Seq<(ValidatorName, u64)>) -> bool {
    distinct_names(rs) && sum_rights(rs) <= u64::MAX
}

/// Whether voting rights make a committee: no validator listed twice, and a
/// total that fits in a `u64`.
pub fn valid_voting_rights(rs: &Vec<(ValidatorName, u64)>) -> (r: bool)
    ensures
        r == valid_rights(rs@),
{
    let mut total: u64 = 0;
    let mut i: usize = 0;
    while i < rs.len()
        invariant
            i <= rs.len(),
            total as nat == sum_rights(rs@.subrange(0, i as int)),
            distinct_names(rs@.subrange(0, i as int)),
        decreases rs.len() - i,
    {
        assert(rs@.subrange(0, i + 1).drop_last() =~= rs@.subrange(0, i as int));
        let mut j: usize = 0;
        while j < i
            invariant
                j <= i < rs.len(),
                forall|k: int| 0 <= k < j ==> rs@[k].0 != rs@[i as int].0,
            decreases i - j,
        {
            if rs[j].0 == rs[i].0 {
                proof {
                    assert(!distinct_names(rs@)) by {
                        assert(rs@[j as int].0 == rs@[i as int].0);
                    }
                }
                return false;
            }
            j = j + 1;
        }
        if rs[i].1 > u64::MAX - total {
            proof {
                lemma_sum_prefix_le(rs@, i + 1);
            }
            return false;
        }
        total = total + rs[i].1;
        proof {
            let sub = rs@.subrange(0, i + 1);
            assert forall|a: int, b: int| 0 <= a < b < sub.len() implies sub[a].0 != sub[b].0 by {
                if b < i {
                    assert(rs@.subrange(0, i as int)[a] == sub[a]);
                    assert(rs@.subrange(0, i as int)[b] == sub[b]);
                }
            }
        }
        i = i + 1;
    }
    assert(rs@.subrange(0, i as int) =~= rs@);
    true
}

/// A prefix sums to no more than the whole.
pub proof fn lemma_sum_prefix_le(s: Seq<(ValidatorName, u64)>, k: int)
    requires
        0 <= k <= s.len(),
    ensures
        sum_rights(s.subrange(0, k)) <= sum_rights(s),
    decreases s.len() - k,
{
    if k < s.len() {
        lemma_sum_prefix_le(s, k + 1);
        assert(s.subrange(0, k + 1).drop_last() =~= s.subrange(0, k));
    } else {
        assert(s.subrange(0, k) =~= s);
    }
}

/// No validator weighs more than the whole committee.
pub proof fn lemma_weight_le_sum(s: Seq<(ValidatorName, u64)>, name: ValidatorName)
    ensures
        weight_in(s, name) <= sum_rights(s),
    decreases s.len(),
{
    if s.len() > 0 {
        lemma_weight_le_sum(s.drop_last(), name);
    }
}

} // verus!

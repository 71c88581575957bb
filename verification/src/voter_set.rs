//! The set of Tendermint voters of a round: who may vote, who proposes in a
//! round, and how many votes make a supermajority.
use vstd::prelude::*;
use vstd::std_specs::iter::IteratorSpec;

verus! {

/// Identifiers of voters: they compare and copy exactly.
pub trait VoterId: Sized {
    /// Whether two identifiers are the same.
    fn same_id(&self, other: &Self) -> (r: bool)
        ensures
            r == (*self == *other),
    ;

    /// A copy of the identifier.
    fn copy_id(&self) -> (r: Self)
        ensures
            r == *self,
    ;
}

impl VoterId for u64 {
    fn same_id(&self, other: &Self) -> (r: bool) {
        *self == *other
    }

    fn copy_id(&self) -> (r: Self) {
        *self
    }
}

impl VoterId for u32 {
    fn same_id(&self, other: &Self) -> (r: bool) {
        *self == *other
    }

    fn copy_id(&self) -> (r: Self) {
        *self
    }
}

impl VoterId for [u8; 32] {
    fn same_id(&self, other: &Self) -> (r: bool) {
        crate::primitives::bytes32_eq(self, other)
    }

    fn copy_id(&self) -> (r: Self) {
        *self
    }
}

/// The supermajority of a set of `n` voters: all but at most a third of
/// them (`n - (n - 1) / 3`).
pub open spec fn supermajority(n: nat) -> nat {
    (n - (n - 1) / 3) as nat
}

/// A set of nodes valid to vote.
pub struct VoterSet<Id> {
    /// Voters, in the order of the genesis block (or the following ones).
    voters: Vec<Id>,
    /// The number of votes that makes a supermajority (more than two thirds).
    threshold: usize,
}

impl<Id: VoterId> VoterSet<Id> {
    /// The voters, in order.
    pub closed spec fn spec_voters(&self) -> Seq<Id> {
        self.voters@
    }

    /// The supermajority threshold fixed when the set was made.
    pub closed spec fn spec_threshold(&self) -> usize {
        self.threshold
    }

    /// A set of the given voters, `None` when there is none. The threshold is
    /// the supermajority of their number.
    pub fn new(voters: Vec<Id>) -> (r: Option<Self>)
        ensures
            voters@.len() == 0 <==> r is None,
            r is Some ==> r->Some_0.spec_voters() == voters@,
            r is Some ==> r->Some_0.spec_threshold() == supermajority(voters@.len()),
    {
        if voters.len() == 0 {
            None
        } else {
            let threshold = voters.len() - (voters.len() - 1) / 3;
            Some(VoterSet { voters, threshold })
        }
    }

    /// Adds a voter at the end (the threshold is unchanged).
    pub fn add(&mut self, id: Id)
        ensures
            final(self).spec_voters() == old(self).spec_voters().push(id),
            final(self).spec_threshold() == old(self).spec_threshold(),
    {
        self.voters.push(id);
    }

    /// Removes every occurrence of a voter (the threshold is unchanged).
    pub fn remove(&mut self, id: &Id)
        ensures
            final(self).spec_voters() == old(self).spec_voters().filter(|x: Id| x != *id),
            final(self).spec_threshold() == old(self).spec_threshold(),
    {
        let mut kept: Vec<Id> = Vec::new();
        let mut i: usize = 0;
        let ghost pred = |x: Id| x != *id;
        while i < self.voters.len()
            invariant
                i <= self.voters@.len(),
                self.voters@ == old(self).voters@,
                self.threshold == old(self).threshold,
                pred == (|x: Id| x != *id),
                kept@ == self.voters@.subrange(0, i as int).filter(pred),
            decreases self.voters@.len() - i,
        {
            let x = &self.voters[i];
            proof {
                let s = self.voters@.subrange(0, i + 1);
                assert(s.drop_last() =~= self.voters@.subrange(0, i as int));
                assert(s.last() == *x);
                reveal(Seq::filter);
            }
            if !x.same_id(id) {
                kept.push(x.copy_id());
            }
            i += 1;
        }
        assert(self.voters@.subrange(0, self.voters@.len() as int) =~= self.voters@);
        self.voters = kept;
    }

    /// Whether there is no voter.
    pub fn is_empty(&self) -> (r: bool)
        ensures
            r == (self.spec_voters().len() == 0),
    {
        self.voters.len() == 0
    }

    /// Whether the set holds at least as many voters as its threshold.
    pub fn is_full(&self) -> (r: bool)
        ensures
            r == (self.spec_voters().len() >= self.spec_threshold()),
    {
        self.voters.len() >= self.threshold
    }

    /// Whether `id` is a voter.
    pub fn is_member(&self, id: &Id) -> (r: bool)
        ensures
            r == self.spec_voters().contains(*id),
    {
        self.contains(id)
    }

    /// The supermajority threshold.
    pub fn threshold(&self) -> (r: usize)
        ensures
            r == self.spec_threshold(),
    {
        self.threshold
    }

    /// The number of voters.
    pub fn len(&self) -> (r: usize)
        ensures
            r == self.spec_voters().len(),
    {
        self.voters.len()
    }

    /// The voter at position `n`, `None` when `n` is not below the number of
    /// voters.
    pub fn nth(&self, n: usize) -> (r: Option<&Id>)
        ensures
            n < self.spec_voters().len() ==> r == Some(&self.spec_voters()[n as int]),
            n >= self.spec_voters().len() ==> r is None,
    {
        if n < self.voters.len() {
            Some(&self.voters[n])
        } else {
            None
        }
    }

    /// The voters, in order.
    pub fn voters(&self) -> (r: &[Id])
        ensures
            r@ == self.spec_voters(),
    {
        self.voters.as_slice()
    }

    /// The proposer of a round: voters take turns in order.
    pub fn get_proposer(&self, round: u64) -> (r: Id)
        requires
            self.spec_voters().len() > 0,
        ensures
            r == self.spec_voters()[(round as usize) as int % self.spec_voters().len() as int],
    {
        let idx = (round as usize) % self.voters.len();
        self.voters[idx].copy_id()
    }

    /// Whether `id` is a voter.
    pub fn contains(&self, id: &Id) -> (r: bool)
        ensures
            r == self.spec_voters().contains(*id),
    {
        let mut i: usize = 0;
        while i < self.voters.len()
            invariant
                i <= self.voters@.len(),
                forall|j: int| 0 <= j < i ==> self.voters@[j] != *id,
            decreases self.voters@.len() - i,
        {
            if self.voters[i].same_id(id) {
                assert(self.voters@[i as int] == *id);
                return true;
            }
            i += 1;
        }
        false
    }

    /// An iterator over the voters, in order.
    pub fn iter(&self) -> (r: std::slice::Iter<'_, Id>)
        ensures
            r.remaining() == self.spec_voters().as_ref(),
    {
        let s = self.voters.as_slice();
        let r = s.iter();
        proof {
            vstd::std_specs::slice::axiom_spec_slice_iter(s);
        }
        r
    }

    /// The voter equal to `id`, if any.
    pub fn get(&self, id: &Id) -> (r: Option<&Id>)
        ensures
            r is Some <==> self.spec_voters().contains(*id),
            r is Some ==> *r->Some_0 == *id,
    {
        let mut i: usize = 0;
        while i < self.voters.len()
            invariant
                i <= self.voters@.len(),
                forall|j: int| 0 <= j < i ==> self.voters@[j] != *id,
            decreases self.voters@.len() - i,
        {
            if self.voters[i].same_id(id) {
                assert(self.voters@[i as int] == *id);
                return Some(&self.voters[i]);
            }
            i += 1;
        }
        None
    }
}

/// The threshold of a non-empty set is a supermajority: more than two thirds
/// of the voters, and no more than all of them.
pub proof fn lemma_threshold_is_supermajority(n: nat)
    requires
        n >= 1,
    ensures
        3 * supermajority(n) > 2 * n,
        supermajority(n) <= n,
        supermajority(n) >= 1,
{
    let f = (n - 1) / 3;
    assert(3 * f <= n - 1);
}

/// Two groups of voters that each reach the threshold share more voters than
/// the at most a third that may be faulty.
pub proof fn lemma_supermajorities_intersect(n: nat)
    requires
        n >= 1,
    ensures
        2 * supermajority(n) - n > (n - 1) / 3,
{
    let f = (n - 1) / 3;
    assert(3 * f <= n - 1);
}

/// A removed voter is no longer a member, and every other member stays.
pub proof fn lemma_remove_membership<Id>(voters: Seq<Id>, id: Id, other: Id)
    ensures
        !voters.filter(|x: Id| x != id).contains(id),
        other != id ==> (voters.filter(|x: Id| x != id).contains(other) == voters.contains(
            other,
        )),
{
    let pred = |x: Id| x != id;
    let f = voters.filter(pred);
    if f.contains(id) {
        let k = choose|k: int| 0 <= k < f.len() && f[k] == id;
        voters.lemma_filter_pred(pred, k);
    }
    if other != id {
        if voters.contains(other) {
            let k = choose|k: int| 0 <= k < voters.len() && voters[k] == other;
            voters.lemma_filter_contains(pred, k);
        }
        if f.contains(other) {
            voters.lemma_filter_contains_rev(pred, other);
        }
    }
}

/// An added voter is a member.
pub proof fn lemma_add_membership<Id>(voters: Seq<Id>, id: Id)
    ensures
        voters.push(id).contains(id),
{
    assert(voters.push(id)[voters.len() as int] == id);
}

} // verus!

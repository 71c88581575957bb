//! Aggregation of votes into quorum certificates and of timeouts into
//! timeout certificates.
use crate::hotstuff_message::{
    qc_voters, tc_voters, AuthorityList, HotstuffError, Timeout, ViewNumber, Vote, QC, TC,
};
use crate::primitives::{bytes32_eq, AuthorityId, AuthoritySignature, H256};
use std::collections::HashMap;
use vstd::prelude::*;

verus! {

broadcast use vstd::std_specs::hash::group_hash_axioms;

/// Number of votes (of `n` authorities) from which a certificate is formed:
/// more than two thirds.
pub open spec fn quorum_threshold(n: nat) -> nat {
    n * 2 / 3 + 1
}

/// Collects votes for one proposal until they form a certificate.
pub struct QCMaker {
    weight: u64,
    votes: Vec<(AuthorityId, AuthoritySignature)>,
}

/// Collects timeouts for one view until they form a timeout certificate.
pub struct TCMaker {
    weight: u64,
    votes: Vec<(AuthorityId, AuthoritySignature, ViewNumber)>,
}

/// Copies a list of votes.
fn copy_votes(v: &Vec<(AuthorityId, AuthoritySignature)>) -> (r: Vec<
    (AuthorityId, AuthoritySignature),
>)
    ensures
        r@ == v@,
{
    let mut r: Vec<(AuthorityId, AuthoritySignature)> = Vec::new();
    let mut i: usize = 0;
    while i < v.len()
        invariant
            i <= v@.len(),
            r@ == v@.subrange(0, i as int),
        decreases v@.len() - i,
    {
        r.push(v[i]);
        i += 1;
        assert(r@ =~= v@.subrange(0, i as int));
    }
    assert(r@ =~= v@);
    r
}

/// Copies a list of timeout votes.
fn copy_tc_votes(v: &Vec<(AuthorityId, AuthoritySignature, ViewNumber)>) -> (r: Vec<
    (AuthorityId, AuthoritySignature, ViewNumber),
>)
    ensures
        r@ == v@,
{
    let mut r: Vec<(AuthorityId, AuthoritySignature, ViewNumber)> = Vec::new();
    let mut i: usize = 0;
    while i < v.len()
        invariant
            i <= v@.len(),
            r@ == v@.subrange(0, i as int),
        decreases v@.len() - i,
    {
        r.push(v[i]);
        i += 1;
        assert(r@ =~= v@.subrange(0, i as int));
    }
    assert(r@ =~= v@);
    r
}

/// Whether `n * 2 / 3 + 1` exceeds `weight` (not enough votes yet).
fn below_threshold(weight: u64, n: usize) -> (r: bool)
    ensures
        r == (weight < quorum_threshold(n as nat)),
{
    let t: u128 = (n as u128) * 2 / 3 + 1;
    (weight as u128) < t
}

impl QCMaker {
    /// Well-formedness: the weight counts the votes, and no authority voted
    /// twice.
    pub closed spec fn wf(&self) -> bool {
        &&& self.weight == self.votes@.len()
        &&& qc_voters(self.votes@).no_duplicates()
    }

    /// The votes collected so far.
    pub closed spec fn collected(&self) -> Seq<(AuthorityId, AuthoritySignature)> {
        self.votes@
    }

    /// An empty maker.
    pub fn new() -> (r: QCMaker)
        ensures
            r.wf(),
            r.collected() == Seq::<(AuthorityId, AuthoritySignature)>::empty(),
    {
        QCMaker { weight: 0, votes: Vec::new() }
    }

    /// Adds a vote. A second vote from the same voter is refused, as is an
    /// unsigned vote. Once the votes reach the quorum threshold of the
    /// authority list, every further vote returns a certificate holding all
    /// votes collected so far.
    pub fn append(&mut self, vote: Vote, authorities: &AuthorityList) -> (r: Result<
        Option<QC>,
        HotstuffError,
    >)
        requires
            old(self).wf(),
        ensures
            final(self).wf(),
            qc_voters(old(self).collected()).contains(vote.voter) ==> {
                &&& r == Err::<Option<QC>, HotstuffError>(HotstuffError::AuthorityReuse(vote.voter))
                &&& final(self).collected() == old(self).collected()
            },
            !qc_voters(old(self).collected()).contains(vote.voter) && vote.signature is None ==> {
                &&& r == Err::<Option<QC>, HotstuffError>(HotstuffError::NullSignature)
                &&& final(self).collected() == old(self).collected()
            },
            !qc_voters(old(self).collected()).contains(vote.voter) && vote.signature is Some ==> {
                &&& final(self).collected() == old(self).collected().push(
                    (vote.voter, vote.signature->Some_0),
                )
                &&& r is Ok
                &&& (r->Ok_0 is Some <==> final(self).collected().len() >= quorum_threshold(
                    authorities@.len(),
                ))
                &&& r->Ok_0 is Some ==> {
                    &&& r->Ok_0->Some_0.proposal_hash == vote.proposal_hash
                    &&& r->Ok_0->Some_0.view == vote.view
                    &&& r->Ok_0->Some_0.votes@ == final(self).collected()
                }
            },
    {
        let voter = vote.voter;
        let mut i: usize = 0;
        while i < self.votes.len()
            invariant
                i <= self.votes@.len(),
                forall|k: int| 0 <= k < i ==> self.votes@[k].0 != voter,
                self.votes@ == old(self).votes@,
                self.weight == old(self).weight,
                self.wf(),
                voter == vote.voter,
            decreases self.votes@.len() - i,
        {
            if bytes32_eq(&self.votes[i].0, &voter) {
                assert(qc_voters(self.votes@)[i as int] == voter);
                assert(qc_voters(self.votes@).contains(voter));
                return Err(HotstuffError::AuthorityReuse(voter));
            }
            i += 1;
        }
        assert(!qc_voters(self.votes@).contains(voter)) by {
            if qc_voters(self.votes@).contains(voter) {
                let k = choose|k: int|
                    0 <= k < qc_voters(self.votes@).len() && qc_voters(self.votes@)[k] == voter;
                assert(self.votes@[k].0 == voter);
            }
        }
        let signature = match vote.signature {
            None => {
                return Err(HotstuffError::NullSignature);
            },
            Some(s) => s,
        };
        let ghost before = self.votes@;
        self.votes.push((voter, signature));
        proof {
            assert(qc_voters(self.votes@) =~= qc_voters(before).push(voter));
        }
        self.weight = self.votes.len() as u64;
        if below_threshold(self.weight, authorities.len()) {
            return Ok(None);
        }
        Ok(Some(QC { proposal_hash: vote.proposal_hash, view: vote.view, votes: copy_votes(&self.votes) }))
    }
}

impl TCMaker {
    /// Well-formedness: the weight counts the timeouts, and no authority
    /// timed out twice.
    pub closed spec fn wf(&self) -> bool {
        &&& self.weight == self.votes@.len()
        &&& tc_voters(self.votes@).no_duplicates()
    }

    /// The timeouts collected so far.
    pub closed spec fn collected(&self) -> Seq<(AuthorityId, AuthoritySignature, ViewNumber)> {
        self.votes@
    }

    /// An empty maker.
    pub fn new() -> (r: TCMaker)
        ensures
            r.wf(),
            r.collected() == Seq::<(AuthorityId, AuthoritySignature, ViewNumber)>::empty(),
    {
        TCMaker { weight: 0, votes: Vec::new() }
    }

    /// Adds a timeout. A second timeout from the same voter is refused, as is
    /// an unsigned one. Once the timeouts reach the quorum threshold, every
    /// further timeout returns a certificate for the timeout's view holding all
    /// timeouts collected so far.
    pub fn append(&mut self, timeout: Timeout, authorities: &AuthorityList) -> (r: Result<
        Option<TC>,
        HotstuffError,
    >)
        requires
            old(self).wf(),
        ensures
            final(self).wf(),
            tc_voters(old(self).collected()).contains(timeout.voter) ==> {
                &&& r == Err::<Option<TC>, HotstuffError>(
                    HotstuffError::AuthorityReuse(timeout.voter),
                )
                &&& final(self).collected() == old(self).collected()
            },
            !tc_voters(old(self).collected()).contains(timeout.voter) && timeout.signature is None
                ==> {
                &&& r == Err::<Option<TC>, HotstuffError>(HotstuffError::NullSignature)
                &&& final(self).collected() == old(self).collected()
            },
            !tc_voters(old(self).collected()).contains(timeout.voter) && timeout.signature is Some
                ==> {
                &&& final(self).collected() == old(self).collected().push(
                    (timeout.voter, timeout.signature->Some_0, timeout.view),
                )
                &&& r is Ok
                &&& (r->Ok_0 is Some <==> final(self).collected().len() >= quorum_threshold(
                    authorities@.len(),
                ))
                &&& r->Ok_0 is Some ==> {
                    &&& r->Ok_0->Some_0.view == timeout.view
                    &&& r->Ok_0->Some_0.votes@ == final(self).collected()
                }
            },
    {
        let voter = timeout.voter;
        let mut i: usize = 0;
        while i < self.votes.len()
            invariant
                i <= self.votes@.len(),
                forall|k: int| 0 <= k < i ==> self.votes@[k].0 != voter,
                self.votes@ == old(self).votes@,
                self.weight == old(self).weight,
                self.wf(),
                voter == timeout.voter,
            decreases self.votes@.len() - i,
        {
            if bytes32_eq(&self.votes[i].0, &voter) {
                assert(tc_voters(self.votes@)[i as int] == voter);
                assert(tc_voters(self.votes@).contains(voter));
                return Err(HotstuffError::AuthorityReuse(voter));
            }
            i += 1;
        }
        assert(!tc_voters(self.votes@).contains(voter)) by {
            if tc_voters(self.votes@).contains(voter) {
                let k = choose|k: int|
                    0 <= k < tc_voters(self.votes@).len() && tc_voters(self.votes@)[k] == voter;
                assert(self.votes@[k].0 == voter);
            }
        }
        let signature = match timeout.signature {
            None => {
                return Err(HotstuffError::NullSignature);
            },
            Some(s) => s,
        };
        let ghost before = self.votes@;
        self.votes.push((voter, signature, timeout.view));
        proof {
            assert(tc_voters(self.votes@) =~= tc_voters(before).push(voter));
        }
        self.weight = self.votes.len() as u64;
        if below_threshold(self.weight, authorities.len()) {
            return Ok(None);
        }
        Ok(Some(TC { view: timeout.view, votes: copy_tc_votes(&self.votes) }))
    }
}

/// The maker registered for `digest` in an association list, if any.
pub open spec fn maker_for(list: Seq<(H256, QCMaker)>, digest: H256) -> Option<QCMaker>
    decreases list.len(),
{
    if list.len() == 0 {
        None
    } else if list.last().0 == digest {
        Some(list.last().1)
    } else {
        maker_for(list.drop_last(), digest)
    }
}

/// Aggregates votes per (view, proposal digest) and timeouts per view.
pub struct Aggregator {
    votes_aggregator: HashMap<ViewNumber, Vec<(H256, QCMaker)>>,
    timeouts_aggregators: HashMap<ViewNumber, TCMaker>,
}

impl Aggregator {
    /// Every maker is well formed.
    pub closed spec fn wf(&self) -> bool {
        &&& forall|v: ViewNumber|
            #[trigger] self.votes_aggregator@.contains_key(v) ==> forall|i: int|
                0 <= i < self.votes_aggregator@[v]@.len() ==> (
                #[trigger] self.votes_aggregator@[v]@[i]).1.wf()
        &&& forall|v: ViewNumber|
            #[trigger] self.timeouts_aggregators@.contains_key(v)
                ==> self.timeouts_aggregators@[v].wf()
    }

    /// Votes collected for the proposal with `digest` in `view`.
    pub closed spec fn votes_for(&self, view: ViewNumber, digest: H256) -> Seq<
        (AuthorityId, AuthoritySignature),
    > {
        if self.votes_aggregator@.contains_key(view) {
            match maker_for(self.votes_aggregator@[view]@, digest) {
                Some(m) => m.collected(),
                None => Seq::empty(),
            }
        } else {
            Seq::empty()
        }
    }

    /// Both aggregators hold the same votes and timeouts.
    pub open spec fn same_content(&self, other: &Aggregator) -> bool {
        &&& forall|v: ViewNumber, d: H256| #[trigger] self.votes_for(v, d) == other.votes_for(v, d)
        &&& forall|v: ViewNumber| #[trigger] self.timeouts_for(v) == other.timeouts_for(v)
    }

    /// Timeouts collected for `view`.
    pub closed spec fn timeouts_for(&self, view: ViewNumber) -> Seq<
        (AuthorityId, AuthoritySignature, ViewNumber),
    > {
        if self.timeouts_aggregators@.contains_key(view) {
            self.timeouts_aggregators@[view].collected()
        } else {
            Seq::empty()
        }
    }

    /// An empty aggregator.
    pub fn new() -> (r: Aggregator)
        ensures
            r.wf(),
            forall|v: ViewNumber, d: H256| r.votes_for(v, d) == Seq::<(AuthorityId, AuthoritySignature)>::empty(),
            forall|v: ViewNumber| r.timeouts_for(v) == Seq::<(AuthorityId, AuthoritySignature, ViewNumber)>::empty(),
    {
        Aggregator { votes_aggregator: HashMap::new(), timeouts_aggregators: HashMap::new() }
    }

    /// Adds a vote to the maker of its (view, proposal digest) and returns
    /// what that maker returns (see `QCMaker::append`). Every other maker is
    /// left as it was.
    pub fn add_vote(&mut self, vote: Vote, authorities: &AuthorityList) -> (r: Result<
        Option<QC>,
        HotstuffError,
    >)
        requires
            old(self).wf(),
        ensures
            final(self).wf(),
            forall|v: ViewNumber| #[trigger] final(self).timeouts_for(v) == old(self).timeouts_for(v),
            ({
                let d = vote_digest_key(vote);
                let before = old(self).votes_for(vote.view, d);
                let after = final(self).votes_for(vote.view, d);
                &&& forall|v: ViewNumber, e: H256|
                    !(v == vote.view && e == d) ==> #[trigger] final(self).votes_for(v, e)
                        == old(self).votes_for(v, e)
                &&& qc_voters(before).contains(vote.voter) ==> {
                    &&& r == Err::<Option<QC>, HotstuffError>(
                        HotstuffError::AuthorityReuse(vote.voter),
                    )
                    &&& after == before
                }
                &&& !qc_voters(before).contains(vote.voter) && vote.signature is None ==> {
                    &&& r == Err::<Option<QC>, HotstuffError>(HotstuffError::NullSignature)
                    &&& after == before
                }
                &&& !qc_voters(before).contains(vote.voter) && vote.signature is Some ==> {
                    &&& after == before.push((vote.voter, vote.signature->Some_0))
                    &&& r is Ok
                    &&& (r->Ok_0 is Some <==> after.len() >= quorum_threshold(authorities@.len()))
                    &&& r->Ok_0 is Some ==> {
                        &&& r->Ok_0->Some_0.proposal_hash == vote.proposal_hash
                        &&& r->Ok_0->Some_0.view == vote.view
                        &&& r->Ok_0->Some_0.votes@ == after
                    }
                }
            }),
    {
        let view = vote.view;
        let digest = vote.digest();
        proof {
            assert(digest == vote_digest_key(vote)) by {
                assert(digest@ =~= vote_digest_key(vote)@);
            }
        }
        let ghost m0 = old(self).votes_aggregator@;
        let mut list: Vec<(H256, QCMaker)> = match self.votes_aggregator.remove(&view) {
            Some(l) => l,
            None => Vec::new(),
        };
        let ghost old_list = list@;
        assert(self.votes_aggregator@ == m0.remove(view));
        assert(old(self).votes_aggregator@.contains_key(view) ==> old_list
            == old(self).votes_aggregator@[view]@);
        assert(!old(self).votes_aggregator@.contains_key(view) ==> old_list.len() == 0);
        // search the last maker registered for this digest
        let mut j: usize = list.len();
        let mut found = false;
        while j > 0 && !found
            invariant
                j <= list@.len(),
                list@ == old_list,
                found ==> j > 0 && list@[j - 1].0 == digest,
                forall|k: int| j <= k < list@.len() ==> list@[k].0 != digest,
            decreases 2 * j + (if found { 0int } else { 1int }),
        {
            if bytes32_eq(&list[j - 1].0, &digest) {
                found = true;
            } else {
                j -= 1;
            }
        }
        let mut maker: QCMaker;
        if found {
            proof {
                lemma_maker_for_last(old_list, digest, j - 1);
                lemma_maker_for_remove(old_list, j - 1);
            }
            let (_, m) = list.remove(j - 1);
            maker = m;
        } else {
            proof {
                lemma_maker_for_absent(old_list, digest);
            }
            maker = QCMaker::new();
        }
        let ghost removed = list@;
        let r = maker.append(vote, authorities);
        list.push((digest, maker));
        proof {
            assert(list@.last() == (digest, maker));
            assert(list@.drop_last() =~= removed);
            if found {
                assert(removed == old_list.remove(j - 1));
            } else {
                assert(removed == old_list);
            }
            assert forall|e: H256| e != digest implies maker_for(list@, e) == maker_for(old_list, e) by {
                assert(maker_for(list@, e) == maker_for(list@.drop_last(), e));
            }
            assert(maker_for(list@, digest) == Some(maker));
        }
        self.votes_aggregator.insert(view, list);
        proof {
            assert forall|v: ViewNumber, e: H256|
                !(v == view && e == digest) implies #[trigger] self.votes_for(v, e) == old(self).votes_for(v, e) by {
                if v == view {
                    assert(self.votes_aggregator@[view]@ == list@);
                    assert(maker_for(list@, e) == maker_for(old_list, e));
                    if !m0.contains_key(view) {
                        assert(maker_for(old_list, e) is None);
                    }
                } else {
                    assert(self.votes_aggregator@.contains_key(v) == m0.contains_key(v));
                    if m0.contains_key(v) {
                        assert(self.votes_aggregator@[v] == m0[v]);
                    }
                }
            }
        }
        r
    }

    /// Adds a timeout to the maker of its view and returns what that maker
    /// returns (see `TCMaker::append`). Every other view is left as it was.
    pub fn add_timeout(&mut self, timeout: Timeout, authorities: &AuthorityList) -> (r: Result<
        Option<TC>,
        HotstuffError,
    >)
        requires
            old(self).wf(),
        ensures
            final(self).wf(),
            forall|v: ViewNumber| v != timeout.view ==> #[trigger] final(self).timeouts_for(v)
                == old(self).timeouts_for(v),
            forall|v: ViewNumber, e: H256| #[trigger] final(self).votes_for(v, e)
                == old(self).votes_for(v, e),
            ({
                let before = old(self).timeouts_for(timeout.view);
                let after = final(self).timeouts_for(timeout.view);
                &&& tc_voters(before).contains(timeout.voter) ==> {
                    &&& r == Err::<Option<TC>, HotstuffError>(
                        HotstuffError::AuthorityReuse(timeout.voter),
                    )
                    &&& after == before
                }
                &&& !tc_voters(before).contains(timeout.voter) && timeout.signature is None ==> {
                    &&& r == Err::<Option<TC>, HotstuffError>(HotstuffError::NullSignature)
                    &&& after == before
                }
                &&& !tc_voters(before).contains(timeout.voter) && timeout.signature is Some ==> {
                    &&& after == before.push(
                        (timeout.voter, timeout.signature->Some_0, timeout.view),
                    )
                    &&& r is Ok
                    &&& (r->Ok_0 is Some <==> after.len() >= quorum_threshold(authorities@.len()))
                    &&& r->Ok_0 is Some ==> {
                        &&& r->Ok_0->Some_0.view == timeout.view
                        &&& r->Ok_0->Some_0.votes@ == after
                    }
                }
            }),
    {
        let view = timeout.view;
        let mut maker = match self.timeouts_aggregators.remove(&view) {
            Some(m) => m,
            None => TCMaker::new(),
        };
        let r = maker.append(timeout, authorities);
        self.timeouts_aggregators.insert(view, maker);
        r
    }
}

/// No authority is counted twice: the votes collected for a proposal, and the
/// timeouts collected for a view, come from distinct authorities.
pub proof fn lemma_collected_voters_distinct(agg: Aggregator, view: ViewNumber, digest: H256)
    requires
        agg.wf(),
    ensures
        qc_voters(agg.votes_for(view, digest)).no_duplicates(),
        tc_voters(agg.timeouts_for(view)).no_duplicates(),
{
    if agg.votes_aggregator@.contains_key(view) {
        let list = agg.votes_aggregator@[view]@;
        lemma_maker_for_wf(list, digest);
    }
    assert(qc_voters(Seq::<(AuthorityId, AuthoritySignature)>::empty()) =~= Seq::<AuthorityId>::empty());
    assert(tc_voters(Seq::<(AuthorityId, AuthoritySignature, ViewNumber)>::empty()) =~= Seq::<AuthorityId>::empty());
}

/// The maker found in a list of well-formed makers is well formed.
proof fn lemma_maker_for_wf(list: Seq<(H256, QCMaker)>, digest: H256)
    requires
        forall|i: int| 0 <= i < list.len() ==> (#[trigger] list[i]).1.wf(),
    ensures
        maker_for(list, digest) matches Some(m) ==> m.wf(),
    decreases list.len(),
{
    if list.len() > 0 && list.last().0 != digest {
        lemma_maker_for_wf(list.drop_last(), digest);
    }
}

/// The digest under which a vote is aggregated.
pub open spec fn vote_digest_key(vote: Vote) -> H256 {
    choose|h: H256| h@ == crate::hotstuff_message::vote_digest_of(vote.proposal_hash, vote.view)
}

/// If `list[j]` is the last entry for `d`, the lookup of `d` finds it.
proof fn lemma_maker_for_last(list: Seq<(H256, QCMaker)>, d: H256, j: int)
    requires
        0 <= j < list.len(),
        list[j].0 == d,
        forall|k: int| j < k < list.len() ==> list[k].0 != d,
    ensures
        maker_for(list, d) == Some(list[j].1),
    decreases list.len(),
{
    if list.len() - 1 != j {
        lemma_maker_for_last(list.drop_last(), d, j);
    }
}

/// Lookups of keys absent from the list fail.
proof fn lemma_maker_for_absent(list: Seq<(H256, QCMaker)>, d: H256)
    requires
        forall|k: int| 0 <= k < list.len() ==> list[k].0 != d,
    ensures
        maker_for(list, d) is None,
    decreases list.len(),
{
    if list.len() > 0 {
        lemma_maker_for_absent(list.drop_last(), d);
    }
}

/// Removing an entry does not change lookups of other keys.
proof fn lemma_maker_for_remove(list: Seq<(H256, QCMaker)>, j: int)
    requires
        0 <= j < list.len(),
    ensures
        forall|e: H256| e != list[j].0 ==> #[trigger] maker_for(list.remove(j), e) == maker_for(list, e),
    decreases list.len(),
{
    if j < list.len() - 1 {
        lemma_maker_for_remove(list.drop_last(), j);
    }
    assert forall|e: H256| e != list[j].0 implies #[trigger] maker_for(list.remove(j), e) == maker_for(list, e) by {
        let l2 = list.remove(j);
        if j == list.len() - 1 {
            assert(l2 =~= list.drop_last());
        } else {
            assert(l2.drop_last() =~= list.drop_last().remove(j));
            assert(l2.last() == list.last());
            if list.last().0 != e {
                assert(maker_for(l2, e) == maker_for(l2.drop_last(), e));
                assert(maker_for(list, e) == maker_for(list.drop_last(), e));
                assert(maker_for(list.drop_last().remove(j), e) == maker_for(list.drop_last(), e));
            }
        }
    }
}

} // verus!

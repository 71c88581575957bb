//! The local state of a HotStuff replica: its view, the last view it voted
//! in, its highest certificate and the vote/timeout aggregator, with the
//! rules that create, check and combine consensus messages.
use crate::aggregator::{quorum_threshold, Aggregator};
use crate::hotstuff_message::{
    is_authority, proposal_digest_of, qc_voters, signed_check, tc_check, tc_voters,
    timeout_digest_of, vote_digest_of, AuthorityList, HotstuffError, Payload, Proposal, Timeout,
    ViewNumber, Vote, QC, TC,
};
use crate::primitives::{bytes32_eq, AuthorityId, AuthoritySignature, H256};
use vstd::prelude::*;

verus! {

/// The first authority of `authorities[0..n]` whose key is among `keys`.
pub open spec fn first_local_authority(
    authorities: Seq<(AuthorityId, u64)>,
    keys: Seq<AuthorityId>,
    n: nat,
) -> Option<AuthorityId>
    decreases n,
{
    if n == 0 {
        None
    } else {
        match first_local_authority(authorities, keys, (n - 1) as nat) {
            Some(id) => Some(id),
            None => if keys.contains(authorities[n - 1].0) {
                Some(authorities[n - 1].0)
            } else {
                None
            },
        }
    }
}

/// The leader of `view`: authorities take turns in list order.
pub open spec fn leader_of(authorities: Seq<(AuthorityId, u64)>, view: ViewNumber) -> AuthorityId {
    authorities[(view as int) % (authorities.len() as int)].0
}

/// Outcome of checking a certificate carried by a message: the genesis
/// certificate is always accepted, any other is checked against the set.
pub open spec fn carried_qc_check(
    authorities: Seq<(AuthorityId, u64)>,
    qc_hash: H256,
    qc_view: ViewNumber,
    qc_votes: Seq<(AuthorityId, AuthoritySignature)>,
) -> Result<(), HotstuffError> {
    if crate::hotstuff_message::is_genesis_qc(qc_hash, qc_view) {
        Ok(())
    } else {
        crate::hotstuff_message::qc_check(qc_hash, qc_view, qc_votes, authorities.len())
    }
}

/// Outcome of `ConsensusState::verify_proposal`.
pub open spec fn proposal_verdict(authorities: Seq<(AuthorityId, u64)>, p: Proposal) -> Result<
    (),
    HotstuffError,
> {
    if p.author != leader_of(authorities, p.view) {
        Err(HotstuffError::WrongProposer)
    } else {
        match signed_check(
            authorities,
            p.author,
            p.signature,
            proposal_digest_of(p.author, p.payload, p.view, p.qc.proposal_hash),
        ) {
            Err(e) => Err(e),
            Ok(()) => carried_qc_check(authorities, p.qc.proposal_hash, p.qc.view, p.qc.votes@),
        }
    }
}

/// Outcome of `ConsensusState::verify_vote` at view `view`.
pub open spec fn vote_verdict(
    authorities: Seq<(AuthorityId, u64)>,
    view: ViewNumber,
    vote: Vote,
) -> Result<(), HotstuffError> {
    if vote.view < view {
        Err(HotstuffError::ExpiredVote)
    } else {
        signed_check(
            authorities,
            vote.voter,
            vote.signature,
            vote_digest_of(vote.proposal_hash, vote.view),
        )
    }
}

/// Outcome of `ConsensusState::verify_timeout`.
pub open spec fn timeout_verdict(authorities: Seq<(AuthorityId, u64)>, t: Timeout) -> Result<
    (),
    HotstuffError,
> {
    match signed_check(
        authorities,
        t.voter,
        t.signature,
        timeout_digest_of(t.view, t.high_qc.view),
    ) {
        Err(e) => Err(e),
        Ok(()) => carried_qc_check(authorities, t.high_qc.proposal_hash, t.high_qc.view, t.high_qc.votes@),
    }
}

/// Outcome of `ConsensusState::verify_tc` at view `view`.
pub open spec fn tc_verdict(authorities: Seq<(AuthorityId, u64)>, view: ViewNumber, tc: TC) -> Result<
    (),
    HotstuffError,
> {
    if tc.view < view {
        Err(HotstuffError::InvalidTC)
    } else {
        tc_check(tc.view, tc.votes@, authorities.len())
    }
}

/// The fields of a proposal made by `s` for `payload` (see
/// `ConsensusState::make_proposal`), but for its timeout certificate.
pub open spec fn proposal_made(p: Proposal, s: ConsensusState, payload: Payload) -> bool {
    &&& p.view == s.spec_view()
    &&& s.spec_local_authority() == Some(p.author)
    &&& p.signature is None
    &&& p.payload == payload
    &&& p.qc.view == s.spec_high_qc_view()
    &&& p.qc.proposal_hash == s.spec_high_qc_hash()
    &&& p.qc.votes@ == s.spec_high_qc_votes()
}

/// What `ConsensusState::make_vote` does with the last voted view and
/// returns: a node holding an authority key votes for a proposal of a view
/// later than the last one it voted in, and that view becomes the last voted
/// one; otherwise it does not vote.
pub open spec fn vote_made(
    before: ConsensusState,
    after: ConsensusState,
    proposal: Proposal,
    r: Option<Vote>,
) -> bool {
    let votes = before.spec_local_authority() is Some && proposal.view
        > before.spec_last_voted_view();
    &&& !votes ==> r is None && after.spec_last_voted_view() == before.spec_last_voted_view()
    &&& votes ==> {
        &&& r is Some
        &&& after.spec_last_voted_view() == proposal.view
        &&& r->Some_0.view == proposal.view
        &&& r->Some_0.voter == before.spec_local_authority()->Some_0
    }
}

/// A node never votes twice in a view: of two votes, the later one (made
/// from a state whose last voted view has not gone down) is for a later view.
/// Each vote also leaves the last voted view at least where it was.
pub proof fn lemma_one_vote_per_view(
    s0: ConsensusState,
    s1: ConsensusState,
    s2: ConsensusState,
    s3: ConsensusState,
    p1: Proposal,
    p2: Proposal,
    v1: Vote,
    v2: Vote,
)
    requires
        vote_made(s0, s1, p1, Some(v1)),
        s2.spec_last_voted_view() >= s1.spec_last_voted_view(),
        vote_made(s2, s3, p2, Some(v2)),
    ensures
        v1.view < v2.view,
        s1.spec_last_voted_view() > s0.spec_last_voted_view(),
        s3.spec_last_voted_view() > s2.spec_last_voted_view(),
{
}

/// A node that timed out in its current view (`increase_last_voted_view`)
/// no longer votes for a proposal of that view or an earlier one.
pub proof fn lemma_no_vote_after_timeout(
    s0: ConsensusState,
    s1: ConsensusState,
    s2: ConsensusState,
    s3: ConsensusState,
    proposal: Proposal,
    vote: Vote,
)
    requires
        s1.spec_last_voted_view() == (if s0.spec_last_voted_view() >= s0.spec_view() {
            s0.spec_last_voted_view()
        } else {
            s0.spec_view()
        }),
        s2.spec_last_voted_view() >= s1.spec_last_voted_view(),
        vote_made(s2, s3, proposal, Some(vote)),
    ensures
        vote.view > s0.spec_view(),
{
}

/// Two replica states that agree on everything.
pub open spec fn same_replica(a: ConsensusState, b: ConsensusState) -> bool {
    &&& a.spec_authorities() == b.spec_authorities()
    &&& a.spec_local_keys() == b.spec_local_keys()
    &&& a.spec_view() == b.spec_view()
    &&& a.spec_last_voted_view() == b.spec_last_voted_view()
    &&& a.spec_high_qc_view() == b.spec_high_qc_view()
    &&& a.spec_high_qc_hash() == b.spec_high_qc_hash()
    &&& a.spec_high_qc_votes() == b.spec_high_qc_votes()
    &&& a.spec_aggregator().same_content(&b.spec_aggregator())
}

/// Copies a certificate.
pub fn copy_qc(qc: &QC) -> (r: QC)
    ensures
        r.proposal_hash == qc.proposal_hash,
        r.view == qc.view,
        r.votes@ == qc.votes@,
{
    let mut votes: Vec<(AuthorityId, AuthoritySignature)> = Vec::new();
    let mut i: usize = 0;
    while i < qc.votes.len()
        invariant
            i <= qc.votes@.len(),
            votes@ == qc.votes@.subrange(0, i as int),
        decreases qc.votes@.len() - i,
    {
        votes.push(qc.votes[i]);
        i += 1;
        assert(votes@ =~= qc.votes@.subrange(0, i as int));
    }
    assert(votes@ =~= qc.votes@);
    QC { proposal_hash: qc.proposal_hash, view: qc.view, votes }
}

/// The core state of a HotStuff replica.
pub struct ConsensusState {
    authorities: AuthorityList,
    /// Public keys whose secret keys the local keystore holds.
    local_keys: Vec<AuthorityId>,
    view: ViewNumber,
    last_voted_view: ViewNumber,
    high_qc: QC,
    aggregator: Aggregator,
}

impl ConsensusState {
    /// The aggregator is well formed.
    pub open spec fn wf(&self) -> bool {
        self.spec_aggregator().wf()
    }

    pub closed spec fn spec_authorities(&self) -> Seq<(AuthorityId, u64)> {
        self.authorities@
    }

    pub closed spec fn spec_local_keys(&self) -> Seq<AuthorityId> {
        self.local_keys@
    }

    pub closed spec fn spec_view(&self) -> ViewNumber {
        self.view
    }

    pub closed spec fn spec_last_voted_view(&self) -> ViewNumber {
        self.last_voted_view
    }

    pub closed spec fn spec_high_qc_view(&self) -> ViewNumber {
        self.high_qc.view
    }

    pub closed spec fn spec_high_qc_hash(&self) -> H256 {
        self.high_qc.proposal_hash
    }

    pub closed spec fn spec_high_qc_votes(&self) -> Seq<(AuthorityId, AuthoritySignature)> {
        self.high_qc.votes@
    }

    pub closed spec fn spec_aggregator(&self) -> Aggregator {
        self.aggregator
    }

    /// The authority the local node signs as, if any.
    pub open spec fn spec_local_authority(&self) -> Option<AuthorityId> {
        first_local_authority(
            self.spec_authorities(),
            self.spec_local_keys(),
            self.spec_authorities().len(),
        )
    }

    /// A replica at view 0 with the genesis certificate. `local_keys` are the
    /// public keys the local keystore holds secret keys for.
    pub fn new(authorities: AuthorityList, local_keys: Vec<AuthorityId>) -> (r: ConsensusState)
        ensures
            r.wf(),
            r.spec_authorities() == authorities@,
            r.spec_local_keys() == local_keys@,
            r.spec_view() == 0,
            r.spec_last_voted_view() == 0,
            r.spec_high_qc_view() == 0,
            crate::primitives::is_zero_hash(r.spec_high_qc_hash()),
            r.spec_high_qc_votes().len() == 0,
    {
        ConsensusState {
            authorities,
            local_keys,
            view: 0,
            last_voted_view: 0,
            high_qc: QC::genesis(),
            aggregator: Aggregator::new(),
        }
    }

    /// The authority the local node signs as: the first authority of the list
    /// whose key the keystore holds. `None` when the node is no authority.
    pub fn local_authority_id(&self) -> (r: Option<AuthorityId>)
        ensures
            r == self.spec_local_authority(),
    {
        let mut i: usize = 0;
        while i < self.authorities.len()
            invariant
                i <= self.authorities@.len(),
                first_local_authority(self.authorities@, self.local_keys@, i as nat) is None,
            decreases self.authorities@.len() - i,
        {
            let id = self.authorities[i].0;
            let mut k: usize = 0;
            while k < self.local_keys.len()
                invariant
                    k <= self.local_keys@.len(),
                    forall|m: int| 0 <= m < k ==> self.local_keys@[m] != id,
                    i < self.authorities@.len(),
                    id == self.authorities@[i as int].0,
                    first_local_authority(self.authorities@, self.local_keys@, i as nat) is None,
                decreases self.local_keys@.len() - k,
            {
                if bytes32_eq(&self.local_keys[k], &id) {
                    assert(self.local_keys@.contains(id));
                    proof {
                        lemma_first_local_extend(
                            self.authorities@,
                            self.local_keys@,
                            i as nat,
                            self.authorities@.len(),
                        );
                    }
                    return Some(id);
                }
                k += 1;
            }
            assert(!self.local_keys@.contains(id));
            i += 1;
        }
        None
    }

    /// Raises the last voted view to the current view (a node stops voting in
    /// a view it timed out in).
    pub fn increase_last_voted_view(&mut self)
        ensures
            final(self).spec_last_voted_view() == (if old(self).spec_last_voted_view()
                >= old(self).spec_view() {
                old(self).spec_last_voted_view()
            } else {
                old(self).spec_view()
            }),
            final(self).spec_view() == old(self).spec_view(),
            final(self).spec_authorities() == old(self).spec_authorities(),
            final(self).spec_local_keys() == old(self).spec_local_keys(),
            final(self).spec_high_qc_view() == old(self).spec_high_qc_view(),
            final(self).spec_high_qc_hash() == old(self).spec_high_qc_hash(),
            final(self).spec_high_qc_votes() == old(self).spec_high_qc_votes(),
            final(self).spec_aggregator() == old(self).spec_aggregator(),
    {
        if self.view > self.last_voted_view {
            self.last_voted_view = self.view;
        }
    }

    /// A timeout for the current view carrying the highest certificate. It is
    /// returned unsigned: the caller signs its digest with the key of `voter`.
    pub fn make_timeout(&self) -> (r: Result<Timeout, HotstuffError>)
        ensures
            match self.spec_local_authority() {
                None => r == Err::<Timeout, HotstuffError>(HotstuffError::NotAuthority),
                Some(id) => r is Ok && {
                    let t = r->Ok_0;
                    &&& t.view == self.spec_view()
                    &&& t.voter == id
                    &&& t.signature is None
                    &&& t.high_qc.view == self.spec_high_qc_view()
                    &&& t.high_qc.proposal_hash == self.spec_high_qc_hash()
                    &&& t.high_qc.votes@ == self.spec_high_qc_votes()
                },
            },
    {
        let authority_id = match self.local_authority_id() {
            None => {
                return Err(HotstuffError::NotAuthority);
            },
            Some(id) => id,
        };
        Ok(Timeout {
            high_qc: copy_qc(&self.high_qc),
            view: self.view,
            voter: authority_id,
            signature: None,
        })
    }

    /// A proposal for the current view, on top of the highest certificate. It
    /// is returned unsigned: the caller signs its digest with the key of `author`.
    pub fn make_proposal(&self, payload: Payload, tc: Option<TC>) -> (r: Result<
        Proposal,
        HotstuffError,
    >)
        ensures
            match self.spec_local_authority() {
                None => r == Err::<Proposal, HotstuffError>(HotstuffError::NotAuthority),
                Some(id) => r is Ok && {
                    let p = r->Ok_0;
                    &&& p.view == self.spec_view()
                    &&& p.author == id
                    &&& p.signature is None
                    &&& p.payload == payload
                    &&& p.tc == tc
                    &&& p.qc.view == self.spec_high_qc_view()
                    &&& p.qc.proposal_hash == self.spec_high_qc_hash()
                    &&& p.qc.votes@ == self.spec_high_qc_votes()
                },
            },
    {
        let author_id = match self.local_authority_id() {
            None => {
                return Err(HotstuffError::NotAuthority);
            },
            Some(id) => id,
        };
        Ok(Proposal::new(copy_qc(&self.high_qc), tc, payload, self.view, author_id, None))
    }

    /// Votes for a proposal of a view later than the last one voted in, and
    /// records that view; refuses otherwise, and when the node is no authority.
    /// The vote is returned unsigned: the caller signs its digest with the key
    /// of `voter`.
    pub fn make_vote(&mut self, proposal: &Proposal) -> (r: Option<Vote>)
        ensures
            vote_made(*old(self), *final(self), *proposal, r),
            final(self).spec_view() == old(self).spec_view(),
            final(self).spec_authorities() == old(self).spec_authorities(),
            final(self).spec_local_keys() == old(self).spec_local_keys(),
            final(self).spec_high_qc_view() == old(self).spec_high_qc_view(),
            final(self).spec_high_qc_hash() == old(self).spec_high_qc_hash(),
            final(self).spec_high_qc_votes() == old(self).spec_high_qc_votes(),
            final(self).spec_aggregator() == old(self).spec_aggregator(),
            old(self).spec_local_authority() is None || proposal.view
                <= old(self).spec_last_voted_view() ==> {
                &&& r is None
                &&& final(self).spec_last_voted_view() == old(self).spec_last_voted_view()
            },
            old(self).spec_local_authority() is Some && proposal.view
                > old(self).spec_last_voted_view() ==> {
                &&& r is Some
                &&& final(self).spec_last_voted_view() == proposal.view
                &&& r->Some_0.view == proposal.view
                &&& r->Some_0.voter == old(self).spec_local_authority()->Some_0
                &&& r->Some_0.signature is None
                &&& r->Some_0.proposal_hash@ == proposal_digest_of(
                    proposal.author,
                    proposal.payload,
                    proposal.view,
                    proposal.qc.proposal_hash,
                )
            },
    {
        let author_id = match self.local_authority_id() {
            None => {
                return None;
            },
            Some(id) => id,
        };
        if proposal.view <= self.last_voted_view {
            return None;
        }
        self.last_voted_view = proposal.view;
        Some(Vote::new(proposal.digest(), proposal.view, author_id))
    }

    /// The current view.
    pub fn view(&self) -> (r: ViewNumber)
        ensures
            r == self.spec_view(),
    {
        self.view
    }

    /// The last view the node voted (or timed out) in.
    pub fn last_voted_view(&self) -> (r: ViewNumber)
        ensures
            r == self.spec_last_voted_view(),
    {
        self.last_voted_view
    }

    /// The view of the highest certificate.
    pub fn high_qc_view(&self) -> (r: ViewNumber)
        ensures
            r == self.spec_high_qc_view(),
    {
        self.high_qc.view
    }

    /// The authorities of the current set.
    pub fn authorities(&self) -> (r: &AuthorityList)
        ensures
            r@ == self.spec_authorities(),
    {
        &self.authorities
    }

    /// Checks a timeout against the authorities.
    pub fn verify_timeout(&self, timeout: &Timeout) -> (r: Result<(), HotstuffError>)
        ensures
            r == timeout_verdict(self.spec_authorities(), *timeout),
            r == (match signed_check(
                self.spec_authorities(),
                timeout.voter,
                timeout.signature,
                timeout_digest_of(timeout.view, timeout.high_qc.view),
            ) {
                Err(e) => Err(e),
                Ok(()) => if crate::hotstuff_message::is_genesis_qc(
                    timeout.high_qc.proposal_hash,
                    timeout.high_qc.view,
                ) {
                    Ok(())
                } else {
                    crate::hotstuff_message::qc_check(
                        timeout.high_qc.proposal_hash,
                        timeout.high_qc.view,
                        timeout.high_qc.votes@,
                        self.spec_authorities().len(),
                    )
                },
            }),
    {
        timeout.verify(&self.authorities)
    }

    /// Checks that a proposal comes from the leader of its view, then checks
    /// it against the authorities.
    pub fn verify_proposal(&self, proposal: &Proposal) -> (r: Result<(), HotstuffError>)
        requires
            self.spec_authorities().len() > 0,
        ensures
            r == proposal_verdict(self.spec_authorities(), *proposal),
            proposal.author != leader_of(self.spec_authorities(), proposal.view) ==> r == Err::<
                (),
                HotstuffError,
            >(HotstuffError::WrongProposer),
            proposal.author == leader_of(self.spec_authorities(), proposal.view) ==> r == (
            match signed_check(
                self.spec_authorities(),
                proposal.author,
                proposal.signature,
                proposal_digest_of(
                    proposal.author,
                    proposal.payload,
                    proposal.view,
                    proposal.qc.proposal_hash,
                ),
            ) {
                Err(e) => Err(e),
                Ok(()) => if crate::hotstuff_message::is_genesis_qc(
                    proposal.qc.proposal_hash,
                    proposal.qc.view,
                ) {
                    Ok(())
                } else {
                    crate::hotstuff_message::qc_check(
                        proposal.qc.proposal_hash,
                        proposal.qc.view,
                        proposal.qc.votes@,
                        self.spec_authorities().len(),
                    )
                },
            }),
    {
        let leader = self.view_leader(proposal.view);
        if !bytes32_eq(&proposal.author, &leader) {
            return Err(HotstuffError::WrongProposer);
        }
        proposal.verify(&self.authorities)
    }

    /// Refuses votes for views older than the current one, then checks the
    /// vote against the authorities.
    pub fn verify_vote(&self, vote: &Vote) -> (r: Result<(), HotstuffError>)
        ensures
            r == vote_verdict(self.spec_authorities(), self.spec_view(), *vote),
            vote.view < self.spec_view() ==> r == Err::<(), HotstuffError>(
                HotstuffError::ExpiredVote,
            ),
            vote.view >= self.spec_view() ==> r == signed_check(
                self.spec_authorities(),
                vote.voter,
                vote.signature,
                vote_digest_of(vote.proposal_hash, vote.view),
            ),
    {
        if vote.view < self.view {
            return Err(HotstuffError::ExpiredVote);
        }
        vote.verify(&self.authorities)
    }

    /// Refuses timeout certificates for views older than the current one,
    /// then checks the certificate against the authorities.
    pub fn verify_tc(&self, tc: &TC) -> (r: Result<(), HotstuffError>)
        ensures
            r == tc_verdict(self.spec_authorities(), self.spec_view(), *tc),
            tc.view < self.spec_view() ==> r == Err::<(), HotstuffError>(
                HotstuffError::InvalidTC,
            ),
            tc.view >= self.spec_view() ==> r == tc_check(
                tc.view,
                tc.votes@,
                self.spec_authorities().len(),
            ),
    {
        if tc.view < self.view {
            return Err(HotstuffError::InvalidTC);
        }
        tc.verify(&self.authorities)
    }

    /// Adds a (verified) timeout to the aggregator; see `Aggregator::add_timeout`.
    pub fn add_timeout(&mut self, timeout: Timeout) -> (r: Result<Option<TC>, HotstuffError>)
        requires
            old(self).wf(),
        ensures
            final(self).wf(),
            final(self).spec_view() == old(self).spec_view(),
            final(self).spec_last_voted_view() == old(self).spec_last_voted_view(),
            final(self).spec_authorities() == old(self).spec_authorities(),
            final(self).spec_local_keys() == old(self).spec_local_keys(),
            final(self).spec_high_qc_view() == old(self).spec_high_qc_view(),
            final(self).spec_high_qc_hash() == old(self).spec_high_qc_hash(),
            final(self).spec_high_qc_votes() == old(self).spec_high_qc_votes(),
            forall|v: ViewNumber| v != timeout.view ==> #[trigger] final(self).spec_aggregator().timeouts_for(v)
                == old(self).spec_aggregator().timeouts_for(v),
            forall|v: ViewNumber, e: H256| #[trigger] final(self).spec_aggregator().votes_for(v, e)
                == old(self).spec_aggregator().votes_for(v, e),
            ({
                let before = old(self).spec_aggregator().timeouts_for(timeout.view);
                let after = final(self).spec_aggregator().timeouts_for(timeout.view);
                &&& tc_voters(before).contains(timeout.voter) ==> {
                    &&& r == Err::<Option<TC>, HotstuffError>(
                        HotstuffError::AuthorityReuse(timeout.voter),
                    )
                    &&& after == before
                }
                &&& !tc_voters(before).contains(timeout.voter) && timeout.signature is None ==> {
                    &&& r == Err::<Option<TC>, HotstuffError>(HotstuffError::NullSignature)
                    &&& after == before
                }
                &&& !tc_voters(before).contains(timeout.voter) && timeout.signature is Some ==> {
                    &&& after == before.push(
                        (timeout.voter, timeout.signature->Some_0, timeout.view),
                    )
                    &&& r is Ok
                    &&& (r->Ok_0 is Some <==> after.len() >= quorum_threshold(
                        old(self).spec_authorities().len(),
                    ))
                    &&& r->Ok_0 is Some ==> {
                        &&& r->Ok_0->Some_0.view == timeout.view
                        &&& r->Ok_0->Some_0.votes@ == after
                    }
                }
            }),
    {
        self.aggregator.add_timeout(timeout, &self.authorities)
    }

    /// Adds a (verified) vote to the aggregator; see `Aggregator::add_vote`.
    pub fn add_vote(&mut self, vote: Vote) -> (r: Result<Option<QC>, HotstuffError>)
        requires
            old(self).wf(),
        ensures
            final(self).wf(),
            final(self).spec_view() == old(self).spec_view(),
            final(self).spec_last_voted_view() == old(self).spec_last_voted_view(),
            final(self).spec_authorities() == old(self).spec_authorities(),
            final(self).spec_local_keys() == old(self).spec_local_keys(),
            final(self).spec_high_qc_view() == old(self).spec_high_qc_view(),
            final(self).spec_high_qc_hash() == old(self).spec_high_qc_hash(),
            final(self).spec_high_qc_votes() == old(self).spec_high_qc_votes(),
            forall|v: ViewNumber| #[trigger] final(self).spec_aggregator().timeouts_for(v)
                == old(self).spec_aggregator().timeouts_for(v),
            ({
                let d = crate::aggregator::vote_digest_key(vote);
                let before = old(self).spec_aggregator().votes_for(vote.view, d);
                let after = final(self).spec_aggregator().votes_for(vote.view, d);
                &&& forall|v: ViewNumber, e: H256|
                    !(v == vote.view && e == d) ==> #[trigger] final(self).spec_aggregator().votes_for(v, e)
                        == old(self).spec_aggregator().votes_for(v, e)
                &&& qc_voters(before).contains(vote.voter) ==> {
                    &&& r == Err::<Option<QC>, HotstuffError>(
                        HotstuffError::AuthorityReuse(vote.voter),
                    )
                    &&& after == before
                }
                &&& !qc_voters(before).contains(vote.voter) && vote.signature is None ==> {
                    &&& r == Err::<Option<QC>, HotstuffError>(HotstuffError::NullSignature)
                    &&& after == before
                }
                &&& !qc_voters(before).contains(vote.voter) && vote.signature is Some ==> {
                    &&& after == before.push((vote.voter, vote.signature->Some_0))
                    &&& r is Ok
                    &&& (r->Ok_0 is Some <==> after.len() >= quorum_threshold(
                        old(self).spec_authorities().len(),
                    ))
                    &&& r->Ok_0 is Some ==> {
                        &&& r->Ok_0->Some_0.proposal_hash == vote.proposal_hash
                        &&& r->Ok_0->Some_0.view == vote.view
                        &&& r->Ok_0->Some_0.votes@ == after
                    }
                }
            }),
    {
        self.aggregator.add_vote(vote, &self.authorities)
    }

    /// Keeps `qc` as the highest certificate when it is of a later view.
    pub fn update_high_qc(&mut self, qc: &QC)
        ensures
            qc.view > old(self).spec_high_qc_view() ==> {
                &&& final(self).spec_high_qc_view() == qc.view
                &&& final(self).spec_high_qc_hash() == qc.proposal_hash
                &&& final(self).spec_high_qc_votes() == qc.votes@
            },
            qc.view <= old(self).spec_high_qc_view() ==> {
                &&& final(self).spec_high_qc_view() == old(self).spec_high_qc_view()
                &&& final(self).spec_high_qc_hash() == old(self).spec_high_qc_hash()
                &&& final(self).spec_high_qc_votes() == old(self).spec_high_qc_votes()
            },
            final(self).spec_view() == old(self).spec_view(),
            final(self).spec_last_voted_view() == old(self).spec_last_voted_view(),
            final(self).spec_authorities() == old(self).spec_authorities(),
            final(self).spec_local_keys() == old(self).spec_local_keys(),
            final(self).spec_aggregator() == old(self).spec_aggregator(),
    {
        if qc.view > self.high_qc.view {
            self.high_qc = copy_qc(qc);
        }
    }

    /// Moves to the view after `view` when the current view is not beyond
    /// `view` (i.e. `view + 1` when `view` is at least the current view).
    pub fn advance_view_from_target(&mut self, view: ViewNumber)
        requires
            !(old(self).spec_view() == u64::MAX && view == u64::MAX),
        ensures
            final(self).spec_view() == (if old(self).spec_view() >= view {
                (view + 1) as u64
            } else {
                old(self).spec_view()
            }),
            final(self).spec_last_voted_view() == old(self).spec_last_voted_view(),
            final(self).spec_authorities() == old(self).spec_authorities(),
            final(self).spec_local_keys() == old(self).spec_local_keys(),
            final(self).spec_high_qc_view() == old(self).spec_high_qc_view(),
            final(self).spec_high_qc_hash() == old(self).spec_high_qc_hash(),
            final(self).spec_high_qc_votes() == old(self).spec_high_qc_votes(),
            final(self).spec_aggregator() == old(self).spec_aggregator(),
    {
        if self.view >= view {
            self.view = view + 1;
        }
    }

    /// The leader of `view`.
    pub fn view_leader(&self, view: ViewNumber) -> (r: AuthorityId)
        requires
            self.spec_authorities().len() > 0,
        ensures
            r == leader_of(self.spec_authorities(), view),
    {
        let n: u64 = self.authorities.len() as u64;
        let idx: u64 = view % n;
        self.authorities[idx as usize].0
    }

    /// Whether the local node leads the current view.
    pub fn is_leader(&self) -> (r: bool)
        requires
            self.spec_authorities().len() > 0,
        ensures
            r == (self.spec_local_authority() == Some(
                leader_of(self.spec_authorities(), self.spec_view()),
            )),
    {
        let leader_id = self.view_leader(self.view);
        match self.local_authority_id() {
            Some(id) => bytes32_eq(&id, &leader_id),
            None => false,
        }
    }
}

/// Once the first local authority is found in a prefix, longer prefixes agree.
proof fn lemma_first_local_extend(
    authorities: Seq<(AuthorityId, u64)>,
    keys: Seq<AuthorityId>,
    i: nat,
    n: nat,
)
    requires
        i < n,
        first_local_authority(authorities, keys, i) is None,
        keys.contains(authorities[i as int].0),
    ensures
        first_local_authority(authorities, keys, n) == Some(authorities[i as int].0),
    decreases n - i,
{
    if n > i + 1 {
        lemma_first_local_extend(authorities, keys, i, (n - 1) as nat);
    }
}

} // verus!

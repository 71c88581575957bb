//! Decisions of the HotStuff worker: what a replica does with a proposal, a
//! vote, a timeout, a timeout certificate or a local timer tick, and which
//! block it proposes next. The worker's I/O (gossip, signing, the proposal
//! store, the client) is performed by the caller, who hands the results back.
use crate::aggregator::{quorum_threshold, vote_digest_key, Aggregator};
use crate::consensus::{
    copy_qc, leader_of, proposal_made, proposal_verdict, same_replica, tc_verdict,
    timeout_verdict, vote_verdict, ConsensusState,
};
use crate::hotstuff_message::{
    message_view, proposal_digest_of, ConsensusMessage, qc_voters, tc_voters, AuthorityList, HotstuffError, Payload, Proposal,
    Timeout, ViewNumber, Vote, QC, TC,
};
use crate::primitives::{blake2_256_of, bytes32_eq, hash_raw, AuthorityId, BlockNumber, H256};
use std::collections::VecDeque;
use vstd::prelude::*;
use vstd::string::StringSliceAdditionalSpecFns;

verus! {

/// A block waiting for finality.
#[derive(Debug, Clone, Copy, PartialEq, Eq)]
pub struct BlockInfo {
    pub hash: Option<H256>,
    pub number: BlockNumber,
}

/// Whether the client knows a block.
#[derive(Debug, Clone, Copy, PartialEq, Eq)]
pub enum BlockStatus {
    /// The block is imported.
    InChain,
    /// The block is unknown.
    Unknown,
}

/// Bytes of the name whose hash marks an empty payload.
pub open spec fn empty_payload_name() -> Seq<u8> {
    "hotstuff/empty_payload".spec_bytes()
}

/// The payload hash of a proposal that finalizes nothing.
pub open spec fn is_empty_payload_hash(h: H256) -> bool {
    h@ == blake2_256_of(empty_payload_name())
}

/// The payload hash of a proposal that finalizes nothing (`empty_payload_hash`
/// computes it).
pub open spec fn empty_payload() -> H256 {
    choose|h: H256| is_empty_payload_hash(h)
}

/// The payload hash of a proposal that finalizes nothing: the hash of
/// `"hotstuff/empty_payload"`.
pub fn empty_payload_hash() -> (r: H256)
    ensures
        is_empty_payload_hash(r),
        r == empty_payload(),
{
    let name: &str = "hotstuff/empty_payload";
    let r = hash_raw(name.as_bytes());
    proof {
        assert(is_empty_payload_hash(r));
        lemma_empty_payload_unique(r, empty_payload());
    }
    r
}

/// Index of the first block of `q[0..n]` above `finalized`.
pub open spec fn first_above(q: Seq<BlockInfo>, finalized: BlockNumber, n: nat) -> Option<int>
    decreases n,
{
    if n == 0 {
        None
    } else {
        match first_above(q, finalized, (n - 1) as nat) {
            Some(i) => Some(i),
            None => if q[n - 1].number > finalized {
                Some(n - 1)
            } else {
                None
            },
        }
    }
}

/// The payload built from a queued block (an unknown hash gives the empty payload).
pub open spec fn payload_of(info: BlockInfo) -> Payload {
    Payload {
        block_hash: match info.hash {
            Some(h) => h,
            None => empty_payload(),
        },
        block_number: info.number,
    }
}

/// Which block to propose next and the block then being processed, given the
/// block being processed, the last finalized number and the queue of blocks
/// waiting for finality (`None` when the queue cannot be read). With nothing
/// processed and nothing waiting, the empty payload is proposed.
pub open spec fn choose_payload(
    processing: Option<BlockInfo>,
    finalized: BlockNumber,
    queue: Option<Seq<BlockInfo>>,
) -> (Option<BlockInfo>, Option<Payload>) {
    match queue {
        None => (processing, None),
        Some(q) => match processing {
            Some(p) => if p.number > finalized {
                (processing, Some(Payload { block_hash: empty_payload(), block_number: p.number }))
            } else {
                match first_above(q, finalized, q.len()) {
                    Some(i) => (Some(q[i]), Some(payload_of(q[i]))),
                    None => (processing, Some(Payload { block_hash: empty_payload(), block_number: p.number })),
                }
            },
            None => if q.len() > 0 {
                (Some(q[0]), Some(payload_of(q[0])))
            } else {
                (None, Some(Payload { block_hash: empty_payload(), block_number: finalized }))
            },
        },
    }
}

/// Whether the two last proposed payloads were empty (the queue is read from
/// its end and stops at the first non-empty payload).
pub open spec fn two_trailing_empty(queue: Seq<H256>) -> bool {
    queue.len() >= 2 && is_empty_payload_hash(queue[queue.len() - 1]) && is_empty_payload_hash(
        queue[queue.len() - 2],
    )
}

/// Whether the grandparent of a proposal can be finalized: its child
/// directly follows it (consecutive views) and it carries a real block that
/// is not the last finalized one.
pub open spec fn finalizes_grandparent(
    parent_view: ViewNumber,
    grand_view: ViewNumber,
    grand_block: H256,
    finalized_hash: H256,
) -> bool {
    parent_view == grand_view + 1 && !is_empty_payload_hash(grand_block) && grand_block
        != finalized_hash
}

/// What to do after checking a proposal.
#[derive(Debug)]
pub enum ProposalCheck {
    /// The proposed block is unknown: ask the network for it and stop.
    SyncRequest(Payload),
    /// The proposal is accepted: save it, then call `after_proposal_saved`.
    Accepted { reset_timer: bool },
}

/// What handling a proposal ends with.
#[derive(Debug)]
pub enum ProposalHandling {
    /// The proposed block is unknown: ask the network for it.
    SyncRequest(Payload),
    /// The proposal was accepted and saved: reset the timer if asked, then
    /// finalize and vote as the follow-up says.
    Handled { reset_timer: bool, follow_up: ProposalFollowUp },
}

/// What to do once an accepted proposal is saved.
#[derive(Debug)]
pub struct ProposalFollowUp {
    /// A block that can now be finalized.
    pub finalize: Option<H256>,
    /// An (unsigned) vote for the proposal.
    pub vote: Option<Vote>,
    /// Whether the local node leads the next view and handles its own vote
    /// (otherwise the vote is sent on the network).
    pub vote_locally: bool,
}

/// What to do after handling a vote.
#[derive(Debug)]
pub struct VoteOutcome {
    pub reset_timer: bool,
    /// An (unsigned) proposal to sign, send, and handle locally.
    pub propose: Option<Proposal>,
}

/// What to do after handling a timeout or a timeout certificate.
#[derive(Debug)]
pub struct TimeoutOutcome {
    pub reset_timer: bool,
    /// A timeout certificate to send on the network.
    pub gossip_tc: Option<TC>,
    /// An (unsigned) proposal to sign, send, and handle locally.
    pub propose: Option<Proposal>,
}

/// Copies a timeout certificate.
pub fn copy_tc(tc: &TC) -> (r: TC)
    ensures
        r.view == tc.view,
        r.votes@ == tc.votes@,
{
    let mut votes: Vec<(AuthorityId, crate::primitives::AuthoritySignature, ViewNumber)> =
        Vec::new();
    let mut i: usize = 0;
    while i < tc.votes.len()
        invariant
            i <= tc.votes@.len(),
            votes@ == tc.votes@.subrange(0, i as int),
        decreases tc.votes@.len() - i,
    {
        votes.push(tc.votes[i]);
        i += 1;
        assert(votes@ =~= tc.votes@.subrange(0, i as int));
    }
    assert(votes@ =~= tc.votes@);
    TC { view: tc.view, votes }
}

/// The view reached from `view` on a certificate of view `cert_view`: a
/// certificate of the current view moves to the next one, any other leaves the
/// view unchanged (`ConsensusState::advance_view_from_target`).
pub open spec fn view_after_cert(view: ViewNumber, cert_view: ViewNumber) -> ViewNumber {
    if cert_view == view {
        (view + 1) as u64
    } else {
        view
    }
}

/// A certificate never moves the view back, and moves it forward by at most
/// one.
pub proof fn lemma_view_moves_forward_by_one(view: ViewNumber, cert_view: ViewNumber)
    requires
        view < u64::MAX,
    ensures
        view <= view_after_cert(view, cert_view) <= view + 1,
{
}

/// The highest certificate of `after` is the one of view `qc_view` when that
/// certificate is not older than the view of `before` and is higher than its
/// highest certificate, and that of `before` otherwise.
pub open spec fn high_qc_applied(
    before: ConsensusState,
    after: ConsensusState,
    qc_view: ViewNumber,
    qc_hash: H256,
    qc_votes: Seq<(AuthorityId, crate::primitives::AuthoritySignature)>,
) -> bool {
    if qc_view >= before.spec_view() && qc_view > before.spec_high_qc_view() {
        &&& after.spec_high_qc_view() == qc_view
        &&& after.spec_high_qc_hash() == qc_hash
        &&& after.spec_high_qc_votes() == qc_votes
    } else {
        &&& after.spec_high_qc_view() == before.spec_high_qc_view()
        &&& after.spec_high_qc_hash() == before.spec_high_qc_hash()
        &&& after.spec_high_qc_votes() == before.spec_high_qc_votes()
    }
}

/// The authorities, the local keys and the last voted view agree.
pub open spec fn same_identity(before: ConsensusState, after: ConsensusState) -> bool {
    &&& after.spec_authorities() == before.spec_authorities()
    &&& after.spec_local_keys() == before.spec_local_keys()
    &&& after.spec_last_voted_view() == before.spec_last_voted_view()
}

/// How a certificate of view `qc_view` moves a replica from `before` to
/// `after` (`ConsensusWorker::handle_qc`).
pub open spec fn qc_applied(
    before: ConsensusState,
    after: ConsensusState,
    qc_view: ViewNumber,
    qc_hash: H256,
    qc_votes: Seq<(AuthorityId, crate::primitives::AuthoritySignature)>,
) -> bool {
    &&& same_identity(before, after)
    &&& after.spec_view() == view_after_cert(before.spec_view(), qc_view)
    &&& high_qc_applied(before, after, qc_view, qc_hash, qc_votes)
}

/// Whether the local node of `s` leads the current view of `s`.
pub open spec fn leads(s: ConsensusState) -> bool {
    s.spec_local_authority() == Some(leader_of(s.spec_authorities(), s.spec_view()))
}

/// What adding a (verified) vote to `agg` gives, for a set of `n` authorities:
/// an error, no certificate yet, or the votes of a new certificate.
pub open spec fn vote_outcome(agg: Aggregator, vote: Vote, n: nat) -> Result<
    Option<Seq<(AuthorityId, crate::primitives::AuthoritySignature)>>,
    HotstuffError,
> {
    let before = agg.votes_for(vote.view, vote_digest_key(vote));
    if qc_voters(before).contains(vote.voter) {
        Err(HotstuffError::AuthorityReuse(vote.voter))
    } else if vote.signature is None {
        Err(HotstuffError::NullSignature)
    } else {
        let after = before.push((vote.voter, vote.signature->Some_0));
        if after.len() >= quorum_threshold(n) {
            Ok(Some(after))
        } else {
            Ok(None)
        }
    }
}

/// `after` is `before` with a vote recorded.
pub open spec fn vote_recorded(before: Aggregator, after: Aggregator, vote: Vote) -> bool {
    let d = vote_digest_key(vote);
    &&& after.votes_for(vote.view, d) == before.votes_for(vote.view, d).push(
        (vote.voter, vote.signature->Some_0),
    )
    &&& forall|v: ViewNumber, e: H256|
        !(v == vote.view && e == d) ==> #[trigger] after.votes_for(v, e) == before.votes_for(v, e)
    &&& forall|v: ViewNumber| #[trigger] after.timeouts_for(v) == before.timeouts_for(v)
}

/// What adding a (verified) timeout to `agg` gives, for a set of `n`
/// authorities: an error, no certificate yet, or the votes of a new timeout
/// certificate.
pub open spec fn timeout_outcome(agg: Aggregator, t: Timeout, n: nat) -> Result<
    Option<Seq<(AuthorityId, crate::primitives::AuthoritySignature, ViewNumber)>>,
    HotstuffError,
> {
    let before = agg.timeouts_for(t.view);
    if tc_voters(before).contains(t.voter) {
        Err(HotstuffError::AuthorityReuse(t.voter))
    } else if t.signature is None {
        Err(HotstuffError::NullSignature)
    } else {
        let after = before.push((t.voter, t.signature->Some_0, t.view));
        if after.len() >= quorum_threshold(n) {
            Ok(Some(after))
        } else {
            Ok(None)
        }
    }
}

/// `after` is `before` with a timeout recorded.
pub open spec fn timeout_recorded(before: Aggregator, after: Aggregator, t: Timeout) -> bool {
    &&& after.timeouts_for(t.view) == before.timeouts_for(t.view).push(
        (t.voter, t.signature->Some_0, t.view),
    )
    &&& forall|v: ViewNumber| v != t.view ==> #[trigger] after.timeouts_for(v) == before.timeouts_for(v)
    &&& forall|v: ViewNumber, e: H256| #[trigger] after.votes_for(v, e) == before.votes_for(v, e)
}

/// The block that a proposal lets the node finalize, given the views of its
/// parent and grandparent and the grandparent's block (`None` when they could
/// not be read), and the last finalized block.
pub open spec fn block_to_finalize(
    ancestors: Option<(ViewNumber, ViewNumber, H256)>,
    finalized_hash: H256,
) -> Option<H256> {
    match ancestors {
        Some((parent_view, grand_view, grand_block)) => if finalizes_grandparent(
            parent_view,
            grand_view,
            grand_block,
            finalized_hash,
        ) {
            Some(grand_block)
        } else {
            None
        },
        None => None,
    }
}

/// The queue of blocks waiting for finality as a sequence (`None` when it
/// cannot be read).
pub open spec fn queue_view(queue: Option<&VecDeque<BlockInfo>>) -> Option<Seq<BlockInfo>> {
    match queue {
        Some(q) => Some(q@),
        None => None,
    }
}

/// The decision state of a HotStuff worker.
pub struct ConsensusWorker {
    state: ConsensusState,
    processing_block: Option<BlockInfo>,
    proposal_hash_queue: Vec<H256>,
}

impl ConsensusWorker {
    /// The replica state is well formed and the authority set is not empty.
    pub closed spec fn wf(&self) -> bool {
        self.state.wf() && self.state.spec_authorities().len() > 0
    }

    pub closed spec fn spec_state(&self) -> ConsensusState {
        self.state
    }

    pub closed spec fn spec_processing(&self) -> Option<BlockInfo> {
        self.processing_block
    }

    pub closed spec fn spec_proposal_hash_queue(&self) -> Seq<H256> {
        self.proposal_hash_queue@
    }

    /// A worker over a replica state, processing `pending_front` first (the
    /// front of the queue of blocks waiting for finality, if any).
    pub fn new(state: ConsensusState, pending_front: Option<BlockInfo>) -> (r: ConsensusWorker)
        requires
            state.wf(),
            state.spec_authorities().len() > 0,
        ensures
            r.wf(),
            r.spec_state() == state,
            r.spec_processing() == pending_front,
            r.spec_proposal_hash_queue().len() == 0,
    {
        ConsensusWorker { state, processing_block: pending_front, proposal_hash_queue: Vec::new() }
    }

    /// The replica state.
    pub fn state(&self) -> (r: &ConsensusState)
        ensures
            *r == self.spec_state(),
    {
        &self.state
    }

    /// The current view.
    pub fn view(&self) -> (r: ViewNumber)
        ensures
            r == self.spec_state().spec_view(),
    {
        self.state.view()
    }

    /// The block being processed.
    pub fn processing_block(&self) -> (r: Option<BlockInfo>)
        ensures
            r == self.spec_processing(),
    {
        self.processing_block
    }

    /// Moves the view forward from a certificate of view `view` and records
    /// the certificate, when it is not older than the current view. Returns
    /// whether the timer must be reset.
    pub fn handle_qc(&mut self, qc: &QC) -> (r: bool)
        requires
            old(self).wf(),
            !(qc.view == u64::MAX && old(self).spec_state().spec_view() == u64::MAX),
        ensures
            final(self).wf(),
            r == (qc.view >= old(self).spec_state().spec_view()),
            final(self).spec_processing() == old(self).spec_processing(),
            final(self).spec_proposal_hash_queue() == old(self).spec_proposal_hash_queue(),
            final(self).spec_state().spec_aggregator() == old(self).spec_state().spec_aggregator(),
            qc_applied(
                old(self).spec_state(),
                final(self).spec_state(),
                qc.view,
                qc.proposal_hash,
                qc.votes@,
            ),
    {
        if qc.view >= self.state.view() {
            self.state.advance_view_from_target(qc.view);
            self.state.update_high_qc(qc);
            true
        } else {
            false
        }
    }

    /// Picks the payload of the next proposal (see `choose_payload`) and
    /// updates the block being processed accordingly. `queue` is the queue of
    /// blocks waiting for finality, `None` when it cannot be read.
    pub fn get_proposal_payload(
        &mut self,
        finalized_number: BlockNumber,
        queue: Option<&VecDeque<BlockInfo>>,
    ) -> (r: Option<Payload>)
        ensures
            final(self).spec_state() == old(self).spec_state(),
            final(self).spec_proposal_hash_queue() == old(self).spec_proposal_hash_queue(),
            (final(self).spec_processing(), r) == choose_payload(
                old(self).spec_processing(),
                finalized_number,
                queue_view(queue),
            ),
    {
        let empty = empty_payload_hash();
        let q = match queue {
            None => {
                return None;
            },
            Some(q) => q,
        };
        match self.processing_block {
            Some(processing) => {
                if processing.number > finalized_number {
                    return Some(Payload { block_hash: empty, block_number: processing.number });
                }
                let mut i: usize = 0;
                while i < q.len()
                    invariant
                        i <= q@.len(),
                        first_above(q@, finalized_number, i as nat) is None,
                        empty == empty_payload(),
                        queue == Some(q),
                        self.state == old(self).state,
                        self.proposal_hash_queue@ == old(self).proposal_hash_queue@,
                        self.processing_block == old(self).processing_block,
                        old(self).processing_block == Some(processing),
                        processing.number <= finalized_number,
                    decreases q@.len() - i,
                {
                    if q[i].number > finalized_number {
                        proof {
                            lemma_first_above_extend(
                                q@,
                                finalized_number,
                                i as nat,
                                q@.len(),
                            );
                        }
                        let find = q[i];
                        self.processing_block = Some(find);
                        let block_hash = match find.hash {
                            Some(h) => h,
                            None => empty,
                        };
                        return Some(Payload { block_hash, block_number: find.number });
                    }
                    i += 1;
                }
                Some(Payload { block_hash: empty, block_number: processing.number })
            },
            None => {
                if q.len() > 0 {
                    let info = q[0];
                    self.processing_block = Some(info);
                    let block_hash = match info.hash {
                        Some(h) => h,
                        None => empty,
                    };
                    Some(Payload { block_hash, block_number: info.number })
                } else {
                    Some(Payload { block_hash: empty, block_number: finalized_number })
                }
            },
        }
    }

    /// First half of handling a proposal: a proposal of a real block that the
    /// client does not know (`payload_status` is the client's answer for that
    /// block, unused for an empty payload) gives a sync request; an accepted
    /// proposal moves the replica by its certificate. The proposal is then
    /// saved and `after_proposal_saved` follows (`handle_proposal` runs the
    /// whole handling).
    pub fn check_proposal(
        &mut self,
        proposal: &Proposal,
        payload_status: Result<BlockStatus, String>,
    ) -> (r: Result<ProposalCheck, HotstuffError>)
        requires
            old(self).wf(),
            !(proposal.qc.view == u64::MAX && old(self).spec_state().spec_view() == u64::MAX),
        ensures
            final(self).wf(),
            final(self).spec_processing() == old(self).spec_processing(),
            final(self).spec_proposal_hash_queue() == old(self).spec_proposal_hash_queue(),
            final(self).spec_state().spec_aggregator() == old(self).spec_state().spec_aggregator(),
            ({
                let known = is_empty_payload_hash(proposal.payload.block_hash)
                    || payload_status == Ok::<BlockStatus, String>(BlockStatus::InChain);
                let verdict = proposal_verdict(old(self).spec_state().spec_authorities(), *proposal);
                &&& !is_empty_payload_hash(proposal.payload.block_hash) && payload_status is Err
                    ==> {
                    &&& r == Err::<ProposalCheck, HotstuffError>(
                        HotstuffError::ClientError(payload_status->Err_0),
                    )
                    &&& same_replica(old(self).spec_state(), final(self).spec_state())
                }
                &&& !is_empty_payload_hash(proposal.payload.block_hash) && payload_status == Ok::<
                    BlockStatus,
                    String,
                >(BlockStatus::Unknown) ==> {
                    &&& r == Ok::<ProposalCheck, HotstuffError>(
                        ProposalCheck::SyncRequest(proposal.payload),
                    )
                    &&& same_replica(old(self).spec_state(), final(self).spec_state())
                }
                &&& known && verdict is Err ==> {
                    &&& r == Err::<ProposalCheck, HotstuffError>(verdict->Err_0)
                    &&& same_replica(old(self).spec_state(), final(self).spec_state())
                }
                &&& known && verdict is Ok ==> {
                    &&& qc_applied(
                        old(self).spec_state(),
                        final(self).spec_state(),
                        proposal.qc.view,
                        proposal.qc.proposal_hash,
                        proposal.qc.votes@,
                    )
                    &&& r == Ok::<ProposalCheck, HotstuffError>(
                        ProposalCheck::Accepted {
                            reset_timer: proposal.qc.view >= old(self).spec_state().spec_view()
                                || (proposal.tc is Some && proposal.tc->Some_0.view > final(self).spec_state().spec_view()),
                        },
                    )
                }
            }),
    {
        let empty = empty_payload_hash();
        proof {
            if is_empty_payload_hash(proposal.payload.block_hash) {
                lemma_empty_payload_unique(proposal.payload.block_hash, empty);
            }
        }
        if !bytes32_eq(&proposal.payload.block_hash, &empty) {
            match payload_status {
                Ok(BlockStatus::Unknown) => {
                    return Ok(ProposalCheck::SyncRequest(proposal.payload));
                },
                Ok(BlockStatus::InChain) => {},
                Err(e) => {
                    return Err(HotstuffError::ClientError(e));
                },
            }
        }
        match self.state.verify_proposal(proposal) {
            Err(e) => {
                return Err(e);
            },
            Ok(()) => {},
        }
        let mut reset_timer = self.handle_qc(&proposal.qc);
        match &proposal.tc {
            Some(tc) => {
                if tc.view > self.state.view() {
                    // A certificate of a later view leaves the view as it is
                    // (see `ConsensusState::advance_view_from_target`).
                    self.state.advance_view_from_target(tc.view);
                    reset_timer = true;
                }
            },
            None => {},
        }
        Ok(ProposalCheck::Accepted { reset_timer })
    }

    /// Second half of handling a proposal, once it is saved: which block can
    /// be finalized (from the views of the proposal's parent and grandparent
    /// and the grandparent's block, `None` when they could not be read), and,
    /// for a proposal of the current view, the vote (recorded in the queue of
    /// proposed payloads, with its block as the one being processed).
    pub fn after_proposal_saved(
        &mut self,
        proposal: &Proposal,
        ancestors: Option<(ViewNumber, ViewNumber, H256)>,
        finalized_hash: H256,
    ) -> (r: ProposalFollowUp)
        requires
            old(self).wf(),
            old(self).spec_state().spec_view() < u64::MAX,
        ensures
            final(self).wf(),
            r.finalize == block_to_finalize(ancestors, finalized_hash),
            final(self).spec_state().spec_view() == old(self).spec_state().spec_view(),
            final(self).spec_state().spec_authorities() == old(self).spec_state().spec_authorities(),
            final(self).spec_state().spec_local_keys() == old(self).spec_state().spec_local_keys(),
            final(self).spec_state().spec_high_qc_view() == old(self).spec_state().spec_high_qc_view(),
            final(self).spec_state().spec_high_qc_hash() == old(self).spec_state().spec_high_qc_hash(),
            final(self).spec_state().spec_high_qc_votes() == old(self).spec_state().spec_high_qc_votes(),
            final(self).spec_state().spec_aggregator() == old(self).spec_state().spec_aggregator(),
            ({
                let s = old(self).spec_state();
                let votes = proposal.view == s.spec_view() && s.spec_local_authority() is Some
                    && proposal.view > s.spec_last_voted_view();
                &&& !votes ==> {
                    &&& r.vote is None
                    &&& !r.vote_locally
                    &&& final(self).spec_state().spec_last_voted_view() == s.spec_last_voted_view()
                    &&& final(self).spec_processing() == old(self).spec_processing()
                    &&& final(self).spec_proposal_hash_queue() == old(self).spec_proposal_hash_queue()
                }
                &&& votes ==> {
                    &&& r.vote is Some
                    &&& r.vote->Some_0.view == proposal.view
                    &&& r.vote->Some_0.voter == s.spec_local_authority()->Some_0
                    &&& r.vote->Some_0.signature is None
                    &&& r.vote->Some_0.proposal_hash@ == proposal_digest_of(
                        proposal.author,
                        proposal.payload,
                        proposal.view,
                        proposal.qc.proposal_hash,
                    )
                    &&& final(self).spec_state().spec_last_voted_view() == proposal.view
                    &&& final(self).spec_proposal_hash_queue() == old(self).spec_proposal_hash_queue().push(proposal.payload.block_hash)
                    &&& final(self).spec_processing() == Some(
                        BlockInfo {
                            hash: Some(proposal.payload.block_hash),
                            number: proposal.payload.block_number,
                        },
                    )
                    &&& r.vote_locally == (s.spec_local_authority() == Some(
                        leader_of(s.spec_authorities(), (s.spec_view() + 1) as u64),
                    ))
                }
            }),
    {
        let empty = empty_payload_hash();
        let finalize = match ancestors {
            Some((parent_view, grand_view, grand_block)) => {
                proof {
                    if is_empty_payload_hash(grand_block) {
                        lemma_empty_payload_unique(grand_block, empty);
                    }
                }
                if grand_view < u64::MAX && parent_view == grand_view + 1 && !bytes32_eq(
                    &grand_block,
                    &empty,
                ) && !bytes32_eq(&grand_block, &finalized_hash) {
                    Some(grand_block)
                } else {
                    None
                }
            },
            None => None,
        };
        if proposal.view != self.state.view() {
            return ProposalFollowUp { finalize, vote: None, vote_locally: false };
        }
        match self.state.make_vote(proposal) {
            None => ProposalFollowUp { finalize, vote: None, vote_locally: false },
            Some(vote) => {
                self.proposal_hash_queue.push(proposal.payload.block_hash);
                self.processing_block = Some(
                    BlockInfo {
                        hash: Some(proposal.payload.block_hash),
                        number: proposal.payload.block_number,
                    },
                );
                let next_leader = self.state.view_leader(self.state.view() + 1);
                let vote_locally = match self.state.local_authority_id() {
                    Some(id) => bytes32_eq(&id, &next_leader),
                    None => false,
                };
                ProposalFollowUp { finalize, vote: Some(vote), vote_locally }
            },
        }
    }

    /// Handles a proposal from start to end: the check of `check_proposal`;
    /// for an accepted proposal, `save` stores it (its error is the result),
    /// `ancestors` reads the views of its parent and grandparent and the
    /// grandparent's block, and `after_proposal_saved` decides what to
    /// finalize (the grandparent's block, by the two-chain rule) and how to
    /// vote.
    pub fn handle_proposal<S, A>(
        &mut self,
        proposal: &Proposal,
        payload_status: Result<BlockStatus, String>,
        save: &S,
        ancestors: &A,
        finalized_hash: H256,
    ) -> (r: Result<ProposalHandling, HotstuffError>)
        where
            S: Fn(&Proposal) -> Result<(), HotstuffError>,
            A: Fn(&Proposal) -> Option<(ViewNumber, ViewNumber, H256)>,
        requires
            old(self).wf(),
            !(proposal.qc.view == u64::MAX && old(self).spec_state().spec_view() == u64::MAX),
            view_after_cert(old(self).spec_state().spec_view(), proposal.qc.view) < u64::MAX,
            forall|p: &Proposal| #[trigger] save.requires((p,)),
            forall|p: &Proposal| #[trigger] ancestors.requires((p,)),
        ensures
            final(self).wf(),
            ({
                let s = old(self).spec_state();
                let known = is_empty_payload_hash(proposal.payload.block_hash)
                    || payload_status == Ok::<BlockStatus, String>(BlockStatus::InChain);
                let verdict = proposal_verdict(s.spec_authorities(), *proposal);
                &&& !is_empty_payload_hash(proposal.payload.block_hash) && payload_status is Err ==> r
                    == Err::<ProposalHandling, HotstuffError>(HotstuffError::ClientError(payload_status->Err_0))
                &&& !is_empty_payload_hash(proposal.payload.block_hash) && payload_status == Ok::<
                    BlockStatus,
                    String,
                >(BlockStatus::Unknown) ==> r is Ok && r->Ok_0 == ProposalHandling::SyncRequest(proposal.payload)
                &&& !known ==> same_replica(s, final(self).spec_state())
                &&& known && verdict is Err ==> {
                    &&& r == Err::<ProposalHandling, HotstuffError>(verdict->Err_0)
                    &&& same_replica(s, final(self).spec_state())
                }
                &&& known && verdict is Ok ==> {
                    &&& final(self).spec_state().spec_view() == view_after_cert(s.spec_view(), proposal.qc.view)
                    &&& match r {
                        Err(e) => save.ensures((proposal,), Err::<(), HotstuffError>(e)),
                        Ok(ProposalHandling::SyncRequest(_)) => false,
                        Ok(ProposalHandling::Handled { reset_timer, follow_up }) => {
                            &&& save.ensures((proposal,), Ok::<(), HotstuffError>(()))
                            &&& reset_timer == (proposal.qc.view >= s.spec_view() || (proposal.tc is Some
                                && proposal.tc->Some_0.view > final(self).spec_state().spec_view()))
                            &&& exists|a: Option<(ViewNumber, ViewNumber, H256)>|
                                #[trigger] ancestors.ensures((proposal,), a)
                                && follow_up.finalize == block_to_finalize(a, finalized_hash)
                            &&& follow_up.vote is Some <==> (proposal.view == final(self).spec_state().spec_view()
                                && s.spec_local_authority() is Some && proposal.view > s.spec_last_voted_view())
                            &&& follow_up.vote is Some ==> {
                                &&& follow_up.vote->Some_0.view == proposal.view
                                &&& follow_up.vote->Some_0.voter == s.spec_local_authority()->Some_0
                                &&& follow_up.vote->Some_0.proposal_hash@ == proposal_digest_of(
                                    proposal.author,
                                    proposal.payload,
                                    proposal.view,
                                    proposal.qc.proposal_hash,
                                )
                            }
                        },
                    }
                }
            }),
    {
        let ghost status = payload_status;
        let check = self.check_proposal(proposal, payload_status);
        assert(!is_empty_payload_hash(proposal.payload.block_hash) && status is Err ==> same_replica(old(self).spec_state(), self.spec_state()));
        assert(!is_empty_payload_hash(proposal.payload.block_hash) && status is Ok && status->Ok_0 == BlockStatus::Unknown ==> same_replica(old(self).spec_state(), self.spec_state()));
        let reset_timer = match check {
            Err(e) => {
                return Err(e);
            },
            Ok(ProposalCheck::SyncRequest(payload)) => {
                return Ok(ProposalHandling::SyncRequest(payload));
            },
            Ok(ProposalCheck::Accepted { reset_timer }) => reset_timer,
        };
        let saved = save(proposal);
        let ghost sv = saved;
        match saved {
            Err(e) => {
                return Err(e);
            },
            Ok(()) => {},
        }
        assert(sv is Ok);
        assert(sv->Ok_0 == ());
        assert(sv == Ok::<(), HotstuffError>(()));
        let found = ancestors(proposal);
        let follow_up = self.after_proposal_saved(proposal, found, finalized_hash);
        Ok(ProposalHandling::Handled { reset_timer, follow_up })
    }

    /// Makes a proposal for the payload that `get_proposal_payload` picks,
    /// carrying `tc`; `None` when there is no payload to propose.
    pub fn generate_proposal(
        &mut self,
        finalized_number: BlockNumber,
        queue: Option<&VecDeque<BlockInfo>>,
        tc: Option<TC>,
    ) -> (r: Result<Option<Proposal>, HotstuffError>)
        requires
            old(self).wf(),
        ensures
            final(self).wf(),
            final(self).spec_state() == old(self).spec_state(),
            final(self).spec_proposal_hash_queue() == old(self).spec_proposal_hash_queue(),
            ({
                let s = old(self).spec_state();
                let (processing, payload) = choose_payload(
                    old(self).spec_processing(),
                    finalized_number,
                    queue_view(queue),
                );
                &&& final(self).spec_processing() == processing
                &&& payload is None ==> r == Ok::<Option<Proposal>, HotstuffError>(None)
                &&& payload is Some && s.spec_local_authority() is None ==> r == Err::<
                    Option<Proposal>,
                    HotstuffError,
                >(HotstuffError::NotAuthority)
                &&& payload is Some && s.spec_local_authority() is Some ==> {
                    &&& r is Ok
                    &&& r->Ok_0 is Some
                    &&& proposal_made(r->Ok_0->Some_0, s, payload->Some_0)
                    &&& r->Ok_0->Some_0.tc == tc
                }
            }),
    {
        match self.get_proposal_payload(finalized_number, queue) {
            None => Ok(None),
            Some(payload) => match self.state.make_proposal(payload, tc) {
                Err(e) => Err(e),
                Ok(proposal) => Ok(Some(proposal)),
            },
        }
    }

    /// Handles a vote: checks it, adds it to the aggregator and, on a new
    /// certificate, moves by it; the leader of the view then reached proposes
    /// the next payload, unless it would be the third empty payload in a row.
    /// `finalized_number` and `queue` are read as in `get_proposal_payload`.
    pub fn handle_vote(
        &mut self,
        vote: &Vote,
        finalized_number: BlockNumber,
        queue: Option<&VecDeque<BlockInfo>>,
    ) -> (r: Result<VoteOutcome, HotstuffError>)
        requires
            old(self).wf(),
            old(self).spec_state().spec_view() < u64::MAX,
        ensures
            final(self).wf(),
            ({
                let s = old(self).spec_state();
                let f = final(self).spec_state();
                let verdict = vote_verdict(s.spec_authorities(), s.spec_view(), *vote);
                let outcome = vote_outcome(s.spec_aggregator(), *vote, s.spec_authorities().len());
                let unchanged = final(self).spec_processing() == old(self).spec_processing()
                    && final(self).spec_proposal_hash_queue() == old(
                    self).spec_proposal_hash_queue();
                &&& verdict is Err ==> {
                    &&& r == Err::<VoteOutcome, HotstuffError>(verdict->Err_0)
                    &&& same_replica(s, f)
                    &&& unchanged
                }
                &&& verdict is Ok && outcome is Err ==> {
                    &&& r == Err::<VoteOutcome, HotstuffError>(outcome->Err_0)
                    &&& same_replica(s, f)
                    &&& unchanged
                }
                &&& verdict is Ok && outcome is Ok ==> vote_recorded(
                    s.spec_aggregator(),
                    f.spec_aggregator(),
                    *vote,
                )
                &&& verdict is Ok && outcome == Ok::<
                    Option<Seq<(AuthorityId, crate::primitives::AuthoritySignature)>>,
                    HotstuffError,
                >(None) ==> {
                    &&& r is Ok
                    &&& !r->Ok_0.reset_timer
                    &&& r->Ok_0.propose is None
                    &&& same_identity(s, f)
                    &&& f.spec_view() == s.spec_view()
                    &&& f.spec_high_qc_view() == s.spec_high_qc_view()
                    &&& f.spec_high_qc_hash() == s.spec_high_qc_hash()
                    &&& f.spec_high_qc_votes() == s.spec_high_qc_votes()
                    &&& unchanged
                }
                &&& verdict is Ok && outcome is Ok && outcome->Ok_0 is Some ==> {
                    &&& qc_applied(s, f, vote.view, vote.proposal_hash, outcome->Ok_0->Some_0)
                    &&& r is Ok
                    &&& r->Ok_0.reset_timer == (vote.view >= s.spec_view())
                    &&& !leads(f) ==> r->Ok_0.propose is None && unchanged
                    &&& leads(f) ==> {
                        let (processing, payload) = choose_payload(
                            old(self).spec_processing(),
                            finalized_number,
                            queue_view(queue),
                        );
                        let q = old(self).spec_proposal_hash_queue();
                        &&& final(self).spec_processing() == processing
                        &&& payload is None ==> {
                            &&& r->Ok_0.propose is None
                            &&& final(self).spec_proposal_hash_queue() == q
                        }
                        &&& payload is Some && two_trailing_empty(q) && is_empty_payload_hash(
                            payload->Some_0.block_hash,
                        ) ==> {
                            &&& r->Ok_0.propose is None
                            &&& final(self).spec_proposal_hash_queue() == q
                        }
                        &&& payload is Some && !(two_trailing_empty(q) && is_empty_payload_hash(
                            payload->Some_0.block_hash,
                        )) ==> {
                            &&& final(self).spec_proposal_hash_queue() == (if q.len() > 3 {
                                Seq::<H256>::empty()
                            } else {
                                q
                            }).push(payload->Some_0.block_hash)
                            &&& r->Ok_0.propose is Some
                            &&& proposal_made(r->Ok_0.propose->Some_0, f, payload->Some_0)
                            &&& r->Ok_0.propose->Some_0.tc is None
                        }
                    }
                }
            }),
    {
        match self.state.verify_vote(vote) {
            Err(e) => {
                return Err(e);
            },
            Ok(()) => {},
        }
        let v = Vote {
            proposal_hash: vote.proposal_hash,
            view: vote.view,
            voter: vote.voter,
            signature: vote.signature,
        };
        let qc = match self.state.add_vote(v) {
            Err(e) => {
                return Err(e);
            },
            Ok(None) => {
                return Ok(VoteOutcome { reset_timer: false, propose: None });
            },
            Ok(Some(qc)) => qc,
        };
        let reset_timer = self.handle_qc(&qc);
        if !self.state.is_leader() {
            return Ok(VoteOutcome { reset_timer, propose: None });
        }
        let payload = match self.get_proposal_payload(finalized_number, queue) {
            None => {
                return Ok(VoteOutcome { reset_timer, propose: None });
            },
            Some(p) => p,
        };
        let empty = empty_payload_hash();
        proof {
            let q = self.proposal_hash_queue@;
            if q.len() >= 2 {
                if is_empty_payload_hash(q[q.len() - 1]) {
                    lemma_empty_payload_unique(q[q.len() - 1], empty);
                }
                if is_empty_payload_hash(q[q.len() - 2]) {
                    lemma_empty_payload_unique(q[q.len() - 2], empty);
                }
            }
            if is_empty_payload_hash(payload.block_hash) {
                lemma_empty_payload_unique(payload.block_hash, empty);
            }
        }
        let n = self.proposal_hash_queue.len();
        // A third empty payload in a row is not proposed.
        if n >= 2 && bytes32_eq(&self.proposal_hash_queue[n - 1], &empty) && bytes32_eq(
            &self.proposal_hash_queue[n - 2],
            &empty,
        ) && bytes32_eq(&payload.block_hash, &empty) {
            return Ok(VoteOutcome { reset_timer, propose: None });
        }
        if n > 3 {
            self.proposal_hash_queue.clear();
        }
        self.proposal_hash_queue.push(payload.block_hash);
        match self.state.make_proposal(payload, None) {
            Err(e) => Err(e),
            Ok(proposal) => Ok(VoteOutcome { reset_timer, propose: Some(proposal) }),
        }
    }

    /// Handles a timeout of the current view or a later one: checks it, moves
    /// by the certificate it carries and adds it to the aggregator. On a new
    /// timeout certificate the node moves by it, sends it on the network and,
    /// when it leads the view then reached, drops the block being processed and
    /// proposes with the certificate. `finalized_number` and `queue` are read
    /// as in `get_proposal_payload`.
    pub fn handle_timeout(
        &mut self,
        timeout: &Timeout,
        finalized_number: BlockNumber,
        queue: Option<&VecDeque<BlockInfo>>,
    ) -> (r: Result<TimeoutOutcome, HotstuffError>)
        requires
            old(self).wf(),
            old(self).spec_state().spec_view() < u64::MAX,
            timeout.view < u64::MAX,
        ensures
            final(self).wf(),
            ({
                let s = old(self).spec_state();
                let f = final(self).spec_state();
                let hq = timeout.high_qc;
                let verdict = timeout_verdict(s.spec_authorities(), *timeout);
                let outcome = timeout_outcome(
                    s.spec_aggregator(),
                    *timeout,
                    s.spec_authorities().len(),
                );
                let unchanged = final(self).spec_processing() == old(self).spec_processing()
                    && final(self).spec_proposal_hash_queue() == old(
                    self).spec_proposal_hash_queue();
                let v1 = view_after_cert(s.spec_view(), hq.view);
                &&& s.spec_view() > timeout.view ==> {
                    &&& r is Ok
                    &&& !r->Ok_0.reset_timer
                    &&& r->Ok_0.gossip_tc is None
                    &&& r->Ok_0.propose is None
                    &&& same_replica(s, f)
                    &&& unchanged
                }
                &&& s.spec_view() <= timeout.view && verdict is Err ==> {
                    &&& r == Err::<TimeoutOutcome, HotstuffError>(verdict->Err_0)
                    &&& same_replica(s, f)
                    &&& unchanged
                }
                &&& s.spec_view() <= timeout.view && verdict is Ok ==> {
                    &&& same_identity(s, f)
                    &&& high_qc_applied(s, f, hq.view, hq.proposal_hash, hq.votes@)
                    &&& outcome is Err ==> {
                        &&& r == Err::<TimeoutOutcome, HotstuffError>(outcome->Err_0)
                        &&& f.spec_view() == v1
                        &&& s.spec_aggregator().same_content(&f.spec_aggregator())
                        &&& unchanged
                    }
                    &&& outcome is Ok ==> timeout_recorded(
                        s.spec_aggregator(),
                        f.spec_aggregator(),
                        *timeout,
                    )
                    &&& outcome is Ok && outcome->Ok_0 is None ==> {
                        &&& r is Ok
                        &&& r->Ok_0.reset_timer == (hq.view >= s.spec_view())
                        &&& r->Ok_0.gossip_tc is None
                        &&& r->Ok_0.propose is None
                        &&& f.spec_view() == v1
                        &&& unchanged
                    }
                    &&& outcome is Ok && outcome->Ok_0 is Some ==> {
                        let votes = outcome->Ok_0->Some_0;
                        &&& f.spec_view() == view_after_cert(v1, timeout.view)
                        &&& r is Ok
                        &&& r->Ok_0.reset_timer == (hq.view >= s.spec_view() || timeout.view >= v1)
                        &&& r->Ok_0.gossip_tc is Some
                        &&& r->Ok_0.gossip_tc->Some_0.view == timeout.view
                        &&& r->Ok_0.gossip_tc->Some_0.votes@ == votes
                        &&& !leads(f) ==> r->Ok_0.propose is None && unchanged
                        &&& leads(f) ==> {
                            let (processing, payload) = choose_payload(
                                None,
                                finalized_number,
                                queue_view(queue),
                            );
                            &&& final(self).spec_processing() == processing
                            &&& final(self).spec_proposal_hash_queue() == old(
                                self).spec_proposal_hash_queue()
                            &&& payload is None ==> r->Ok_0.propose is None
                            &&& payload is Some ==> {
                                &&& r->Ok_0.propose is Some
                                &&& proposal_made(r->Ok_0.propose->Some_0, f, payload->Some_0)
                                &&& r->Ok_0.propose->Some_0.tc is Some
                                &&& r->Ok_0.propose->Some_0.tc->Some_0.view == timeout.view
                                &&& r->Ok_0.propose->Some_0.tc->Some_0.votes@ == votes
                            }
                        }
                    }
                }
            }),
    {
        if self.state.view() > timeout.view {
            return Ok(TimeoutOutcome { reset_timer: false, gossip_tc: None, propose: None });
        }
        match self.state.verify_timeout(timeout) {
            Err(e) => {
                return Err(e);
            },
            Ok(()) => {},
        }
        let mut reset_timer = self.handle_qc(&timeout.high_qc);
        let t = Timeout {
            high_qc: copy_qc(&timeout.high_qc),
            view: timeout.view,
            voter: timeout.voter,
            signature: timeout.signature,
        };
        let tc = match self.state.add_timeout(t) {
            Err(e) => {
                return Err(e);
            },
            Ok(None) => {
                return Ok(TimeoutOutcome { reset_timer, gossip_tc: None, propose: None });
            },
            Ok(Some(tc)) => tc,
        };
        if tc.view >= self.state.view() {
            self.state.advance_view_from_target(tc.view);
            reset_timer = true;
        }
        let gossip = copy_tc(&tc);
        if self.state.is_leader() {
            self.processing_block = None;
            match self.generate_proposal(finalized_number, queue, Some(tc)) {
                Err(e) => Err(e),
                Ok(propose) => Ok(TimeoutOutcome { reset_timer, gossip_tc: Some(gossip), propose }),
            }
        } else {
            Ok(TimeoutOutcome { reset_timer, gossip_tc: Some(gossip), propose: None })
        }
    }

    /// Handles a timeout certificate: checks it, moves by it and drops the
    /// block being processed; the leader of the view then reached proposes.
    /// `finalized_number` and `queue` are read as in `get_proposal_payload`.
    pub fn handle_tc(
        &mut self,
        tc: &TC,
        finalized_number: BlockNumber,
        queue: Option<&VecDeque<BlockInfo>>,
    ) -> (r: Result<TimeoutOutcome, HotstuffError>)
        requires
            old(self).wf(),
            tc.view < u64::MAX,
        ensures
            final(self).wf(),
            ({
                let s = old(self).spec_state();
                let f = final(self).spec_state();
                let verdict = tc_verdict(s.spec_authorities(), s.spec_view(), *tc);
                &&& verdict is Err ==> {
                    &&& r == Err::<TimeoutOutcome, HotstuffError>(verdict->Err_0)
                    &&& same_replica(s, f)
                    &&& final(self).spec_processing() == old(self).spec_processing()
                    &&& final(self).spec_proposal_hash_queue() == old(
                        self).spec_proposal_hash_queue()
                }
                &&& verdict is Ok ==> {
                    &&& same_identity(s, f)
                    &&& f.spec_view() == view_after_cert(s.spec_view(), tc.view)
                    &&& f.spec_high_qc_view() == s.spec_high_qc_view()
                    &&& f.spec_high_qc_hash() == s.spec_high_qc_hash()
                    &&& f.spec_high_qc_votes() == s.spec_high_qc_votes()
                    &&& f.spec_aggregator() == s.spec_aggregator()
                    &&& final(self).spec_proposal_hash_queue() == old(
                        self).spec_proposal_hash_queue()
                    &&& r is Ok
                    &&& r->Ok_0.reset_timer
                    &&& r->Ok_0.gossip_tc is None
                    &&& !leads(f) ==> {
                        &&& r->Ok_0.propose is None
                        &&& final(self).spec_processing() is None
                    }
                    &&& leads(f) ==> {
                        let (processing, payload) = choose_payload(
                            None,
                            finalized_number,
                            queue_view(queue),
                        );
                        &&& final(self).spec_processing() == processing
                        &&& payload is None ==> r->Ok_0.propose is None
                        &&& payload is Some ==> {
                            &&& r->Ok_0.propose is Some
                            &&& proposal_made(r->Ok_0.propose->Some_0, f, payload->Some_0)
                            &&& r->Ok_0.propose->Some_0.tc is None
                        }
                    }
                }
            }),
    {
        match self.state.verify_tc(tc) {
            Err(e) => {
                return Err(e);
            },
            Ok(()) => {},
        }
        self.state.advance_view_from_target(tc.view);
        self.processing_block = None;
        if self.state.is_leader() {
            match self.generate_proposal(finalized_number, queue, None) {
                Err(e) => Err(e),
                Ok(propose) => Ok(TimeoutOutcome { reset_timer: true, gossip_tc: None, propose }),
            }
        } else {
            Ok(TimeoutOutcome { reset_timer: true, gossip_tc: None, propose: None })
        }
    }

    /// On the local timer: stops voting in the current view and makes a
    /// timeout for it (unsigned: the caller signs, sends and handles it).
    pub fn handle_local_timer(&mut self) -> (r: Result<Timeout, HotstuffError>)
        requires
            old(self).wf(),
        ensures
            final(self).wf(),
            final(self).spec_processing() == old(self).spec_processing(),
            final(self).spec_proposal_hash_queue() == old(self).spec_proposal_hash_queue(),
            ({
                let s = old(self).spec_state();
                let f = final(self).spec_state();
                &&& f.spec_last_voted_view() == (if s.spec_last_voted_view() >= s.spec_view() {
                    s.spec_last_voted_view()
                } else {
                    s.spec_view()
                })
                &&& f.spec_view() == s.spec_view()
                &&& f.spec_authorities() == s.spec_authorities()
                &&& f.spec_local_keys() == s.spec_local_keys()
                &&& f.spec_high_qc_view() == s.spec_high_qc_view()
                &&& f.spec_high_qc_hash() == s.spec_high_qc_hash()
                &&& f.spec_high_qc_votes() == s.spec_high_qc_votes()
                &&& f.spec_aggregator() == s.spec_aggregator()
                &&& s.spec_local_authority() is None ==> r == Err::<Timeout, HotstuffError>(
                    HotstuffError::NotAuthority,
                )
                &&& s.spec_local_authority() is Some ==> {
                    &&& r is Ok
                    &&& r->Ok_0.view == s.spec_view()
                    &&& r->Ok_0.voter == s.spec_local_authority()->Some_0
                    &&& r->Ok_0.signature is None
                    &&& r->Ok_0.high_qc.view == s.spec_high_qc_view()
                    &&& r->Ok_0.high_qc.proposal_hash == s.spec_high_qc_hash()
                    &&& r->Ok_0.high_qc.votes@ == s.spec_high_qc_votes()
                }
            }),
    {
        self.state.increase_last_voted_view();
        self.state.make_timeout()
    }
}

/// The queue of blocks waiting for finality once the blocks at the front
/// that are finalized (numbered at most `finalized`) are dropped.
pub open spec fn drop_finalized(q: Seq<BlockInfo>, finalized: BlockNumber) -> Seq<BlockInfo>
    decreases q.len(),
{
    if q.len() > 0 && q[0].number <= finalized {
        drop_finalized(q.drop_first(), finalized)
    } else {
        q
    }
}

/// Notes an imported block: a new best block waits for finality at the back
/// of the queue; other blocks are ignored.
pub fn note_imported_block(
    queue: &mut VecDeque<BlockInfo>,
    is_new_best: bool,
    hash: H256,
    number: BlockNumber,
)
    ensures
        final(queue)@ == (if is_new_best {
            old(queue)@.push(BlockInfo { hash: Some(hash), number })
        } else {
            old(queue)@
        }),
{
    if is_new_best {
        queue.push_back(BlockInfo { hash: Some(hash), number });
    }
}

/// Notes a finalized block: the blocks at the front of the queue up to its
/// number leave the queue.
pub fn note_finalized_block(queue: &mut VecDeque<BlockInfo>, finalized_number: BlockNumber)
    ensures
        final(queue)@ == drop_finalized(old(queue)@, finalized_number),
{
    while queue.len() > 0 && queue[0].number <= finalized_number
        invariant
            drop_finalized(queue@, finalized_number) == drop_finalized(old(queue)@, finalized_number),
        decreases queue@.len(),
    {
        let ghost before = queue@;
        let _ = queue.pop_front();
        assert(queue@ =~= before.drop_first());
    }
}

/// Whether the blocks of a queue are in non-decreasing order of number.
pub open spec fn numbers_sorted(q: Seq<BlockInfo>) -> bool {
    forall|i: int, j: int| 0 <= i <= j < q.len() ==> q[i].number <= q[j].number
}

/// In a queue sorted by number, dropping the finalized blocks leaves only
/// blocks above the finalized number, and only drops finalized blocks.
pub proof fn lemma_drop_finalized_sorted(q: Seq<BlockInfo>, finalized: BlockNumber)
    requires
        numbers_sorted(q),
    ensures
        drop_finalized(q, finalized).len() <= q.len(),
        forall|i: int|
            0 <= i < drop_finalized(q, finalized).len() ==> #[trigger] drop_finalized(
                q,
                finalized,
            )[i].number > finalized,
        drop_finalized(q, finalized) == q.subrange(
            q.len() - drop_finalized(q, finalized).len(),
            q.len() as int,
        ),
        forall|i: int|
            0 <= i < q.len() - drop_finalized(q, finalized).len() ==> #[trigger] q[i].number
                <= finalized,
    decreases q.len(),
{
    if q.len() > 0 && q[0].number <= finalized {
        let t = q.drop_first();
        assert(numbers_sorted(t));
        lemma_drop_finalized_sorted(t, finalized);
        let d = drop_finalized(t, finalized);
        assert(t.subrange(t.len() - d.len(), t.len() as int) =~= q.subrange(
            q.len() - d.len(),
            q.len() as int,
        ));
        assert forall|i: int| 0 <= i < q.len() - d.len() implies #[trigger] q[i].number
            <= finalized by {
            if i > 0 {
                assert(q[i] == t[i - 1]);
            }
        }
    } else {
        assert(q.subrange(0, q.len() as int) =~= q);
        if q.len() > 0 {
            assert forall|i: int| 0 <= i < q.len() implies #[trigger] q[i].number > finalized by {
                assert(q[0].number <= q[i].number);
            }
        }
    }
}

/// Whether a gossiped consensus message is expired at view `current_view`:
/// messages of views 3 and above that are more than one view behind.
pub fn message_expired(message: &ConsensusMessage, current_view: ViewNumber) -> (r: bool)
    requires
        message_view(*message) > 2 ==> current_view > 0,
    ensures
        r == (message_view(*message) > 2 && message_view(*message) < current_view - 1),
{
    let view = message.view();
    view > 2 && view < current_view - 1
}

/// Only one hash is the empty payload hash.
proof fn lemma_empty_payload_unique(a: H256, b: H256)
    requires
        is_empty_payload_hash(a),
        is_empty_payload_hash(b),
    ensures
        a == b,
{
    assert(a@ =~= b@);
    assert(a =~= b);
}

proof fn lemma_first_above_extend(q: Seq<BlockInfo>, f: BlockNumber, i: nat, n: nat)
    requires
        i < n,
        first_above(q, f, i) is None,
        q[i as int].number > f,
    ensures
        first_above(q, f, n) == Some(i as int),
    decreases n - i,
{
    if n > i + 1 {
        lemma_first_above_extend(q, f, i, (n - 1) as nat);
    }
}

} // verus!

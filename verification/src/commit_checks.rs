//! Checks of commits received from the network and of finality
//! justifications: the signers must be voters of the set, reach its threshold,
//! and have signed; a justification must prove the block it claims.
//!
//! Whether each signature is valid for the round and set is handed in by the
//! caller, one answer per signed precommit, in order.
use crate::gossip::{
    cost_invalid_commit, cost_invalid_commit_spec, cost_malformed_commit, cost_malformed_commit_spec,
    misbehavior_rep, Misbehavior, ReputationChange,
};
use crate::primitives::{AuthorityId, AuthoritySignature, BlockNumber, H256};
use crate::tendermint_messages::{CommitProcessingOutcome, CompactCommit, FinalizedCommit};
use crate::voter_set::{supermajority, VoterSet};
use vstd::prelude::*;

verus! {

/// A compact commit of the finality gadget.
pub type TendermintCompactCommit = CompactCommit<H256, BlockNumber, AuthoritySignature, AuthorityId>;

/// A finalized commit of the finality gadget.
pub type TendermintFinalizedCommit = FinalizedCommit<BlockNumber, H256, AuthoritySignature, AuthorityId>;

/// The first position below `n` whose signature is not valid, if any.
pub open spec fn first_invalid(valid: Seq<bool>, n: nat) -> Option<int>
    decreases n,
{
    if n == 0 {
        None
    } else {
        match first_invalid(valid, (n - 1) as nat) {
            Some(i) => Some(i),
            None => if !valid[n - 1] {
                Some(n - 1)
            } else {
                None
            },
        }
    }
}

/// The number of signed precommits a compact commit holds: its precommits
/// paired with their authentication data, as far as both go.
pub open spec fn signed_count(commit: TendermintCompactCommit) -> nat {
    if commit.commits@.len() <= commit.auth_data@.len() {
        commit.commits@.len()
    } else {
        commit.auth_data@.len()
    }
}

/// The outcome of checking a compact commit against the voters: too many
/// signers, a signer outside the set, or fewer signers than the threshold
/// make it malformed; the first invalid signature (at position `i`) costs as
/// a bad commit with `i` signatures checked.
pub open spec fn compact_precommit_check(
    commit: TendermintCompactCommit,
    voters: Seq<AuthorityId>,
    threshold: usize,
    valid: Seq<bool>,
) -> Result<(), ReputationChange> {
    let auth = commit.auth_data@;
    if auth.len() > voters.len() {
        Err(cost_malformed_commit_spec())
    } else if exists|i: int| 0 <= i < auth.len() && !voters.contains(#[trigger] auth[i].1) {
        Err(cost_malformed_commit_spec())
    } else if auth.len() < threshold {
        Err(cost_malformed_commit_spec())
    } else {
        match first_invalid(valid, signed_count(commit)) {
            Some(i) => Err(
                misbehavior_rep(
                    Misbehavior::BadCommitMessage {
                        signatures_checked: i as i32,
                        blocks_loaded: 0,
                        equivocations_caught: 0,
                    },
                ),
            ),
            None => Ok(()),
        }
    }
}

/// No signature below `n` is invalid exactly when each of them is valid.
proof fn lemma_first_invalid_none(valid: Seq<bool>, n: nat)
    requires
        n <= valid.len(),
    ensures
        first_invalid(valid, n) is None <==> forall|i: int| 0 <= i < n ==> valid[i],
    decreases n,
{
    if n > 0 {
        lemma_first_invalid_none(valid, (n - 1) as nat);
        if first_invalid(valid, (n - 1) as nat) is Some {
            assert(!(forall|i: int| 0 <= i < n - 1 ==> valid[i]));
        }
    }
}

/// What an accepted compact commit is: it has no more signers than the set
/// has voters, at least `threshold` of them, every signer is a voter, and
/// every checked signature is valid; and every such commit is accepted.
pub proof fn lemma_compact_commit_accepted(
    commit: TendermintCompactCommit,
    voters: Seq<AuthorityId>,
    threshold: usize,
    valid: Seq<bool>,
)
    requires
        valid.len() >= signed_count(commit),
    ensures
        compact_precommit_check(commit, voters, threshold, valid) is Ok <==> {
            &&& threshold <= commit.auth_data@.len() <= voters.len()
            &&& forall|i: int| 0 <= i < commit.auth_data@.len() ==> voters.contains(#[trigger] commit.auth_data@[i].1)
            &&& forall|i: int| 0 <= i < signed_count(commit) ==> valid[i]
        },
{
    lemma_first_invalid_none(valid, signed_count(commit));
}

/// Checks a compact commit against the voters of its set (see
/// `compact_precommit_check`); `signature_valid[i]` tells whether the `i`-th
/// signed precommit's signature is valid for the commit's round and set.
pub fn check_compact_precommit(
    commit: &TendermintCompactCommit,
    voters: &VoterSet<AuthorityId>,
    signature_valid: &Vec<bool>,
) -> (r: Result<(), ReputationChange>)
    requires
        signature_valid@.len() >= signed_count(*commit),
    ensures
        r == compact_precommit_check(
            *commit,
            voters.spec_voters(),
            voters.spec_threshold(),
            signature_valid@,
        ),
        r is Ok ==> commit.auth_data@.len() >= voters.spec_threshold(),
        r is Ok ==> commit.auth_data@.len() <= voters.spec_voters().len(),
        r is Ok ==> forall|i: int| 0 <= i < commit.auth_data@.len()
            ==> voters.spec_voters().contains(#[trigger] commit.auth_data@[i].1),
        r is Ok ==> forall|i: int| 0 <= i < signed_count(*commit) ==> signature_valid@[i],
{
    proof {
        lemma_compact_commit_accepted(*commit, voters.spec_voters(), voters.spec_threshold(), signature_valid@);
    }
    if commit.auth_data.len() > voters.len() {
        return Err(cost_malformed_commit());
    }
    let mut i: usize = 0;
    while i < commit.auth_data.len()
        invariant
            i <= commit.auth_data@.len(),
            forall|j: int| 0 <= j < i ==> voters.spec_voters().contains(#[trigger] commit.auth_data@[j].1),
        decreases commit.auth_data@.len() - i,
    {
        if voters.get(&commit.auth_data[i].1).is_none() {
            assert(!voters.spec_voters().contains(commit.auth_data@[i as int].1));
            return Err(cost_malformed_commit());
        }
        i += 1;
    }
    if commit.auth_data.len() < voters.threshold() {
        return Err(cost_malformed_commit());
    }
    let n: usize = if commit.commits.len() <= commit.auth_data.len() {
        commit.commits.len()
    } else {
        commit.auth_data.len()
    };
    let mut i: usize = 0;
    while i < n
        invariant
            i <= n,
            n == signed_count(*commit),
            n <= signature_valid@.len(),
            n <= commit.auth_data@.len(),
            n <= voters.spec_voters().len(),
            commit.auth_data@.len() <= voters.spec_voters().len(),
            commit.auth_data@.len() >= voters.spec_threshold(),
            forall|j: int| 0 <= j < commit.auth_data@.len() ==> voters.spec_voters().contains(#[trigger] commit.auth_data@[j].1),
            first_invalid(signature_valid@, i as nat) is None,
        decreases n - i,
    {
        if !signature_valid[i] {
            proof {
                lemma_first_invalid_extend(signature_valid@, i as nat, n as nat);
            }
            let cost = Misbehavior::BadCommitMessage {
                signatures_checked: i as i32,
                blocks_loaded: 0,
                equivocations_caught: 0,
            }.cost();
            return Err(cost);
        }
        i += 1;
    }
    Ok(())
}

/// Once the first invalid position is found in a prefix, longer prefixes
/// agree.
proof fn lemma_first_invalid_extend(valid: Seq<bool>, i: nat, n: nat)
    requires
        i < n,
        first_invalid(valid, i) is None,
        !valid[i as int],
    ensures
        first_invalid(valid, n) == Some(i as int),
    decreases n - i,
{
    if n > i + 1 {
        lemma_first_invalid_extend(valid, i, (n - 1) as nat);
    }
}

/// What follows the processing of a commit received on the network.
#[derive(Debug, Clone, Copy)]
pub enum CommitFollowUp {
    /// The commit checked out: note that block `finalized_number` is final
    /// in round `round` of set `set_id`, and gossip the commit again.
    Propagate { round: u64, set_id: u64, finalized_number: BlockNumber },
    /// The commit was bad: apply the reputation change to its sender and do
    /// not gossip it.
    Report(ReputationChange),
}

/// What follows the processing of a commit of round `round` of set `set_id`
/// finalizing block `finalized_number`: a good one is propagated, a bad one
/// costs its sender as an invalid commit.
pub fn commit_follow_up(
    outcome: &CommitProcessingOutcome,
    round: u64,
    set_id: u64,
    finalized_number: BlockNumber,
) -> (r: CommitFollowUp)
    ensures
        outcome is Good ==> r == (CommitFollowUp::Propagate { round, set_id, finalized_number }),
        outcome is Bad ==> r == CommitFollowUp::Report(cost_invalid_commit_spec()),
{
    match outcome {
        CommitProcessingOutcome::Good(_) => CommitFollowUp::Propagate { round, set_id, finalized_number },
        CommitProcessingOutcome::Bad(_) => CommitFollowUp::Report(cost_invalid_commit()),
    }
}

/// Why a justification is refused.
#[derive(Debug, Clone, Copy, PartialEq, Eq, Structural)]
pub enum JustificationError {
    /// The justification does not finalize the expected block.
    InvalidTarget,
    /// A precommit's signature is not valid.
    InvalidSignature,
    /// A precommit names no block.
    MissingTargetHash,
    /// A precommit is for another block than the justified one.
    InvalidAncestry,
    /// The authority set is empty.
    InvalidAuthoritiesSet,
    /// A precommit is signed by an authority outside the set.
    UnknownSigner,
    /// Two precommits are signed by the same authority.
    DuplicateSigner,
    /// Fewer authorities signed than the set's threshold.
    NotEnoughSigners,
}

impl JustificationError {
    /// What the error says.
    pub fn message(&self) -> (r: &'static str)
        ensures
            r == justification_error_message(*self),
    {
        match self {
            JustificationError::InvalidTarget => "invalid commit target in tendermint justification",
            JustificationError::InvalidSignature => "invalid signature for commit in tendermint justification",
            JustificationError::MissingTargetHash => "invalid commit target hash (None) in tendermint justification",
            JustificationError::InvalidAncestry => "invalid commit ancestry proof in tendermint justification",
            JustificationError::InvalidAuthoritiesSet => "invalid authorities set",
            JustificationError::UnknownSigner => "invalid signer (not a voter) for commit in tendermint justification",
            JustificationError::DuplicateSigner => "duplicate signer for commit in tendermint justification",
            JustificationError::NotEnoughSigners => "not enough signers for commit in tendermint justification",
        }
    }
}

/// What a justification error says.
pub open spec fn justification_error_message(e: JustificationError) -> &'static str {
    match e {
        JustificationError::InvalidTarget => "invalid commit target in tendermint justification",
        JustificationError::InvalidSignature => "invalid signature for commit in tendermint justification",
        JustificationError::MissingTargetHash => "invalid commit target hash (None) in tendermint justification",
        JustificationError::InvalidAncestry => "invalid commit ancestry proof in tendermint justification",
        JustificationError::InvalidAuthoritiesSet => "invalid authorities set",
        JustificationError::UnknownSigner => "invalid signer (not a voter) for commit in tendermint justification",
        JustificationError::DuplicateSigner => "duplicate signer for commit in tendermint justification",
        JustificationError::NotEnoughSigners => "not enough signers for commit in tendermint justification",
    }
}

/// Whether the signer of the `i`-th precommit signed one before it too.
pub open spec fn signed_before(commit: TendermintFinalizedCommit, i: int) -> bool {
    exists|j: int| 0 <= j < i && (#[trigger] commit.commits@[j]).id == commit.commits@[i].id
}

/// The outcome of checking the first `n` precommits of a justification, in
/// order: each must be validly signed, name the justified block, and be
/// signed by a voter of the set who signed no precommit before it.
pub open spec fn precommits_check(
    commit: TendermintFinalizedCommit,
    voters: Seq<AuthorityId>,
    valid: Seq<bool>,
    n: nat,
) -> Result<(), JustificationError>
    decreases n,
{
    if n == 0 {
        Ok(())
    } else {
        match precommits_check(commit, voters, valid, (n - 1) as nat) {
            Err(e) => Err(e),
            Ok(()) => {
                let signed = commit.commits@[n - 1];
                if !valid[n - 1] {
                    Err(JustificationError::InvalidSignature)
                } else if signed.commit.target_hash is None {
                    Err(JustificationError::MissingTargetHash)
                } else if signed.commit.target_hash->Some_0 != commit.target_hash {
                    Err(JustificationError::InvalidAncestry)
                } else if !voters.contains(signed.id) {
                    Err(JustificationError::UnknownSigner)
                } else if signed_before(commit, n - 1) {
                    Err(JustificationError::DuplicateSigner)
                } else {
                    Ok(())
                }
            },
        }
    }
}

/// The outcome of checking a justification against the voters of its set
/// (`voters`, with threshold `threshold`): every precommit checks out (see
/// `precommits_check`), and the signers reach the threshold.
pub open spec fn justification_check(
    commit: TendermintFinalizedCommit,
    voters: Seq<AuthorityId>,
    threshold: nat,
    valid: Seq<bool>,
) -> Result<(), JustificationError> {
    match precommits_check(commit, voters, valid, commit.commits@.len()) {
        Err(e) => Err(e),
        Ok(()) => if commit.commits@.len() < threshold {
            Err(JustificationError::NotEnoughSigners)
        } else {
            Ok(())
        },
    }
}

/// What an accepted justification gives: every precommit is validly signed
/// and names the justified block, the signers are distinct voters of the
/// set, and at least `threshold` of them signed.
pub open spec fn justification_sound(
    commit: TendermintFinalizedCommit,
    voters: Seq<AuthorityId>,
    threshold: nat,
    valid: Seq<bool>,
) -> bool {
    let cs = commit.commits@;
    &&& forall|i: int| 0 <= i < cs.len() ==> valid[i]
    &&& forall|i: int| 0 <= i < cs.len() ==> (#[trigger] cs[i]).commit.target_hash == Some(commit.target_hash)
    &&& forall|i: int| 0 <= i < cs.len() ==> voters.contains((#[trigger] cs[i]).id)
    &&& forall|i: int, j: int| 0 <= i < j < cs.len() ==> cs[i].id != cs[j].id
    &&& cs.len() >= threshold
}

/// The first `n` precommits pass the check exactly when each of them does.
proof fn lemma_precommits_ok(commit: TendermintFinalizedCommit, voters: Seq<AuthorityId>, valid: Seq<bool>, n: nat)
    requires
        n <= commit.commits@.len(),
        precommits_check(commit, voters, valid, n) is Ok,
    ensures
        forall|i: int| 0 <= i < n ==> valid[i],
        forall|i: int| 0 <= i < n ==> (#[trigger] commit.commits@[i]).commit.target_hash == Some(commit.target_hash),
        forall|i: int| 0 <= i < n ==> voters.contains((#[trigger] commit.commits@[i]).id),
        forall|i: int, j: int| 0 <= i < j < n ==> commit.commits@[i].id != commit.commits@[j].id,
    decreases n,
{
    if n > 0 {
        lemma_precommits_ok(commit, voters, valid, (n - 1) as nat);
        let k = n - 1;
        assert forall|i: int, j: int| 0 <= i < j < n implies commit.commits@[i].id != commit.commits@[j].id by {
            if j == k {
                if commit.commits@[i].id == commit.commits@[j].id {
                    assert(signed_before(commit, k));
                }
            }
        }
    }
}

/// The tracing key of the stream of justifications.
#[derive(Clone, Copy)]
pub struct TendermintJustificationsTracingKey;

impl TendermintJustificationsTracingKey {
    /// The key under which the stream of justifications is traced.
    pub const TRACING_KEY: &'static str = "mpsc_pbft_justification_notification_stream";
}

/// A justification of finality: a commit of a view, with the precommits that
/// finalize its block.
pub struct TendermintJustification {
    pub view: u64,
    pub f_commit: TendermintFinalizedCommit,
}

impl TendermintJustification {
    /// A justification of a commit (assumed valid and well formed).
    pub fn from_commit(view: u64, f_commit: TendermintFinalizedCommit) -> (r: Self)
        ensures
            r.view == view,
            r.f_commit == f_commit,
    {
        TendermintJustification { view, f_commit }
    }

    /// The block number and hash the justification proves final.
    pub fn target(&self) -> (r: (BlockNumber, H256))
        ensures
            r == (self.f_commit.target_number, self.f_commit.target_hash),
    {
        (self.f_commit.target_number, self.f_commit.target_hash)
    }

    /// Checks the justification against the voters of its set: each
    /// precommit in order must be validly signed (`signature_valid[i]` tells
    /// whether the `i`-th signature is valid for the justification's view and
    /// the set), name the justified block, and be signed by a voter who signed
    /// no precommit before it; then the signers must reach the set's
    /// threshold.
    pub fn verify_with_voter_set(&self, voters: &VoterSet<AuthorityId>, signature_valid: &Vec<bool>) -> (r: Result<
        (),
        JustificationError,
    >)
        requires
            signature_valid@.len() >= self.f_commit.commits@.len(),
        ensures
            r == justification_check(self.f_commit, voters.spec_voters(), voters.spec_threshold() as nat, signature_valid@),
            r is Ok ==> justification_sound(self.f_commit, voters.spec_voters(), voters.spec_threshold() as nat, signature_valid@),
    {
        let n = self.f_commit.commits.len();
        let mut i: usize = 0;
        while i < n
            invariant
                n == self.f_commit.commits@.len(),
                i <= n,
                signature_valid@.len() >= n,
                precommits_check(self.f_commit, voters.spec_voters(), signature_valid@, i as nat) == Ok::<
                    (),
                    JustificationError,
                >(()),
            decreases n - i,
        {
            let signed = &self.f_commit.commits[i];
            let ghost stop = (i + 1) as nat;
            if !signature_valid[i] {
                proof {
                    lemma_precommits_check_stops(self.f_commit, voters.spec_voters(), signature_valid@, stop, n as nat);
                }
                return Err(JustificationError::InvalidSignature);
            }
            match signed.commit.target_hash {
                None => {
                    proof {
                        lemma_precommits_check_stops(self.f_commit, voters.spec_voters(), signature_valid@, stop, n as nat);
                    }
                    return Err(JustificationError::MissingTargetHash);
                },
                Some(h) => {
                    if !crate::primitives::bytes32_eq(&h, &self.f_commit.target_hash) {
                        proof {
                            lemma_precommits_check_stops(self.f_commit, voters.spec_voters(), signature_valid@, stop, n as nat);
                        }
                        return Err(JustificationError::InvalidAncestry);
                    }
                },
            }
            if !voters.contains(&signed.id) {
                proof {
                    lemma_precommits_check_stops(self.f_commit, voters.spec_voters(), signature_valid@, stop, n as nat);
                }
                return Err(JustificationError::UnknownSigner);
            }
            if signed_earlier(&self.f_commit, i) {
                proof {
                    lemma_precommits_check_stops(self.f_commit, voters.spec_voters(), signature_valid@, stop, n as nat);
                }
                return Err(JustificationError::DuplicateSigner);
            }
            assert(!signed_before(self.f_commit, i as int));
            i += 1;
        }
        proof {
            lemma_precommits_ok(self.f_commit, voters.spec_voters(), signature_valid@, n as nat);
        }
        if n < voters.threshold() {
            return Err(JustificationError::NotEnoughSigners);
        }
        Ok(())
    }

    /// Checks the justification against the authorities of its set: an
    /// empty set is refused, otherwise as `verify_with_voter_set` with the
    /// voter set of those authorities.
    pub fn verify(&self, authorities: &Vec<AuthorityId>, signature_valid: &Vec<bool>) -> (r: Result<(), JustificationError>)
        requires
            signature_valid@.len() >= self.f_commit.commits@.len(),
        ensures
            authorities@.len() == 0 ==> r == Err::<(), JustificationError>(JustificationError::InvalidAuthoritiesSet),
            authorities@.len() > 0 ==> r == justification_check(
                self.f_commit,
                authorities@,
                supermajority(authorities@.len()),
                signature_valid@,
            ),
            r is Ok ==> justification_sound(self.f_commit, authorities@, supermajority(authorities@.len()), signature_valid@),
    {
        let voters = VoterSet::new(crate::authority_set::copy_authorities(authorities));
        match voters {
            None => Err(JustificationError::InvalidAuthoritiesSet),
            Some(v) => self.verify_with_voter_set(&v, signature_valid),
        }
    }

    /// Checks that the justification proves `finalized_target` (hash and
    /// number), then checks it against the voters (see
    /// `verify_with_voter_set`).
    pub fn verify_finalizes(
        &self,
        finalized_target: (H256, BlockNumber),
        voters: &VoterSet<AuthorityId>,
        signature_valid: &Vec<bool>,
    ) -> (r: Result<(), JustificationError>)
        requires
            signature_valid@.len() >= self.f_commit.commits@.len(),
        ensures
            (self.f_commit.target_hash, self.f_commit.target_number) != finalized_target ==> r
                == Err::<(), JustificationError>(JustificationError::InvalidTarget),
            (self.f_commit.target_hash, self.f_commit.target_number) == finalized_target ==> r
                == justification_check(self.f_commit, voters.spec_voters(), voters.spec_threshold() as nat, signature_valid@),
            r is Ok ==> justification_sound(self.f_commit, voters.spec_voters(), voters.spec_threshold() as nat, signature_valid@),
    {
        if !crate::primitives::bytes32_eq(&self.f_commit.target_hash, &finalized_target.0)
            || self.f_commit.target_number != finalized_target.1 {
            return Err(JustificationError::InvalidTarget);
        }
        self.verify_with_voter_set(voters, signature_valid)
    }
}

/// Whether the signer of the `i`-th precommit signed one before it too.
fn signed_earlier(commit: &TendermintFinalizedCommit, i: usize) -> (r: bool)
    requires
        i < commit.commits@.len(),
    ensures
        r == signed_before(*commit, i as int),
{
    let id = &commit.commits[i].id;
    let mut j: usize = 0;
    while j < i
        invariant
            j <= i < commit.commits@.len(),
            *id == commit.commits@[i as int].id,
            forall|k: int| 0 <= k < j ==> (#[trigger] commit.commits@[k]).id != *id,
        decreases i - j,
    {
        if crate::primitives::bytes32_eq(&commit.commits[j].id, id) {
            assert(commit.commits@[j as int].id == commit.commits@[i as int].id);
            return true;
        }
        j += 1;
    }
    false
}

/// Once a prefix of the precommits fails, longer prefixes fail the same way.
proof fn lemma_precommits_check_stops(
    commit: TendermintFinalizedCommit,
    voters: Seq<AuthorityId>,
    valid: Seq<bool>,
    i: nat,
    n: nat,
)
    requires
        i <= n,
        precommits_check(commit, voters, valid, i) is Err,
    ensures
        precommits_check(commit, voters, valid, n) == precommits_check(commit, voters, valid, i),
    decreases n - i,
{
    if n > i {
        lemma_precommits_check_stops(commit, voters, valid, i, (n - 1) as nat);
    }
}

} // verus!

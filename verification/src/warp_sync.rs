//! Warp sync proofs of the Tendermint finality gadget: the decisions taken
//! while a proof of authority set handoffs is collected from the database, and
//! the check of each fragment of a received proof.
//!
//! Headers are seen through what the proofs need of them: their hash and
//! number, and the authorities that their digest schedules, if any. Whether
//! each signature of a justification is valid for its view and set is handed
//! in by the caller, one answer per precommit, in order.
use crate::authority_changes::{upper_bound, AuthorityList, AuthoritySetChanges};
use crate::authority_set::{copy_authorities, AuthoritySetHardFork};
use crate::commit_checks::{justification_check, JustificationError, TendermintJustification};
use crate::voter_set::supermajority;
use crate::primitives::{bytes32_eq, H256};
use vstd::prelude::*;

verus! {

/// The maximum size in bytes of a warp sync proof.
pub const MAX_WARP_SYNC_PROOF_SIZE: usize = 8 * 1024 * 1024;

/// Room left in a proof for what is not a fragment (the length of the list
/// and the flag).
pub const PROOF_MARGIN: usize = 50;

/// Warp proof processing error.
#[derive(Debug)]
pub enum Error {
    /// A justification that does not decode, with the decoder's message.
    DecodeScale(String),
    /// A client backend error.
    Client(String),
    /// Invalid request data.
    InvalidRequest(String),
    /// Invalid warp proof.
    InvalidProof(String),
    /// A justification of the proof that does not check out.
    InvalidJustification(JustificationError),
    /// Missing header or authority set change data.
    MissingData,
}

/// What a fragment's header holds that proofs need.
pub struct FragmentHeader {
    /// The header's hash.
    pub hash: H256,
    /// The header's number.
    pub number: u64,
    /// The authorities of the change that the header's digest schedules.
    pub scheduled_change: Option<AuthorityList>,
}

/// A proof of an authority set change: the last block that a set finalized,
/// with the justification of its finality.
pub struct WarpSyncFragment {
    /// The last block that the set finalized; it signals the next set.
    pub header: FragmentHeader,
    /// The justification of the header's finality by the set.
    pub justification: TendermintJustification,
}

/// An accumulated proof of several authority set changes.
pub struct WarpSyncProof {
    /// The fragments, in order of the sets.
    pub proofs: Vec<WarpSyncFragment>,
    /// Whether the proof reaches the latest finalized block.
    pub is_finished: bool,
}

/// The position of the last hard fork at `block`, among the first `n`.
pub open spec fn last_fork_at(forks: Seq<AuthoritySetHardFork>, block: (H256, u64), n: nat) -> Option<int>
    decreases n,
{
    if n == 0 {
        None
    } else if forks[n - 1].block == block {
        Some(n - 1)
    } else {
        last_fork_at(forks, block, (n - 1) as nat)
    }
}

/// The position of the last hard fork at `block`, if any: later forks for a
/// block replace earlier ones.
fn find_hard_fork(forks: &Vec<AuthoritySetHardFork>, hash: &H256, number: u64) -> (r: Option<usize>)
    ensures
        r is Some ==> last_fork_at(forks@, (*hash, number), forks@.len()) == Some(r->Some_0 as int),
        r is None ==> last_fork_at(forks@, (*hash, number), forks@.len()) is None,
        r is Some ==> r->Some_0 < forks@.len(),
{
    let mut i: usize = forks.len();
    while i > 0
        invariant
            i <= forks@.len(),
            last_fork_at(forks@, (*hash, number), forks@.len()) == last_fork_at(forks@, (*hash, number), i as nat),
        decreases i,
    {
        if forks[i - 1].block.1 == number && bytes32_eq(&forks[i - 1].block.0, hash) {
            return Some(i - 1);
        }
        i -= 1;
    }
    None
}

/// The text of the error of a header that a justification does not prove.
pub open spec fn mismatch_text() -> Seq<char> {
    "Mismatch between header and justification"@
}

/// The text of the error of a fragment without an authority set change.
pub open spec fn missing_digest_text() -> Seq<char> {
    "Header is missing authority set change digest"@
}

/// The text of the error of an unknown start block.
pub open spec fn missing_start_text() -> Seq<char> {
    "Missing start block"@
}

/// The text of the error of a start block above the finalized one.
pub open spec fn unfinalized_start_text() -> Seq<char> {
    "Start block is not finalized"@
}

/// The text of the error of a start block off the finalized chain.
pub open spec fn off_chain_start_text() -> Seq<char> {
    "Start block is not in the finalized chain"@
}

/// Checks the number of the start block of a proof: it must be known
/// (`begin_number` is what the database gives for its hash) and finalized.
pub fn check_start_number(begin_number: Option<u64>, finalized_number: u64) -> (r: Result<u64, Error>)
    ensures
        begin_number is None ==> r is Err && r->Err_0 is InvalidRequest && r->Err_0->InvalidRequest_0@ == missing_start_text(),
        begin_number is Some && begin_number->Some_0 > finalized_number ==> r is Err && r->Err_0 is InvalidRequest
            && r->Err_0->InvalidRequest_0@ == unfinalized_start_text(),
        begin_number is Some && begin_number->Some_0 <= finalized_number ==> r is Ok && r->Ok_0 == begin_number->Some_0,
{
    match begin_number {
        None => Err(Error::InvalidRequest("Missing start block".to_owned())),
        Some(n) => {
            if n > finalized_number {
                Err(Error::InvalidRequest("Start block is not finalized".to_owned()))
            } else {
                Ok(n)
            }
        },
    }
}

/// Checks that the start block is the one of the finalized chain at its
/// number (`canon_hash`).
pub fn check_start_hash(begin: &H256, canon_hash: &H256) -> (r: Result<(), Error>)
    ensures
        *begin == *canon_hash ==> r is Ok,
        *begin != *canon_hash ==> r is Err && r->Err_0 is InvalidRequest && r->Err_0->InvalidRequest_0@ == off_chain_start_text(),
{
    if bytes32_eq(canon_hash, begin) {
        Ok(())
    } else {
        Err(Error::InvalidRequest("Start block is not in the finalized chain".to_owned()))
    }
}

/// The set changes a proof from block `begin_number` covers: those after it;
/// `MissingData` when the first of them is not of the first set.
pub fn set_changes_from(changes: &AuthoritySetChanges, begin_number: u64) -> (r: Result<Vec<(u64, u64)>, Error>)
    requires
        changes.wf(),
    ensures
        ({
            let c = changes.spec_changes();
            let idx = upper_bound(c, begin_number);
            &&& (idx == 0 && idx < c.len() && c[0].0 != 0) ==> r is Err && r->Err_0 is MissingData
            &&& !(idx == 0 && idx < c.len() && c[0].0 != 0) ==> r is Ok && r->Ok_0@ == c.subrange(idx, c.len() as int)
        }),
{
    match changes.iter_from(begin_number) {
        None => Err(Error::MissingData),
        Some(v) => Ok(v),
    }
}

/// What to do with the next fragment offered to a proof.
#[derive(Debug, Clone, Copy, PartialEq, Eq)]
pub enum FragmentDecision {
    /// The set ended by a forced change: the chain of handoffs is broken, no
    /// more fragments are collected.
    Stop,
    /// The fragment would take the proof over its size limit: no more
    /// fragments are collected, and the proof is not finished.
    LimitReached,
    /// The fragment joins the proof.
    Take,
}

/// The state of a proof being collected from block `begin_number`.
pub struct ProofCollector {
    begin_number: u64,
    encoded_len: usize,
    last_target: Option<u64>,
    limit_reached: bool,
}

impl ProofCollector {
    /// The start block's number.
    pub closed spec fn spec_begin(&self) -> u64 {
        self.begin_number
    }

    /// The encoded size of the fragments taken so far.
    pub closed spec fn spec_encoded_len(&self) -> usize {
        self.encoded_len
    }

    /// The number of the block justified by the last fragment taken, if any.
    pub closed spec fn spec_last_target(&self) -> Option<u64> {
        self.last_target
    }

    /// Whether a fragment was refused for the size limit.
    pub closed spec fn spec_limit_reached(&self) -> bool {
        self.limit_reached
    }

    /// The fragments taken stay under the size limit, less the margin.
    pub open spec fn wf(&self) -> bool {
        self.spec_encoded_len() < MAX_WARP_SYNC_PROOF_SIZE - PROOF_MARGIN
    }

    /// A collector for a proof from block `begin_number`, with no fragment.
    pub fn new(begin_number: u64) -> (r: Self)
        ensures
            r.wf(),
            r.spec_begin() == begin_number,
            r.spec_encoded_len() == 0,
            r.spec_last_target() is None,
            !r.spec_limit_reached(),
    {
        ProofCollector { begin_number, encoded_len: 0, last_target: None, limit_reached: false }
    }

    /// Offers the fragment of the next set change: whether its header
    /// signals a standard change, its encoded size, and the number of the
    /// block its justification proves. It is taken while the fragments stay
    /// under the size limit (less the margin).
    pub fn offer(&mut self, signals_change: bool, proof_size: usize, target_number: u64) -> (r: FragmentDecision)
        requires
            old(self).wf(),
        ensures
            final(self).wf(),
            final(self).spec_begin() == old(self).spec_begin(),
            !signals_change ==> r == FragmentDecision::Stop && *final(self) == *old(self),
            signals_change && old(self).spec_encoded_len() + proof_size >= MAX_WARP_SYNC_PROOF_SIZE - PROOF_MARGIN ==> {
                &&& r == FragmentDecision::LimitReached
                &&& final(self).spec_limit_reached()
                &&& final(self).spec_encoded_len() == old(self).spec_encoded_len()
                &&& final(self).spec_last_target() == old(self).spec_last_target()
            },
            signals_change && old(self).spec_encoded_len() + proof_size < MAX_WARP_SYNC_PROOF_SIZE - PROOF_MARGIN ==> {
                &&& r == FragmentDecision::Take
                &&& final(self).spec_limit_reached() == old(self).spec_limit_reached()
                &&& final(self).spec_encoded_len() == old(self).spec_encoded_len() + proof_size
                &&& final(self).spec_last_target() == Some(target_number)
            },
    {
        if !signals_change {
            return FragmentDecision::Stop;
        }
        if proof_size >= MAX_WARP_SYNC_PROOF_SIZE - PROOF_MARGIN - self.encoded_len {
            self.limit_reached = true;
            return FragmentDecision::LimitReached;
        }
        self.encoded_len = self.encoded_len + proof_size;
        self.last_target = Some(target_number);
        FragmentDecision::Take
    }

    /// Whether the proof reaches the latest finalized block: no fragment was
    /// refused for the size limit.
    pub fn is_finished(&self) -> (r: bool)
        ensures
            r == !self.spec_limit_reached(),
    {
        !self.limit_reached
    }

    /// Whether the best justification (of block `target_number`) closes the
    /// proof: it must be above the block of the last fragment taken, or, with
    /// none, at or above the start block.
    pub fn accepts_latest(&self, target_number: u64) -> (r: bool)
        ensures
            self.spec_last_target() is Some ==> r == (target_number > self.spec_last_target()->Some_0),
            self.spec_last_target() is None ==> r == (target_number >= self.spec_begin()),
    {
        match self.last_target {
            Some(t) => target_number > t,
            None => target_number >= self.begin_number,
        }
    }
}

impl WarpSyncProof {
    /// Checks fragment `fragment_num` against the set (`set_id`,
    /// `authorities`) that the fragments before it lead to, and gives the set
    /// that it leads to. A hard fork at the fragment's block gives its set
    /// outright. Otherwise the justification must check out for the set (see
    /// `TendermintJustification::verify`) and prove the fragment's header;
    /// a header that schedules a change leads to the next set id with the
    /// scheduled authorities; only the last fragment of a finished proof may
    /// schedule none, and leaves the set as it is.
    pub fn verify_fragment(
        &self,
        fragment_num: usize,
        set_id: u64,
        authorities: &AuthorityList,
        hard_forks: &Vec<AuthoritySetHardFork>,
        signature_valid: &Vec<bool>,
    ) -> (r: Result<(u64, AuthorityList), Error>)
        requires
            fragment_num < self.proofs@.len(),
            signature_valid@.len() >= self.proofs@[fragment_num as int].justification.f_commit.commits@.len(),
            ({
                let h = self.proofs@[fragment_num as int].header;
                last_fork_at(hard_forks@, (h.hash, h.number), hard_forks@.len()) is None && h.scheduled_change is Some
                    ==> set_id < u64::MAX
            }),
        ensures
            ({
                let frag = self.proofs@[fragment_num as int];
                let h = frag.header;
                let commit = frag.justification.f_commit;
                match last_fork_at(hard_forks@, (h.hash, h.number), hard_forks@.len()) {
                    Some(i) => r is Ok && r->Ok_0.0 == hard_forks@[i].set_id && r->Ok_0.1@ == hard_forks@[i].authorities@,
                    None => if authorities@.len() == 0 {
                        r is Err && r->Err_0 == Error::InvalidJustification(JustificationError::InvalidAuthoritiesSet)
                    } else if justification_check(commit, authorities@, supermajority(authorities@.len()), signature_valid@) is Err {
                        r is Err && r->Err_0 == Error::InvalidJustification(
                            justification_check(commit, authorities@, supermajority(authorities@.len()), signature_valid@)->Err_0,
                        )
                    } else if commit.target_hash != h.hash {
                        r is Err && r->Err_0 is InvalidProof && r->Err_0->InvalidProof_0@ == mismatch_text()
                    } else {
                        match h.scheduled_change {
                            Some(next) => r is Ok && r->Ok_0.0 == set_id + 1 && r->Ok_0.1@ == next@,
                            None => if fragment_num != self.proofs@.len() - 1 || !self.is_finished {
                                r is Err && r->Err_0 is InvalidProof && r->Err_0->InvalidProof_0@ == missing_digest_text()
                            } else {
                                r is Ok && r->Ok_0.0 == set_id && r->Ok_0.1@ == authorities@
                            },
                        }
                    },
                }
            }),
    {
        let frag = &self.proofs[fragment_num];
        let hash = frag.header.hash;
        let number = frag.header.number;
        match find_hard_fork(hard_forks, &hash, number) {
            Some(i) => {
                return Ok((hard_forks[i].set_id, copy_authorities(&hard_forks[i].authorities)));
            },
            None => {},
        }
        match frag.justification.verify(authorities, signature_valid) {
            Err(e) => {
                return Err(Error::InvalidJustification(e));
            },
            Ok(()) => {},
        }
        if !bytes32_eq(&frag.justification.f_commit.target_hash, &hash) {
            return Err(Error::InvalidProof("Mismatch between header and justification".to_owned()));
        }
        match &frag.header.scheduled_change {
            Some(next) => Ok((set_id + 1, copy_authorities(next))),
            None => {
                if fragment_num != self.proofs.len() - 1 || !self.is_finished {
                    return Err(Error::InvalidProof("Header is missing authority set change digest".to_owned()));
                }
                Ok((set_id, copy_authorities(authorities)))
            },
        }
    }
}

} // verus!

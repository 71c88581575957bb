//! HotStuff consensus messages: quorum certificates, proposals, votes,
//! timeouts and timeout certificates, their digests and their verification
//! against an authority list.
use crate::primitives::{
    blake2_256_of, bytes32_eq, ed25519_verify_of, hash_of_bytes, hash_of_bytes_exec, hash_raw,
    is_zero_hash, is_zero_hash_exec, le_bytes, push_bytes32, push_u64, verify_signature, zero_hash,
    AuthorityId, AuthoritySignature, BlockNumber, H256,
};
use vstd::prelude::*;
use vstd::string::StringSliceAdditionalSpecFns;

verus! {

/// A view (round) of the HotStuff protocol.
pub type ViewNumber = u64;

/// Authorities with their weights (weights are not taken into account).
pub type AuthorityList = Vec<(AuthorityId, u64)>;

/// The phase a quorum certificate was collected in.
#[derive(Debug, Clone, Copy, PartialEq, Eq)]
pub enum Phase {
    /// No particular phase.
    Generic,
    /// The prepare phase.
    Prepare,
    /// The pre-commit phase of a view.
    Precommit(ViewNumber),
    /// The commit phase of a view.
    Commit(ViewNumber),
}

/// Errors of the HotStuff engine.
#[derive(Debug, Clone, PartialEq, Eq)]
pub enum HotstuffError {
    /// More than one vote from the same authority.
    AuthorityReuse(AuthorityId),
    /// A certificate without a quorum (kept for compatibility).
    QCRequiresQuorum,
    /// A certificate with too few votes.
    InsufficientQuorum,
    /// A signature that does not verify.
    InvalidSignature(AuthorityId),
    /// A message from an unknown authority.
    UnknownAuthority(AuthorityId),
    /// A message without signature.
    NullSignature,
    /// A proposal from an authority that does not lead its view.
    WrongProposer,
    /// A vote for a view older than the local one.
    ExpiredVote,
    /// A timeout certificate for a view older than the local one.
    InvalidTC,
    /// The local node holds no authority key.
    NotAuthority,
    /// A proposal that is not in the local store.
    ProposalNotFound,
    /// Saving a proposal failed.
    SaveProposal(String),
    /// A client call failed.
    ClientError(String),
    /// Finalizing a block failed.
    FinalizeBlock(String),
    /// Anything else.
    Other(String),
}

/// Quorum certificate for a proposal.
#[derive(Debug, Clone)]
pub struct QC {
    /// H256 (digest) of the certified proposal.
    pub proposal_hash: H256,
    /// View of the certified proposal.
    pub view: ViewNumber,
    /// Authorities and their signatures on the certificate digest.
    pub votes: Vec<(AuthorityId, AuthoritySignature)>,
}

/// The block a proposal asks to finalize.
#[derive(Debug, Clone, Copy)]
pub struct Payload {
    pub block_hash: H256,
    pub block_number: BlockNumber,
}

/// A HotStuff proposal.
#[derive(Debug, Clone)]
pub struct Proposal {
    /// Certificate of the parent proposal.
    pub qc: QC,
    /// Timeout certificate that justified entering this view, if any.
    pub tc: Option<TC>,
    /// The block to finalize.
    pub payload: Payload,
    pub view: ViewNumber,
    /// Authority that leads `view`.
    pub author: AuthorityId,
    /// Signature of the author on the proposal digest.
    pub signature: Option<AuthoritySignature>,
}

/// A vote for a proposal.
#[derive(Debug, Clone)]
pub struct Vote {
    pub proposal_hash: H256,
    pub view: ViewNumber,
    pub voter: AuthorityId,
    pub signature: Option<AuthoritySignature>,
}

/// A timeout notification.
#[derive(Debug, Clone)]
pub struct Timeout {
    /// The highest certificate the sender knows.
    pub high_qc: QC,
    /// The view the sender timed out in.
    pub view: ViewNumber,
    pub voter: AuthorityId,
    pub signature: Option<AuthoritySignature>,
}

/// A timeout certificate.
#[derive(Debug, Clone)]
pub struct TC {
    pub view: ViewNumber,
    /// Voter, signature and the view of the voter's highest certificate.
    pub votes: Vec<(AuthorityId, AuthoritySignature, ViewNumber)>,
}

/// Messages exchanged by HotStuff nodes.
#[derive(Debug)]
pub enum ConsensusMessage {
    Propose(Proposal),
    Vote(Vote),
    Timeout(Timeout),
    TC(TC),
    SyncRequest(H256, AuthorityId),
}

// ---------------------------------------------------------------------------
// Digests
// ---------------------------------------------------------------------------

/// Digest signed in a certificate (and in a vote): hash of `proposal_hash ++ view`.
pub open spec fn vote_digest_of(proposal_hash: H256, view: ViewNumber) -> Seq<u8> {
    hash_of_bytes(proposal_hash@ + le_bytes(view as nat, 8))
}

/// Digest of a proposal: hash of `author ++ payload ++ view ++ parent hash`.
pub open spec fn proposal_digest_of(
    author: AuthorityId,
    payload: Payload,
    view: ViewNumber,
    parent: H256,
) -> Seq<u8> {
    hash_of_bytes(
        author@ + payload.block_hash@ + le_bytes(payload.block_number as nat, 8) + le_bytes(
            view as nat,
            8,
        ) + parent@,
    )
}

/// Digest of a timeout: hash of `view ++ high_qc_view`.
pub open spec fn timeout_digest_of(view: ViewNumber, high_qc_view: ViewNumber) -> Seq<u8> {
    hash_of_bytes(le_bytes(view as nat, 8) + le_bytes(high_qc_view as nat, 8))
}

/// H256 of `proposal_hash ++ view`.
fn vote_digest(proposal_hash: &H256, view: ViewNumber) -> (r: H256)
    ensures
        r@ == vote_digest_of(*proposal_hash, view),
{
    let mut data: Vec<u8> = Vec::new();
    push_bytes32(&mut data, proposal_hash);
    push_u64(&mut data, view);
    assert(data@ =~= proposal_hash@ + le_bytes(view as nat, 8));
    hash_of_bytes_exec(&data)
}

/// H256 of `view ++ high_qc_view`.
fn timeout_digest(view: ViewNumber, high_qc_view: ViewNumber) -> (r: H256)
    ensures
        r@ == timeout_digest_of(view, high_qc_view),
{
    let mut data: Vec<u8> = Vec::new();
    push_u64(&mut data, view);
    push_u64(&mut data, high_qc_view);
    assert(data@ =~= le_bytes(view as nat, 8) + le_bytes(high_qc_view as nat, 8));
    hash_of_bytes_exec(&data)
}

// ---------------------------------------------------------------------------
// Verification model
// ---------------------------------------------------------------------------

/// Whether `ids[i]` already occurs in `ids[0..i]`.
pub open spec fn reused_at(ids: Seq<AuthorityId>, i: int) -> bool {
    exists|j: int| 0 <= j < i && ids[j] == ids[i]
}

/// The first id of `ids[0..n]` that repeats an earlier one, if any.
pub open spec fn first_reused(ids: Seq<AuthorityId>, n: nat) -> Option<AuthorityId>
    decreases n,
{
    if n == 0 {
        None
    } else {
        match first_reused(ids, (n - 1) as nat) {
            Some(id) => Some(id),
            None => if reused_at(ids, n - 1) {
                Some(ids[n - 1])
            } else {
                None
            },
        }
    }
}

/// Whether the authority list holds `id`.
pub open spec fn is_authority(authorities: Seq<(AuthorityId, u64)>, id: AuthorityId) -> bool {
    exists|i: int| 0 <= i < authorities.len() && authorities[i].0 == id
}

/// Whether `votes` are more than two thirds of `n` authorities.
pub open spec fn has_quorum(votes: nat, n: nat) -> bool {
    votes > n * 2 / 3
}

/// The first voter in `votes[0..n]` whose signature on `digest` does not verify.
pub open spec fn first_bad_qc_signature(
    votes: Seq<(AuthorityId, AuthoritySignature)>,
    digest: Seq<u8>,
    n: nat,
) -> Option<AuthorityId>
    decreases n,
{
    if n == 0 {
        None
    } else {
        match first_bad_qc_signature(votes, digest, (n - 1) as nat) {
            Some(id) => Some(id),
            None => if !ed25519_verify_of(votes[n - 1].1@, digest, votes[n - 1].0@) {
                Some(votes[n - 1].0)
            } else {
                None
            },
        }
    }
}

/// Ids of the voters of a certificate.
pub open spec fn qc_voters(votes: Seq<(AuthorityId, AuthoritySignature)>) -> Seq<AuthorityId> {
    votes.map_values(|v: (AuthorityId, AuthoritySignature)| v.0)
}

/// Ids of the voters of a timeout certificate.
pub open spec fn tc_voters(votes: Seq<(AuthorityId, AuthoritySignature, ViewNumber)>) -> Seq<
    AuthorityId,
> {
    votes.map_values(|v: (AuthorityId, AuthoritySignature, ViewNumber)| v.0)
}

/// Outcome of checking a quorum certificate, in the order the checks are made:
/// reused voters, then the quorum, then every signature.
pub open spec fn qc_check(
    proposal_hash: H256,
    view: ViewNumber,
    votes: Seq<(AuthorityId, AuthoritySignature)>,
    n_authorities: nat,
) -> Result<(), HotstuffError> {
    let voters = qc_voters(votes);
    match first_reused(voters, votes.len()) {
        Some(id) => Err(HotstuffError::AuthorityReuse(id)),
        None => if !has_quorum(votes.len(), n_authorities) {
            Err(HotstuffError::InsufficientQuorum)
        } else {
            match first_bad_qc_signature(votes, vote_digest_of(proposal_hash, view), votes.len()) {
                Some(id) => Err(HotstuffError::InvalidSignature(id)),
                None => Ok(()),
            }
        },
    }
}

/// The first voter in `votes[0..n]` whose timeout signature does not verify.
pub open spec fn first_bad_tc_signature(
    view: ViewNumber,
    votes: Seq<(AuthorityId, AuthoritySignature, ViewNumber)>,
    n: nat,
) -> Option<AuthorityId>
    decreases n,
{
    if n == 0 {
        None
    } else {
        match first_bad_tc_signature(view, votes, (n - 1) as nat) {
            Some(id) => Some(id),
            None => if !ed25519_verify_of(
                votes[n - 1].1@,
                timeout_digest_of(view, votes[n - 1].2),
                votes[n - 1].0@,
            ) {
                Some(votes[n - 1].0)
            } else {
                None
            },
        }
    }
}

/// Outcome of checking a timeout certificate.
pub open spec fn tc_check(
    view: ViewNumber,
    votes: Seq<(AuthorityId, AuthoritySignature, ViewNumber)>,
    n_authorities: nat,
) -> Result<(), HotstuffError> {
    match first_reused(tc_voters(votes), votes.len()) {
        Some(id) => Err(HotstuffError::AuthorityReuse(id)),
        None => if !has_quorum(votes.len(), n_authorities) {
            Err(HotstuffError::InsufficientQuorum)
        } else {
            match first_bad_tc_signature(view, votes, votes.len()) {
                Some(id) => Err(HotstuffError::InvalidSignature(id)),
                None => Ok(()),
            }
        },
    }
}

/// Outcome of checking a signed message from `signer` with `digest`: the signer
/// must be an authority and the signature present and valid.
pub open spec fn signed_check(
    authorities: Seq<(AuthorityId, u64)>,
    signer: AuthorityId,
    signature: Option<AuthoritySignature>,
    digest: Seq<u8>,
) -> Result<(), HotstuffError> {
    if !is_authority(authorities, signer) {
        Err(HotstuffError::UnknownAuthority(signer))
    } else {
        match signature {
            None => Err(HotstuffError::NullSignature),
            Some(sig) => if !ed25519_verify_of(sig@, digest, signer@) {
                Err(HotstuffError::InvalidSignature(signer))
            } else {
                Ok(())
            },
        }
    }
}

/// Whether a certificate is the genesis (default) one: certificates compare by
/// proposal hash and view only.
pub open spec fn is_genesis_qc(proposal_hash: H256, view: ViewNumber) -> bool {
    is_zero_hash(proposal_hash) && view == 0
}

// ---------------------------------------------------------------------------
// Helpers
// ---------------------------------------------------------------------------

/// Whether `id` occurs in `ids[0..end]`.
fn id_in_prefix(ids: &Vec<AuthorityId>, end: usize, id: &AuthorityId) -> (r: bool)
    requires
        end <= ids@.len(),
    ensures
        r == (exists|j: int| 0 <= j < end && ids@[j] == *id),
{
    let mut j: usize = 0;
    while j < end
        invariant
            j <= end <= ids@.len(),
            forall|k: int| 0 <= k < j ==> ids@[k] != *id,
        decreases end - j,
    {
        if bytes32_eq(&ids[j], id) {
            return true;
        }
        j += 1;
    }
    false
}

/// The first id of `ids` that repeats an earlier one.
fn find_reused(ids: &Vec<AuthorityId>) -> (r: Option<AuthorityId>)
    ensures
        r == first_reused(ids@, ids@.len()),
{
    let mut i: usize = 0;
    while i < ids.len()
        invariant
            i <= ids@.len(),
            first_reused(ids@, i as nat) is None,
        decreases ids@.len() - i,
    {
        if id_in_prefix(ids, i, &ids[i]) {
            assert(reused_at(ids@, i as int));
            proof { lemma_first_reused_extend(ids@, i as nat, ids@.len()); }
            return Some(ids[i]);
        }
        i += 1;
    }
    None
}

/// Once `first_reused` of a prefix is found, it stays the answer for longer prefixes.
proof fn lemma_first_reused_extend(ids: Seq<AuthorityId>, i: nat, n: nat)
    requires
        i < n,
        first_reused(ids, i) is None,
        reused_at(ids, i as int),
    ensures
        first_reused(ids, n) == Some(ids[i as int]),
    decreases n - i,
{
    if n == i + 1 {
    } else {
        lemma_first_reused_extend(ids, i, (n - 1) as nat);
    }
}

/// Whether `id` is in the authority list.
pub fn contains_authority(authorities: &AuthorityList, id: &AuthorityId) -> (r: bool)
    ensures
        r == is_authority(authorities@, *id),
{
    let mut i: usize = 0;
    while i < authorities.len()
        invariant
            i <= authorities@.len(),
            forall|k: int| 0 <= k < i ==> authorities@[k].0 != *id,
        decreases authorities@.len() - i,
    {
        if bytes32_eq(&authorities[i].0, id) {
            return true;
        }
        i += 1;
    }
    false
}

/// Whether `votes` votes are more than two thirds of `n` authorities.
fn quorum_reached(votes: usize, n: usize) -> (r: bool)
    ensures
        r == has_quorum(votes as nat, n as nat),
{
    let n2: u128 = (n as u128) * 2;
    (votes as u128) > n2 / 3
}

/// Checks one signed message.
fn check_signed(
    authorities: &AuthorityList,
    signer: &AuthorityId,
    signature: &Option<AuthoritySignature>,
    digest: &H256,
) -> (r: Result<(), HotstuffError>)
    ensures
        r == signed_check(authorities@, *signer, *signature, digest@),
{
    if !contains_authority(authorities, signer) {
        return Err(HotstuffError::UnknownAuthority(*signer));
    }
    match signature {
        None => Err(HotstuffError::NullSignature),
        Some(sig) => {
            if !verify_signature(sig, vstd::array::array_as_slice(digest), signer) {
                Err(HotstuffError::InvalidSignature(*signer))
            } else {
                Ok(())
            }
        },
    }
}

// ---------------------------------------------------------------------------
// Certificates
// ---------------------------------------------------------------------------

impl QC {
    /// The genesis certificate: zero hash, view 0, no votes.
    pub fn genesis() -> (r: QC)
        ensures
            is_zero_hash(r.proposal_hash),
            r.view == 0,
            r.votes@.len() == 0,
    {
        QC { proposal_hash: zero_hash(), view: 0, votes: Vec::new() }
    }

    /// Digest signed by the voters of this certificate.
    pub fn digest(&self) -> (r: H256)
        ensures
            r@ == vote_digest_of(self.proposal_hash, self.view),
    {
        vote_digest(&self.proposal_hash, self.view)
    }

    /// Adds a vote (without checking it).
    pub fn add_votes(&mut self, authority_id: AuthorityId, signature: AuthoritySignature)
        ensures
            final(self).proposal_hash == old(self).proposal_hash,
            final(self).view == old(self).view,
            final(self).votes@ == old(self).votes@.push((authority_id, signature)),
    {
        self.votes.push((authority_id, signature));
    }

    /// Whether two certificates certify the same proposal in the same view.
    pub fn same_as(&self, other: &QC) -> (r: bool)
        ensures
            r == (self.proposal_hash == other.proposal_hash && self.view == other.view),
    {
        bytes32_eq(&self.proposal_hash, &other.proposal_hash) && self.view == other.view
    }

    /// Whether this is the genesis certificate.
    pub fn is_genesis(&self) -> (r: bool)
        ensures
            r == is_genesis_qc(self.proposal_hash, self.view),
    {
        is_zero_hash_exec(&self.proposal_hash) && self.view == 0
    }

    /// Verifies that the certificate holds more than two thirds of the
    /// authorities, no voter twice, and only valid signatures.
    pub fn verify(&self, authorities: &AuthorityList) -> (r: Result<(), HotstuffError>)
        ensures
            r == qc_check(self.proposal_hash, self.view, self.votes@, authorities@.len()),
    {
        let mut ids: Vec<AuthorityId> = Vec::new();
        let mut k: usize = 0;
        while k < self.votes.len()
            invariant
                k <= self.votes@.len(),
                ids@ == qc_voters(self.votes@).subrange(0, k as int),
            decreases self.votes@.len() - k,
        {
            ids.push(self.votes[k].0);
            k += 1;
            assert(ids@ =~= qc_voters(self.votes@).subrange(0, k as int));
        }
        assert(ids@ =~= qc_voters(self.votes@));
        proof {
            lemma_first_reused_len(qc_voters(self.votes@), self.votes@.len());
        }
        match find_reused(&ids) {
            Some(id) => {
                return Err(HotstuffError::AuthorityReuse(id));
            },
            None => {},
        }
        if !quorum_reached(self.votes.len(), authorities.len()) {
            return Err(HotstuffError::InsufficientQuorum);
        }
        let digest = self.digest();
        let mut i: usize = 0;
        while i < self.votes.len()
            invariant
                i <= self.votes@.len(),
                digest@ == vote_digest_of(self.proposal_hash, self.view),
                first_bad_qc_signature(self.votes@, digest@, i as nat) is None,
                first_reused(qc_voters(self.votes@), self.votes@.len()) is None,
                has_quorum(self.votes@.len(), authorities@.len()),
            decreases self.votes@.len() - i,
        {
            let (voter, signature) = self.votes[i];
            if !verify_signature(&signature, vstd::array::array_as_slice(&digest), &voter) {
                proof {
                    lemma_first_bad_qc_extend(self.votes@, digest@, i as nat, self.votes@.len());
                }
                return Err(HotstuffError::InvalidSignature(voter));
            }
            i += 1;
        }
        Ok(())
    }
}

/// `first_reused` only looks at the given prefix.
proof fn lemma_first_reused_len(ids: Seq<AuthorityId>, n: nat)
    ensures
        first_reused(ids, n) == first_reused(ids.subrange(0, n as int), n) || n > ids.len(),
    decreases n,
{
    if n <= ids.len() && n > 0 {
        lemma_first_reused_len(ids, (n - 1) as nat);
        lemma_first_reused_prefix(ids, ids.subrange(0, n as int), n);
    }
}

/// `first_reused` agrees on sequences that agree on the prefix.
proof fn lemma_first_reused_prefix(a: Seq<AuthorityId>, b: Seq<AuthorityId>, n: nat)
    requires
        n <= a.len(),
        n <= b.len(),
        forall|i: int| 0 <= i < n ==> a[i] == b[i],
    ensures
        first_reused(a, n) == first_reused(b, n),
    decreases n,
{
    if n > 0 {
        lemma_first_reused_prefix(a, b, (n - 1) as nat);
        assert(reused_at(a, n - 1) == reused_at(b, n - 1)) by {
            if reused_at(a, n - 1) {
                let j = choose|j: int| 0 <= j < n - 1 && #[trigger] a[j] == a[n - 1];
                assert(b[j] == b[n - 1]);
            }
            if reused_at(b, n - 1) {
                let j = choose|j: int| 0 <= j < n - 1 && #[trigger] b[j] == b[n - 1];
                assert(a[j] == a[n - 1]);
            }
        }
    }
}

proof fn lemma_first_bad_qc_extend(
    votes: Seq<(AuthorityId, AuthoritySignature)>,
    digest: Seq<u8>,
    i: nat,
    n: nat,
)
    requires
        i < n,
        first_bad_qc_signature(votes, digest, i) is None,
        !ed25519_verify_of(votes[i as int].1@, digest, votes[i as int].0@),
    ensures
        first_bad_qc_signature(votes, digest, n) == Some(votes[i as int].0),
    decreases n - i,
{
    if n > i + 1 {
        lemma_first_bad_qc_extend(votes, digest, i, (n - 1) as nat);
    }
}

proof fn lemma_first_bad_tc_extend(
    view: ViewNumber,
    votes: Seq<(AuthorityId, AuthoritySignature, ViewNumber)>,
    i: nat,
    n: nat,
)
    requires
        i < n,
        first_bad_tc_signature(view, votes, i) is None,
        !ed25519_verify_of(
            votes[i as int].1@,
            timeout_digest_of(view, votes[i as int].2),
            votes[i as int].0@,
        ),
    ensures
        first_bad_tc_signature(view, votes, n) == Some(votes[i as int].0),
    decreases n - i,
{
    if n > i + 1 {
        lemma_first_bad_tc_extend(view, votes, i, (n - 1) as nat);
    }
}

impl TC {
    /// Verifies that the timeout certificate holds more than two thirds of the
    /// authorities, no voter twice, and only valid timeout signatures.
    pub fn verify(&self, authorities: &AuthorityList) -> (r: Result<(), HotstuffError>)
        ensures
            r == tc_check(self.view, self.votes@, authorities@.len()),
    {
        let mut ids: Vec<AuthorityId> = Vec::new();
        let mut k: usize = 0;
        while k < self.votes.len()
            invariant
                k <= self.votes@.len(),
                ids@ == tc_voters(self.votes@).subrange(0, k as int),
            decreases self.votes@.len() - k,
        {
            ids.push(self.votes[k].0);
            k += 1;
            assert(ids@ =~= tc_voters(self.votes@).subrange(0, k as int));
        }
        assert(ids@ =~= tc_voters(self.votes@));
        match find_reused(&ids) {
            Some(id) => {
                return Err(HotstuffError::AuthorityReuse(id));
            },
            None => {},
        }
        if !quorum_reached(self.votes.len(), authorities.len()) {
            return Err(HotstuffError::InsufficientQuorum);
        }
        let mut i: usize = 0;
        while i < self.votes.len()
            invariant
                i <= self.votes@.len(),
                first_bad_tc_signature(self.view, self.votes@, i as nat) is None,
                first_reused(tc_voters(self.votes@), self.votes@.len()) is None,
                has_quorum(self.votes@.len(), authorities@.len()),
            decreases self.votes@.len() - i,
        {
            let (voter, signature, voter_view) = self.votes[i];
            let digest = timeout_digest(self.view, voter_view);
            if !verify_signature(&signature, vstd::array::array_as_slice(&digest), &voter) {
                proof {
                    lemma_first_bad_tc_extend(self.view, self.votes@, i as nat, self.votes@.len());
                }
                return Err(HotstuffError::InvalidSignature(voter));
            }
            i += 1;
        }
        Ok(())
    }
}

// ---------------------------------------------------------------------------
// Proposals, votes, timeouts
// ---------------------------------------------------------------------------

impl Proposal {
    /// A new proposal.
    pub fn new(
        qc: QC,
        tc: Option<TC>,
        payload: Payload,
        view: ViewNumber,
        author: AuthorityId,
        signature: Option<AuthoritySignature>,
    ) -> (r: Proposal)
        ensures
            r == (Proposal { qc, tc, payload, view, author, signature }),
    {
        Proposal { qc, tc, payload, view, author, signature }
    }

    /// H256 of the parent proposal (the one the certificate certifies).
    pub fn parent_hash(&self) -> (r: H256)
        ensures
            r == self.qc.proposal_hash,
    {
        self.qc.proposal_hash
    }

    /// Digest of this proposal.
    pub fn digest(&self) -> (r: H256)
        ensures
            r@ == proposal_digest_of(self.author, self.payload, self.view, self.qc.proposal_hash),
    {
        let mut data: Vec<u8> = Vec::new();
        push_bytes32(&mut data, &self.author);
        push_bytes32(&mut data, &self.payload.block_hash);
        push_u64(&mut data, self.payload.block_number);
        push_u64(&mut data, self.view);
        push_bytes32(&mut data, &self.qc.proposal_hash);
        hash_of_bytes_exec(&data)
    }

    /// Verifies the author, its signature, and (unless it is the genesis one)
    /// the parent certificate.
    pub fn verify(&self, authorities: &AuthorityList) -> (r: Result<(), HotstuffError>)
        ensures
            r == (match signed_check(
                authorities@,
                self.author,
                self.signature,
                proposal_digest_of(self.author, self.payload, self.view, self.qc.proposal_hash),
            ) {
                Err(e) => Err(e),
                Ok(()) => if is_genesis_qc(self.qc.proposal_hash, self.qc.view) {
                    Ok(())
                } else {
                    qc_check(
                        self.qc.proposal_hash,
                        self.qc.view,
                        self.qc.votes@,
                        authorities@.len(),
                    )
                },
            }),
    {
        let digest = self.digest();
        match check_signed(authorities, &self.author, &self.signature, &digest) {
            Err(e) => {
                return Err(e);
            },
            Ok(()) => {},
        }
        if !self.qc.is_genesis() {
            return self.qc.verify(authorities);
        }
        Ok(())
    }
}

impl Vote {
    /// An unsigned vote for a proposal.
    pub fn new(proposal_hash: H256, proposal_view: ViewNumber, voter: AuthorityId) -> (r: Vote)
        ensures
            r == (Vote { proposal_hash, view: proposal_view, voter, signature: None }),
    {
        Vote { proposal_hash, view: proposal_view, voter, signature: None }
    }

    /// Digest signed by the voter.
    pub fn digest(&self) -> (r: H256)
        ensures
            r@ == vote_digest_of(self.proposal_hash, self.view),
    {
        vote_digest(&self.proposal_hash, self.view)
    }

    /// Verifies the voter and its signature.
    pub fn verify(&self, authorities: &AuthorityList) -> (r: Result<(), HotstuffError>)
        ensures
            r == signed_check(
                authorities@,
                self.voter,
                self.signature,
                vote_digest_of(self.proposal_hash, self.view),
            ),
    {
        let digest = self.digest();
        check_signed(authorities, &self.voter, &self.signature, &digest)
    }
}

impl Timeout {
    /// Digest signed by the voter.
    pub fn digest(&self) -> (r: H256)
        ensures
            r@ == timeout_digest_of(self.view, self.high_qc.view),
    {
        timeout_digest(self.view, self.high_qc.view)
    }

    /// Verifies the voter, its signature, and (unless it is the genesis one)
    /// the certificate it carries.
    pub fn verify(&self, authorities: &AuthorityList) -> (r: Result<(), HotstuffError>)
        ensures
            r == (match signed_check(
                authorities@,
                self.voter,
                self.signature,
                timeout_digest_of(self.view, self.high_qc.view),
            ) {
                Err(e) => Err(e),
                Ok(()) => if is_genesis_qc(self.high_qc.proposal_hash, self.high_qc.view) {
                    Ok(())
                } else {
                    qc_check(
                        self.high_qc.proposal_hash,
                        self.high_qc.view,
                        self.high_qc.votes@,
                        authorities@.len(),
                    )
                },
            }),
    {
        let digest = self.digest();
        match check_signed(authorities, &self.voter, &self.signature, &digest) {
            Err(e) => {
                return Err(e);
            },
            Ok(()) => {},
        }
        if !self.high_qc.is_genesis() {
            return self.high_qc.verify(authorities);
        }
        Ok(())
    }
}

impl ConsensusMessage {
    /// The gossip topic all consensus messages travel on: the hash of
    /// `"hotstuff/consensus"`.
    pub fn gossip_topic() -> (r: H256)
        ensures
            r@ == blake2_256_of(consensus_topic_name()),
    {
        let name: &str = "hotstuff/consensus";
        hash_raw(name.as_bytes())
    }

    /// The view a message belongs to (0 for sync requests).
    pub fn view(&self) -> (r: ViewNumber)
        ensures
            r == message_view(*self),
    {
        match self {
            ConsensusMessage::Propose(p) => p.view,
            ConsensusMessage::Vote(v) => v.view,
            ConsensusMessage::Timeout(t) => t.view,
            ConsensusMessage::TC(tc) => tc.view,
            ConsensusMessage::SyncRequest(_, _) => 0,
        }
    }
}

/// Bytes of the consensus gossip topic name.
pub open spec fn consensus_topic_name() -> Seq<u8> {
    "hotstuff/consensus".spec_bytes()
}

/// The view of a message (0 for sync requests).
pub open spec fn message_view(m: ConsensusMessage) -> ViewNumber {
    match m {
        ConsensusMessage::Propose(p) => p.view,
        ConsensusMessage::Vote(v) => v.view,
        ConsensusMessage::Timeout(t) => t.view,
        ConsensusMessage::TC(tc) => tc.view,
        ConsensusMessage::SyncRequest(_, _) => 0,
    }
}

/// No voter is reused in a list of distinct voters.
proof fn lemma_distinct_not_reused(ids: Seq<AuthorityId>, n: nat)
    requires
        n <= ids.len(),
        ids.no_duplicates(),
    ensures
        first_reused(ids, n) is None,
    decreases n,
{
    if n > 0 {
        lemma_distinct_not_reused(ids, (n - 1) as nat);
        assert(!reused_at(ids, n - 1));
    }
}

/// Every signature checks out when each vote's does.
proof fn lemma_all_qc_signatures_good(votes: Seq<(AuthorityId, AuthoritySignature)>, digest: Seq<u8>, n: nat)
    requires
        n <= votes.len(),
        forall|i: int| 0 <= i < votes.len() ==> ed25519_verify_of(#[trigger] votes[i].1@, digest, votes[i].0@),
    ensures
        first_bad_qc_signature(votes, digest, n) is None,
    decreases n,
{
    if n > 0 {
        lemma_all_qc_signatures_good(votes, digest, (n - 1) as nat);
        assert(ed25519_verify_of(votes[n - 1].1@, digest, votes[n - 1].0@));
    }
}

/// The quorum of a certificate: with distinct voters that all signed its
/// digest, a certificate over `n` authorities is accepted exactly when three
/// times its number of votes exceeds twice `n` (more than two thirds).
pub proof fn lemma_qc_quorum(
    proposal_hash: H256,
    view: ViewNumber,
    votes: Seq<(AuthorityId, AuthoritySignature)>,
    n: nat,
)
    requires
        qc_voters(votes).no_duplicates(),
        forall|i: int| 0 <= i < votes.len() ==> ed25519_verify_of(
            #[trigger] votes[i].1@,
            vote_digest_of(proposal_hash, view),
            votes[i].0@,
        ),
    ensures
        qc_check(proposal_hash, view, votes, n) is Ok <==> 3 * votes.len() > 2 * n,
        !(3 * votes.len() > 2 * n) ==> qc_check(proposal_hash, view, votes, n) == Err::<(), HotstuffError>(
            HotstuffError::InsufficientQuorum,
        ),
{
    lemma_distinct_not_reused(qc_voters(votes), votes.len());
    lemma_all_qc_signatures_good(votes, vote_digest_of(proposal_hash, view), votes.len());
    let v = votes.len();
    assert(has_quorum(v, n) <==> 3 * v > 2 * n) by (nonlinear_arith);
}

/// A certificate is never accepted with two thirds of the authorities or
/// fewer, whatever its votes.
pub proof fn lemma_qc_needs_two_thirds(
    proposal_hash: H256,
    view: ViewNumber,
    votes: Seq<(AuthorityId, AuthoritySignature)>,
    n: nat,
)
    ensures
        qc_check(proposal_hash, view, votes, n) is Ok ==> 3 * votes.len() > 2 * n,
{
    let v = votes.len();
    assert(has_quorum(v, n) ==> 3 * v > 2 * n) by (nonlinear_arith);
}

/// Every timeout signature checks out when each vote's does.
proof fn lemma_all_tc_signatures_good(view: ViewNumber, votes: Seq<(AuthorityId, AuthoritySignature, ViewNumber)>, n: nat)
    requires
        n <= votes.len(),
        forall|i: int| 0 <= i < votes.len() ==> ed25519_verify_of(
            #[trigger] votes[i].1@,
            timeout_digest_of(view, votes[i].2),
            votes[i].0@,
        ),
    ensures
        first_bad_tc_signature(view, votes, n) is None,
    decreases n,
{
    if n > 0 {
        lemma_all_tc_signatures_good(view, votes, (n - 1) as nat);
        assert(ed25519_verify_of(votes[n - 1].1@, timeout_digest_of(view, votes[n - 1].2), votes[n - 1].0@));
    }
}

/// The quorum of a timeout certificate: with distinct voters that all signed
/// their timeouts, a certificate over `n` authorities is accepted exactly
/// when three times its number of votes exceeds twice `n`; no certificate is
/// accepted with fewer votes.
pub proof fn lemma_tc_quorum(view: ViewNumber, votes: Seq<(AuthorityId, AuthoritySignature, ViewNumber)>, n: nat)
    ensures
        tc_check(view, votes, n) is Ok ==> 3 * votes.len() > 2 * n,
        tc_voters(votes).no_duplicates() && (forall|i: int| 0 <= i < votes.len() ==> ed25519_verify_of(
            #[trigger] votes[i].1@,
            timeout_digest_of(view, votes[i].2),
            votes[i].0@,
        )) ==> (tc_check(view, votes, n) is Ok <==> 3 * votes.len() > 2 * n),
{
    let v = votes.len();
    assert(has_quorum(v, n) <==> 3 * v > 2 * n) by (nonlinear_arith);
    if tc_voters(votes).no_duplicates() && (forall|i: int| 0 <= i < votes.len() ==> ed25519_verify_of(
        #[trigger] votes[i].1@,
        timeout_digest_of(view, votes[i].2),
        votes[i].0@,
    )) {
        lemma_distinct_not_reused(tc_voters(votes), votes.len());
        lemma_all_tc_signatures_good(view, votes, votes.len());
    }
}

} // verus!

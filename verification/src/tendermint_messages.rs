//! Tendermint messages: proposals, prevotes, precommits, their signed forms,
//! finalized commits and their compact form, and the outcome of processing a
//! commit.
use vstd::prelude::*;
use vstd::std_specs::convert::FromSpecImpl;

verus! {

/// A preprepare message for a block in PBFT.
#[derive(Clone, Debug, PartialEq, Eq)]
pub struct Proposal<N, D> {
    pub round: u64,
    pub target_height: N,
    pub target_hash: D,
    pub valid_round: Option<u64>,
}

/// A prevote for a block (or for nothing).
#[derive(Clone, Debug, PartialEq, Eq)]
pub struct Prevote<N, D> {
    pub round: u64,
    pub target_height: N,
    pub target_hash: Option<D>,
}

/// A precommit for a block (or for nothing).
#[derive(Clone, Debug, PartialEq, Eq)]
pub struct Precommit<N, D> {
    pub round: u64,
    pub target_height: N,
    pub target_hash: Option<D>,
}

/// A message of a round.
#[derive(Clone, Debug)]
pub enum Message<N, H> {
    Proposal(Proposal<N, H>),
    Prevote(Prevote<N, H>),
    Precommit(Precommit<N, H>),
}

/// The round of a message.
pub open spec fn message_round<N, H>(m: Message<N, H>) -> u64 {
    match m {
        Message::Proposal(p) => p.round,
        Message::Prevote(p) => p.round,
        Message::Precommit(p) => p.round,
    }
}

/// The block a message is about (a proposal always names one) and its height.
pub open spec fn message_target<N, H>(m: Message<N, H>) -> (Option<H>, N) {
    match m {
        Message::Proposal(p) => (Some(p.target_hash), p.target_height),
        Message::Prevote(p) => (p.target_hash, p.target_height),
        Message::Precommit(p) => (p.target_hash, p.target_height),
    }
}

impl<N: Copy, H: Copy> Message<N, H> {
    /// The round of the message.
    pub fn round(&self) -> (r: u64)
        ensures
            r == message_round(*self),
    {
        match self {
            Message::Proposal(p) => p.round,
            Message::Prevote(p) => p.round,
            Message::Precommit(p) => p.round,
        }
    }

    /// The block the message is about and its height.
    pub fn target(&self) -> (r: (Option<H>, N))
        ensures
            r == message_target(*self),
    {
        match self {
            Message::Proposal(p) => (Some(p.target_hash), p.target_height),
            Message::Prevote(p) => (p.target_hash, p.target_height),
            Message::Precommit(p) => (p.target_hash, p.target_height),
        }
    }
}

/// The message to send in a round where the local node may already have
/// voted: a message of a kind the node already cast this round (`proposal`,
/// `prevote` or `precommit`, the votes recorded for the round) is replaced by
/// that vote, so that the node never sends two different votes of one kind.
pub fn outgoing_message<N, H>(
    msg: Message<N, H>,
    proposal: Option<Proposal<N, H>>,
    prevote: Option<Prevote<N, H>>,
    precommit: Option<Precommit<N, H>>,
) -> (r: Message<N, H>)
    ensures
        r == match msg {
            Message::Proposal(p) => Message::Proposal(
                match proposal {
                    Some(cast) => cast,
                    None => p,
                },
            ),
            Message::Prevote(p) => Message::Prevote(
                match prevote {
                    Some(cast) => cast,
                    None => p,
                },
            ),
            Message::Precommit(p) => Message::Precommit(
                match precommit {
                    Some(cast) => cast,
                    None => p,
                },
            ),
        },
{
    match msg {
        Message::Proposal(p) => Message::Proposal(
            match proposal {
                Some(cast) => cast,
                None => p,
            },
        ),
        Message::Prevote(p) => Message::Prevote(
            match prevote {
                Some(cast) => cast,
                None => p,
            },
        ),
        Message::Precommit(p) => Message::Precommit(
            match precommit {
                Some(cast) => cast,
                None => p,
            },
        ),
    }
}

/// A message with the signature and identity of its sender.
#[derive(Clone, Debug)]
pub struct SignedMessage<N, H, Sig, Id> {
    pub id: Id,
    pub signature: Sig,
    pub message: Message<N, H>,
}

impl<N: Copy, H: Copy, Sig, Id> SignedMessage<N, H, Sig, Id> {
    /// The round of the message.
    pub fn round(&self) -> (r: u64)
        ensures
            r == message_round(self.message),
    {
        self.message.round()
    }

    /// The block the message is about and its height.
    pub fn target(&self) -> (r: (Option<H>, N))
        ensures
            r == message_target(self.message),
    {
        self.message.target()
    }
}

/// A signed commit message.
#[derive(Clone, Debug, PartialEq, Eq)]
pub struct SignedCommit<N, D, S, Id> {
    /// The commit message which has been signed.
    pub commit: Precommit<N, D>,
    /// The signature on the message.
    pub signature: S,
    /// The Id of the signer.
    pub id: Id,
}

impl<N, D, S, Id> From<SignedCommit<N, D, S, Id>> for SignedMessage<N, D, S, Id> {
    fn from(commit: SignedCommit<N, D, S, Id>) -> (r: Self) {
        SignedMessage {
            id: commit.id,
            signature: commit.signature,
            message: Message::Precommit(commit.commit),
        }
    }
}

impl<N, D, S, Id> FromSpecImpl<SignedCommit<N, D, S, Id>> for SignedMessage<N, D, S, Id> {
    open spec fn obeys_from_spec() -> bool {
        true
    }

    open spec fn from_spec(commit: SignedCommit<N, D, S, Id>) -> Self {
        SignedMessage {
            id: commit.id,
            signature: commit.signature,
            message: Message::Precommit(commit.commit),
        }
    }
}

/// A block and the precommits that justify finalizing it.
#[derive(Clone, Debug, PartialEq, Eq)]
pub struct FinalizedCommit<N, D, Sig, Id> {
    /// The target block's hash.
    pub target_hash: D,
    /// The target block's number.
    pub target_number: N,
    /// Precommits for target block or any block after it that justify this commit.
    pub commits: Vec<SignedCommit<N, D, Sig, Id>>,
}

/// A commit message for a block in PBFT.
#[derive(Clone, Debug, PartialEq, Eq)]
pub struct Commit<N, D> {
    /// The view number.
    pub view: u64,
    /// The sequence number.
    pub seq: u64,
    pub target_number: N,
    /// The target block's hash.
    pub target_hash: D,
}

impl<N, D> Commit<N, D> {
    /// A commit message.
    pub fn new(view: u64, seq: u64, target_number: N, target_hash: D) -> (r: Self)
        ensures
            r.view == view,
            r.seq == seq,
            r.target_number == target_number,
            r.target_hash == target_hash,
    {
        Commit { view, seq, target_number, target_hash }
    }
}

/// A finalized commit with its authentication data kept apart from the
/// precommits.
#[derive(Clone, Debug, PartialEq, Eq)]
pub struct CompactCommit<D, N, S, Id> {
    /// The target block's hash.
    pub target_hash: D,
    /// The target block's number.
    pub target_number: N,
    /// Precommits for target block or any block after it that justify this commit.
    pub commits: Vec<Precommit<N, D>>,
    /// Signature and signer of each precommit, in the same order.
    pub auth_data: Vec<(S, Id)>,
}

/// The precommits of signed commits.
pub open spec fn precommits_of<N, D, S, Id>(commits: Seq<SignedCommit<N, D, S, Id>>) -> Seq<
    Precommit<N, D>,
> {
    commits.map_values(|c: SignedCommit<N, D, S, Id>| c.commit)
}

/// The signatures and signers of signed commits.
pub open spec fn auth_data_of<N, D, S, Id>(commits: Seq<SignedCommit<N, D, S, Id>>) -> Seq<
    (S, Id),
> {
    commits.map_values(|c: SignedCommit<N, D, S, Id>| (c.signature, c.id))
}

/// The signed commits that pair precommits with authentication data, as far
/// as both go.
pub open spec fn signed_commits_of<N, D, S, Id>(
    commits: Seq<Precommit<N, D>>,
    auth_data: Seq<(S, Id)>,
) -> Seq<SignedCommit<N, D, S, Id>> {
    Seq::new(
        if commits.len() <= auth_data.len() {
            commits.len()
        } else {
            auth_data.len()
        },
        |i: int| SignedCommit { commit: commits[i], signature: auth_data[i].0, id: auth_data[i].1 },
    )
}

impl<D, N, S, Id> From<FinalizedCommit<N, D, S, Id>> for CompactCommit<D, N, S, Id> {
    /// Splits the signed commits into precommits and authentication data.
    fn from(commit: FinalizedCommit<N, D, S, Id>) -> (r: Self)
        ensures
            r.target_hash == commit.target_hash,
            r.target_number == commit.target_number,
            r.commits@ == precommits_of(commit.commits@),
            r.auth_data@ == auth_data_of(commit.commits@),
    {
        let FinalizedCommit { target_hash, target_number, commits: mut rest } = commit;
        let ghost all = rest@;
        let mut commits: Vec<Precommit<N, D>> = Vec::new();
        let mut auth_data: Vec<(S, Id)> = Vec::new();
        while rest.len() > 0
            invariant
                all == commit.commits@,
                commits@.len() + rest@.len() == all.len(),
                rest@ == all.subrange(commits@.len() as int, all.len() as int),
                commits@ == precommits_of(all.subrange(0, commits@.len() as int)),
                auth_data@ == auth_data_of(all.subrange(0, commits@.len() as int)),
            decreases rest@.len(),
        {
            let ghost k: int = commits@.len() as int;
            let c = rest.remove(0);
            assert(c == all[k]);
            commits.push(c.commit);
            auth_data.push((c.signature, c.id));
            assert(all.subrange(0, k + 1) =~= all.subrange(0, k).push(all[k]));
            assert(commits@ =~= precommits_of(all.subrange(0, k + 1)));
            assert(auth_data@ =~= auth_data_of(all.subrange(0, k + 1)));
            assert(rest@ =~= all.subrange(k + 1, all.len() as int));
        }
        assert(all.subrange(0, all.len() as int) =~= all);
        CompactCommit { target_hash, target_number, commits, auth_data }
    }
}

impl<D, N, S, Id> FromSpecImpl<FinalizedCommit<N, D, S, Id>> for CompactCommit<D, N, S, Id> {
    /// The vectors of the result are described by `from`'s own contract.
    open spec fn obeys_from_spec() -> bool {
        false
    }

    open spec fn from_spec(commit: FinalizedCommit<N, D, S, Id>) -> Self {
        choose|r: Self|
            r.target_hash == commit.target_hash && r.target_number == commit.target_number
                && r.commits@ == precommits_of(commit.commits@) && r.auth_data@ == auth_data_of(
                commit.commits@,
            )
    }
}

impl<D, N, S, Id> From<CompactCommit<D, N, S, Id>> for FinalizedCommit<N, D, S, Id> {
    /// Pairs each precommit with its authentication data (extra entries of
    /// either are dropped).
    fn from(commit: CompactCommit<D, N, S, Id>) -> (r: Self)
        ensures
            r.target_hash == commit.target_hash,
            r.target_number == commit.target_number,
            r.commits@ == signed_commits_of(commit.commits@, commit.auth_data@),
    {
        let CompactCommit { target_hash, target_number, commits: mut pre, auth_data: mut auth } =
            commit;
        let ghost all_pre = pre@;
        let ghost all_auth = auth@;
        let mut commits: Vec<SignedCommit<N, D, S, Id>> = Vec::new();
        while pre.len() > 0 && auth.len() > 0
            invariant
                all_pre == commit.commits@,
                all_auth == commit.auth_data@,
                commits@.len() <= all_pre.len(),
                commits@.len() <= all_auth.len(),
                pre@ == all_pre.subrange(commits@.len() as int, all_pre.len() as int),
                auth@ == all_auth.subrange(commits@.len() as int, all_auth.len() as int),
                forall|i: int|
                    0 <= i < commits@.len() ==> #[trigger] commits@[i] == (SignedCommit {
                        commit: all_pre[i],
                        signature: all_auth[i].0,
                        id: all_auth[i].1,
                    }),
            decreases pre@.len(),
        {
            let ghost k: int = commits@.len() as int;
            let c = pre.remove(0);
            let (s, id) = auth.remove(0);
            commits.push(SignedCommit { commit: c, signature: s, id });
            assert(pre@ =~= all_pre.subrange(k + 1, all_pre.len() as int));
            assert(auth@ =~= all_auth.subrange(k + 1, all_auth.len() as int));
        }
        assert(commits@ =~= signed_commits_of(all_pre, all_auth));
        FinalizedCommit { target_hash, target_number, commits }
    }
}

impl<D, N, S, Id> FromSpecImpl<CompactCommit<D, N, S, Id>> for FinalizedCommit<N, D, S, Id> {
    /// The vector of the result is described by `from`'s own contract.
    open spec fn obeys_from_spec() -> bool {
        false
    }

    open spec fn from_spec(commit: CompactCommit<D, N, S, Id>) -> Self {
        choose|r: Self|
            r.target_hash == commit.target_hash && r.target_number == commit.target_number
                && r.commits@ == signed_commits_of(commit.commits@, commit.auth_data@)
    }
}

/// Splitting signed commits into precommits and authentication data, then
/// pairing them again, gives back the signed commits; pairing sequences of
/// the same length, then splitting, gives back both sequences.
pub proof fn lemma_compact_round_trip<N, D, S, Id>(
    commits: Seq<SignedCommit<N, D, S, Id>>,
    pre: Seq<Precommit<N, D>>,
    auth: Seq<(S, Id)>,
)
    ensures
        signed_commits_of(precommits_of(commits), auth_data_of(commits)) == commits,
        pre.len() == auth.len() ==> precommits_of(signed_commits_of(pre, auth)) == pre,
        pre.len() == auth.len() ==> auth_data_of(signed_commits_of(pre, auth)) == auth,
{
    assert(signed_commits_of(precommits_of(commits), auth_data_of(commits)) =~= commits);
    if pre.len() == auth.len() {
        assert(precommits_of(signed_commits_of(pre, auth)) =~= pre);
        assert(auth_data_of(signed_commits_of(pre, auth)) =~= auth);
    }
}

/// Information about the validation of a commit.
pub struct CommitValidationResult<H, N> {
    target: Option<(H, N)>,
    num_commits: usize,
    num_duplicated_commits: usize,
    num_invalid_voters: usize,
}

impl<H, N> CommitValidationResult<H, N> {
    pub closed spec fn spec_target(&self) -> Option<(H, N)> {
        self.target
    }

    pub closed spec fn spec_num_commits(&self) -> usize {
        self.num_commits
    }

    pub closed spec fn spec_num_duplicated_commits(&self) -> usize {
        self.num_duplicated_commits
    }

    pub closed spec fn spec_num_invalid_voters(&self) -> usize {
        self.num_invalid_voters
    }

    /// The block the commit finalizes, if it is valid.
    pub fn target(&self) -> (r: Option<&(H, N)>)
        ensures
            r == match self.spec_target() {
                Some(t) => Some(&t),
                None => None,
            },
    {
        match &self.target {
            Some(t) => Some(t),
            None => None,
        }
    }

    /// The number of commits in the commit.
    pub fn num_commits(&self) -> (r: usize)
        ensures
            r == self.spec_num_commits(),
    {
        self.num_commits
    }

    /// The number of duplicate commits in the commit.
    pub fn num_duplicated_commits(&self) -> (r: usize)
        ensures
            r == self.spec_num_duplicated_commits(),
    {
        self.num_duplicated_commits
    }

    /// The number of invalid voters in the commit.
    pub fn num_invalid_voters(&self) -> (r: usize)
        ensures
            r == self.spec_num_invalid_voters(),
    {
        self.num_invalid_voters
    }
}

impl<H, N> Default for CommitValidationResult<H, N> {
    fn default() -> (r: Self)
        ensures
            r.spec_target() is None,
            r.spec_num_commits() == 0,
            r.spec_num_duplicated_commits() == 0,
            r.spec_num_invalid_voters() == 0,
    {
        CommitValidationResult {
            target: None,
            num_commits: 0,
            num_duplicated_commits: 0,
            num_invalid_voters: 0,
        }
    }
}

/// Communication from a voter that is not round-localized.
pub enum GlobalMessageOut<D, N, S, Id> {
    /// A commit message.
    Commit(u64, FinalizedCommit<N, D, S, Id>),
    /// Nothing to send.
    Empty,
}

/// The outcome of processing a commit.
#[derive(Debug, Clone, PartialEq, Eq, Structural)]
pub enum CommitProcessingOutcome {
    /// It was beneficial to process this commit.
    Good(GoodCommit),
    /// It wasn't beneficial to process this commit. We wasted resources.
    Bad(BadCommit),
}

impl CommitProcessingOutcome {
    /// A `Good` outcome.
    pub fn good() -> (r: CommitProcessingOutcome)
        ensures
            r is Good,
    {
        CommitProcessingOutcome::Good(GoodCommit::new())
    }

    /// A `Bad` outcome for a commit with nothing counted.
    pub fn bad() -> (r: CommitProcessingOutcome)
        ensures
            r is Bad,
            r->Bad_0.spec_num_commits() == 0,
            r->Bad_0.spec_num_duplicated() == 0,
            r->Bad_0.spec_num_invalid_voters() == 0,
    {
        CommitProcessingOutcome::Bad(BadCommit::from(CommitValidationResult::<(), ()>::default()))
    }
}

/// The result of processing for a good commit.
#[derive(Debug, Clone, PartialEq, Eq, Structural)]
pub struct GoodCommit {}

impl GoodCommit {
    /// A good commit.
    pub fn new() -> (r: Self)
        ensures
            r == (GoodCommit {}),
    {
        GoodCommit {}
    }
}

/// The result of processing for a bad commit.
#[derive(Debug, Clone, PartialEq, Eq, Structural)]
pub struct BadCommit {
    num_commits: usize,
    num_duplicated_commits: usize,
    num_invalid_voters: usize,
}

impl BadCommit {
    pub closed spec fn spec_num_commits(&self) -> usize {
        self.num_commits
    }

    pub closed spec fn spec_num_duplicated(&self) -> usize {
        self.num_duplicated_commits
    }

    pub closed spec fn spec_num_invalid_voters(&self) -> usize {
        self.num_invalid_voters
    }

    /// The number of precommits.
    pub fn num_commits(&self) -> (r: usize)
        ensures
            r == self.spec_num_commits(),
    {
        self.num_commits
    }

    /// The number of duplicated precommits.
    pub fn num_duplicated(&self) -> (r: usize)
        ensures
            r == self.spec_num_duplicated(),
    {
        self.num_duplicated_commits
    }

    /// The number of invalid voters in the precommits.
    pub fn num_invalid_voters(&self) -> (r: usize)
        ensures
            r == self.spec_num_invalid_voters(),
    {
        self.num_invalid_voters
    }
}

impl<H, N> From<CommitValidationResult<H, N>> for BadCommit {
    fn from(r: CommitValidationResult<H, N>) -> (b: Self)
        ensures
            b.spec_num_commits() == r.spec_num_commits(),
            b.spec_num_duplicated() == r.spec_num_duplicated_commits(),
            b.spec_num_invalid_voters() == r.spec_num_invalid_voters(),
    {
        BadCommit {
            num_commits: r.num_commits,
            num_duplicated_commits: r.num_duplicated_commits,
            num_invalid_voters: r.num_invalid_voters,
        }
    }
}

impl<H, N> FromSpecImpl<CommitValidationResult<H, N>> for BadCommit {
    open spec fn obeys_from_spec() -> bool {
        true
    }

    closed spec fn from_spec(r: CommitValidationResult<H, N>) -> Self {
        BadCommit {
            num_commits: r.spec_num_commits(),
            num_duplicated_commits: r.spec_num_duplicated_commits(),
            num_invalid_voters: r.spec_num_invalid_voters(),
        }
    }
}

} // verus!

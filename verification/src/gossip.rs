//! The gossip validator of the Tendermint finality gadget: which rounds and
//! sets a peer's messages may come from, which topics are kept, how peers are
//! rated, and to whom a message may be sent.
//!
//! Peers are named by a number the networking layer gives them; a peer's role,
//! the decoded messages and the elapsed time of the current round are handed
//! in by the caller.
use crate::primitives::{blake2_256_of, AuthorityId, H256};
use crate::topics::{global_topic, global_topic_text, round_topic, round_topic_text};
use ahash::{AHashMap, AHashSet};
use rand::seq::SliceRandom;
use std::collections::{HashSet, VecDeque};
use std::time::Instant;
use vstd::prelude::*;

verus! {

broadcast use vstd::std_specs::hash::group_hash_axioms;

/// The number the networking layer gives a peer.
pub type PeerKey = u64;

/// Type-safe wrapper around a round number.
#[derive(Debug, Clone, Copy, PartialEq, Eq, Structural)]
pub struct Round(pub u64);

/// Type-safe wrapper around a set ID.
#[derive(Debug, Clone, Copy, PartialEq, Eq, Structural)]
pub struct SetId(pub u64);

/// A change of a peer's reputation.
#[derive(Debug, Clone, Copy)]
pub struct ReputationChange {
    /// The change (negative for a cost).
    pub value: i32,
    /// Why the peer's reputation changes.
    pub reason: &'static str,
}

/// The change of reputation `value` for `reason`.
pub fn reputation(value: i32, reason: &'static str) -> (r: ReputationChange)
    ensures
        r.value == value,
        r.reason == reason,
{
    ReputationChange { value, reason }
}

/// The cost of a message from a past round or set.
pub open spec fn cost_past_rejection_spec() -> ReputationChange {
    ReputationChange { value: -50i32, reason: "Grandpa: Past message" }
}

/// The cost of a message from a past round or set.
pub fn cost_past_rejection() -> (r: ReputationChange)
    ensures
        r == cost_past_rejection_spec(),
{
    reputation(-50, "Grandpa: Past message")
}

/// The cost of a message with a bad signature.
pub open spec fn cost_bad_signature_spec() -> ReputationChange {
    ReputationChange { value: -100i32, reason: "Grandpa: Bad signature" }
}

/// The cost of a message with a bad signature.
pub fn cost_bad_signature() -> (r: ReputationChange)
    ensures
        r == cost_bad_signature_spec(),
{
    reputation(-100, "Grandpa: Bad signature")
}

/// The cost of a malformed commit.
pub open spec fn cost_malformed_commit_spec() -> ReputationChange {
    ReputationChange { value: -1000i32, reason: "Grandpa: Malformed precommit" }
}

/// The cost of a malformed commit.
pub fn cost_malformed_commit() -> (r: ReputationChange)
    ensures
        r == cost_malformed_commit_spec(),
{
    reputation(-1000, "Grandpa: Malformed precommit")
}

/// The cost of a message from a future round or set.
pub open spec fn cost_future_message_spec() -> ReputationChange {
    ReputationChange { value: -500i32, reason: "Grandpa: Future message" }
}

/// The cost of a message from a future round or set.
pub fn cost_future_message() -> (r: ReputationChange)
    ensures
        r == cost_future_message_spec(),
{
    reputation(-500, "Grandpa: Future message")
}

/// The cost of a message from a voter outside the set.
pub open spec fn cost_unknown_voter_spec() -> ReputationChange {
    ReputationChange { value: -150i32, reason: "Grandpa: Unknown voter" }
}

/// The cost of a message from a voter outside the set.
pub fn cost_unknown_voter() -> (r: ReputationChange)
    ensures
        r == cost_unknown_voter_spec(),
{
    reputation(-150, "Grandpa: Unknown voter")
}

/// The cost of a neighbor packet that goes back in rounds or sets.
pub open spec fn cost_invalid_view_change_spec() -> ReputationChange {
    ReputationChange { value: -500i32, reason: "Grandpa: Invalid round change" }
}

/// The cost of a neighbor packet that goes back in rounds or sets.
pub fn cost_invalid_view_change() -> (r: ReputationChange)
    ensures
        r == cost_invalid_view_change_spec(),
{
    reputation(-500, "Grandpa: Invalid round change")
}

/// The cost of a message that cannot be evaluated yet.
pub open spec fn cost_out_of_scope_message_spec() -> ReputationChange {
    ReputationChange { value: -500i32, reason: "Grandpa: Out-of-scope message" }
}

/// The cost of a message that cannot be evaluated yet.
pub fn cost_out_of_scope_message() -> (r: ReputationChange)
    ensures
        r == cost_out_of_scope_message_spec(),
{
    reputation(-500, "Grandpa: Out-of-scope message")
}

/// The cost of a commit found invalid once processed.
pub open spec fn cost_invalid_commit_spec() -> ReputationChange {
    ReputationChange { value: -5000i32, reason: "Grandpa: Invalid precommit" }
}

/// The cost of a commit found invalid once processed.
pub fn cost_invalid_commit() -> (r: ReputationChange)
    ensures
        r == cost_invalid_commit_spec(),
{
    reputation(-5000, "Grandpa: Invalid precommit")
}

/// The benefit of a neighbor packet.
pub open spec fn benefit_neighbor_message_spec() -> ReputationChange {
    ReputationChange { value: 100i32, reason: "Grandpa: Neighbor message" }
}

/// The benefit of a neighbor packet.
pub fn benefit_neighbor_message() -> (r: ReputationChange)
    ensures
        r == benefit_neighbor_message_spec(),
{
    reputation(100, "Grandpa: Neighbor message")
}

/// The benefit of a valid round message.
pub open spec fn benefit_round_message_spec() -> ReputationChange {
    ReputationChange { value: 100i32, reason: "Grandpa: Round message" }
}

/// The benefit of a valid round message.
pub fn benefit_round_message() -> (r: ReputationChange)
    ensures
        r == benefit_round_message_spec(),
{
    reputation(100, "Grandpa: Round message")
}

/// The benefit of a commit that passed the first checks.
pub open spec fn benefit_basic_validated_commit_spec() -> ReputationChange {
    ReputationChange { value: 100i32, reason: "Grandpa: Commit" }
}

/// The benefit of a commit that passed the first checks.
pub fn benefit_basic_validated_commit() -> (r: ReputationChange)
    ensures
        r == benefit_basic_validated_commit_spec(),
{
    reputation(100, "Grandpa: Commit")
}

/// Cost of each undecodable byte.
pub const PER_UNDECODABLE_BYTE: i32 = -5;

/// Cost of each signature checked in a bad commit.
pub const PER_SIGNATURE_CHECKED: i32 = -25;

/// Cost of each block loaded for a bad commit.
pub const PER_BLOCK_LOADED: i32 = -10;

/// Benefit of each equivocation caught in a bad commit.
pub const PER_EQUIVOCATION: i32 = 10;

/// `v` clamped to the range of `i32`.
pub open spec fn clamp_i32(v: int) -> int {
    if v < i32::MIN {
        i32::MIN as int
    } else if v > i32::MAX {
        i32::MAX as int
    } else {
        v
    }
}

/// Saturating addition of two `i32`.
pub fn sat_add_i32(a: i32, b: i32) -> (r: i32)
    ensures
        r == clamp_i32(a + b),
{
    let s: i64 = a as i64 + b as i64;
    if s < -2147483648i64 {
        -2147483648i32
    } else if s > 2147483647i64 {
        2147483647i32
    } else {
        s as i32
    }
}

/// Saturating multiplication of two `i32`.
pub fn sat_mul_i32(a: i32, b: i32) -> (r: i32)
    ensures
        r == clamp_i32(a * b),
{
    assert(-2147483648 * 2147483648 <= a * b <= 2147483648 * 2147483648) by (nonlinear_arith)
        requires
            -2147483648 <= a <= 2147483647,
            -2147483648 <= b <= 2147483647,
    ;
    let p: i64 = a as i64 * b as i64;
    if p < -2147483648i64 {
        -2147483648i32
    } else if p > 2147483647i64 {
        2147483647i32
    } else {
        p as i32
    }
}

/// Misbehavior that peers can perform.
#[derive(Clone, Copy, Debug, PartialEq, Eq, Structural)]
pub enum Misbehavior {
    /// Invalid neighbor message, considering the last one.
    InvalidRoundChange,
    /// Could not decode neighbor message (bytes-length of the packet).
    UndecodablePacket(i32),
    /// Bad commit message.
    BadCommitMessage { signatures_checked: i32, blocks_loaded: i32, equivocations_caught: i32 },
    /// A message from the future relative to our round.
    FutureMessage,
    /// A message that cannot be evaluated relative to our round.
    OutOfScopeMessage,
}

/// The reputation value of a misbehavior (see `Misbehavior::cost`).
pub open spec fn misbehavior_cost(m: Misbehavior) -> int {
    match m {
        Misbehavior::InvalidRoundChange => -500,
        Misbehavior::UndecodablePacket(bytes) => clamp_i32(bytes * PER_UNDECODABLE_BYTE),
        Misbehavior::BadCommitMessage { signatures_checked, blocks_loaded, equivocations_caught } => {
            let cost = clamp_i32(
                clamp_i32(PER_SIGNATURE_CHECKED * signatures_checked) + clamp_i32(
                    PER_BLOCK_LOADED * blocks_loaded,
                ),
            );
            let benefit = clamp_i32(equivocations_caught * PER_EQUIVOCATION);
            clamp_i32(benefit + cost)
        },
        Misbehavior::FutureMessage => -500,
        Misbehavior::OutOfScopeMessage => -500,
    }
}

/// The reputation change of a misbehavior.
pub open spec fn misbehavior_rep(m: Misbehavior) -> ReputationChange {
    match m {
        Misbehavior::InvalidRoundChange => cost_invalid_view_change_spec(),
        Misbehavior::UndecodablePacket(_) => ReputationChange {
            value: misbehavior_cost(m) as i32,
            reason: "Grandpa: Bad packet",
        },
        Misbehavior::BadCommitMessage { .. } => ReputationChange {
            value: misbehavior_cost(m) as i32,
            reason: "Grandpa: Bad commit",
        },
        Misbehavior::FutureMessage => cost_future_message_spec(),
        Misbehavior::OutOfScopeMessage => cost_out_of_scope_message_spec(),
    }
}

impl Misbehavior {
    /// The reputation change for the misbehavior.
    pub fn cost(&self) -> (r: ReputationChange)
        ensures
            r.value == misbehavior_cost(*self),
            r == misbehavior_rep(*self),
    {
        match *self {
            Misbehavior::InvalidRoundChange => cost_invalid_view_change(),
            Misbehavior::UndecodablePacket(bytes) => reputation(
                sat_mul_i32(bytes, PER_UNDECODABLE_BYTE),
                "Grandpa: Bad packet",
            ),
            Misbehavior::BadCommitMessage {
                signatures_checked,
                blocks_loaded,
                equivocations_caught,
            } => {
                let cost = sat_add_i32(
                    sat_mul_i32(PER_SIGNATURE_CHECKED, signatures_checked),
                    sat_mul_i32(PER_BLOCK_LOADED, blocks_loaded),
                );
                let benefit = sat_mul_i32(equivocations_caught, PER_EQUIVOCATION);
                reputation(sat_add_i32(benefit, cost), "Grandpa: Bad commit")
            },
            Misbehavior::FutureMessage => cost_future_message(),
            Misbehavior::OutOfScopeMessage => cost_out_of_scope_message(),
        }
    }
}

/// An outcome of examining a message.
#[derive(Debug, PartialEq, Eq, Clone, Copy, Structural)]
pub enum Consider {
    /// Accept the message.
    Accept,
    /// Message is too early. Reject.
    RejectPast,
    /// Message is from the future. Reject.
    RejectFuture,
    /// Message cannot be evaluated. Reject.
    RejectOutOfScope,
}

/// The round, set and commit height a peer (or the local node) is at.
#[derive(Debug, Clone, Copy, PartialEq, Eq, Structural)]
pub struct PeerRound {
    /// The current round.
    pub round: Round,
    /// The current voter set id.
    pub set_id: SetId,
    /// Commit-finalized block height, if any.
    pub last_commit: Option<u64>,
}

/// Whether a vote of `round` in set `set_id` is acceptable at `at`: only from
/// the current set, and from the round before, the same round or the next one.
pub open spec fn consider_vote_spec(at: PeerRound, round: Round, set_id: SetId) -> Consider {
    if set_id.0 < at.set_id.0 {
        Consider::RejectPast
    } else if set_id.0 > at.set_id.0 {
        Consider::RejectFuture
    } else if round.0 > (if at.round.0 == u64::MAX {
        u64::MAX as int
    } else {
        at.round.0 + 1
    }) {
        Consider::RejectFuture
    } else if round.0 < (if at.round.0 == 0 {
        0
    } else {
        at.round.0 - 1
    }) {
        Consider::RejectPast
    } else {
        Consider::Accept
    }
}

/// Whether a global message of set `set_id` about block `number` is
/// acceptable at `at`: only from the current set, and only for a block above
/// the last commit.
pub open spec fn consider_global_spec(at: PeerRound, set_id: SetId, number: u64) -> Consider {
    if set_id.0 < at.set_id.0 {
        Consider::RejectPast
    } else if set_id.0 > at.set_id.0 {
        Consider::RejectFuture
    } else {
        match at.last_commit {
            None => Consider::Accept,
            Some(num) => if num < number {
                Consider::Accept
            } else {
                Consider::RejectPast
            },
        }
    }
}

/// Which votes a peer at `at` accepts: those of its own set whose round is
/// at most one away from its round; a vote of an earlier set, or of a round
/// more than one before, is from the past, and one of a later set, or of a
/// round more than one after, from the future.
pub proof fn lemma_vote_window(at: PeerRound, round: Round, set_id: SetId)
    ensures
        consider_vote_spec(at, round, set_id) == Consider::Accept <==> (set_id.0 == at.set_id.0
            && at.round.0 - 1 <= round.0 <= at.round.0 + 1),
        set_id.0 < at.set_id.0 ==> consider_vote_spec(at, round, set_id) == Consider::RejectPast,
        set_id.0 > at.set_id.0 ==> consider_vote_spec(at, round, set_id) == Consider::RejectFuture,
        set_id.0 == at.set_id.0 && round.0 > at.round.0 + 1 ==> consider_vote_spec(at, round, set_id)
            == Consider::RejectFuture,
        set_id.0 == at.set_id.0 && round.0 < at.round.0 - 1 ==> consider_vote_spec(at, round, set_id)
            == Consider::RejectPast,
{
}

/// Which global messages a peer at `at` accepts: those of its own set about
/// a block above the last commit it announced (any block without one).
pub proof fn lemma_global_window(at: PeerRound, set_id: SetId, number: u64)
    ensures
        consider_global_spec(at, set_id, number) == Consider::Accept <==> (set_id.0 == at.set_id.0
            && (at.last_commit is None || at.last_commit->Some_0 < number)),
        set_id.0 > at.set_id.0 ==> consider_global_spec(at, set_id, number) == Consider::RejectFuture,
{
}

impl PeerRound {
    /// Round 0 of set 0, without commit.
    pub fn default_round() -> (r: PeerRound)
        ensures
            r == (PeerRound { round: Round(0), set_id: SetId(0), last_commit: None }),
    {
        PeerRound { round: Round(0), set_id: SetId(0), last_commit: None }
    }

    /// Considers a round and set id combination under the current round.
    pub fn consider_vote(&self, round: Round, set_id: SetId) -> (r: Consider)
        ensures
            r == consider_vote_spec(*self, round, set_id),
    {
        if set_id.0 < self.set_id.0 {
            return Consider::RejectPast;
        }
        if set_id.0 > self.set_id.0 {
            return Consider::RejectFuture;
        }
        if round.0 > self.round.0.saturating_add(1) {
            return Consider::RejectFuture;
        }
        if round.0 < self.round.0.saturating_sub(1) {
            return Consider::RejectPast;
        }
        Consider::Accept
    }

    /// Considers a global message of a set about a block.
    pub fn consider_global(&self, set_id: SetId, number: u64) -> (r: Consider)
        ensures
            r == consider_global_spec(*self, set_id, number),
    {
        if set_id.0 < self.set_id.0 {
            return Consider::RejectPast;
        }
        if set_id.0 > self.set_id.0 {
            return Consider::RejectFuture;
        }
        match self.last_commit {
            None => Consider::Accept,
            Some(num) => if num < number {
                Consider::Accept
            } else {
                Consider::RejectPast
            },
        }
    }
}


// ---------------------------------------------------------------------------
// Outside types and collections
// ---------------------------------------------------------------------------

#[verifier::external_type_specification]
#[verifier::external_body]
pub struct ExInstant(std::time::Instant);

#[verifier::external_type_specification]
#[verifier::external_body]
pub struct ExRandomState(ahash::RandomState);

#[verifier::external_type_specification]
#[verifier::external_body]
#[verifier::reject_recursive_types(K)]
#[verifier::reject_recursive_types(V)]
#[verifier::reject_recursive_types(S)]
pub struct ExAHashMap<K, V, S>(ahash::AHashMap<K, V, S>);

#[verifier::external_type_specification]
#[verifier::external_body]
#[verifier::reject_recursive_types(T)]
#[verifier::reject_recursive_types(S)]
pub struct ExAHashSet<T, S>(ahash::AHashSet<T, S>);

/// The current time, from `std::time::Instant::now`. Nothing is known of it:
/// it is carried along as the start of a round.
#[verifier::external_body]
fn instant_now() -> (r: Instant) {
    Instant::now()
}

/// A map of peers.
pub type PeerMap = AHashMap<PeerKey, PeerInfo>;

/// A map of kept topics.
pub type TopicMap = AHashMap<H256, (Option<Round>, SetId)>;

/// The empty map of peers.
pub open spec fn no_peers() -> Map<PeerKey, PeerInfo> {
    Map::empty()
}

/// The empty map of topics.
pub open spec fn no_topics() -> Map<H256, (Option<Round>, SetId)> {
    Map::empty()
}

/// What a map of peers holds.
pub uninterp spec fn peer_map_view(m: AHashMap<PeerKey, PeerInfo>) -> Map<PeerKey, PeerInfo>;

/// What a map of kept topics holds.
pub uninterp spec fn topic_map_view(m: AHashMap<H256, (Option<Round>, SetId)>) -> Map<
    H256,
    (Option<Round>, SetId),
>;

/// What a set of peers holds.
pub uninterp spec fn peer_set_view(s: AHashSet<PeerKey>) -> Set<PeerKey>;

/// An empty map of peers, by `ahash::AHashMap::new`.
#[verifier::external_body]
fn peer_map_new() -> (r: PeerMap)
    ensures
        peer_map_view(r) == no_peers(),
{
    AHashMap::new()
}

/// Inserts an entry with `ahash::AHashMap::insert`: the entry of `k` becomes
/// `v`, the others stay.
#[verifier::external_body]
fn peer_map_insert(m: &mut AHashMap<PeerKey, PeerInfo>, k: PeerKey, v: PeerInfo)
    ensures
        peer_map_view(*final(m)) == peer_map_view(*old(m)).insert(k, v),
{
    m.insert(k, v);
}

/// Removes an entry with `ahash::AHashMap::remove`.
#[verifier::external_body]
fn peer_map_remove(m: &mut AHashMap<PeerKey, PeerInfo>, k: &PeerKey)
    ensures
        peer_map_view(*final(m)) == peer_map_view(*old(m)).remove(*k),
{
    m.remove(k);
}

/// Looks an entry up with `ahash::AHashMap::get` (the entry is copied).
#[verifier::external_body]
fn peer_map_get(m: &AHashMap<PeerKey, PeerInfo>, k: &PeerKey) -> (r: Option<PeerInfo>)
    ensures
        r == (if peer_map_view(*m).contains_key(*k) {
            Some(peer_map_view(*m)[*k])
        } else {
            None
        }),
{
    m.get(k).copied()
}

/// All entries of a map of peers, in the order `std::collections::HashMap::iter`
/// (through the map's `Deref`) visits them: each entry once, in an order that
/// is not specified.
#[verifier::external_body]
fn peer_map_entries(m: &AHashMap<PeerKey, PeerInfo>) -> (r: Vec<(PeerKey, PeerInfo)>)
    ensures
        r@.map_values(|e: (PeerKey, PeerInfo)| e.0).no_duplicates(),
        forall|i: int|
            0 <= i < r@.len() ==> peer_map_view(*m).contains_key(#[trigger] r@[i].0)
                && peer_map_view(*m)[r@[i].0] == r@[i].1,
        forall|k: PeerKey|
            peer_map_view(*m).contains_key(k) ==> exists|i: int|
                0 <= i < r@.len() && #[trigger] r@[i].0 == k,
{
    m.iter().map(|(k, v)| (*k, *v)).collect()
}

/// The number of entries of a map of peers, by
/// `std::collections::HashMap::len` (through the map's `Deref`).
#[verifier::external_body]
fn peer_map_len(m: &AHashMap<PeerKey, PeerInfo>) -> (r: usize)
    ensures
        r == peer_map_view(*m).len(),
{
    m.len()
}

/// An empty map of topics, by `ahash::AHashMap::new`.
#[verifier::external_body]
fn topic_map_new() -> (r: TopicMap)
    ensures
        topic_map_view(r) == no_topics(),
{
    AHashMap::new()
}

/// Inserts an entry with `ahash::AHashMap::insert`.
#[verifier::external_body]
fn topic_map_insert(
    m: &mut AHashMap<H256, (Option<Round>, SetId)>,
    k: H256,
    v: (Option<Round>, SetId),
)
    ensures
        topic_map_view(*final(m)) == topic_map_view(*old(m)).insert(k, v),
{
    m.insert(k, v);
}

/// Looks an entry up with `ahash::AHashMap::get` (the entry is copied).
#[verifier::external_body]
fn topic_map_get(m: &AHashMap<H256, (Option<Round>, SetId)>, k: &H256) -> (r: Option<
    (Option<Round>, SetId),
>)
    ensures
        r == (if topic_map_view(*m).contains_key(*k) {
            Some(topic_map_view(*m)[*k])
        } else {
            None
        }),
{
    m.get(k).copied()
}

/// An empty set of peers, by `ahash::AHashSet::new`.
#[verifier::external_body]
fn peer_set_new() -> (r: AHashSet<PeerKey>)
    ensures
        peer_set_view(r) == Set::<PeerKey>::empty(),
{
    AHashSet::new()
}

/// Adds a peer with `std::collections::HashSet::insert` (through the set's
/// `DerefMut`).
#[verifier::external_body]
fn peer_set_insert(s: &mut AHashSet<PeerKey>, k: PeerKey)
    ensures
        peer_set_view(*final(s)) == peer_set_view(*old(s)).insert(k),
{
    s.insert(k);
}

/// Removes a peer with `std::collections::HashSet::remove` (through the set's
/// `DerefMut`).
#[verifier::external_body]
fn peer_set_remove(s: &mut AHashSet<PeerKey>, k: &PeerKey)
    ensures
        peer_set_view(*final(s)) == peer_set_view(*old(s)).remove(*k),
{
    s.remove(k);
}

/// Whether a peer is in the set, by `std::collections::HashSet::contains`
/// (through the set's `Deref`).
#[verifier::external_body]
fn peer_set_contains(s: &AHashSet<PeerKey>, k: &PeerKey) -> (r: bool)
    ensures
        r == peer_set_view(*s).contains(*k),
{
    s.contains(k)
}

/// The number of peers in the set, by `std::collections::HashSet::len`
/// (through the set's `Deref`).
#[verifier::external_body]
fn peer_set_len(s: &AHashSet<PeerKey>) -> (r: usize)
    ensures
        r == peer_set_view(*s).len(),
{
    s.len()
}

/// Shuffles entries in place with `rand::seq::SliceRandom::shuffle` and the
/// thread-local generator: the result is a permutation of the entries, which
/// one is left to chance.
#[verifier::external_body]
fn shuffle_entries(v: &mut Vec<(PeerKey, PeerInfo)>)
    ensures
        final(v)@.to_multiset() == old(v)@.to_multiset(),
        final(v)@.len() == old(v)@.len(),
{
    v.shuffle(&mut rand::thread_rng());
}

// ---------------------------------------------------------------------------
// Local round and kept topics
// ---------------------------------------------------------------------------

/// The local node's round: its round and set, the last commit it observed
/// (height, round and set), and when the round started.
pub struct LocalRound {
    pub round: Round,
    pub set_id: SetId,
    pub last_commit: Option<(u64, Round, SetId)>,
    pub round_start: Instant,
}

impl LocalRound {
    /// A local round at the given set and round, starting now.
    pub fn new(set_id: SetId, round: Round) -> (r: LocalRound)
        ensures
            r.set_id == set_id,
            r.round == round,
            r.last_commit is None,
    {
        LocalRound { set_id, round, last_commit: None, round_start: instant_now() }
    }

    /// The height the last observed commit finalizes.
    pub open spec fn spec_last_commit_height(&self) -> Option<u64> {
        match self.last_commit {
            Some((number, _, _)) => Some(number),
            None => None,
        }
    }

    /// The local round as a `PeerRound` (the commit reduced to its height).
    pub fn as_round(&self) -> (r: PeerRound)
        ensures
            r == (PeerRound {
                round: self.round,
                set_id: self.set_id,
                last_commit: self.spec_last_commit_height(),
            }),
    {
        PeerRound { round: self.round, set_id: self.set_id, last_commit: self.last_commit_height() }
    }

    /// Moves to another set, at round 1, starting now; a call with the
    /// current set does nothing.
    pub fn update_set(&mut self, set_id: SetId)
        ensures
            final(self).set_id == set_id,
            final(self).round == (if set_id != old(self).set_id {
                Round(1)
            } else {
                old(self).round
            }),
            final(self).last_commit == old(self).last_commit,
    {
        if set_id.0 != self.set_id.0 {
            self.set_id = set_id;
            self.round = Round(1);
            self.round_start = instant_now();
        }
    }

    /// Moves to another round, starting now.
    pub fn update_round(&mut self, round: Round)
        ensures
            final(self).round == round,
            final(self).set_id == old(self).set_id,
            final(self).last_commit == old(self).last_commit,
    {
        self.round = round;
        self.round_start = instant_now();
    }

    /// The height the last observed commit finalizes.
    pub fn last_commit_height(&self) -> (r: Option<u64>)
        ensures
            r == self.spec_last_commit_height(),
    {
        match self.last_commit {
            Some((number, _, _)) => Some(number),
            None => None,
        }
    }
}

/// Number of complete rounds whose topics are kept.
pub const KEEP_RECENT_ROUNDS: usize = 3;

/// The hash naming the global topic of a set.
pub open spec fn global_topic_key(set_id: SetId) -> H256 {
    choose|h: H256| h@ == blake2_256_of(global_topic_text(set_id.0))
}

/// The hash naming the topic of a round of a set.
pub open spec fn round_topic_key(round: Round, set_id: SetId) -> H256 {
    choose|h: H256| h@ == blake2_256_of(round_topic_text(round.0, set_id.0))
}

/// The topics kept for the rounds `rounds` (in order, later entries winning)
/// and the global topic of `current_set`.
pub open spec fn topics_of(current_set: SetId, rounds: Seq<(Round, SetId)>) -> Map<
    H256,
    (Option<Round>, SetId),
>
    decreases rounds.len(),
{
    if rounds.len() == 0 {
        Map::empty().insert(global_topic_key(current_set), (None, current_set))
    } else {
        let (r, s) = rounds.last();
        topics_of(current_set, rounds.drop_last()).insert(round_topic_key(r, s), (Some(r), s))
    }
}

/// The rounds kept after noting round `round` of set `set_id`: the round (if
/// not kept yet) and the next one are added, and only the last
/// `KEEP_RECENT_ROUNDS + 2` are kept.
pub open spec fn rounds_after_push(rounds: Seq<(Round, SetId)>, round: Round, set_id: SetId) -> Seq<
    (Round, SetId),
> {
    let with_round = if rounds.contains((round, set_id)) {
        rounds
    } else {
        rounds.push((round, set_id))
    };
    let next = if round.0 == u64::MAX {
        round
    } else {
        Round((round.0 + 1) as u64)
    };
    let all = with_round.push((next, set_id));
    if all.len() > KEEP_RECENT_ROUNDS + 2 {
        all.subrange(all.len() - (KEEP_RECENT_ROUNDS + 2), all.len() as int)
    } else {
        all
    }
}

/// The gossip topics messages are kept for: the last complete rounds, the
/// current and next round, and the global topic of the current set.
pub struct KeepTopics {
    current_set: SetId,
    rounds: VecDeque<(Round, SetId)>,
    reverse_map: AHashMap<H256, (Option<Round>, SetId)>,
}

impl KeepTopics {
    pub closed spec fn spec_current_set(&self) -> SetId {
        self.current_set
    }

    pub closed spec fn spec_rounds(&self) -> Seq<(Round, SetId)> {
        self.rounds@
    }

    /// The kept topics, each with its round (none for the global topic) and set.
    pub closed spec fn spec_topics(&self) -> Map<H256, (Option<Round>, SetId)> {
        topic_map_view(self.reverse_map)
    }

    /// No topic kept yet, at set 0.
    pub fn new() -> (r: KeepTopics)
        ensures
            r.spec_current_set() == SetId(0),
            r.spec_rounds().len() == 0,
            r.spec_topics() == Map::<H256, (Option<Round>, SetId)>::empty(),
    {
        KeepTopics {
            current_set: SetId(0),
            rounds: VecDeque::new(),
            reverse_map: topic_map_new(),
        }
    }

    /// Notes round `round` of set `set_id`: the current set becomes the
    /// highest seen, the rounds kept are updated (see `rounds_after_push`) and
    /// the topics are those of the rounds kept and of the current set.
    pub fn push(&mut self, round: Round, set_id: SetId)
        ensures
            final(self).spec_current_set() == (if old(self).spec_current_set().0 >= set_id.0 {
                old(self).spec_current_set()
            } else {
                set_id
            }),
            final(self).spec_rounds() == rounds_after_push(old(self).spec_rounds(), round, set_id),
            final(self).spec_topics() == topics_of(
                final(self).spec_current_set(),
                final(self).spec_rounds(),
            ),
    {
        if set_id.0 > self.current_set.0 {
            self.current_set = set_id;
        }
        let ghost cs = self.current_set;
        let mut found = false;
        let mut i: usize = 0;
        while i < self.rounds.len()
            invariant
                i <= self.rounds@.len(),
                self.rounds@ == old(self).rounds@,
                self.current_set == cs,
                found == (exists|j: int| 0 <= j < i && self.rounds@[j] == (round, set_id)),
            decreases self.rounds@.len() - i,
        {
            let (r, s) = self.rounds[i];
            if r.0 == round.0 && s.0 == set_id.0 {
                found = true;
            }
            i += 1;
        }
        proof {
            if found {
                let j = choose|j: int| 0 <= j < i && self.rounds@[j] == (round, set_id);
                assert(self.rounds@.contains((round, set_id)));
            }
            if self.rounds@.contains((round, set_id)) {
                let j = choose|j: int|
                    0 <= j < self.rounds@.len() && self.rounds@[j] == (round, set_id);
                assert(found);
            }
        }
        if !found {
            self.rounds.push_back((round, set_id));
        }
        let next = Round(round.0.saturating_add(1));
        self.rounds.push_back((next, set_id));
        let ghost all = self.rounds@;
        while self.rounds.len() > KEEP_RECENT_ROUNDS + 2
            invariant
                self.rounds@.len() >= KEEP_RECENT_ROUNDS + 2 ==> self.rounds@ == all.subrange(
                    all.len() - self.rounds@.len(),
                    all.len() as int,
                ),
                self.rounds@.len() < KEEP_RECENT_ROUNDS + 2 ==> self.rounds@ == all,
                self.rounds@.len() <= all.len(),
                all.len() <= KEEP_RECENT_ROUNDS + 2 ==> self.rounds@ == all,
                self.current_set == cs,
            decreases self.rounds@.len(),
        {
            let ghost before = self.rounds@;
            let _ = self.rounds.pop_front();
            assert(self.rounds@ =~= before.drop_first());
            assert(before.drop_first() =~= all.subrange(
                all.len() - self.rounds@.len(),
                all.len() as int,
            ));
        }
        assert(self.rounds@ == rounds_after_push(old(self).rounds@, round, set_id)) by {
            if all.len() <= KEEP_RECENT_ROUNDS + 2 {
                assert(self.rounds@ =~= all);
            }
        }
        let mut map = topic_map_new();
        let g = global_topic(self.current_set.0);
        proof {
            assert(g == global_topic_key(self.current_set)) by {
                let k = global_topic_key(self.current_set);
                assert(k@ == blake2_256_of(global_topic_text(self.current_set.0)));
                assert(k@ =~= g@);
                assert(k =~= g);
            }
        }
        topic_map_insert(&mut map, g, (None, self.current_set));
        let mut i: usize = 0;
        while i < self.rounds.len()
            invariant
                i <= self.rounds@.len(),
                topic_map_view(map) == topics_of(
                    self.current_set,
                    self.rounds@.subrange(0, i as int),
                ),
            decreases self.rounds@.len() - i,
        {
            let (r, s) = self.rounds[i];
            let t = round_topic(r.0, s.0);
            proof {
                assert(t == round_topic_key(r, s)) by {
                    let k = round_topic_key(r, s);
                    assert(k@ == blake2_256_of(round_topic_text(r.0, s.0)));
                    assert(k@ =~= t@);
                    assert(k =~= t);
                }
                let sub = self.rounds@.subrange(0, i + 1);
                assert(sub.drop_last() =~= self.rounds@.subrange(0, i as int));
                assert(sub.last() == (r, s));
            }
            topic_map_insert(&mut map, t, (Some(r), s));
            i += 1;
        }
        assert(self.rounds@.subrange(0, self.rounds@.len() as int) =~= self.rounds@);
        self.reverse_map = map;
    }

    /// The round (none for a global topic) and set of a kept topic.
    pub fn topic_info(&self, topic: &H256) -> (r: Option<(Option<Round>, SetId)>)
        ensures
            r == (if self.spec_topics().contains_key(*topic) {
                Some(self.spec_topics()[*topic])
            } else {
                None
            }),
    {
        topic_map_get(&self.reverse_map, topic)
    }
}


// ---------------------------------------------------------------------------
// Peers
// ---------------------------------------------------------------------------

/// Number of peers gossiped to in the first stage of round gossiping.
pub const LUCKY_PEERS: usize = 4;

/// The ids of the peers of `peers` with the given role, in order.
pub open spec fn ids_with_role(peers: Seq<(PeerKey, PeerInfo)>, role: Role) -> Seq<PeerKey>
    decreases peers.len(),
{
    if peers.len() == 0 {
        Seq::empty()
    } else {
        let rest = ids_with_role(peers.drop_last(), role);
        if peers.last().1.roles == role {
            rest.push(peers.last().0)
        } else {
            rest
        }
    }
}

/// The first `n` elements of `s` (all of them when there are fewer).
pub open spec fn first_n(s: Seq<PeerKey>, n: nat) -> Seq<PeerKey> {
    if s.len() <= n {
        s
    } else {
        s.subrange(0, n as int)
    }
}

/// The second filling of the gossip stages from `peers` in order: peers that
/// are not light clients go to the first stage until it holds `LUCKY_PEERS`
/// (leaving the second), then to the second stage (unless in the first) until
/// it holds `second_size`; the filling stops at the first peer that fits in
/// neither. Returns both stages and whether the filling stopped.
pub open spec fn fill_stages(
    peers: Seq<(PeerKey, PeerInfo)>,
    second_size: nat,
    first: Set<PeerKey>,
    second: Set<PeerKey>,
) -> (Set<PeerKey>, Set<PeerKey>, bool)
    decreases peers.len(),
{
    if peers.len() == 0 {
        (first, second, false)
    } else {
        let (f, sc, stopped) = fill_stages(peers.drop_last(), second_size, first, second);
        let (id, info) = peers.last();
        if stopped {
            (f, sc, true)
        } else if info.roles == Role::Light {
            (f, sc, false)
        } else if f.len() < LUCKY_PEERS {
            (f.insert(id), sc.remove(id), false)
        } else if sc.len() < second_size {
            (f, if f.contains(id) {
                sc
            } else {
                sc.insert(id)
            }, false)
        } else {
            (f, sc, true)
        }
    }
}

/// The gossip stages chosen from `peers` in order (see `Peers::reshuffle`):
/// the first two authorities go to the first stage and the next four to the
/// second, then `fill_stages` completes both; the light-client stage holds
/// the first `LUCKY_PEERS` light clients.
pub open spec fn stages_of(peers: Seq<(PeerKey, PeerInfo)>, sqrt_peers: nat) -> (
    Set<PeerKey>,
    Set<PeerKey>,
    Set<PeerKey>,
) {
    let auth = ids_with_role(peers, Role::Authority);
    let first0 = first_n(auth, 2).to_set();
    let second0 = if auth.len() <= 2 {
        Set::empty()
    } else {
        first_n(auth.subrange(2, auth.len() as int), 4).to_set()
    };
    let second_size = if sqrt_peers > LUCKY_PEERS {
        sqrt_peers
    } else {
        LUCKY_PEERS as nat
    };
    let (f, sc, _) = fill_stages(peers, second_size, first0, second0);
    (f, sc, first_n(ids_with_role(peers, Role::Light), LUCKY_PEERS as nat).to_set())
}


/// Whether no two entries of `peers` have the same key.
pub open spec fn keys_distinct(peers: Seq<(PeerKey, PeerInfo)>) -> bool {
    forall|i: int, j: int| 0 <= i < j < peers.len() ==> peers[i].0 != peers[j].0
}

/// Whether `x` is the key of an entry of `peers` with the given role.
pub open spec fn has_role_id(peers: Seq<(PeerKey, PeerInfo)>, x: PeerKey, role: Role) -> bool {
    exists|i: int| 0 <= i < peers.len() && #[trigger] peers[i].0 == x && peers[i].1.roles == role
}

/// Whether `x` is the key of an entry of `peers` that is not a light client.
pub open spec fn has_non_light_id(peers: Seq<(PeerKey, PeerInfo)>, x: PeerKey) -> bool {
    exists|i: int| 0 <= i < peers.len() && #[trigger] peers[i].0 == x && peers[i].1.roles != Role::Light
}

/// The ids with a role are keys of entries with that role, each once when
/// the keys are distinct.
proof fn lemma_ids_with_role(peers: Seq<(PeerKey, PeerInfo)>, role: Role)
    ensures
        forall|j: int| 0 <= j < ids_with_role(peers, role).len()
            ==> has_role_id(peers, #[trigger] ids_with_role(peers, role)[j], role),
        keys_distinct(peers) ==> ids_with_role(peers, role).no_duplicates(),
    decreases peers.len(),
{
    if peers.len() > 0 {
        let d = peers.drop_last();
        lemma_ids_with_role(d, role);
        let ids = ids_with_role(peers, role);
        let rest = ids_with_role(d, role);
        assert forall|j: int| 0 <= j < ids.len() implies has_role_id(peers, #[trigger] ids[j], role) by {
            if j < rest.len() {
                assert(ids[j] == rest[j]);
                let k = choose|k: int| 0 <= k < d.len() && #[trigger] d[k].0 == rest[j] && d[k].1.roles == role;
                assert(peers[k] == d[k]);
            } else {
                assert(peers[peers.len() - 1].0 == ids[j]);
            }
        }
        if keys_distinct(peers) && peers.last().1.roles == role {
            assert(keys_distinct(d));
            assert forall|a: int, b: int| 0 <= a < ids.len() && 0 <= b < ids.len() && a != b implies ids[a] != ids[b] by {
                if a < rest.len() && b < rest.len() {
                    assert(ids[a] == rest[a] && ids[b] == rest[b]);
                } else if a < rest.len() {
                    let k = choose|k: int| 0 <= k < d.len() && #[trigger] d[k].0 == rest[a] && d[k].1.roles == role;
                    assert(ids[a] == rest[a]);
                    assert(peers[k] == d[k]);
                } else if b < rest.len() {
                    let k = choose|k: int| 0 <= k < d.len() && #[trigger] d[k].0 == rest[b] && d[k].1.roles == role;
                    assert(ids[b] == rest[b]);
                    assert(peers[k] == d[k]);
                }
            }
        } else if keys_distinct(peers) {
            assert(keys_distinct(d));
            assert(ids == rest);
        }
    }
}

/// The filling keeps the stages apart, and adds only peers that are not
/// light clients.
proof fn lemma_fill_apart(
    peers: Seq<(PeerKey, PeerInfo)>,
    second_size: nat,
    first: Set<PeerKey>,
    second: Set<PeerKey>,
)
    requires
        forall|x: PeerKey| !(first.contains(x) && second.contains(x)),
    ensures
        ({
            let (f, sc, _) = fill_stages(peers, second_size, first, second);
            &&& forall|x: PeerKey| !(f.contains(x) && sc.contains(x))
            &&& forall|x: PeerKey| #[trigger] f.contains(x) ==> first.contains(x) || has_non_light_id(peers, x)
            &&& forall|x: PeerKey| #[trigger] sc.contains(x) ==> second.contains(x) || has_non_light_id(peers, x)
        }),
    decreases peers.len(),
{
    if peers.len() > 0 {
        let d = peers.drop_last();
        lemma_fill_apart(d, second_size, first, second);
        let (f, sc, _) = fill_stages(d, second_size, first, second);
        let (id, info) = peers.last();
        assert forall|x: PeerKey| has_non_light_id(d, x) implies has_non_light_id(peers, x) by {
            let k = choose|k: int| 0 <= k < d.len() && #[trigger] d[k].0 == x && d[k].1.roles != Role::Light;
            assert(peers[k] == d[k]);
        }
        if info.roles != Role::Light {
            assert(peers[peers.len() - 1].0 == id);
            assert(has_non_light_id(peers, id));
        }
    }
}

/// The gossip stages, from entries with distinct keys: the first and second
/// stages share no peer and hold no light client, and the light-client stage
/// holds light clients only.
pub proof fn lemma_stages_apart(peers: Seq<(PeerKey, PeerInfo)>, sqrt_peers: nat)
    requires
        keys_distinct(peers),
    ensures
        ({
            let (first, second, light) = stages_of(peers, sqrt_peers);
            &&& forall|x: PeerKey| !(first.contains(x) && second.contains(x))
            &&& forall|x: PeerKey| #[trigger] first.contains(x) ==> has_non_light_id(peers, x)
            &&& forall|x: PeerKey| #[trigger] second.contains(x) ==> has_non_light_id(peers, x)
            &&& forall|x: PeerKey| #[trigger] light.contains(x) ==> has_role_id(peers, x, Role::Light)
        }),
{
    let auth = ids_with_role(peers, Role::Authority);
    lemma_ids_with_role(peers, Role::Authority);
    lemma_ids_with_role(peers, Role::Light);
    let f0 = first_n(auth, 2);
    let second0 = if auth.len() <= 2 {
        Set::<PeerKey>::empty()
    } else {
        first_n(auth.subrange(2, auth.len() as int), 4).to_set()
    };
    assert forall|x: PeerKey| f0.to_set().contains(x) implies has_non_light_id(peers, x) by {
        let j = choose|j: int| 0 <= j < f0.len() && f0[j] == x;
        assert(auth[j] == x);
        assert(has_role_id(peers, auth[j], Role::Authority));
        let k = choose|k: int| 0 <= k < peers.len() && #[trigger] peers[k].0 == auth[j] && peers[k].1.roles == Role::Authority;
    }
    assert forall|x: PeerKey| second0.contains(x) implies has_non_light_id(peers, x) && !f0.to_set().contains(x) by {
        let t = first_n(auth.subrange(2, auth.len() as int), 4);
        let j = choose|j: int| 0 <= j < t.len() && t[j] == x;
        assert(auth[j + 2] == x);
        assert(has_role_id(peers, auth[j + 2], Role::Authority));
        let k = choose|k: int| 0 <= k < peers.len() && #[trigger] peers[k].0 == auth[j + 2] && peers[k].1.roles == Role::Authority;
        if f0.to_set().contains(x) {
            let m = choose|m: int| 0 <= m < f0.len() && f0[m] == x;
            assert(auth[m] == x);
        }
    }
    let second_size = if sqrt_peers > LUCKY_PEERS {
        sqrt_peers
    } else {
        LUCKY_PEERS as nat
    };
    lemma_fill_apart(peers, second_size, f0.to_set(), second0);
    let light = first_n(ids_with_role(peers, Role::Light), LUCKY_PEERS as nat);
    assert forall|x: PeerKey| light.to_set().contains(x) implies has_role_id(peers, x, Role::Light) by {
        let j = choose|j: int| 0 <= j < light.len() && light[j] == x;
        assert(ids_with_role(peers, Role::Light)[j] == x);
    }
}

/// The sizes of the gossip stages: the first and the light-client stages hold
/// at most `LUCKY_PEERS` peers, the second at most the larger of
/// `LUCKY_PEERS` and the square root of the number of peers.
pub proof fn lemma_stage_sizes(peers: Seq<(PeerKey, PeerInfo)>, sqrt_peers: nat)
    ensures
        ({
            let (first, second, light) = stages_of(peers, sqrt_peers);
            &&& first.finite() && first.len() <= LUCKY_PEERS
            &&& second.finite() && second.len() <= (if sqrt_peers > LUCKY_PEERS {
                sqrt_peers
            } else {
                LUCKY_PEERS as nat
            })
            &&& light.finite() && light.len() <= LUCKY_PEERS
        }),
{
    let auth = ids_with_role(peers, Role::Authority);
    let f0 = first_n(auth, 2);
    f0.lemma_cardinality_of_set();
    let second_size = if sqrt_peers > LUCKY_PEERS {
        sqrt_peers
    } else {
        LUCKY_PEERS as nat
    };
    if auth.len() > 2 {
        let s0 = first_n(auth.subrange(2, auth.len() as int), 4);
        s0.lemma_cardinality_of_set();
    }
    let second0 = if auth.len() <= 2 {
        Set::<PeerKey>::empty()
    } else {
        first_n(auth.subrange(2, auth.len() as int), 4).to_set()
    };
    lemma_fill_sizes(peers, second_size, f0.to_set(), second0);
    let light = first_n(ids_with_role(peers, Role::Light), LUCKY_PEERS as nat);
    light.lemma_cardinality_of_set();
}

/// Filling the stages keeps the first within `LUCKY_PEERS` and the second
/// within `second_size`.
proof fn lemma_fill_sizes(
    peers: Seq<(PeerKey, PeerInfo)>,
    second_size: nat,
    first: Set<PeerKey>,
    second: Set<PeerKey>,
)
    requires
        first.finite(),
        second.finite(),
        first.len() <= LUCKY_PEERS,
        second.len() <= second_size,
    ensures
        ({
            let (f, sc, _) = fill_stages(peers, second_size, first, second);
            &&& f.finite() && f.len() <= LUCKY_PEERS
            &&& sc.finite() && sc.len() <= second_size
        }),
    decreases peers.len(),
{
    if peers.len() > 0 {
        lemma_fill_sizes(peers.drop_last(), second_size, first, second);
        let (f, sc, _) = fill_stages(peers.drop_last(), second_size, first, second);
        let id = peers.last().0;
        if sc.contains(id) {
            assert(sc.remove(id).len() < sc.len());
        }
    }
}

/// Whether `p` lists the entries of `m`, each key once.
pub open spec fn lists_entries(p: Seq<(PeerKey, PeerInfo)>, m: Map<PeerKey, PeerInfo>) -> bool {
    &&& p.map_values(|e: (PeerKey, PeerInfo)| e.0).no_duplicates()
    &&& forall|i: int|
        0 <= i < p.len() ==> m.contains_key(#[trigger] p[i].0) && m[p[i].0] == p[i].1
    &&& forall|k: PeerKey| m.contains_key(k) ==> exists|i: int| 0 <= i < p.len() && #[trigger] p[i].0 == k
}

/// Taking the first `n` of a sequence after a push.
proof fn lemma_first_n_push(a: Seq<PeerKey>, x: PeerKey, n: nat)
    ensures
        first_n(a.push(x), n).to_set() == (if a.len() < n {
            first_n(a, n).to_set().insert(x)
        } else {
            first_n(a, n).to_set()
        }),
{
    if a.len() < n {
        assert(first_n(a.push(x), n) =~= first_n(a, n).push(x));
        first_n(a, n).lemma_push_to_set_commute(x);
    } else {
        assert(first_n(a.push(x), n) =~= first_n(a, n));
    }
}

/// The second stage from the authorities `auth`: those after the first two,
/// up to four.
pub open spec fn second_of(auth: Seq<PeerKey>) -> Set<PeerKey> {
    if auth.len() <= 2 {
        Set::empty()
    } else {
        first_n(auth.subrange(2, auth.len() as int), 4).to_set()
    }
}

/// The second stage after one more authority.
proof fn lemma_second_of_push(a: Seq<PeerKey>, x: PeerKey)
    ensures
        second_of(a.push(x)) == (if 2 <= a.len() < 6 {
            second_of(a).insert(x)
        } else {
            second_of(a)
        }),
{
    if a.len() < 2 {
        assert(second_of(a.push(x)) =~= Set::<PeerKey>::empty());
    } else {
        let t = a.subrange(2, a.len() as int);
        assert(a.push(x).subrange(2, a.len() as int + 1) =~= t.push(x));
        lemma_first_n_push(t, x, 4);
        if a.len() == 2 {
            assert(first_n(t, 4) =~= Seq::<PeerKey>::empty());
            assert(first_n(t, 4).to_set() =~= Set::<PeerKey>::empty());
        }
    }
}

/// The gossip stages chosen from `peers` in order (see `stages_of`).
fn choose_stages(peers: &Vec<(PeerKey, PeerInfo)>, sqrt_peers: usize) -> (r: (
    AHashSet<PeerKey>,
    HashSet<PeerKey>,
    HashSet<PeerKey>,
))
    ensures
        peer_set_view(r.0) == stages_of(peers@, sqrt_peers as nat).0,
        r.1@ == stages_of(peers@, sqrt_peers as nat).1,
        r.2@ == stages_of(peers@, sqrt_peers as nat).2,
        peer_set_view(r.0).finite(),
        r.1@.finite(),
        r.2@.finite(),
{
    let mut first = peer_set_new();
    let mut second: HashSet<PeerKey> = HashSet::new();
    // the first authorities fill the first stage up to half of it, the next
    // ones the second stage
    let mut n_authorities: usize = 0;
    let mut i: usize = 0;
    while i < peers.len()
        invariant
            i <= peers@.len(),
            n_authorities == ids_with_role(peers@.subrange(0, i as int), Role::Authority).len(),
            n_authorities <= i,
            peer_set_view(first) == first_n(
                ids_with_role(peers@.subrange(0, i as int), Role::Authority),
                2,
            ).to_set(),
            second@ == second_of(ids_with_role(peers@.subrange(0, i as int), Role::Authority)),
        decreases peers@.len() - i,
    {
        let (id, info) = peers[i];
        let ghost a = ids_with_role(peers@.subrange(0, i as int), Role::Authority);
        proof {
            let sub = peers@.subrange(0, i + 1);
            assert(sub.drop_last() =~= peers@.subrange(0, i as int));
            assert(sub.last() == (id, info));
        }
        if info.roles == Role::Authority {
            proof {
                lemma_first_n_push(a, id, 2);
                lemma_second_of_push(a, id);
            }
            if n_authorities < 2 {
                peer_set_insert(&mut first, id);
            } else if n_authorities < 6 {
                second.insert(id);
            }
            n_authorities += 1;
        }
        i += 1;
    }
    assert(peers@.subrange(0, peers@.len() as int) =~= peers@);
    let ghost auth = ids_with_role(peers@, Role::Authority);
    proof {
        assert(first_n(auth, 2).to_set().finite());
        assert(second_of(auth).finite());
    }
    // the other peers (but light clients) fill the first stage, then the
    // second
    let second_size: usize = if sqrt_peers > LUCKY_PEERS {
        sqrt_peers
    } else {
        LUCKY_PEERS
    };
    let ghost first0 = peer_set_view(first);
    let ghost second0 = second@;
    let mut stopped = false;
    let mut i: usize = 0;
    while i < peers.len()
        invariant
            i <= peers@.len(),
            (peer_set_view(first), second@, stopped) == fill_stages(
                peers@.subrange(0, i as int),
                second_size as nat,
                first0,
                second0,
            ),
            peer_set_view(first).finite(),
            second@.finite(),
        decreases peers@.len() - i,
    {
        let (id, info) = peers[i];
        proof {
            let sub = peers@.subrange(0, i + 1);
            assert(sub.drop_last() =~= peers@.subrange(0, i as int));
            assert(sub.last() == (id, info));
        }
        if !stopped && info.roles != Role::Light {
            if peer_set_len(&first) < LUCKY_PEERS {
                peer_set_insert(&mut first, id);
                second.remove(&id);
            } else if second.len() < second_size {
                if !peer_set_contains(&first, &id) {
                    second.insert(id);
                }
            } else {
                stopped = true;
            }
        }
        i += 1;
    }
    // the first light clients form the light-client stage
    let mut light: HashSet<PeerKey> = HashSet::new();
    let mut n_light: usize = 0;
    let mut i: usize = 0;
    while i < peers.len()
        invariant
            i <= peers@.len(),
            n_light == ids_with_role(peers@.subrange(0, i as int), Role::Light).len(),
            n_light <= i,
            light@ == first_n(ids_with_role(peers@.subrange(0, i as int), Role::Light), 4).to_set(),
        decreases peers@.len() - i,
    {
        let (id, info) = peers[i];
        let ghost l = ids_with_role(peers@.subrange(0, i as int), Role::Light);
        proof {
            let sub = peers@.subrange(0, i + 1);
            assert(sub.drop_last() =~= peers@.subrange(0, i as int));
            assert(sub.last() == (id, info));
        }
        if info.roles == Role::Light {
            proof {
                lemma_first_n_push(l, id, 4);
            }
            if n_light < LUCKY_PEERS {
                light.insert(id);
            }
            n_light += 1;
        }
        i += 1;
    }
    assert(peers@.subrange(0, peers@.len() as int) =~= peers@);
    proof {
        assert(first_n(ids_with_role(peers@, Role::Light), 4).to_set().finite());
    }
    (first, second, light)
}

/// The peers we're connected to in gossip, and the peers picked for each
/// stage of gossiping.
pub struct Peers {
    inner: PeerMap,
    /// Peers gossiped to in the first stage of round gossiping.
    first_stage_peers: AHashSet<PeerKey>,
    /// Peers gossiped to in the second stage.
    second_stage_peers: HashSet<PeerKey>,
    /// Light clients gossiped commit messages to.
    lucky_light_peers: HashSet<PeerKey>,
}

impl Peers {
    pub closed spec fn spec_peers(&self) -> Map<PeerKey, PeerInfo> {
        peer_map_view(self.inner)
    }

    pub closed spec fn spec_first_stage(&self) -> Set<PeerKey> {
        peer_set_view(self.first_stage_peers)
    }

    pub closed spec fn spec_second_stage(&self) -> Set<PeerKey> {
        self.second_stage_peers@
    }

    pub closed spec fn spec_lucky_light(&self) -> Set<PeerKey> {
        self.lucky_light_peers@
    }

    /// The stage sets are finite.
    pub open spec fn wf(&self) -> bool {
        &&& self.spec_first_stage().finite()
        &&& self.spec_second_stage().finite()
        &&& self.spec_lucky_light().finite()
    }

    /// No peer.
    pub fn new() -> (r: Peers)
        ensures
            r.wf(),
            r.spec_peers() == no_peers(),
            r.spec_first_stage() == Set::<PeerKey>::empty(),
            r.spec_second_stage() == Set::<PeerKey>::empty(),
            r.spec_lucky_light() == Set::<PeerKey>::empty(),
    {
        Peers {
            inner: peer_map_new(),
            first_stage_peers: peer_set_new(),
            second_stage_peers: HashSet::new(),
            lucky_light_peers: HashSet::new(),
        }
    }

    /// The number of connected peers.
    pub fn peer_count(&self) -> (r: usize)
        ensures
            r == self.spec_peers().len(),
    {
        peer_map_len(&self.inner)
    }

    /// A peer connected: an authority joins the first stage, else the second,
    /// if there is room; a light client joins the light stage if there is room.
    pub fn new_peer(&mut self, who: PeerKey, role: Role)
        requires
            old(self).wf(),
        ensures
            final(self).wf(),
            final(self).spec_peers() == old(self).spec_peers().insert(who, PeerInfo::new_spec(role)),
            ({
                let f = old(self).spec_first_stage();
                let sc = old(self).spec_second_stage();
                let l = old(self).spec_lucky_light();
                &&& final(self).spec_first_stage() == (if role == Role::Authority && f.len()
                    < LUCKY_PEERS {
                    f.insert(who)
                } else {
                    f
                })
                &&& final(self).spec_second_stage() == (if role == Role::Authority && f.len()
                    >= LUCKY_PEERS && sc.len() < LUCKY_PEERS {
                    sc.insert(who)
                } else {
                    sc
                })
                &&& final(self).spec_lucky_light() == (if role == Role::Light && l.len()
                    < LUCKY_PEERS {
                    l.insert(who)
                } else {
                    l
                })
            }),
    {
        match role {
            Role::Authority => {
                if peer_set_len(&self.first_stage_peers) < LUCKY_PEERS {
                    peer_set_insert(&mut self.first_stage_peers, who);
                } else if self.second_stage_peers.len() < LUCKY_PEERS {
                    self.second_stage_peers.insert(who);
                }
            },
            Role::Light => {
                if self.lucky_light_peers.len() < LUCKY_PEERS {
                    self.lucky_light_peers.insert(who);
                }
            },
            Role::Full => {},
        }
        peer_map_insert(&mut self.inner, who, PeerInfo::new(role));
    }

    /// A peer disconnected: it leaves the peers and every stage.
    pub fn peer_disconnected(&mut self, who: &PeerKey)
        requires
            old(self).wf(),
        ensures
            final(self).wf(),
            final(self).spec_peers() == old(self).spec_peers().remove(*who),
            final(self).spec_first_stage() == old(self).spec_first_stage().remove(*who),
            final(self).spec_second_stage() == old(self).spec_second_stage().remove(*who),
            final(self).spec_lucky_light() == old(self).spec_lucky_light().remove(*who),
    {
        peer_map_remove(&mut self.inner, who);
        peer_set_remove(&mut self.first_stage_peers, who);
        self.second_stage_peers.remove(who);
        self.lucky_light_peers.remove(who);
    }

    /// Takes a neighbor packet of a known peer: it must not go back to an
    /// earlier set, to an earlier round of the same set, or below its last
    /// commit; the peer's round then becomes the packet's. Returns the new
    /// round, `None` for an unknown peer.
    pub fn update_peer_state(&mut self, who: &PeerKey, update: NeighborPacket) -> (r: Result<
        Option<PeerRound>,
        Misbehavior,
    >)
        requires
            old(self).wf(),
        ensures
            old(self).spec_peers().contains_key(*who) && update.set_id.0 > old(self).spec_peers()[*who].round.set_id.0
                && !(old(self).spec_peers()[*who].round.last_commit matches Some(c) && c > update.commit_finalized_height)
                ==> r == Ok::<Option<PeerRound>, Misbehavior>(
                Some(PeerRound { round: update.round, set_id: update.set_id, last_commit: Some(update.commit_finalized_height) }),
            ),
            old(self).spec_peers().contains_key(*who) && update.set_id.0 < old(self).spec_peers()[*who].round.set_id.0
                ==> r == Err::<Option<PeerRound>, Misbehavior>(Misbehavior::InvalidRoundChange),
            final(self).wf(),
            final(self).spec_first_stage() == old(self).spec_first_stage(),
            final(self).spec_second_stage() == old(self).spec_second_stage(),
            final(self).spec_lucky_light() == old(self).spec_lucky_light(),
            !old(self).spec_peers().contains_key(*who) ==> r == Ok::<
                Option<PeerRound>,
                Misbehavior,
            >(None) && final(self).spec_peers() == old(self).spec_peers(),
            old(self).spec_peers().contains_key(*who) ==> {
                let peer = old(self).spec_peers()[*who];
                let new_round = PeerRound {
                    round: update.round,
                    set_id: update.set_id,
                    last_commit: Some(update.commit_finalized_height),
                };
                if invalid_change(peer.round, update) {
                    &&& r == Err::<Option<PeerRound>, Misbehavior>(
                        Misbehavior::InvalidRoundChange,
                    )
                    &&& final(self).spec_peers() == old(self).spec_peers()
                } else {
                    &&& r == Ok::<Option<PeerRound>, Misbehavior>(Some(new_round))
                    &&& final(self).spec_peers() == old(self).spec_peers().insert(
                        *who,
                        PeerInfo { round: new_round, roles: peer.roles },
                    )
                }
            },
    {
        let peer = match peer_map_get(&self.inner, who) {
            None => {
                return Ok(None);
            },
            Some(p) => p,
        };
        let commit_above = match peer.round.last_commit {
            Some(c) => c > update.commit_finalized_height,
            None => false,
        };
        let invalid = peer.round.set_id.0 > update.set_id.0 || (peer.round.round.0
            > update.round.0 && peer.round.set_id.0 == update.set_id.0) || commit_above;
        if invalid {
            return Err(Misbehavior::InvalidRoundChange);
        }
        let new_round = PeerRound {
            round: update.round,
            set_id: update.set_id,
            last_commit: Some(update.commit_finalized_height),
        };
        peer_map_insert(&mut self.inner, *who, PeerInfo { round: new_round, roles: peer.roles });
        Ok(Some(new_round))
    }

    /// Notes a commit of a known peer: its height must not be below the
    /// peer's last commit, and becomes it.
    pub fn update_commit_height(&mut self, who: &PeerKey, new_height: u64) -> (r: Result<
        (),
        Misbehavior,
    >)
        requires
            old(self).wf(),
        ensures
            final(self).wf(),
            final(self).spec_first_stage() == old(self).spec_first_stage(),
            final(self).spec_second_stage() == old(self).spec_second_stage(),
            final(self).spec_lucky_light() == old(self).spec_lucky_light(),
            !old(self).spec_peers().contains_key(*who) ==> r == Ok::<(), Misbehavior>(())
                && final(self).spec_peers() == old(self).spec_peers(),
            old(self).spec_peers().contains_key(*who) ==> {
                let peer = old(self).spec_peers()[*who];
                if peer.round.last_commit matches Some(c) && c > new_height {
                    &&& r == Err::<(), Misbehavior>(Misbehavior::InvalidRoundChange)
                    &&& final(self).spec_peers() == old(self).spec_peers()
                } else {
                    &&& r == Ok::<(), Misbehavior>(())
                    &&& final(self).spec_peers() == old(self).spec_peers().insert(
                        *who,
                        PeerInfo {
                            round: PeerRound {
                                round: peer.round.round,
                                set_id: peer.round.set_id,
                                last_commit: Some(new_height),
                            },
                            roles: peer.roles,
                        },
                    )
                }
            },
    {
        let peer = match peer_map_get(&self.inner, who) {
            None => {
                return Ok(());
            },
            Some(p) => p,
        };
        match peer.round.last_commit {
            Some(c) => {
                if c > new_height {
                    return Err(Misbehavior::InvalidRoundChange);
                }
            },
            None => {},
        }
        let updated = PeerInfo {
            round: PeerRound {
                round: peer.round.round,
                set_id: peer.round.set_id,
                last_commit: Some(new_height),
            },
            roles: peer.roles,
        };
        peer_map_insert(&mut self.inner, *who, updated);
        Ok(())
    }

    /// What is known of a peer.
    pub fn peer(&self, who: &PeerKey) -> (r: Option<PeerInfo>)
        ensures
            r == (if self.spec_peers().contains_key(*who) {
                Some(self.spec_peers()[*who])
            } else {
                None
            }),
    {
        peer_map_get(&self.inner, who)
    }

    /// The peers that are not light clients, in no particular order, each
    /// once.
    pub fn non_light_peers(&self) -> (r: Vec<PeerKey>)
        ensures
            r@.no_duplicates(),
            forall|k: PeerKey|
                r@.contains(k) <==> (self.spec_peers().contains_key(k) && self.spec_peers()[k].roles
                    != Role::Light),
    {
        let entries = peer_map_entries(&self.inner);
        let mut out: Vec<PeerKey> = Vec::new();
        let mut i: usize = 0;
        while i < entries.len()
            invariant
                i <= entries@.len(),
                out@ == non_light_ids(entries@.subrange(0, i as int)),
            decreases entries@.len() - i,
        {
            let (id, info) = entries[i];
            proof {
                let sub = entries@.subrange(0, i + 1);
                assert(sub.drop_last() =~= entries@.subrange(0, i as int));
                assert(sub.last() == (id, info));
            }
            if info.roles != Role::Light {
                out.push(id);
            }
            i += 1;
        }
        proof {
            assert(entries@.subrange(0, entries@.len() as int) =~= entries@);
            lemma_non_light_ids(entries@);
            assert forall|k: PeerKey| r_contains_iff(out@, k, self.spec_peers()) by {
                if self.spec_peers().contains_key(k) && self.spec_peers()[k].roles != Role::Light {
                    let j = choose|j: int| 0 <= j < entries@.len() && #[trigger] entries@[j].0 == k;
                    assert(entries@[j].1 == self.spec_peers()[k]);
                }
                if out@.contains(k) {
                    let j = choose|j: int|
                        0 <= j < entries@.len() && entries@[j].0 == k && entries@[j].1.roles
                            != Role::Light;
                    assert(self.spec_peers().contains_key(entries@[j].0));
                }
            }
        }
        out
    }

    /// Picks the gossip stages anew from the peers in a random order (see
    /// `stages_of`); `sqrt_peers` is the square root of the number of peers,
    /// rounded down.
    pub fn reshuffle(&mut self, sqrt_peers: usize)
        requires
            old(self).wf(),
        ensures
            final(self).wf(),
            final(self).spec_peers() == old(self).spec_peers(),
            exists|listed: Seq<(PeerKey, PeerInfo)>, order: Seq<(PeerKey, PeerInfo)>|
                {
                    &&& lists_entries(listed, old(self).spec_peers())
                    &&& order.to_multiset() == listed.to_multiset()
                    &&& final(self).spec_first_stage() == stages_of(order, sqrt_peers as nat).0
                    &&& final(self).spec_second_stage() == stages_of(order, sqrt_peers as nat).1
                    &&& final(self).spec_lucky_light() == stages_of(order, sqrt_peers as nat).2
                },
    {
        let mut peers = peer_map_entries(&self.inner);
        let ghost listed = peers@;
        shuffle_entries(&mut peers);
        let (first, second, light) = choose_stages(&peers, sqrt_peers);
        self.first_stage_peers = first;
        self.second_stage_peers = second;
        self.lucky_light_peers = light;
        assert(lists_entries(listed, old(self).spec_peers()));
    }

    /// The number of peers gossiped to in the first stage.
    pub fn first_stage_len(&self) -> (r: usize)
        ensures
            r == self.spec_first_stage().len(),
    {
        peer_set_len(&self.first_stage_peers)
    }

    /// Whether a peer is in the first stage.
    pub fn in_first_stage(&self, who: &PeerKey) -> (r: bool)
        ensures
            r == self.spec_first_stage().contains(*who),
    {
        peer_set_contains(&self.first_stage_peers, who)
    }

    /// Whether a peer is in the second stage.
    pub fn in_second_stage(&self, who: &PeerKey) -> (r: bool)
        ensures
            r == self.spec_second_stage().contains(*who),
    {
        self.second_stage_peers.contains(who)
    }

    /// Whether a peer is in the light-client stage.
    pub fn in_lucky_light(&self, who: &PeerKey) -> (r: bool)
        ensures
            r == self.spec_lucky_light().contains(*who),
    {
        self.lucky_light_peers.contains(who)
    }
}

/// The ids of the peers of `s` that are not light clients, in order.
pub open spec fn non_light_ids(s: Seq<(PeerKey, PeerInfo)>) -> Seq<PeerKey>
    decreases s.len(),
{
    if s.len() == 0 {
        Seq::empty()
    } else {
        let rest = non_light_ids(s.drop_last());
        if s.last().1.roles != Role::Light {
            rest.push(s.last().0)
        } else {
            rest
        }
    }
}

/// `non_light_ids` holds exactly the ids of the peers that are not light
/// clients, each once when the ids of `s` are distinct.
proof fn lemma_non_light_ids(s: Seq<(PeerKey, PeerInfo)>)
    ensures
        forall|k: PeerKey|
            non_light_ids(s).contains(k) <==> exists|j: int|
                0 <= j < s.len() && s[j].0 == k && s[j].1.roles != Role::Light,
        s.map_values(|e: (PeerKey, PeerInfo)| e.0).no_duplicates() ==> non_light_ids(
            s,
        ).no_duplicates(),
    decreases s.len(),
{
    if s.len() > 0 {
        let t = s.drop_last();
        lemma_non_light_ids(t);
        let rest = non_light_ids(t);
        assert forall|k: PeerKey|
            non_light_ids(s).contains(k) <==> exists|j: int|
                0 <= j < s.len() && s[j].0 == k && s[j].1.roles != Role::Light by {
            if non_light_ids(s).contains(k) {
                if rest.contains(k) {
                    let j = choose|j: int|
                        0 <= j < t.len() && t[j].0 == k && t[j].1.roles != Role::Light;
                    assert(s[j] == t[j]);
                } else {
                    let m = choose|m: int| 0 <= m < non_light_ids(s).len() && non_light_ids(s)[m] == k;
                    if m < rest.len() {
                        assert(rest[m] == k);
                    }
                    assert(s[s.len() - 1].0 == k);
                }
            }
            if exists|j: int| 0 <= j < s.len() && s[j].0 == k && s[j].1.roles != Role::Light {
                let j = choose|j: int| 0 <= j < s.len() && s[j].0 == k && s[j].1.roles != Role::Light;
                if j < s.len() - 1 {
                    assert(t[j] == s[j]);
                    assert(rest.contains(k));
                    let m = choose|m: int| 0 <= m < rest.len() && rest[m] == k;
                    assert(non_light_ids(s)[m] == k);
                } else {
                    assert(non_light_ids(s)[non_light_ids(s).len() - 1] == k);
                }
            }
        }
        let keys = s.map_values(|e: (PeerKey, PeerInfo)| e.0);
        if keys.no_duplicates() {
            let tkeys = t.map_values(|e: (PeerKey, PeerInfo)| e.0);
            assert forall|a: int, b: int| 0 <= a < b < tkeys.len() implies tkeys[a] != tkeys[b] by {
                assert(tkeys[a] == keys[a]);
                assert(tkeys[b] == keys[b]);
            }
            if s.last().1.roles != Role::Light && rest.contains(s.last().0) {
                let j = choose|j: int|
                    0 <= j < t.len() && t[j].0 == s.last().0 && t[j].1.roles != Role::Light;
                assert(keys[j] == keys[s.len() - 1]);
            }
        }
    }
}

/// Whether `k` is in `s` exactly when it is a peer of `peers` that is not a
/// light client.
pub open spec fn r_contains_iff(s: Seq<PeerKey>, k: PeerKey, peers: Map<PeerKey, PeerInfo>) -> bool {
    s.contains(k) <==> (peers.contains_key(k) && peers[k].roles != Role::Light)
}

/// Whether a neighbor packet goes back from `at`: to an earlier set, to an
/// earlier round of the same set, or below the last commit.
pub open spec fn invalid_change(at: PeerRound, update: NeighborPacket) -> bool {
    ||| at.set_id.0 > update.set_id.0
    ||| (at.round.0 > update.round.0 && at.set_id.0 == update.set_id.0)
    ||| (at.last_commit matches Some(c) && c > update.commit_finalized_height)
}

/// Which neighbor packets a peer at `at` may send: a packet that lowers the
/// last commit the peer announced, or moves to an earlier set, is refused; a
/// packet that moves to a later set is accepted whatever its round (rounds
/// start again in a new set); within the same set a packet is accepted
/// exactly when its round is not earlier.
pub proof fn lemma_neighbor_changes(at: PeerRound, update: NeighborPacket)
    ensures
        (at.last_commit matches Some(c) && c > update.commit_finalized_height) ==> invalid_change(at, update),
        update.set_id.0 < at.set_id.0 ==> invalid_change(at, update),
        update.set_id.0 > at.set_id.0 && !(at.last_commit matches Some(c) && c > update.commit_finalized_height)
            ==> !invalid_change(at, update),
        update.set_id.0 == at.set_id.0 && !(at.last_commit matches Some(c) && c > update.commit_finalized_height)
            ==> (invalid_change(at, update) <==> update.round.0 < at.round.0),
{
}

/// A neighbor packet: the state a node announces to its peers.
#[derive(Debug, Clone, Copy, PartialEq, Eq, Structural)]
pub struct NeighborPacket {
    /// The round the node is currently at.
    pub round: Round,
    /// The set ID the node is currently at.
    pub set_id: SetId,
    /// The highest finalizing commit observed.
    pub commit_finalized_height: u64,
}

/// The role of a peer on the network.
#[derive(Debug, Clone, Copy, PartialEq, Eq, Structural)]
pub enum Role {
    Full,
    Light,
    Authority,
}

/// What is known of a peer: its round and its role.
#[derive(Debug, Clone, Copy, PartialEq, Eq, Structural)]
pub struct PeerInfo {
    pub round: PeerRound,
    pub roles: Role,
}

impl PeerInfo {
    /// A peer of the given role, at round 0 of set 0.
    pub open spec fn new_spec(roles: Role) -> PeerInfo {
        PeerInfo {
            round: PeerRound { round: Round(0), set_id: SetId(0), last_commit: None },
            roles,
        }
    }

    /// A peer of the given role, at round 0 of set 0.
    pub fn new(roles: Role) -> (r: PeerInfo)
        ensures
            r == (PeerInfo {
                round: PeerRound { round: Round(0), set_id: SetId(0), last_commit: None },
                roles,
            }),
    {
        PeerInfo { round: PeerRound::default_round(), roles }
    }
}

/// Configuration for the round catch-up mechanism.
#[derive(Debug, Clone, Copy, PartialEq, Eq, Structural)]
pub enum CatchUpConfig {
    /// Catch-up requests are enabled (if `only_from_authorities`, only towards
    /// authorities).
    Enabled { only_from_authorities: bool },
    /// Catch-up requests are disabled.
    Disabled,
}

impl CatchUpConfig {
    /// Catch-up requests enabled.
    pub fn enabled(only_from_authorities: bool) -> (r: CatchUpConfig)
        ensures
            r == (CatchUpConfig::Enabled { only_from_authorities }),
    {
        CatchUpConfig::Enabled { only_from_authorities }
    }

    /// Catch-up requests disabled.
    pub fn disabled() -> (r: CatchUpConfig)
        ensures
            r == CatchUpConfig::Disabled,
    {
        CatchUpConfig::Disabled
    }

    /// Whether a catch-up request may be sent to a peer of the given role.
    pub fn request_allowed(&self, role: Role) -> (r: bool)
        ensures
            r == match *self {
                CatchUpConfig::Disabled => false,
                CatchUpConfig::Enabled { only_from_authorities } => match role {
                    Role::Authority => true,
                    Role::Light => false,
                    Role::Full => !only_from_authorities,
                },
            },
    {
        match self {
            CatchUpConfig::Disabled => false,
            CatchUpConfig::Enabled { only_from_authorities } => match role {
                Role::Authority => true,
                Role::Light => false,
                Role::Full => !*only_from_authorities,
            },
        }
    }
}

/// The topics to send to a neighbor at `peer_round`: the global topic of its
/// set, the topic of its round and, past round 0, of the round before.
pub fn neighbor_topics(peer_round: &PeerRound) -> (r: Vec<H256>)
    ensures
        r@.len() == (if peer_round.round.0 != 0 {
            3int
        } else {
            2int
        }),
        r@[0]@ == crate::primitives::blake2_256_of(
            crate::topics::global_topic_text(peer_round.set_id.0),
        ),
        r@[1]@ == crate::primitives::blake2_256_of(
            crate::topics::round_topic_text(peer_round.round.0, peer_round.set_id.0),
        ),
        peer_round.round.0 != 0 ==> r@[2]@ == crate::primitives::blake2_256_of(
            crate::topics::round_topic_text((peer_round.round.0 - 1) as u64, peer_round.set_id.0),
        ),
{
    let s = peer_round.set_id;
    let mut topics: Vec<H256> = Vec::new();
    topics.push(global_topic(s.0));
    topics.push(round_topic(peer_round.round.0, s.0));
    if peer_round.round.0 != 0 {
        topics.push(round_topic(peer_round.round.0 - 1, s.0));
    }
    topics
}


// ---------------------------------------------------------------------------
// The validator's state
// ---------------------------------------------------------------------------

/// State of catch-up request handling.
pub enum PendingCatchUp {
    /// No pending catch-up request.
    Idle,
    /// A catch-up request was answered and is being processed.
    Processing { instant: Instant },
}

/// A neighbor packet to send, with the peers to send it to.
pub type MaybeMessage = Option<(Vec<PeerKey>, NeighborPacket)>;

/// What to do with a gossip message.
#[derive(Debug, Clone, Copy)]
pub enum Action {
    /// Keep the message under the topic and propagate it, applying the
    /// reputation change to its sender.
    Keep(H256, ReputationChange),
    /// Process the message under the topic, then discard it.
    ProcessAndDiscard(H256, ReputationChange),
    /// Discard the message, applying the reputation change to its sender.
    Discard(ReputationChange),
}

/// Why a message is being sent.
#[derive(Debug, Clone, Copy, PartialEq, Eq, Structural)]
pub enum MessageIntent {
    /// Requested broadcast.
    Broadcast,
    /// Requested broadcast to all peers.
    ForcedBroadcast,
    /// Periodic rebroadcast of all messages to all peers.
    PeriodicRebroadcast,
}

/// What the validator needs of a decoded gossip message.
#[derive(Debug, Clone, Copy)]
pub enum DecodedGossip {
    /// A vote of a round, from `voter`; `signature_valid` tells whether its
    /// signature for that round and set is valid.
    Vote { round: Round, set_id: SetId, voter: AuthorityId, signature_valid: bool },
    /// A compact commit of a round finalizing block `target_number`, with the
    /// numbers of precommits and of authentication entries.
    Commit {
        round: Round,
        set_id: SetId,
        target_number: u64,
        commits_len: usize,
        auth_data_len: usize,
    },
    /// A global message of a set.
    Global { set_id: SetId },
    /// A neighbor packet.
    Neighbor(NeighborPacket),
    /// Bytes that do not decode, of the given length.
    Undecodable { len: usize },
}

/// The local round as a `PeerRound`.
pub open spec fn as_round_spec(lr: LocalRound) -> PeerRound {
    PeerRound { round: lr.round, set_id: lr.set_id, last_commit: lr.spec_last_commit_height() }
}

/// The neighbor packet announcing a local round.
pub open spec fn packet_of(lr: LocalRound) -> NeighborPacket {
    NeighborPacket {
        round: lr.round,
        set_id: lr.set_id,
        commit_finalized_height: match lr.spec_last_commit_height() {
            Some(h) => h,
            None => 0,
        },
    }
}

/// `r` is the neighbor packet of `local` with every peer of `peers` that is
/// not a light client (none without a local round).
pub open spec fn neighbor_message_of(
    r: MaybeMessage,
    local: Option<LocalRound>,
    peers: Map<PeerKey, PeerInfo>,
) -> bool {
    match local {
        None => r is None,
        Some(lr) => {
            &&& r is Some
            &&& r->Some_0.1 == packet_of(lr)
            &&& r->Some_0.0@.no_duplicates()
            &&& forall|k: PeerKey| r_contains_iff(r->Some_0.0@, k, peers)
        },
    }
}

/// How a vote of `round` in `set_id` is considered at the local round.
pub open spec fn consider_vote_at(local: Option<LocalRound>, round: Round, set_id: SetId) -> Consider {
    match local {
        None => Consider::RejectOutOfScope,
        Some(lr) => consider_vote_spec(as_round_spec(lr), round, set_id),
    }
}

/// How a global message of `set_id` about block `number` is considered at the
/// local round.
pub open spec fn consider_global_at(local: Option<LocalRound>, set_id: SetId, number: u64) -> Consider {
    match local {
        None => Consider::RejectOutOfScope,
        Some(lr) => consider_global_spec(as_round_spec(lr), set_id, number),
    }
}

/// The discard action for a rejected consideration (`None` for `Accept`).
pub open spec fn rejection(c: Consider) -> Option<Action> {
    match c {
        Consider::RejectFuture => Some(Action::Discard(cost_future_message_spec())),
        Consider::RejectOutOfScope => Some(Action::Discard(cost_out_of_scope_message_spec())),
        Consider::RejectPast => Some(Action::Discard(cost_past_rejection_spec())),
        Consider::Accept => None,
    }
}

/// A vote is kept exactly when the local round accepts its round and set,
/// its voter is an authority and its signature is valid; it is then kept
/// under the topic of its own round and set, with the benefit of a round
/// message. Any other vote is discarded.
pub proof fn lemma_vote_kept_under_its_round(
    local: Option<LocalRound>,
    authorities: Seq<AuthorityId>,
    round: Round,
    set_id: SetId,
    voter: AuthorityId,
    signature_valid: bool,
)
    ensures
        ({
            let a = round_message_action(local, authorities, round, set_id, voter, signature_valid);
            &&& a is Keep <==> (consider_vote_at(local, round, set_id) == Consider::Accept
                && authorities.contains(voter) && signature_valid)
            &&& a is Keep ==> a->Keep_0 == round_topic_key(round, set_id) && a->Keep_1 == benefit_round_message_spec()
            &&& !(a is Keep) ==> a is Discard
        }),
{
}

/// What to do with a vote (see `Inner::validate_round_message`).
pub open spec fn round_message_action(
    local: Option<LocalRound>,
    authorities: Seq<AuthorityId>,
    round: Round,
    set_id: SetId,
    voter: AuthorityId,
    signature_valid: bool,
) -> Action {
    match rejection(consider_vote_at(local, round, set_id)) {
        Some(a) => a,
        None => if !authorities.contains(voter) {
            Action::Discard(cost_unknown_voter_spec())
        } else if !signature_valid {
            Action::Discard(cost_bad_signature_spec())
        } else {
            Action::Keep(round_topic_key(round, set_id), benefit_round_message_spec())
        },
    }
}

/// Whether a peer may get a round message at this stage of the round
/// (`elapsed` since the round started, in the units of the two stage ends).
pub open spec fn round_allowed_spec(
    local: Option<LocalRound>,
    local_light: bool,
    peers: Peers,
    who: PeerKey,
    elapsed: u128,
    some_after: u128,
    all_after: u128,
) -> bool {
    if local is None || local_light {
        false
    } else if elapsed < some_after {
        peers.spec_first_stage().contains(who)
    } else if elapsed < all_after {
        peers.spec_first_stage().contains(who) || peers.spec_second_stage().contains(who)
    } else {
        peers.spec_peers().contains_key(who) && peers.spec_peers()[who].roles != Role::Light
    }
}

/// Whether a peer may get a global message at this stage of the round.
pub open spec fn global_allowed_spec(
    local: Option<LocalRound>,
    local_light: bool,
    peers: Peers,
    who: PeerKey,
    elapsed: u128,
    all_after: u128,
) -> bool {
    if local is None || local_light {
        false
    } else if elapsed < all_after {
        peers.spec_first_stage().contains(who) || peers.spec_second_stage().contains(who)
            || peers.spec_lucky_light().contains(who)
    } else {
        true
    }
}

/// Whether two lists of authorities hold the same members.
pub fn same_members(a: &Vec<AuthorityId>, b: &Vec<AuthorityId>) -> (r: bool)
    ensures
        r == (a@.to_set() == b@.to_set()),
{
    let ab = all_in(a, b);
    let ba = all_in(b, a);
    proof {
        if ab && ba {
            assert(a@.to_set() =~= b@.to_set());
        } else if !ab {
            let i = choose|i: int| 0 <= i < a@.len() && !b@.contains(a@[i]);
            assert(a@.to_set().contains(a@[i]));
            assert(!b@.to_set().contains(a@[i]));
        } else {
            let i = choose|i: int| 0 <= i < b@.len() && !a@.contains(b@[i]);
            assert(b@.to_set().contains(b@[i]));
            assert(!a@.to_set().contains(b@[i]));
        }
    }
    ab && ba
}

/// Whether every member of `a` is in `b`.
fn all_in(a: &Vec<AuthorityId>, b: &Vec<AuthorityId>) -> (r: bool)
    ensures
        r == (forall|i: int| 0 <= i < a@.len() ==> b@.contains(#[trigger] a@[i])),
{
    let mut i: usize = 0;
    while i < a.len()
        invariant
            i <= a@.len(),
            forall|j: int| 0 <= j < i ==> b@.contains(#[trigger] a@[j]),
        decreases a@.len() - i,
    {
        if !contains_id(b, &a[i]) {
            return false;
        }
        i += 1;
    }
    true
}

/// Whether `id` is in `ids`.
pub fn contains_id(ids: &Vec<AuthorityId>, id: &AuthorityId) -> (r: bool)
    ensures
        r == ids@.contains(*id),
{
    let mut i: usize = 0;
    while i < ids.len()
        invariant
            i <= ids@.len(),
            forall|j: int| 0 <= j < i ==> ids@[j] != *id,
        decreases ids@.len() - i,
    {
        if crate::primitives::bytes32_eq(&ids[i], id) {
            assert(ids@[i as int] == *id);
            return true;
        }
        i += 1;
    }
    false
}


/// Whether a message under `topic` may go to `who` (`Inner::message_allowed`):
/// a periodic rebroadcast goes when due; otherwise the peer must be known
/// and the topic kept; a broadcast must be allowed at this stage of the
/// round; a round message goes if the peer accepts votes of that round; a
/// global message needs a local round, and goes if it is a global message,
/// or a commit the peer accepts that finalizes the local node's last commit.
pub open spec fn message_allowed_spec(
    inner: Inner,
    do_rebroadcast: bool,
    who: PeerKey,
    intent: MessageIntent,
    topic: H256,
    message: DecodedGossip,
    elapsed: u128,
    some_after: u128,
    all_after: u128,
) -> bool {
    let peers = inner.spec_peers().spec_peers();
    let topics = inner.spec_topics().spec_topics();
    if intent == MessageIntent::PeriodicRebroadcast {
        do_rebroadcast
    } else if !peers.contains_key(who) || !topics.contains_key(topic) {
        false
    } else {
        let peer = peers[who];
        let (maybe_round, set_id) = topics[topic];
        if intent == MessageIntent::Broadcast && maybe_round is Some && !round_allowed_spec(
            inner.spec_local_round(),
            inner.spec_local_light(),
            inner.spec_peers(),
            who,
            elapsed,
            some_after,
            all_after,
        ) {
            false
        } else if intent == MessageIntent::Broadcast && maybe_round is None && !global_allowed_spec(
            inner.spec_local_round(),
            inner.spec_local_light(),
            inner.spec_peers(),
            who,
            elapsed,
            all_after,
        ) {
            false
        } else if maybe_round is Some {
            consider_vote_spec(peer.round, maybe_round->Some_0, set_id) == Consider::Accept
        } else if inner.spec_local_round() is None {
            false
        } else {
            match message {
                DecodedGossip::Commit { target_number, .. } => consider_global_spec(
                    peer.round,
                    set_id,
                    target_number,
                ) == Consider::Accept && inner.spec_local_round()->Some_0.spec_last_commit_height()
                    == Some(target_number),
                DecodedGossip::Global { .. } => true,
                _ => false,
            }
        }
    }
}

/// Whether a message under `topic` is expired (`Inner::message_expired`):
/// topics not kept are expired, round messages are not; a global message is
/// kept only if it is the commit of the local node's last commit (same block,
/// round and set).
pub open spec fn message_expired_spec(inner: Inner, topic: H256, message: DecodedGossip) -> bool {
    let topics = inner.spec_topics().spec_topics();
    if !topics.contains_key(topic) {
        true
    } else if topics[topic].0 is Some {
        false
    } else if inner.spec_local_round() is None {
        true
    } else {
        match message {
            DecodedGossip::Commit { round, set_id, target_number, .. } => match inner.spec_local_round()->Some_0.last_commit {
                Some((number, r, s)) => !(target_number == number && round == r && set_id == s),
                None => true,
            },
            _ => true,
        }
    }
}

/// What validating a commit from `who` (of set `set_id`, finalizing block
/// `target_number`, with `commits_len` precommits and `auth_data_len`
/// signatures) does to the validator `a` (`b` after it), and the action `r`:
/// a commit below the last one the peer announced is an invalid round change;
/// otherwise the peer's last commit becomes the block, and the commit is
/// checked against the local round, then for its shape.
pub open spec fn commit_validated(
    a: Inner,
    b: Inner,
    who: PeerKey,
    set_id: SetId,
    target_number: u64,
    commits_len: usize,
    auth_data_len: usize,
    r: Action,
) -> bool {
    let peers = a.spec_peers().spec_peers();
    let back = peers.contains_key(who) && (peers[who].round.last_commit matches Some(c) && c > target_number);
    &&& back ==> {
        &&& r == Action::Discard(misbehavior_rep(Misbehavior::InvalidRoundChange))
        &&& b.spec_peers().spec_peers() == peers
    }
    &&& !back ==> {
        &&& b.spec_peers().spec_peers() == (if peers.contains_key(who) {
            peers.insert(
                who,
                PeerInfo {
                    round: PeerRound {
                        round: peers[who].round.round,
                        set_id: peers[who].round.set_id,
                        last_commit: Some(target_number),
                    },
                    roles: peers[who].roles,
                },
            )
        } else {
            peers
        })
        &&& r == match rejection(consider_global_at(a.spec_local_round(), set_id, target_number)) {
            Some(x) => x,
            None => if commits_len != auth_data_len || commits_len == 0 {
                Action::Discard(cost_malformed_commit_spec())
            } else {
                Action::ProcessAndDiscard(global_topic_key(set_id), benefit_basic_validated_commit_spec())
            },
        }
    }
}

/// What importing the neighbor packet `update` from `who` does to the
/// validator `a` (`b` after it), with the topics to send back and the action:
/// an unknown peer is ignored; a packet that goes back is an invalid round
/// change; otherwise the peer moves to the announced state and gets the
/// topics of its set and of its round (and of the round before).
pub open spec fn neighbor_imported(
    a: Inner,
    b: Inner,
    who: PeerKey,
    update: NeighborPacket,
    topics: Seq<H256>,
    r: Action,
) -> bool {
    let peers = a.spec_peers().spec_peers();
    &&& !peers.contains_key(who) ==> {
        &&& topics.len() == 0
        &&& r == Action::Discard(benefit_neighbor_message_spec())
        &&& b.spec_peers().spec_peers() == peers
    }
    &&& peers.contains_key(who) && invalid_change(peers[who].round, update) ==> {
        &&& topics.len() == 0
        &&& r == Action::Discard(misbehavior_rep(Misbehavior::InvalidRoundChange))
        &&& b.spec_peers().spec_peers() == peers
    }
    &&& peers.contains_key(who) && !invalid_change(peers[who].round, update) ==> {
        &&& r == Action::Discard(benefit_neighbor_message_spec())
        &&& b.spec_peers().spec_peers() == peers.insert(
            who,
            PeerInfo {
                round: PeerRound {
                    round: update.round,
                    set_id: update.set_id,
                    last_commit: Some(update.commit_finalized_height),
                },
                roles: peers[who].roles,
            },
        )
        &&& topics.len() == (if update.round.0 != 0 {
            3int
        } else {
            2int
        })
        &&& topics[0] == global_topic_key(update.set_id)
        &&& topics[1] == round_topic_key(update.round, update.set_id)
        &&& update.round.0 != 0 ==> topics[2] == round_topic_key(Round((update.round.0 - 1) as u64), update.set_id)
    }
}

/// The state of the gossip validator.
pub struct Inner {
    local_round: Option<LocalRound>,
    peers: Peers,
    live_topics: KeepTopics,
    authorities: Vec<AuthorityId>,
    /// Whether the local node is a light client.
    local_light: bool,
    pending_catch_up: PendingCatchUp,
    catch_up_config: CatchUpConfig,
}

impl Inner {
    pub closed spec fn spec_local_round(&self) -> Option<LocalRound> {
        self.local_round
    }

    pub closed spec fn spec_peers(&self) -> Peers {
        self.peers
    }

    pub closed spec fn spec_topics(&self) -> KeepTopics {
        self.live_topics
    }

    pub closed spec fn spec_authorities(&self) -> Seq<AuthorityId> {
        self.authorities@
    }

    pub closed spec fn spec_local_light(&self) -> bool {
        self.local_light
    }

    pub closed spec fn spec_catch_up_config(&self) -> CatchUpConfig {
        self.catch_up_config
    }

    pub closed spec fn spec_processing_catch_up(&self) -> bool {
        self.pending_catch_up is Processing
    }

    /// The peers' state is well formed.
    pub open spec fn wf(&self) -> bool {
        self.spec_peers().wf()
    }

    /// A validator without local round, peers or authorities; `local_light`
    /// tells whether the local node is a light client.
    pub fn new(local_light: bool) -> (r: Inner)
        ensures
            r.wf(),
            r.spec_local_round() is None,
            r.spec_peers().spec_peers() == no_peers(),
            r.spec_peers().spec_first_stage() == Set::<PeerKey>::empty(),
            r.spec_peers().spec_second_stage() == Set::<PeerKey>::empty(),
            r.spec_peers().spec_lucky_light() == Set::<PeerKey>::empty(),
            r.spec_topics().spec_current_set() == SetId(0),
            r.spec_topics().spec_rounds().len() == 0,
            r.spec_authorities().len() == 0,
            r.spec_local_light() == local_light,
            !r.spec_processing_catch_up(),
            r.spec_catch_up_config() == (CatchUpConfig::Enabled { only_from_authorities: true }),
    {
        Inner {
            local_round: None,
            peers: Peers::new(),
            live_topics: KeepTopics::new(),
            authorities: Vec::new(),
            local_light,
            pending_catch_up: PendingCatchUp::Idle,
            catch_up_config: CatchUpConfig::enabled(true),
        }
    }

    /// When the current round started, if there is a local round.
    pub fn round_start(&self) -> (r: Option<&Instant>)
        ensures
            r == match self.spec_local_round() {
                Some(lr) => Some(&lr.round_start),
                None => None,
            },
    {
        match &self.local_round {
            Some(lr) => Some(&lr.round_start),
            None => None,
        }
    }

    /// The peers.
    pub fn peers(&self) -> (r: &Peers)
        ensures
            *r == self.spec_peers(),
    {
        &self.peers
    }

    /// A peer connected: it is recorded with its role, and gets the neighbor
    /// packet of the local round, if there is one.
    pub fn new_peer(&mut self, who: PeerKey, role: Role) -> (r: Option<NeighborPacket>)
        requires
            old(self).wf(),
        ensures
            final(self).wf(),
            final(self).spec_peers().spec_peers() == old(self).spec_peers().spec_peers().insert(who, PeerInfo::new_spec(role)),
            final(self).spec_local_round() == old(self).spec_local_round(),
            final(self).spec_topics() == old(self).spec_topics(),
            final(self).spec_authorities() == old(self).spec_authorities(),
            final(self).spec_local_light() == old(self).spec_local_light(),
            match old(self).spec_local_round() {
                None => r is None,
                Some(lr) => r == Some(NeighborPacket {
                    round: lr.round,
                    set_id: lr.set_id,
                    commit_finalized_height: match lr.spec_last_commit_height() {
                        Some(h) => h,
                        None => 0,
                    },
                }),
            },
    {
        self.peers.new_peer(who, role);
        match &self.local_round {
            None => None,
            Some(lr) => Some(NeighborPacket {
                round: lr.round,
                set_id: lr.set_id,
                commit_finalized_height: match lr.last_commit_height() {
                    Some(h) => h,
                    None => 0,
                },
            }),
        }
    }

    /// A peer disconnected: it is forgotten.
    pub fn peer_disconnected(&mut self, who: &PeerKey)
        requires
            old(self).wf(),
        ensures
            final(self).wf(),
            final(self).spec_peers().spec_peers() == old(self).spec_peers().spec_peers().remove(*who),
            final(self).spec_local_round() == old(self).spec_local_round(),
            final(self).spec_topics() == old(self).spec_topics(),
    {
        self.peers.peer_disconnected(who);
    }

    /// The neighbor packet of the local round, to every peer that is not a
    /// light client; `None` without a local round.
    pub fn multicast_neighbor_packet(&self) -> (r: MaybeMessage)
        ensures
            neighbor_message_of(r, self.spec_local_round(), self.spec_peers().spec_peers()),
    {
        match &self.local_round {
            None => None,
            Some(lr) => {
                let packet = NeighborPacket {
                    round: lr.round,
                    set_id: lr.set_id,
                    commit_finalized_height: match lr.last_commit_height() {
                        Some(h) => h,
                        None => 0,
                    },
                };
                let peers = self.peers.non_light_peers();
                Some((peers, packet))
            },
        }
    }

    /// Notes that a round of the current set started: the round's topics are
    /// kept, the gossip stages are picked anew (`sqrt_peers`: the square root
    /// of the number of peers, rounded down) and the new state is announced.
    /// Does nothing without a local round or for the current round.
    pub fn note_round(&mut self, round: Round, sqrt_peers: usize) -> (r: MaybeMessage)
        requires
            old(self).wf(),
        ensures
            final(self).wf(),
            final(self).spec_authorities() == old(self).spec_authorities(),
            final(self).spec_peers().spec_peers() == old(self).spec_peers().spec_peers(),
            final(self).spec_local_light() == old(self).spec_local_light(),
            match old(self).spec_local_round() {
                None => r is None && final(self).spec_local_round() is None,
                Some(lr) => if lr.round == round {
                    &&& r is None
                    &&& final(self).spec_local_round() == old(self).spec_local_round()
                } else {
                    &&& final(self).spec_local_round() is Some
                    &&& final(self).spec_local_round()->Some_0.round == round
                    &&& final(self).spec_local_round()->Some_0.set_id == lr.set_id
                    &&& final(self).spec_local_round()->Some_0.last_commit == lr.last_commit
                    &&& final(self).spec_topics().spec_rounds() == rounds_after_push(
                        old(self).spec_topics().spec_rounds(),
                        round,
                        lr.set_id,
                    )
                    &&& neighbor_message_of(
                        r,
                        final(self).spec_local_round(),
                        final(self).spec_peers().spec_peers(),
                    )
                },
            },
    {
        let set_id = match &mut self.local_round {
            None => {
                return None;
            },
            Some(lr) => {
                if lr.round.0 == round.0 {
                    return None;
                }
                lr.update_round(round);
                lr.set_id
            },
        };
        self.live_topics.push(round, set_id);
        self.peers.reshuffle(sqrt_peers);
        self.multicast_neighbor_packet()
    }

    /// Notes that the voter set `set_id` started, with the given authorities:
    /// the local round moves to round 1 of it (starting one if there is none),
    /// its topics are kept and the new state is announced. For the current
    /// set, only the authorities are updated, if they differ as a set.
    pub fn note_set(&mut self, set_id: SetId, authorities: Vec<AuthorityId>) -> (r: MaybeMessage)
        requires
            old(self).wf(),
        ensures
            final(self).wf(),
            final(self).spec_peers() == old(self).spec_peers(),
            final(self).spec_local_light() == old(self).spec_local_light(),
            ({
                let same_set = old(self).spec_local_round() matches Some(lr) && lr.set_id == set_id;
                &&& same_set ==> {
                    &&& r is None
                    &&& final(self).spec_local_round() == old(self).spec_local_round()
                    &&& final(self).spec_authorities() == (if old(self).spec_authorities().to_set()
                        != authorities@.to_set() {
                        authorities@
                    } else {
                        old(self).spec_authorities()
                    })
                }
                &&& !same_set ==> {
                    &&& final(self).spec_authorities() == authorities@
                    &&& final(self).spec_local_round() is Some
                    &&& final(self).spec_local_round()->Some_0.set_id == set_id
                    &&& final(self).spec_local_round()->Some_0.round == Round(1)
                    &&& final(self).spec_local_round()->Some_0.last_commit == match old(
                        self).spec_local_round() {
                        Some(lr) => lr.last_commit,
                        None => None,
                    }
                    &&& final(self).spec_topics().spec_rounds() == rounds_after_push(
                        old(self).spec_topics().spec_rounds(),
                        Round(1),
                        set_id,
                    )
                    &&& neighbor_message_of(
                        r,
                        final(self).spec_local_round(),
                        final(self).spec_peers().spec_peers(),
                    )
                }
            }),
    {
        match &mut self.local_round {
            None => {
                self.local_round = Some(LocalRound::new(set_id, Round(1)));
            },
            Some(lr) => {
                if lr.set_id.0 == set_id.0 {
                    if !same_members(&self.authorities, &authorities) {
                        self.authorities = authorities;
                    }
                    return None;
                }
                lr.update_set(set_id);
            },
        }
        self.live_topics.push(Round(1), set_id);
        self.authorities = authorities;
        self.multicast_neighbor_packet()
    }

    /// Notes an imported commit of round `round` in set `set_id` finalizing
    /// block `finalized`: it becomes the last commit when higher than the
    /// last one, and the new state is announced.
    pub fn note_commit_finalized(&mut self, round: Round, set_id: SetId, finalized: u64) -> (r:
        MaybeMessage)
        requires
            old(self).wf(),
        ensures
            final(self).wf(),
            final(self).spec_peers() == old(self).spec_peers(),
            final(self).spec_authorities() == old(self).spec_authorities(),
            final(self).spec_local_light() == old(self).spec_local_light(),
            match old(self).spec_local_round() {
                None => r is None && final(self).spec_local_round() is None,
                Some(lr) => if lr.spec_last_commit_height() matches Some(h) && h >= finalized {
                    &&& r is None
                    &&& final(self).spec_local_round() == old(self).spec_local_round()
                } else {
                    &&& final(self).spec_local_round() is Some
                    &&& final(self).spec_local_round()->Some_0.round == lr.round
                    &&& final(self).spec_local_round()->Some_0.set_id == lr.set_id
                    &&& final(self).spec_local_round()->Some_0.last_commit == Some(
                        (finalized, round, set_id),
                    )
                    &&& neighbor_message_of(
                        r,
                        final(self).spec_local_round(),
                        final(self).spec_peers().spec_peers(),
                    )
                },
            },
    {
        match &mut self.local_round {
            None => {
                return None;
            },
            Some(lr) => {
                let higher = match lr.last_commit_height() {
                    Some(h) => h < finalized,
                    None => true,
                };
                if higher {
                    lr.last_commit = Some((finalized, round, set_id));
                } else {
                    return None;
                }
            },
        }
        self.multicast_neighbor_packet()
    }

    /// How a vote of `round` in `set_id` is considered at the local round.
    pub fn consider_vote(&self, round: Round, set_id: SetId) -> (r: Consider)
        ensures
            r == consider_vote_at(self.spec_local_round(), round, set_id),
    {
        match &self.local_round {
            None => Consider::RejectOutOfScope,
            Some(lr) => lr.as_round().consider_vote(round, set_id),
        }
    }

    /// How a global message of `set_id` about block `number` is considered at
    /// the local round.
    pub fn consider_global(&self, set_id: SetId, number: u64) -> (r: Consider)
        ensures
            r == consider_global_at(self.spec_local_round(), set_id, number),
    {
        match &self.local_round {
            None => Consider::RejectOutOfScope,
            Some(lr) => lr.as_round().consider_global(set_id, number),
        }
    }

    /// What to do with a vote of `round` in `set_id` from `voter`: it must be
    /// acceptable at the local round, from an authority of the set, and
    /// signed (`signature_valid`: its signature for that round and set is
    /// valid); it is then kept under the round's topic.
    pub fn validate_round_message(
        &self,
        round: Round,
        set_id: SetId,
        voter: &AuthorityId,
        signature_valid: bool,
    ) -> (r: Action)
        ensures
            r == round_message_action(
                self.spec_local_round(),
                self.spec_authorities(),
                round,
                set_id,
                *voter,
                signature_valid,
            ),
            r is Keep ==> r->Keep_0@ == blake2_256_of(
                crate::topics::decimal(set_id.0 as nat) + seq![45u8] + crate::topics::decimal(round.0 as nat),
            ),
            r is Keep ==> self.spec_authorities().contains(*voter) && signature_valid,
    {
        match self.consider_vote(round, set_id) {
            Consider::RejectFuture => {
                return Action::Discard(Misbehavior::FutureMessage.cost());
            },
            Consider::RejectOutOfScope => {
                return Action::Discard(Misbehavior::OutOfScopeMessage.cost());
            },
            Consider::RejectPast => {
                return Action::Discard(cost_past_rejection());
            },
            Consider::Accept => {},
        }
        if !contains_id(&self.authorities, voter) {
            return Action::Discard(cost_unknown_voter());
        }
        if !signature_valid {
            return Action::Discard(cost_bad_signature());
        }
        let topic = round_topic(round.0, set_id.0);
        proof {
            let k = round_topic_key(round, set_id);
            assert(k@ == blake2_256_of(round_topic_text(round.0, set_id.0)));
            assert(k@ =~= topic@);
            assert(k =~= topic);
        }
        Action::Keep(topic, benefit_round_message())
    }

    /// What to do with a commit of `round` in `set_id` finalizing block
    /// `target_number`, from peer `who`: the peer's commit height must not go
    /// back, the commit must be acceptable at the local round, and its
    /// precommits and authentication data must be as many and not none. It is
    /// then processed under the set's global topic, and discarded (commits are
    /// rebroadcast once fully checked).
    pub fn validate_commit_message(
        &mut self,
        who: &PeerKey,
        round: Round,
        set_id: SetId,
        target_number: u64,
        commits_len: usize,
        auth_data_len: usize,
    ) -> (r: Action)
        requires
            old(self).wf(),
        ensures
            final(self).wf(),
            final(self).spec_local_round() == old(self).spec_local_round(),
            final(self).spec_authorities() == old(self).spec_authorities(),
            final(self).spec_local_light() == old(self).spec_local_light(),
            final(self).spec_peers().spec_first_stage() == old(self).spec_peers().spec_first_stage(),
            commit_validated(*old(self), *final(self), *who, set_id, target_number, commits_len, auth_data_len, r),
    {
        match self.peers.update_commit_height(who, target_number) {
            Err(m) => {
                return Action::Discard(m.cost());
            },
            Ok(()) => {},
        }
        match self.consider_global(set_id, target_number) {
            Consider::RejectFuture => {
                return Action::Discard(Misbehavior::FutureMessage.cost());
            },
            Consider::RejectPast => {
                return Action::Discard(cost_past_rejection());
            },
            Consider::RejectOutOfScope => {
                return Action::Discard(Misbehavior::OutOfScopeMessage.cost());
            },
            Consider::Accept => {},
        }
        if commits_len != auth_data_len || commits_len == 0 {
            return Action::Discard(cost_malformed_commit());
        }
        let topic = global_topic(set_id.0);
        proof {
            let k = global_topic_key(set_id);
            assert(k@ == blake2_256_of(global_topic_text(set_id.0)));
            assert(k@ =~= topic@);
            assert(k =~= topic);
        }
        Action::ProcessAndDiscard(topic, benefit_basic_validated_commit())
    }

    /// What to do with a global message of `set_id`: process it under the
    /// set's global topic, then discard it.
    pub fn validate_global_message(&self, set_id: SetId) -> (r: Action)
        ensures
            r == Action::ProcessAndDiscard(global_topic_key(set_id), benefit_neighbor_message_spec()),
    {
        let topic = global_topic(set_id.0);
        proof {
            let k = global_topic_key(set_id);
            assert(k@ == blake2_256_of(global_topic_text(set_id.0)));
            assert(k@ =~= topic@);
            assert(k =~= topic);
        }
        Action::ProcessAndDiscard(topic, benefit_neighbor_message())
    }

    /// Notes that a catch-up message was processed.
    pub fn note_catch_up_message_processed(&mut self)
        ensures
            !final(self).spec_processing_catch_up(),
            final(self).spec_local_round() == old(self).spec_local_round(),
            final(self).spec_peers() == old(self).spec_peers(),
            final(self).spec_topics() == old(self).spec_topics(),
            final(self).spec_authorities() == old(self).spec_authorities(),
            final(self).spec_local_light() == old(self).spec_local_light(),
    {
        match &self.pending_catch_up {
            PendingCatchUp::Processing { .. } => {
                self.pending_catch_up = PendingCatchUp::Idle;
            },
            PendingCatchUp::Idle => {},
        }
    }

    /// Takes a neighbor packet from `who`: the peer's round is updated (see
    /// `Peers::update_peer_state`) and the topics of its new round are sent
    /// to it; the packet itself is always discarded, with a benefit, or the
    /// cost of going back.
    pub fn import_neighbor_message(&mut self, who: &PeerKey, update: NeighborPacket) -> (r: (
        Vec<H256>,
        Action,
    ))
        requires
            old(self).wf(),
        ensures
            final(self).wf(),
            final(self).spec_local_round() == old(self).spec_local_round(),
            final(self).spec_authorities() == old(self).spec_authorities(),
            final(self).spec_local_light() == old(self).spec_local_light(),
            neighbor_imported(*old(self), *final(self), *who, update, r.0@, r.1),
    {
        match self.peers.update_peer_state(who, update) {
            Ok(Some(round)) => {
                let topics = neighbor_topics(&round);
                proof {
                    let g = global_topic_key(update.set_id);
                    assert(g@ =~= topics@[0]@);
                    assert(g =~= topics@[0]);
                    let t = round_topic_key(update.round, update.set_id);
                    assert(t@ =~= topics@[1]@);
                    assert(t =~= topics@[1]);
                    if update.round.0 != 0 {
                        let t2 = round_topic_key(Round((update.round.0 - 1) as u64), update.set_id);
                        assert(t2@ =~= topics@[2]@);
                        assert(t2 =~= topics@[2]);
                    }
                }
                (topics, Action::Discard(benefit_neighbor_message()))
            },
            Ok(None) => (Vec::new(), Action::Discard(benefit_neighbor_message())),
            Err(m) => (Vec::new(), Action::Discard(m.cost())),
        }
    }

    /// Whether a round message may go to `who` at this stage of the round:
    /// `elapsed` is the time since the round started and `some_after` and
    /// `all_after` the ends of the first and second stages (in one unit).
    /// First only the first-stage peers get it, then also the second-stage
    /// ones, then every peer that is not a light client; a light client
    /// sends none, and nothing is sent without a local round.
    pub fn round_message_allowed(
        &self,
        who: &PeerKey,
        elapsed: u128,
        some_after: u128,
        all_after: u128,
    ) -> (r: bool)
        ensures
            r == round_allowed_spec(
                self.spec_local_round(),
                self.spec_local_light(),
                self.spec_peers(),
                *who,
                elapsed,
                some_after,
                all_after,
            ),
    {
        if self.local_round.is_none() {
            return false;
        }
        if self.local_light {
            return false;
        }
        if elapsed < some_after {
            self.peers.in_first_stage(who)
        } else if elapsed < all_after {
            self.peers.in_first_stage(who) || self.peers.in_second_stage(who)
        } else {
            match self.peers.peer(who) {
                Some(info) => info.roles != Role::Light,
                None => false,
            }
        }
    }

    /// What to do with a gossip message from `who` (see the validations of
    /// each kind), and the topics to send back to it. Bytes that do not decode
    /// cost their length (capped to `i32::MAX`) times `PER_UNDECODABLE_BYTE`.
    pub fn do_validate(&mut self, who: &PeerKey, message: DecodedGossip) -> (r: (
        Action,
        Vec<H256>,
    ))
        requires
            old(self).wf(),
        ensures
            final(self).wf(),
            final(self).spec_local_round() == old(self).spec_local_round(),
            final(self).spec_authorities() == old(self).spec_authorities(),
            final(self).spec_local_light() == old(self).spec_local_light(),
            !(message is Commit) && !(message is Neighbor) ==> final(self).spec_peers() == old(
                self).spec_peers(),
            match message {
                DecodedGossip::Vote { round, set_id, voter, signature_valid } => {
                    &&& r.0 == round_message_action(
                        old(self).spec_local_round(),
                        old(self).spec_authorities(),
                        round,
                        set_id,
                        voter,
                        signature_valid,
                    )
                    &&& r.1@.len() == 0
                },
                DecodedGossip::Global { set_id } => {
                    &&& r.0 == Action::ProcessAndDiscard(
                        global_topic_key(set_id),
                        benefit_neighbor_message_spec(),
                    )
                    &&& r.1@.len() == 0
                },
                DecodedGossip::Undecodable { len } => {
                    &&& r.0 == Action::Discard(
                        misbehavior_rep(
                            Misbehavior::UndecodablePacket(
                                (if len > i32::MAX {
                                    i32::MAX as int
                                } else {
                                    len as int
                                }) as i32,
                            ),
                        ),
                    )
                    &&& r.1@.len() == 0
                },
                DecodedGossip::Commit { round, set_id, target_number, commits_len, auth_data_len } => {
                    &&& commit_validated(*old(self), *final(self), *who, set_id, target_number, commits_len, auth_data_len, r.0)
                    &&& r.1@.len() == 0
                },
                DecodedGossip::Neighbor(update) => neighbor_imported(*old(self), *final(self), *who, update, r.1@, r.0),
            },
    {
        match message {
            DecodedGossip::Vote { round, set_id, voter, signature_valid } => {
                (self.validate_round_message(round, set_id, &voter, signature_valid), Vec::new())
            },
            DecodedGossip::Commit { round, set_id, target_number, commits_len, auth_data_len } => {
                (
                    self.validate_commit_message(
                        who,
                        round,
                        set_id,
                        target_number,
                        commits_len,
                        auth_data_len,
                    ),
                    Vec::new(),
                )
            },
            DecodedGossip::Global { set_id } => (self.validate_global_message(set_id), Vec::new()),
            DecodedGossip::Neighbor(update) => {
                let (topics, action) = self.import_neighbor_message(who, update);
                (action, topics)
            },
            DecodedGossip::Undecodable { len } => {
                let capped: i32 = if len > 2147483647usize {
                    2147483647i32
                } else {
                    len as i32
                };
                (Action::Discard(Misbehavior::UndecodablePacket(capped).cost()), Vec::new())
            },
        }
    }

    /// Whether a message under `topic` may go to `who` (see
    /// `message_allowed_spec`); `do_rebroadcast` tells whether the periodic
    /// rebroadcast is due, and `elapsed`, `some_after` and `all_after` are as
    /// in `round_message_allowed`.
    pub fn message_allowed(
        &self,
        do_rebroadcast: bool,
        who: &PeerKey,
        intent: MessageIntent,
        topic: &H256,
        message: DecodedGossip,
        elapsed: u128,
        some_after: u128,
        all_after: u128,
    ) -> (r: bool)
        ensures
            r == message_allowed_spec(
                *self,
                do_rebroadcast,
                *who,
                intent,
                *topic,
                message,
                elapsed,
                some_after,
                all_after,
            ),
    {
        if intent == MessageIntent::PeriodicRebroadcast {
            return do_rebroadcast;
        }
        let peer = match self.peers.peer(who) {
            None => {
                return false;
            },
            Some(x) => x,
        };
        let (maybe_round, set_id) = match self.live_topics.topic_info(topic) {
            None => {
                return false;
            },
            Some(x) => x,
        };
        if intent == MessageIntent::Broadcast {
            if maybe_round.is_some() {
                if !self.round_message_allowed(who, elapsed, some_after, all_after) {
                    return false;
                }
            } else {
                if !self.global_message_allowed(who, elapsed, all_after) {
                    return false;
                }
            }
        }
        match maybe_round {
            Some(round) => {
                return peer.round.consider_vote(round, set_id) == Consider::Accept;
            },
            None => {},
        }
        let local_round = match &self.local_round {
            Some(v) => v,
            None => {
                return false;
            },
        };
        match message {
            DecodedGossip::Commit { target_number, .. } => {
                peer.round.consider_global(set_id, target_number) == Consider::Accept && match local_round.last_commit_height() {
                    Some(h) => h == target_number,
                    None => false,
                }
            },
            DecodedGossip::Global { .. } => true,
            _ => false,
        }
    }

    /// Whether a message under `topic` is expired (see
    /// `message_expired_spec`).
    pub fn message_expired(&self, topic: &H256, message: DecodedGossip) -> (r: bool)
        ensures
            r == message_expired_spec(*self, *topic, message),
    {
        match self.live_topics.topic_info(topic) {
            None => {
                return true;
            },
            Some((Some(_), _)) => {
                return false;
            },
            Some((None, _)) => {},
        }
        let local_round = match &self.local_round {
            Some(v) => v,
            None => {
                return true;
            },
        };
        match message {
            DecodedGossip::Commit { round, set_id, target_number, .. } => match local_round.last_commit {
                Some((number, r, s)) => !(target_number == number && round.0 == r.0 && set_id.0
                    == s.0),
                None => true,
            },
            _ => true,
        }
    }

    /// Whether a global message may go to `who` at this stage of the round:
    /// first only the peers of the three stages get it, then every peer.
    pub fn global_message_allowed(&self, who: &PeerKey, elapsed: u128, all_after: u128) -> (r:
        bool)
        ensures
            r == global_allowed_spec(
                self.spec_local_round(),
                self.spec_local_light(),
                self.spec_peers(),
                *who,
                elapsed,
                all_after,
            ),
    {
        if self.local_round.is_none() {
            return false;
        }
        if self.local_light {
            return false;
        }
        if elapsed < all_after {
            self.peers.in_first_stage(who) || self.peers.in_second_stage(who)
                || self.peers.in_lucky_light(who)
        } else {
            true
        }
    }
}

} // verus!

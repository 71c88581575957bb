//! Routing rules of a simulated Tendermint network: which node may send to
//! which, given what each node has finalized.
use std::collections::HashMap;
use vstd::prelude::*;

verus! {

broadcast use vstd::std_specs::hash::group_hash_axioms;

/// Identifier of a simulated node.
pub type NodeId = u64;

/// State of a voter, as the routing rules see it.
#[derive(Default, Copy, Clone, Debug, PartialEq, Eq, Structural)]
pub struct VoterState {
    pub last_finalized: u64,
    pub view_number: u64,
}

impl VoterState {
    /// A voter that finalized nothing, at view 0.
    pub fn new() -> (r: Self)
        ensures
            r == (VoterState { last_finalized: 0, view_number: 0 }),
    {
        VoterState { last_finalized: 0, view_number: 0 }
    }
}

/// A routing rule.
#[derive(Copy, Clone, Debug, PartialEq, Eq, Structural)]
pub enum Rule {
    /// Cuts a node off from every other one.
    Isolate(NodeId),
    /// Cuts a node off once it has finalized the given height.
    IsolateAfter(NodeId, u64),
}

/// Whether `rule` lets a message go from `from` (in state `fs`) to `to` (in
/// state `ts`).
pub open spec fn rule_allows(
    rule: Rule,
    from: NodeId,
    fs: VoterState,
    to: NodeId,
    ts: VoterState,
) -> bool {
    match rule {
        Rule::Isolate(node) => !(from == node || to == node),
        Rule::IsolateAfter(node, after) => !((from == node && fs.last_finalized >= after) || (to
            == node && ts.last_finalized >= after)),
    }
}

/// Whether every rule of `rules` lets the message go.
pub open spec fn all_allow(
    rules: Seq<Rule>,
    from: NodeId,
    fs: VoterState,
    to: NodeId,
    ts: VoterState,
) -> bool {
    forall|i: int| 0 <= i < rules.len() ==> #[trigger] rule_allows(rules[i], from, fs, to, ts)
}

/// Without rules every message is delivered; a node under an `Isolate` rule
/// neither sends nor receives.
pub proof fn lemma_isolation(
    rules: Seq<Rule>,
    i: int,
    from: NodeId,
    fs: VoterState,
    to: NodeId,
    ts: VoterState,
)
    ensures
        rules.len() == 0 ==> all_allow(rules, from, fs, to, ts),
        0 <= i < rules.len() && (rules[i] matches Rule::Isolate(node) && (from == node || to
            == node)) ==> !all_allow(rules, from, fs, to, ts),
{
    if 0 <= i < rules.len() {
        assert(all_allow(rules, from, fs, to, ts) ==> rule_allows(rules[i], from, fs, to, ts));
    }
}

/// The states after the two ends of a route are tracked: an end not tracked
/// yet gets `VoterState::new()`.
pub open spec fn track_ends(
    states: Map<NodeId, VoterState>,
    from: NodeId,
    to: NodeId,
) -> Map<NodeId, VoterState> {
    let fresh = VoterState { last_finalized: 0, view_number: 0 };
    let with_to = if states.contains_key(to) {
        states
    } else {
        states.insert(to, fresh)
    };
    if with_to.contains_key(from) {
        with_to
    } else {
        with_to.insert(from, fresh)
    }
}

/// Routing table.
#[derive(Default)]
pub struct RoutingRule {
    /// All peers in the network, same as the voter set.
    nodes: Vec<NodeId>,
    /// The state of every peer seen so far.
    state_tracker: HashMap<NodeId, VoterState>,
    /// Rules for routing; with none, every message is delivered.
    rules: Vec<Rule>,
}

impl RoutingRule {
    pub closed spec fn spec_states(&self) -> Map<NodeId, VoterState> {
        self.state_tracker@
    }

    pub closed spec fn spec_rules(&self) -> Seq<Rule> {
        self.rules@
    }

    /// A table without rules and without known peers.
    pub fn new() -> (r: Self)
        ensures
            r.spec_states() == Map::<NodeId, VoterState>::empty(),
            r.spec_rules() == Seq::<Rule>::empty(),
    {
        RoutingRule { nodes: Vec::new(), state_tracker: HashMap::new(), rules: Vec::new() }
    }

    /// Adds a rule.
    pub fn add_rule(&mut self, rule: Rule)
        ensures
            final(self).spec_rules() == old(self).spec_rules().push(rule),
            final(self).spec_states() == old(self).spec_states(),
    {
        self.rules.push(rule);
    }

    /// Records a peer's state.
    pub fn update_state(&mut self, id: NodeId, state: VoterState)
        ensures
            final(self).spec_states() == old(self).spec_states().insert(id, state),
            final(self).spec_rules() == old(self).spec_rules(),
    {
        self.state_tracker.insert(id, state);
    }

    /// Whether a message may go from `from` to `to`: every rule must allow
    /// it. Ends not tracked yet start being tracked with a fresh state.
    pub fn valid_route(&mut self, from: &NodeId, to: &NodeId) -> (r: bool)
        ensures
            final(self).spec_states() == track_ends(old(self).spec_states(), *from, *to),
            final(self).spec_rules() == old(self).spec_rules(),
            r == all_allow(
                old(self).spec_rules(),
                *from,
                final(self).spec_states()[*from],
                *to,
                final(self).spec_states()[*to],
            ),
    {
        if !self.state_tracker.contains_key(to) {
            self.state_tracker.insert(*to, VoterState::new());
        }
        if !self.state_tracker.contains_key(from) {
            self.state_tracker.insert(*from, VoterState::new());
        }
        assert(self.state_tracker@ =~= track_ends(old(self).spec_states(), *from, *to));
        let from_state = match self.state_tracker.get(from) {
            Some(s) => *s,
            None => VoterState::new(),
        };
        let to_state = match self.state_tracker.get(to) {
            Some(s) => *s,
            None => VoterState::new(),
        };
        let mut i: usize = 0;
        while i < self.rules.len()
            invariant
                i <= self.rules@.len(),
                self.rules@ == old(self).rules@,
                self.state_tracker@ == track_ends(old(self).spec_states(), *from, *to),
                from_state == self.state_tracker@[*from],
                to_state == self.state_tracker@[*to],
                forall|j: int|
                    0 <= j < i ==> #[trigger] rule_allows(
                        self.rules@[j],
                        *from,
                        from_state,
                        *to,
                        to_state,
                    ),
            decreases self.rules@.len() - i,
        {
            let allowed = match self.rules[i] {
                Rule::Isolate(node) => !(*from == node || *to == node),
                Rule::IsolateAfter(node, after) => !((*from == node && from_state.last_finalized
                    >= after) || (*to == node && to_state.last_finalized >= after)),
            };
            if !allowed {
                assert(!rule_allows(self.rules@[i as int], *from, from_state, *to, to_state));
                return false;
            }
            i += 1;
        }
        true
    }

    /// Cuts `node` off from every other node.
    pub fn isolate(&mut self, node: NodeId)
        ensures
            final(self).spec_rules() == old(self).spec_rules().push(Rule::Isolate(node)),
            final(self).spec_states() == old(self).spec_states(),
    {
        self.add_rule(Rule::Isolate(node));
    }

    /// Cuts `node` off from every other node once it has finalized `after`.
    pub fn isolate_after(&mut self, node: NodeId, after: u64)
        ensures
            final(self).spec_rules() == old(self).spec_rules().push(
                Rule::IsolateAfter(node, after),
            ),
            final(self).spec_states() == old(self).spec_states(),
    {
        self.add_rule(Rule::IsolateAfter(node, after));
    }
}

} // verus!

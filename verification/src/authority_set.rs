//! The authority set of the Tendermint finality gadget, with its pending
//! standard changes (a fork tree, enacted on finality) and its pending forced
//! changes (enacted on block depth).
use crate::authority_changes::{AuthorityList, AuthoritySetChanges, DelayKind, PendingChange};
use crate::primitives::{bytes32_eq, AuthorityId, H256};
use fork_tree::ForkTree;
use vstd::multiset::Multiset;
use vstd::prelude::*;

verus! {

#[verifier::external_type_specification]
#[verifier::external_body]
#[verifier::reject_recursive_types(H)]
#[verifier::reject_recursive_types(N)]
#[verifier::reject_recursive_types(V)]
pub struct ExForkTree<H, N, V>(fork_tree::ForkTree<H, N, V>);

/// The tree of pending standard changes, keyed by the hash and the height of
/// the block that announced each change.
pub type ChangeTree = ForkTree<H256, u64, PendingChange<H256>>;

/// A node of a tree of pending changes: the node's hash and number, then the
/// announcing block's hash and height, the delay and the number of
/// authorities of the node's change.
pub type TreeEntry = (H256, u64, H256, u64, u64, usize);

/// The roots of a tree of pending changes, in the tree's order.
pub uninterp spec fn standard_roots(tree: ChangeTree) -> Seq<(H256, u64, H256, u64, u64, usize)>;

/// All the nodes of a tree of pending changes.
pub uninterp spec fn tree_nodes(tree: ChangeTree) -> Multiset<(H256, u64, H256, u64, u64, usize)>;

/// The number of the block the tree last finalized, if any.
pub uninterp spec fn best_finalized(tree: ChangeTree) -> Option<u64>;

/// Whether the tree refuses block number `n` as a revert: `n` is not above
/// the last finalized number.
pub open spec fn reverts(tree: ChangeTree, n: u64) -> bool {
    best_finalized(tree) matches Some(b) && n <= b
}

/// Whether a node of the tree has hash `h`.
pub open spec fn has_node_hash(tree: ChangeTree, h: H256) -> bool {
    exists|e: TreeEntry| #[trigger] tree_nodes(tree).contains(e) && e.0 == h
}

/// The root at position `i` is the first root whose change takes effect by
/// block `n` and that is `hash` or, by the lookup, an ancestor of it; the
/// earlier roots whose change takes effect by then are other blocks that
/// the lookup placed off the chain of `hash`.
pub open spec fn first_finalizable<F, E>(f: F, roots: Seq<TreeEntry>, hash: H256, n: u64, i: int) -> bool where
    F: Fn(&H256, &H256) -> Result<bool, E>,
 {
    &&& 0 <= i < roots.len()
    &&& entry_effective(roots[i]) <= n
    &&& (roots[i].0 == hash || f.ensures((&roots[i].0, &hash), Ok::<bool, E>(true)))
    &&& forall|j: int| 0 <= j < i && entry_effective(#[trigger] roots[j]) <= n
        ==> roots[j].0 != hash && f.ensures((&roots[j].0, &hash), Ok::<bool, E>(false))
}

/// The node that a pending change makes when it is imported at its
/// announcing block.
pub open spec fn root_entry(c: PendingChange<H256>) -> TreeEntry {
    (c.canon_hash, c.canon_height, c.canon_hash, c.canon_height, c.delay, c.next_authorities@.len() as usize)
}

/// The change's part of a node: the announcing block and the delay.
pub open spec fn entry_change(e: TreeEntry) -> (H256, u64, u64) {
    (e.2, e.3, e.4)
}

/// The block number at which a change applies (exactly, with no overflow).
pub open spec fn effective(c: PendingChange<H256>) -> int {
    c.canon_height + c.delay
}

/// The block number at which a root entry applies.
pub open spec fn entry_effective(e: TreeEntry) -> int {
    e.3 + e.4
}

/// Errors of the fork tree of pending changes.
#[derive(Debug, Clone, PartialEq)]
pub enum TreeError<E> {
    /// Adding a duplicate node to the tree.
    Duplicate,
    /// Finalizing a descendent of a tree node without finalizing its ancestors.
    UnfinalizedAncestor,
    /// Importing or finalizing an ancestor of a previously finalized node.
    Revert,
    /// An error of the ancestry lookup.
    Client(E),
}

/// What finalizing a block did to the tree of pending changes.
#[derive(Debug, PartialEq)]
pub enum FinalizationResult {
    /// The tree has changed; the change enacted by the finalized node, if any.
    Changed(Option<PendingChange<H256>>),
    /// The tree has not changed.
    Unchanged,
}

/// `fork_tree::ForkTree::new`: an empty tree, with no roots.
#[verifier::external_body]
fn fork_tree_new() -> (r: ChangeTree)
    ensures
        standard_roots(r) == Seq::<TreeEntry>::empty(),
        tree_nodes(r) == Multiset::<TreeEntry>::empty(),
        best_finalized(r) is None,
{
    ForkTree::new()
}

/// `fork_tree::ForkTree::roots`: the roots in the tree's order, each mapped to
/// the node's hash and number, the announcing block's hash and height, the
/// change's delay and its number of authorities.
#[verifier::external_body]
fn fork_tree_roots(tree: &ChangeTree) -> (r: Vec<TreeEntry>)
    ensures
        r@ == standard_roots(*tree),
{
    tree.roots().map(|(h, n, c)| (*h, *n, c.canon_hash, c.canon_height, c.delay, c.next_authorities.len())).collect()
}

/// `fork_tree::ForkTree::import`, keyed by the change's announcing block.
/// A new root is appended to the roots; a node imported under another node
/// leaves the roots as they were up to their order (the tree may rebalance).
/// On success the change joins the nodes; on an error the tree is unchanged.
/// A height at or below the last finalized number is a revert; a duplicate is
/// a node with the same hash under the same parent. Which node becomes the
/// parent is not stated.
#[verifier::external_body]
fn fork_tree_import<F, E>(tree: &mut ChangeTree, pending: PendingChange<H256>, is_descendent_of: &F) -> (r: Result<bool, TreeError<E>>)
    where
        F: Fn(&H256, &H256) -> Result<bool, E>,
        E: std::error::Error,
    ensures
        r is Ok && r->Ok_0 ==> standard_roots(*final(tree)) == standard_roots(*old(tree)).push(root_entry(pending)),
        r is Ok && !r->Ok_0 ==> standard_roots(*final(tree)).to_multiset() == standard_roots(*old(tree)).to_multiset(),
        r is Ok ==> tree_nodes(*final(tree)) == tree_nodes(*old(tree)).insert(root_entry(pending)),
        r is Ok ==> best_finalized(*final(tree)) == best_finalized(*old(tree)),
        (r is Err && r->Err_0 is Revert) <==> reverts(*old(tree), pending.canon_height),
        r is Err && r->Err_0 is Duplicate ==> has_node_hash(*old(tree), pending.canon_hash),
        r is Err ==> *final(tree) == *old(tree),
        r is Err ==> !(r->Err_0 is UnfinalizedAncestor),
{
    let (hash, number) = (pending.canon_hash, pending.canon_height);
    match tree.import(hash, number, pending, is_descendent_of) {
        Ok(b) => Ok(b),
        Err(fork_tree::Error::Duplicate) => Err(TreeError::Duplicate),
        Err(fork_tree::Error::UnfinalizedAncestor) => Err(TreeError::UnfinalizedAncestor),
        Err(fork_tree::Error::Revert) => Err(TreeError::Revert),
        Err(fork_tree::Error::Client(e)) => Err(TreeError::Client(e)),
    }
}

/// `fork_tree::ForkTree::finalize_with_descendent_if`, with the predicate
/// that a change takes effect at or before `number`. A number not above the
/// last finalized one is a revert; on success it becomes the last finalized
/// one. The root finalized, and the root whose children stop a finalization
/// past them, is the first due root on the chain of `hash`. `Unchanged` leaves the
/// roots as they were, and comes only when no root whose change takes effect
/// by then is `hash` or, by the lookup, an ancestor of it, and every root is
/// kept (see `root_kept`); a change handed back is that of a root that takes
/// effect at or before `number`; `Changed(None)` only drops roots. On an
/// error other than one of the lookup the tree is unchanged (after a lookup
/// error, what is left of the tree is not stated). What the new roots are
/// after a finalized root is not stated.
#[verifier::external_body]
fn fork_tree_finalize<F, E>(tree: &mut ChangeTree, hash: &H256, number: u64, is_descendent_of: &F) -> (r: Result<FinalizationResult, TreeError<E>>)
    where
        F: Fn(&H256, &H256) -> Result<bool, E>,
        E: std::error::Error,
    ensures
        r is Ok && r->Ok_0 is Unchanged ==> standard_roots(*final(tree)) == standard_roots(*old(tree)),
        r is Ok && r->Ok_0 is Unchanged ==> forall|i: int| 0 <= i < standard_roots(*old(tree)).len()
            ==> #[trigger] root_not_finalized(*is_descendent_of, standard_roots(*old(tree))[i], *hash, number),
        r is Ok && r->Ok_0 is Changed && r->Ok_0->Changed_0 is Some ==> enacted_from(standard_roots(*old(tree)), r->Ok_0->Changed_0->Some_0, number),
        r is Ok && r->Ok_0 is Changed && r->Ok_0->Changed_0 is Some ==> exists|i: int|
            #[trigger] first_finalizable(*is_descendent_of, standard_roots(*old(tree)), *hash, number, i)
            && entry_change(standard_roots(*old(tree))[i]) == change_key_of(r->Ok_0->Changed_0->Some_0)
            && standard_roots(*old(tree))[i].5 == r->Ok_0->Changed_0->Some_0.next_authorities@.len()
            && tree_nodes(*old(tree)).contains(standard_roots(*old(tree))[i]),
        tree_nodes(*final(tree)).subset_of(tree_nodes(*old(tree))),
        r is Ok ==> best_finalized(*final(tree)) == Some(number),
        (r is Err && r->Err_0 is Revert) <==> reverts(*old(tree), number),
        r is Err && r->Err_0 is UnfinalizedAncestor ==> exists|i: int|
            #[trigger] first_finalizable(*is_descendent_of, standard_roots(*old(tree)), *hash, number, i),
        r is Ok && r->Ok_0 is Changed && r->Ok_0->Changed_0 is None ==> standard_roots(*final(tree)).len() < standard_roots(*old(tree)).len()
            && standard_roots(*final(tree)).to_multiset().subset_of(standard_roots(*old(tree)).to_multiset()),
        r is Err && !(r->Err_0 is Client) ==> *final(tree) == *old(tree),
        r is Err ==> !(r->Err_0 is Duplicate),
{
    let due = |c: &PendingChange<H256>| change_due(c, number);
    match tree.finalize_with_descendent_if(hash, number, is_descendent_of, due) {
        Ok(fork_tree::FinalizationResult::Changed(c)) => Ok(FinalizationResult::Changed(c)),
        Ok(fork_tree::FinalizationResult::Unchanged) => Ok(FinalizationResult::Unchanged),
        Err(fork_tree::Error::Duplicate) => Err(TreeError::Duplicate),
        Err(fork_tree::Error::UnfinalizedAncestor) => Err(TreeError::UnfinalizedAncestor),
        Err(fork_tree::Error::Revert) => Err(TreeError::Revert),
        Err(fork_tree::Error::Client(e)) => Err(TreeError::Client(e)),
    }
}

/// `fork_tree::ForkTree::finalizes_any_with_descendent_if`, with the
/// predicate that a change takes effect exactly at `number`. A tree without
/// roots has no nodes, so the answer is then `None` (or `Revert` when
/// `number` is not above the last finalized one). `None` comes only when no
/// node whose change takes effect at `number`, roots among them, is `hash`
/// or, by the lookup, an ancestor of it. Which node is found otherwise is not
/// stated.
#[verifier::external_body]
fn fork_tree_finalizes_any<F, E>(tree: &ChangeTree, hash: &H256, number: u64, is_descendent_of: &F) -> (r: Result<Option<bool>, TreeError<E>>)
    where
        F: Fn(&H256, &H256) -> Result<bool, E>,
        E: std::error::Error,
    ensures
        standard_roots(*tree).len() == 0 ==> (r is Ok && r->Ok_0 is None) || (r is Err && r->Err_0 is Revert),
        (r is Err && r->Err_0 is Revert) <==> reverts(*tree, number),
        r is Ok && r->Ok_0 is None ==> forall|i: int| 0 <= i < standard_roots(*tree).len()
            ==> #[trigger] root_not_enacted(*is_descendent_of, standard_roots(*tree)[i], *hash, number),
        r is Err ==> !(r->Err_0 is Duplicate),
{
    let at = |c: &PendingChange<H256>| change_at(c, number);
    match tree.finalizes_any_with_descendent_if(hash, number, is_descendent_of, at) {
        Ok(b) => Ok(b),
        Err(fork_tree::Error::Duplicate) => Err(TreeError::Duplicate),
        Err(fork_tree::Error::UnfinalizedAncestor) => Err(TreeError::UnfinalizedAncestor),
        Err(fork_tree::Error::Revert) => Err(TreeError::Revert),
        Err(fork_tree::Error::Client(e)) => Err(TreeError::Client(e)),
    }
}

/// Whether a change takes effect at or before block `n`.
fn change_due(c: &PendingChange<H256>, n: u64) -> (r: bool)
    ensures
        r == (effective(*c) <= n),
{
    c.delay <= n && c.canon_height <= n - c.delay
}

/// Whether a change takes effect exactly at block `n`.
fn change_at(c: &PendingChange<H256>, n: u64) -> (r: bool)
    ensures
        r == (effective(*c) == n),
{
    c.delay <= n && c.canon_height == n - c.delay
}

/// The change `c` is that of a root among `roots` and takes effect at or
/// before block `n`.
pub open spec fn enacted_from(roots: Seq<TreeEntry>, c: PendingChange<H256>, n: u64) -> bool {
    roots.map_values(|e: TreeEntry| entry_change(e)).contains(change_key_of(c))
        && effective(c) <= n
}

/// The announcing block and the delay of a change.
pub open spec fn change_key_of(c: PendingChange<H256>) -> (H256, u64, u64) {
    (c.canon_hash, c.canon_height, c.delay)
}

/// What finalizing block `hash` (number `n`) without a change says of the
/// root `e`: it was not finalized (its change takes effect after `n`, or it
/// is another block than `hash` and the lookup answered that `hash` does not
/// descend from it), and it was kept: it is above `n` and the lookup placed
/// it after `hash`, or it is `hash` at `n`, or the lookup placed it before
/// `hash`.
pub open spec fn root_not_finalized<F, E>(f: F, e: TreeEntry, hash: H256, n: u64) -> bool where
    F: Fn(&H256, &H256) -> Result<bool, E>,
 {
    &&& entry_effective(e) <= n ==> e.0 != hash && f.ensures((&e.0, &hash), Ok::<bool, E>(false))
    &&& {
        ||| e.1 > n && f.ensures((&hash, &e.0), Ok::<bool, E>(true))
        ||| e.1 == n && e.0 == hash
        ||| f.ensures((&e.0, &hash), Ok::<bool, E>(true))
    }
}

/// What finding no change enacted by block `hash` (number `n`) says of the
/// root `e`: its change does not take effect at `n`, or it is another block
/// than `hash` and the lookup answered that `hash` does not descend from it.
pub open spec fn root_not_enacted<F, E>(f: F, e: TreeEntry, hash: H256, n: u64) -> bool where
    F: Fn(&H256, &H256) -> Result<bool, E>,
 {
    entry_effective(e) == n ==> e.0 != hash && f.ensures((&e.0, &hash), Ok::<bool, E>(false))
}

/// The forced changes among `v` that are kept after block `n` is finalized,
/// given the answers `ans` of the lookup on whether each was announced on the
/// finalized chain: those that take effect after `n` with a yes answer.
pub open spec fn kept_forced(v: Seq<PendingChange<H256>>, ans: Seq<bool>, n: u64) -> Seq<PendingChange<H256>>
    decreases v.len(),
{
    if v.len() == 0 {
        Seq::empty()
    } else {
        let i = v.len() - 1;
        let rest = kept_forced(v.drop_last(), ans, n);
        if effective(v[i]) > n && ans[i] {
            rest.push(v[i])
        } else {
            rest
        }
    }
}

/// `ans` holds the lookup's answers, for the first `ans.len()` forced changes
/// of `v`, on whether each was announced on the chain of `hash`; only those
/// that take effect after `n` are asked.
pub open spec fn answered_keep<F, E>(f: F, hash: H256, v: Seq<PendingChange<H256>>, ans: Seq<bool>, n: u64) -> bool where
    F: Fn(&H256, &H256) -> Result<bool, E>,
 {
    &&& ans.len() <= v.len()
    &&& forall|i: int| 0 <= i < ans.len() && effective(v[i]) > n ==> f.ensures((&hash, &v[i].canon_hash), Ok::<bool, E>(#[trigger] ans[i]))
}

/// Error of the operations on an authority set.
#[derive(Debug)]
pub enum Error<E> {
    /// The authority set is empty.
    InvalidAuthoritySet,
    /// An error of the ancestry lookup.
    Client(E),
    /// A change announced at the same block as another one.
    DuplicateAuthoritySetChange,
    /// A second forced change on a fork that has one.
    MultiplePendingForcedAuthoritySetChanges,
    /// A forced change that must wait for the standard change that applies at
    /// the given block number.
    ForcedAuthoritySetChangeDependencyUnsatisfied(u64),
    /// Another error of the tree of pending changes.
    ForkTree(TreeError<E>),
}

/// The error of the authority set for an error of the tree.
pub open spec fn tree_error_spec<E>(e: TreeError<E>) -> Error<E> {
    match e {
        TreeError::Client(c) => Error::Client(c),
        TreeError::Duplicate => Error::DuplicateAuthoritySetChange,
        _ => Error::ForkTree(e),
    }
}

/// Maps an error of the tree to the error of the authority set.
pub fn from_tree_error<E>(e: TreeError<E>) -> (r: Error<E>)
    ensures
        r == tree_error_spec(e),
{
    match e {
        TreeError::Client(c) => Error::Client(c),
        TreeError::Duplicate => Error::DuplicateAuthoritySetChange,
        _ => Error::ForkTree(e),
    }
}

/// Status of the set after changes were applied.
#[derive(Debug)]
pub struct Status {
    /// Whether internal changes were made.
    pub changed: bool,
    /// The block where the set changed, when it did.
    pub new_set_block: Option<(H256, u64)>,
}

/// A set of authorities with its pending changes.
#[derive(Debug, PartialEq)]
pub struct AuthoritySet {
    /// The current active authorities.
    pub current_authorities: AuthorityList,
    /// The current set id.
    pub set_id: u64,
    /// Tree of pending standard changes across forks, enacted on finality and
    /// in order along each branch.
    pub pending_standard_changes: ChangeTree,
    /// Pending forced changes across forks (at most one per fork), ordered by
    /// effective number and then by announcing block number.
    pub pending_forced_changes: Vec<PendingChange<H256>>,
    /// The block at which each past set ended.
    pub authority_set_changes: AuthoritySetChanges,
}

/// An authority set change that the runtime does not signal, defined off
/// chain (a hard fork).
pub struct AuthoritySetHardFork {
    /// The new authority set id.
    pub set_id: u64,
    /// The block hash and number at which the hard fork applies.
    pub block: (H256, u64),
    /// The authorities of the new set.
    pub authorities: AuthorityList,
    /// The last block finalized before the hard fork; when given, the change
    /// is forced with this block as its base.
    pub last_finalized: Option<u64>,
}

/// The pending change, with no delay, that a hard fork stands for.
pub open spec fn hard_fork_change(fork: AuthoritySetHardFork) -> (u64, PendingChange<H256>) {
    (
        fork.set_id,
        PendingChange {
            next_authorities: fork.authorities,
            delay: 0,
            canon_height: fork.block.1,
            canon_hash: fork.block.0,
            delay_kind: match fork.last_finalized {
                Some(n) => DelayKind::Best { median_last_finalized: n },
                None => DelayKind::Finalized,
            },
        },
    )
}

/// The pending changes, with their set ids, that the block import applies
/// for the given hard forks, in their order.
pub fn hard_fork_changes(forks: Vec<AuthoritySetHardFork>) -> (r: Vec<(u64, PendingChange<H256>)>)
    ensures
        r@.len() == forks@.len(),
        forall|i: int| 0 <= i < r@.len() ==> r@[i] == hard_fork_change(#[trigger] forks@[i]),
{
    let mut rest = forks;
    let mut out: Vec<(u64, PendingChange<H256>)> = Vec::new();
    let ghost all = rest@;
    while rest.len() > 0
        invariant
            out@.len() + rest@.len() == all.len(),
            rest@ == all.subrange(out@.len() as int, all.len() as int),
            forall|i: int| 0 <= i < out@.len() ==> out@[i] == hard_fork_change(#[trigger] all[i]),
        decreases rest@.len(),
    {
        let fork = rest.remove(0);
        let delay_kind = match fork.last_finalized {
            Some(n) => DelayKind::Best { median_last_finalized: n },
            None => DelayKind::Finalized,
        };
        out.push((
            fork.set_id,
            PendingChange {
                next_authorities: fork.authorities,
                delay: 0,
                canon_height: fork.block.1,
                canon_hash: fork.block.0,
                delay_kind,
            },
        ));
    }
    out
}

/// Whether `a` comes no later than `b` in the order of forced changes: by
/// effective number, then by announcing block number.
pub open spec fn key_le(a: PendingChange<H256>, b: PendingChange<H256>) -> bool {
    effective(a) < effective(b) || (effective(a) == effective(b) && a.canon_height <= b.canon_height)
}

/// Whether forced changes stand in their order.
pub open spec fn forced_sorted(v: Seq<PendingChange<H256>>) -> bool {
    forall|i: int, j: int| 0 <= i < j < v.len() ==> key_le(v[i], v[j])
}

/// Whether every forced change has authorities.
pub open spec fn forced_nonempty(v: Seq<PendingChange<H256>>) -> bool {
    forall|i: int| 0 <= i < v.len() ==> (#[trigger] v[i]).next_authorities@.len() > 0
}

/// Whether every forced change has the delay kind of forced changes.
pub open spec fn all_best(v: Seq<PendingChange<H256>>) -> bool {
    forall|i: int| 0 <= i < v.len() ==> (#[trigger] v[i]).delay_kind is Best
}

/// Whether the `j`-th forced change lets `pending` be added after it: another
/// block, of which the lookup answered that `pending` does not descend.
pub open spec fn forced_clear<F, E>(
    f: F,
    v: Seq<PendingChange<H256>>,
    pending: PendingChange<H256>,
    j: int,
) -> bool where F: Fn(&H256, &H256) -> Result<bool, E> {
    &&& v[j].canon_hash != pending.canon_hash
    &&& f.ensures((&v[j].canon_hash, &pending.canon_hash), Ok::<bool, E>(false))
}

impl AuthoritySet {
    /// Every set of authorities the set holds or may enact is non-empty: the
    /// current one, those of the forced changes and those of the changes in
    /// the tree.
    pub open spec fn authorities_nonempty(&self) -> bool {
        &&& self.current_authorities@.len() > 0
        &&& forced_nonempty(self.forced())
        &&& forall|e: TreeEntry| #[trigger] tree_nodes(self.pending_standard_changes).contains(e) ==> e.5 > 0
    }

    /// The pending forced changes, in order.
    pub open spec fn forced(&self) -> Seq<PendingChange<H256>> {
        self.pending_forced_changes@
    }

    /// A genesis set with the given authorities; `None` when there are none.
    pub fn genesis(initial: AuthorityList) -> (r: Option<Self>)
        ensures
            r is None <==> initial@.len() == 0,
            r is Some ==> {
                let s = r->Some_0;
                &&& s.current_authorities == initial
                &&& s.set_id == 0
                &&& standard_roots(s.pending_standard_changes) == Seq::<TreeEntry>::empty()
                &&& s.forced() == Seq::<PendingChange<H256>>::empty()
                &&& s.authority_set_changes.spec_changes() == Seq::<(u64, u64)>::empty()
                &&& s.authorities_nonempty()
            },
    {
        if initial.len() == 0 {
            return None;
        }
        Some(AuthoritySet {
            current_authorities: initial,
            set_id: 0,
            pending_standard_changes: fork_tree_new(),
            pending_forced_changes: Vec::new(),
            authority_set_changes: AuthoritySetChanges::empty(),
        })
    }

    /// An authority set made of the given parts; `None` when there are no
    /// authorities.
    pub fn new(
        authorities: AuthorityList,
        set_id: u64,
        pending_standard_changes: ChangeTree,
        pending_forced_changes: Vec<PendingChange<H256>>,
        authority_set_changes: AuthoritySetChanges,
    ) -> (r: Option<Self>)
        ensures
            r is None <==> authorities@.len() == 0,
            r is Some ==> {
                let s = r->Some_0;
                &&& s.current_authorities == authorities
                &&& s.set_id == set_id
                &&& s.pending_standard_changes == pending_standard_changes
                &&& s.pending_forced_changes == pending_forced_changes
                &&& s.authority_set_changes == authority_set_changes
            },
    {
        if authorities.len() == 0 {
            return None;
        }
        Some(AuthoritySet {
            current_authorities: authorities,
            set_id,
            pending_standard_changes,
            pending_forced_changes,
            authority_set_changes,
        })
    }

    /// The current set id and authorities.
    pub fn current(&self) -> (r: (u64, &[AuthorityId]))
        ensures
            r.0 == self.set_id,
            r.1@ == self.current_authorities@,
    {
        (self.set_id, self.current_authorities.as_slice())
    }

    /// The block (hash and height) that announced the next pending change on
    /// the chain of `best_hash`: the first forced change, and the first root of
    /// the tree, whose announcing block `best_hash` descends from, the earlier
    /// of the two (the standard one on a tie); `None` when neither exists.
    pub fn next_change<F, E>(&self, best_hash: &H256, is_descendent_of: &F) -> (r: Result<Option<(H256, u64)>, Error<E>>)
        where
            F: Fn(&H256, &H256) -> Result<bool, E>,
            E: std::error::Error,
        requires
            forall|x: &H256, y: &H256| #[trigger] is_descendent_of.requires((x, y)),
        ensures
            ({
                let fb = forced_hashes(self.forced());
                let roots = standard_roots(self.pending_standard_changes);
                let sb = root_hashes(roots);
                match r {
                    Ok(res) => exists|kf: int, ks: int|
                        #![trigger scan_stop(*is_descendent_of, fb, *best_hash, kf), scan_stop(*is_descendent_of, sb, *best_hash, ks)]
                        scan_stop(*is_descendent_of, fb, *best_hash, kf) && scan_stop(*is_descendent_of, sb, *best_hash, ks)
                        && res == earliest(forced_pick(self.forced(), kf), root_pick(roots, ks)),
                    Err(Error::Client(e)) => (exists|kf: int| #[trigger] scan_failed(*is_descendent_of, fb, *best_hash, kf, e))
                        || (exists|kf: int, ks: int|
                        #![trigger scan_stop(*is_descendent_of, fb, *best_hash, kf), scan_failed(*is_descendent_of, sb, *best_hash, ks, e)]
                        scan_stop(*is_descendent_of, fb, *best_hash, kf) && scan_failed(*is_descendent_of, sb, *best_hash, ks, e)),
                    Err(_) => false,
                }
            }),
    {
        let ghost fb = forced_hashes(self.forced());
        let mut forced: Option<(H256, u64)> = None;
        let mut found = false;
        let mut i: usize = 0;
        let n = self.pending_forced_changes.len();
        while i < n && !found
            invariant
                n == self.pending_forced_changes@.len(),
                fb == forced_hashes(self.forced()),
                i <= n,
                forall|x: &H256, y: &H256| #[trigger] is_descendent_of.requires((x, y)),
                forall|j: int| 0 <= j < i ==> #[trigger] is_descendent_of.ensures((&fb[j], best_hash), Ok::<bool, E>(false)),
                !found ==> forced is None,
                found ==> i < n && forced == forced_pick(self.forced(), i as int)
                    && is_descendent_of.ensures((&fb[i as int], best_hash), Ok::<bool, E>(true)),
            decreases n - i + (if found { 0int } else { 1int }),
        {
            let c = &self.pending_forced_changes[i];
            match is_descendent_of(&c.canon_hash, best_hash) {
                Err(e) => {
                    assert(scan_failed(*is_descendent_of, fb, *best_hash, i as int, e));
                    let rr: Result<Option<(H256, u64)>, Error<E>> = Err(Error::Client(e));
                    assert(rr->Err_0->Client_0 == e);
                    return rr;
                },
                Ok(true) => {
                    forced = Some((c.canon_hash, c.canon_height));
                    found = true;
                },
                Ok(false) => {
                    i += 1;
                },
            }
        }
        let ghost kf = i as int;
        assert(scan_stop(*is_descendent_of, fb, *best_hash, kf));
        assert(forced == forced_pick(self.forced(), kf));
        let roots = fork_tree_roots(&self.pending_standard_changes);
        let ghost sb = root_hashes(roots@);
        let mut standard: Option<(H256, u64)> = None;
        let mut found_root = false;
        let mut j: usize = 0;
        while j < roots.len() && !found_root
            invariant
                sb == root_hashes(roots@),
                roots@ == standard_roots(self.pending_standard_changes),
                fb == forced_hashes(self.forced()),
                scan_stop(*is_descendent_of, fb, *best_hash, kf),
                forced == forced_pick(self.forced(), kf),
                j <= roots@.len(),
                forall|x: &H256, y: &H256| #[trigger] is_descendent_of.requires((x, y)),
                forall|m: int| 0 <= m < j ==> #[trigger] is_descendent_of.ensures((&sb[m], best_hash), Ok::<bool, E>(false)),
                !found_root ==> standard is None,
                found_root ==> j < roots@.len() && standard == root_pick(roots@, j as int)
                    && is_descendent_of.ensures((&sb[j as int], best_hash), Ok::<bool, E>(true)),
            decreases roots@.len() - j + (if found_root { 0int } else { 1int }),
        {
            match is_descendent_of(&roots[j].2, best_hash) {
                Err(e) => {
                    let rr: Result<Option<(H256, u64)>, Error<E>> = Err(Error::Client(e));
                    assert(rr->Err_0->Client_0 == e);
                    assert(scan_stop(*is_descendent_of, fb, *best_hash, kf) && scan_failed(*is_descendent_of, sb, *best_hash, j as int, e));
                    return rr;
                },
                Ok(true) => {
                    standard = Some((roots[j].2, roots[j].3));
                    found_root = true;
                },
                Ok(false) => {
                    j += 1;
                },
            }
        }
        let ghost ks = j as int;
        assert(scan_stop(*is_descendent_of, sb, *best_hash, ks));
        assert(standard == root_pick(roots@, ks));
        let earliest_change = match (forced, standard) {
            (Some(fc), Some(sc)) => Some(if fc.1 < sc.1 { fc } else { sc }),
            (Some(fc), None) => Some(fc),
            (None, Some(sc)) => Some(sc),
            (None, None) => None,
        };
        Ok(earliest_change)
    }

    /// Whether the effective number of every root of the tree of standard
    /// changes fits in a block number (what `current_limit` and
    /// `apply_forced_changes` compute).
    pub fn standard_roots_fit(&self) -> (r: bool)
        ensures
            r == roots_fit(standard_roots(self.pending_standard_changes)),
    {
        let roots = fork_tree_roots(&self.pending_standard_changes);
        let mut i: usize = 0;
        while i < roots.len()
            invariant
                i <= roots@.len(),
                roots@ == standard_roots(self.pending_standard_changes),
                forall|j: int| 0 <= j < i ==> entry_effective(#[trigger] roots@[j]) <= u64::MAX,
            decreases roots@.len() - i,
        {
            if roots[i].4 > u64::MAX - roots[i].3 {
                assert(entry_effective(roots@[i as int]) > u64::MAX);
                return false;
            }
            i += 1;
        }
        true
    }

    /// The earliest effective number of a root of the tree of standard
    /// changes that is at least `min`; `None` when there is none. Forced
    /// changes are not taken into account.
    pub fn current_limit(&self, min: u64) -> (r: Option<u64>)
        requires
            roots_fit(standard_roots(self.pending_standard_changes)),
        ensures
            ({
                let roots = standard_roots(self.pending_standard_changes);
                &&& r is None <==> forall|i: int| 0 <= i < roots.len() ==> entry_effective(#[trigger] roots[i]) < min
                &&& r is Some ==> r->Some_0 >= min && (exists|i: int| 0 <= i < roots.len() && entry_effective(#[trigger] roots[i]) == r->Some_0)
                &&& r is Some ==> forall|i: int| 0 <= i < roots.len() && entry_effective(#[trigger] roots[i]) >= min ==> r->Some_0 <= entry_effective(roots[i])
            }),
    {
        let roots = fork_tree_roots(&self.pending_standard_changes);
        let mut best: Option<u64> = None;
        let mut i: usize = 0;
        while i < roots.len()
            invariant
                i <= roots@.len(),
                roots_fit(roots@),
                best is None <==> forall|j: int| 0 <= j < i ==> entry_effective(#[trigger] roots@[j]) < min,
                best is Some ==> best->Some_0 >= min && (exists|j: int| 0 <= j < i && entry_effective(#[trigger] roots@[j]) == best->Some_0),
                best is Some ==> forall|j: int| 0 <= j < i && entry_effective(#[trigger] roots@[j]) >= min ==> best->Some_0 <= entry_effective(roots@[j]),
            decreases roots@.len() - i,
        {
            assert(entry_effective(roots@[i as int]) <= u64::MAX);
            let e = roots[i].3 + roots[i].4;
            if e >= min {
                match best {
                    None => {
                        best = Some(e);
                    },
                    Some(b) => {
                        if e < b {
                            best = Some(e);
                        }
                    },
                }
            }
            i += 1;
        }
        best
    }

    /// Applies the forced change that the best block `best_hash` (number
    /// `best_number`) enacts: the first forced change with effective number
    /// `best_number` (scanning those up to that number, in order) that was
    /// announced at `best_hash` or at an ancestor of it. It is refused while a
    /// root of the tree of standard changes with an effective number up to
    /// the change's median last finalized block is an ancestor of the change's
    /// block. The new set, with the change's authorities, the next set id and
    /// no pending changes, is returned with that median; `self` is unchanged.
    pub fn apply_forced_changes<F, E>(
        &self,
        best_hash: H256,
        best_number: u64,
        is_descendent_of: &F,
    ) -> (r: Result<Option<(u64, AuthoritySet)>, Error<E>>)
        where
            F: Fn(&H256, &H256) -> Result<bool, E>,
            E: std::error::Error,
        requires
            forall|x: &H256, y: &H256| #[trigger] is_descendent_of.requires((x, y)),
            all_best(self.forced()),
            roots_fit(standard_roots(self.pending_standard_changes)),
            self.set_id < u64::MAX,
        ensures
            forced_nonempty(self.forced()) && r is Ok && r->Ok_0 is Some ==> r->Ok_0->Some_0.1.current_authorities@.len() > 0,
            self.authorities_nonempty() && r is Ok && r->Ok_0 is Some ==> r->Ok_0->Some_0.1.authorities_nonempty(),
            ({
                let f = *is_descendent_of;
                let v = self.forced();
                let roots = standard_roots(self.pending_standard_changes);
                match r {
                    Ok(None) => forall|i: int| #[trigger] forced_candidate(v, best_number, i) ==> off_branch(f, v, best_hash, i),
                    Ok(Some((m, s))) => exists|k: int| #[trigger] forced_applies(f, v, best_hash, best_number, k)
                        && m == median_of(v[k])
                        && (forall|j: int| 0 <= j < roots.len() ==> #[trigger] root_clear(f, roots, v[k].canon_hash, m, j))
                        && s.current_authorities@ == v[k].next_authorities@
                        && s.set_id == self.set_id + 1
                        && standard_roots(s.pending_standard_changes) == Seq::<TreeEntry>::empty()
                        && s.forced() == Seq::<PendingChange<H256>>::empty()
                        && s.authority_set_changes.spec_changes() == self.authority_set_changes.spec_changes().push((self.set_id, m)),
                    Err(Error::ForcedAuthoritySetChangeDependencyUnsatisfied(x)) => exists|k: int, j: int|
                        #![trigger forced_applies(f, v, best_hash, best_number, k), root_blocks(f, roots, v[k].canon_hash, median_of(v[k]), j)]
                        forced_applies(f, v, best_hash, best_number, k)
                        && root_blocks(f, roots, v[k].canon_hash, median_of(v[k]), j)
                        && x == entry_effective(roots[j]),
                    Err(Error::Client(e)) => (exists|k: int| #[trigger] forced_scan_failed(f, v, best_hash, best_number, k, e))
                        || (exists|k: int, j: int|
                        #![trigger forced_applies(f, v, best_hash, best_number, k), root_scan_failed(f, roots, v[k].canon_hash, median_of(v[k]), j, e)]
                        forced_applies(f, v, best_hash, best_number, k)
                        && root_scan_failed(f, roots, v[k].canon_hash, median_of(v[k]), j, e)),
                    Err(_) => false,
                }
            }),
    {
        let ghost f = *is_descendent_of;
        let ghost v = self.forced();
        let n = self.pending_forced_changes.len();
        let mut i: usize = 0;
        while i < n
            invariant
                n == v.len(),
                v == self.forced(),
                f == *is_descendent_of,
                i <= n,
                all_best(v),
                roots_fit(standard_roots(self.pending_standard_changes)),
                self.set_id < u64::MAX,
                forall|x: &H256, y: &H256| #[trigger] is_descendent_of.requires((x, y)),
                forall|j: int| 0 <= j < i ==> effective(#[trigger] v[j]) <= best_number,
                forall|j: int| 0 <= j < i ==> #[trigger] forced_candidate(v, best_number, j) ==> off_branch(f, v, best_hash, j),
            ensures
                i == n || effective(v[i as int]) > best_number,
                forall|j: int| 0 <= j < i ==> #[trigger] forced_candidate(v, best_number, j) ==> off_branch(f, v, best_hash, j),
            decreases n - i,
        {
            let c = &self.pending_forced_changes[i];
            let key = change_key(c);
            if key.0 > best_number as u128 {
                break;
            }
            if key.0 == best_number as u128 {
                let on_branch = if bytes32_eq(&c.canon_hash, &best_hash) {
                    true
                } else {
                    match is_descendent_of(&c.canon_hash, &best_hash) {
                        Err(e) => {
                            assert(forced_scan_failed(f, v, best_hash, best_number, i as int, e));
                            let rr: Result<Option<(u64, AuthoritySet)>, Error<E>> = Err(Error::Client(e));
                            assert(rr->Err_0->Client_0 == e);
                            return rr;
                        },
                        Ok(b) => b,
                    }
                };
                if on_branch {
                    let ghost k = i as int;
                    assert(forced_applies(f, v, best_hash, best_number, k));
                    let m: u64 = match c.delay_kind {
                        DelayKind::Best { median_last_finalized } => median_last_finalized,
                        DelayKind::Finalized => 0,
                    };
                    let roots = fork_tree_roots(&self.pending_standard_changes);
                    let mut j: usize = 0;
                    while j < roots.len()
                        invariant
                            j <= roots@.len(),
                            roots@ == standard_roots(self.pending_standard_changes),
                            roots_fit(roots@),
                            m == median_of(v[k]),
                            c == v[k],
                            v == self.forced(),
                            forced_applies(f, v, best_hash, best_number, k),
                            forall|x: &H256, y: &H256| #[trigger] is_descendent_of.requires((x, y)),
                            f == *is_descendent_of,
                            forall|q: int| 0 <= q < j ==> #[trigger] root_clear(f, roots@, c.canon_hash, m, q),
                        decreases roots@.len() - j,
                    {
                        assert(entry_effective(roots@[j as int]) <= u64::MAX);
                        let eff = roots[j].3 + roots[j].4;
                        if eff <= m {
                            match is_descendent_of(&roots[j].2, &c.canon_hash) {
                                Err(e) => {
                                    assert(root_scan_failed(f, roots@, c.canon_hash, m, j as int, e));
                                    let rr: Result<Option<(u64, AuthoritySet)>, Error<E>> = Err(Error::Client(e));
                                    assert(rr->Err_0->Client_0 == e);
                                    return rr;
                                },
                                Ok(true) => {
                                    assert(root_blocks(f, roots@, c.canon_hash, m, j as int));
                                    return Err(Error::ForcedAuthoritySetChangeDependencyUnsatisfied(eff));
                                },
                                Ok(false) => {},
                            }
                        }
                        j += 1;
                    }
                    let mut changes = self.authority_set_changes.clone();
                    changes.append(self.set_id, m);
                    let s = AuthoritySet {
                        current_authorities: copy_authorities(&c.next_authorities),
                        set_id: self.set_id + 1,
                        pending_standard_changes: fork_tree_new(),
                        pending_forced_changes: Vec::new(),
                        authority_set_changes: changes,
                    };
                    assert(s.forced() =~= Seq::<PendingChange<H256>>::empty());
                    return Ok(Some((m, s)));
                }
            }
            i += 1;
        }
        proof {
            assert forall|q: int| #[trigger] forced_candidate(v, best_number, q) implies off_branch(f, v, best_hash, q) by {
                if q > i {
                    assert(effective(v[i as int]) <= best_number);
                }
            }
        }
        Ok(None)
    }

    /// Applies what finalizing block `finalized_hash` (number
    /// `finalized_number`) did to the tree of standard changes. When the tree
    /// changed, the forced changes kept are those that take effect after the
    /// block and that the lookup places on its chain; when a change was
    /// enacted, its authorities become the current ones, the set id grows by
    /// one, and the end of the old set is recorded at the finalized block.
    pub fn apply_finalization<F, E>(
        &mut self,
        outcome: FinalizationResult,
        finalized_hash: H256,
        finalized_number: u64,
        is_descendent_of: &F,
    ) -> (r: Result<Status, Error<E>>)
        where
            F: Fn(&H256, &H256) -> Result<bool, E>,
            E: std::error::Error,
        requires
            forall|x: &H256, y: &H256| #[trigger] is_descendent_of.requires((x, y)),
            outcome is Changed && outcome->Changed_0 is Some ==> old(self).set_id < u64::MAX,
        ensures
            final(self).pending_standard_changes == old(self).pending_standard_changes,
            forced_nonempty(old(self).forced()) ==> forced_nonempty(final(self).forced()),
            old(self).authorities_nonempty() && (outcome matches FinalizationResult::Changed(Some(c))
                ==> c.next_authorities@.len() > 0) ==> final(self).authorities_nonempty(),
            outcome is Unchanged ==> *final(self) == *old(self) && r is Ok && r->Ok_0 == (Status { changed: false, new_set_block: None }),
            outcome is Changed ==> finalization_applied(
                *is_descendent_of,
                *old(self),
                *final(self),
                outcome->Changed_0,
                finalized_hash,
                finalized_number,
                r,
            ),
    {
        match outcome {
            FinalizationResult::Unchanged => Ok(Status { changed: false, new_set_block: None }),
            FinalizationResult::Changed(change) => {
                let ghost f = *is_descendent_of;
                let ghost v = self.forced();
                let mut rest: Vec<PendingChange<H256>> = Vec::new();
                std::mem::swap(&mut rest, &mut self.pending_forced_changes);
                let ghost ans: Seq<bool> = Seq::empty();
                let n = rest.len();
                let mut i: usize = 0;
                while i < n
                    invariant
                        n == v.len(),
                        v == old(self).forced(),
                        outcome is Changed && outcome->Changed_0 == change,
                        change is Some ==> old(self).set_id < u64::MAX,
                        i <= n,
                        rest@ == v.subrange(i as int, n as int),
                        ans.len() == i,
                        answered_keep(f, finalized_hash, v, ans, finalized_number),
                        self.forced() == kept_forced(v.subrange(0, i as int), ans, finalized_number),
                        forced_nonempty(v) ==> forced_nonempty(self.forced()),
                        f == *is_descendent_of,
                        forall|x: &H256, y: &H256| #[trigger] is_descendent_of.requires((x, y)),
                        self.current_authorities == old(self).current_authorities,
                        self.set_id == old(self).set_id,
                        self.authority_set_changes == old(self).authority_set_changes,
                        self.pending_standard_changes == old(self).pending_standard_changes,
                    decreases n - i,
                {
                    let c = rest.remove(0);
                    assert(c == v[i as int]);
                    let ghost sub = v.subrange(0, i as int + 1);
                    assert(sub.drop_last() =~= v.subrange(0, i as int));
                    let ghost old_ans = ans;
                    if change_due(&c, finalized_number) {
                        proof {
                            ans = ans.push(false);
                        }
                    } else {
                        match is_descendent_of(&finalized_hash, &c.canon_hash) {
                            Err(e) => {
                                let rr: Result<Status, Error<E>> = Err(Error::Client(e));
                                assert(rr->Err_0->Client_0 == e);
                                assert(answered_keep(f, finalized_hash, v, ans, finalized_number) && ans.len() < v.len()
                                    && effective(v[ans.len() as int]) > finalized_number
                                    && f.ensures((&finalized_hash, &v[ans.len() as int].canon_hash), Err::<bool, E>(e))
                                    && self.forced() == kept_forced(v.subrange(0, ans.len() as int), ans, finalized_number));
                                return rr;
                            },
                            Ok(keep) => {
                                proof {
                                    ans = ans.push(keep);
                                }
                                if keep {
                                    self.pending_forced_changes.push(c);
                                }
                            },
                        }
                    }
                    proof {
                        lemma_kept_forced_prefix(v.subrange(0, i as int), ans, old_ans, finalized_number);
                        assert(sub.last() == v[i as int]);
                        assert(kept_forced(sub, ans, finalized_number) == if effective(v[i as int]) > finalized_number && ans[i as int] {
                            kept_forced(v.subrange(0, i as int), ans, finalized_number).push(v[i as int])
                        } else {
                            kept_forced(v.subrange(0, i as int), ans, finalized_number)
                        });
                    }
                    i += 1;
                    assert(v.subrange(0, i as int) =~= sub);
                }
                assert(v.subrange(0, n as int) =~= v);
                assert(answered_keep(f, finalized_hash, v, ans, finalized_number) && ans.len() == v.len()
                    && self.forced() == kept_forced(v, ans, finalized_number));
                match change {
                    Some(change) => {
                        self.authority_set_changes.append(self.set_id, finalized_number);
                        self.current_authorities = change.next_authorities;
                        self.set_id = self.set_id + 1;
                        Ok(Status { changed: true, new_set_block: Some((finalized_hash, finalized_number)) })
                    },
                    None => Ok(Status { changed: true, new_set_block: None }),
                }
            },
        }
    }

    /// Applies or prunes pending standard changes on the finality of block
    /// `finalized_hash` (number `finalized_number`): the tree finalizes the
    /// first root on that chain that takes effect by then (unless that would
    /// pass over one of its children), and the rest follows as
    /// `apply_finalization` states. Changes on one branch are so enacted in
    /// order.
    pub fn apply_standard_changes<F, E>(
        &mut self,
        finalized_hash: H256,
        finalized_number: u64,
        is_descendent_of: &F,
    ) -> (r: Result<Status, Error<E>>)
        where
            F: Fn(&H256, &H256) -> Result<bool, E>,
            E: std::error::Error,
        requires
            forall|x: &H256, y: &H256| #[trigger] is_descendent_of.requires((x, y)),
            old(self).set_id < u64::MAX,
        ensures
            r is Err ==> r->Err_0 is Client || r->Err_0 == Error::<E>::ForkTree(TreeError::Revert)
                || r->Err_0 == Error::<E>::ForkTree(TreeError::UnfinalizedAncestor),
            r is Err && !(r->Err_0 is Client) ==> *final(self) == *old(self),
            (r is Err && r->Err_0 == Error::<E>::ForkTree(TreeError::Revert))
                <==> reverts(old(self).pending_standard_changes, finalized_number),
            forced_nonempty(old(self).forced()) ==> forced_nonempty(final(self).forced()),
            old(self).authorities_nonempty() ==> final(self).authorities_nonempty(),
            r is Err && r->Err_0 == Error::<E>::ForkTree(TreeError::UnfinalizedAncestor) ==> exists|i: int|
                #[trigger] first_finalizable(
                    *is_descendent_of,
                    standard_roots(old(self).pending_standard_changes),
                    finalized_hash,
                    finalized_number,
                    i,
                ),
            r is Ok ==> best_finalized(final(self).pending_standard_changes) == Some(finalized_number),
            r is Ok && r->Ok_0.changed ==> forall|i: int| 0 <= i < final(self).forced().len()
                ==> effective(#[trigger] final(self).forced()[i]) > finalized_number,
            r is Ok && !r->Ok_0.changed ==> forall|i: int| 0 <= i < standard_roots(old(self).pending_standard_changes).len()
                ==> #[trigger] root_not_finalized(
                    *is_descendent_of,
                    standard_roots(old(self).pending_standard_changes)[i],
                    finalized_hash,
                    finalized_number,
                ),
            r is Ok && !r->Ok_0.changed ==> {
                &&& r->Ok_0.new_set_block is None
                &&& final(self).forced() == old(self).forced()
                &&& final(self).current_authorities == old(self).current_authorities
                &&& final(self).set_id == old(self).set_id
                &&& final(self).authority_set_changes == old(self).authority_set_changes
                &&& standard_roots(final(self).pending_standard_changes) == standard_roots(old(self).pending_standard_changes)
            },
            r is Ok && r->Ok_0.changed ==> exists|ans: Seq<bool>|
                #[trigger] answered_keep(*is_descendent_of, finalized_hash, old(self).forced(), ans, finalized_number)
                && ans.len() == old(self).forced().len()
                && final(self).forced() == kept_forced(old(self).forced(), ans, finalized_number),
            r is Ok && r->Ok_0.new_set_block is Some ==> {
                &&& r->Ok_0.new_set_block == Some((finalized_hash, finalized_number))
                &&& exists|c: PendingChange<H256>| #[trigger] enacted_from(standard_roots(old(self).pending_standard_changes), c, finalized_number)
                    && final(self).current_authorities == c.next_authorities
                    && exists|i: int| #[trigger] first_finalizable(
                        *is_descendent_of,
                        standard_roots(old(self).pending_standard_changes),
                        finalized_hash,
                        finalized_number,
                        i,
                    ) && entry_change(standard_roots(old(self).pending_standard_changes)[i]) == change_key_of(c)
                &&& final(self).set_id == old(self).set_id + 1
                &&& final(self).authority_set_changes.spec_changes() == old(self).authority_set_changes.spec_changes().push((old(self).set_id, finalized_number))
            },
            r is Ok && r->Ok_0.new_set_block is None ==> {
                &&& final(self).current_authorities == old(self).current_authorities
                &&& final(self).set_id == old(self).set_id
                &&& final(self).authority_set_changes == old(self).authority_set_changes
            },
    {
        let ghost roots0 = standard_roots(self.pending_standard_changes);
        let ghost nodes0 = tree_nodes(self.pending_standard_changes);
        let outcome = match fork_tree_finalize(&mut self.pending_standard_changes, &finalized_hash, finalized_number, is_descendent_of) {
            Ok(o) => o,
            Err(e) => {
                proof {
                    if old(self).authorities_nonempty() {
                        lemma_nodes_subset_nonempty(nodes0, tree_nodes(self.pending_standard_changes));
                    }
                }
                return Err(from_tree_error(e));
            },
        };
        proof {
            if old(self).authorities_nonempty() {
                lemma_nodes_subset_nonempty(nodes0, tree_nodes(self.pending_standard_changes));
                if outcome is Changed && outcome->Changed_0 is Some {
                    let c = outcome->Changed_0->Some_0;
                    let i = choose|i: int| #[trigger] first_finalizable(*is_descendent_of, roots0, finalized_hash, finalized_number, i)
                        && entry_change(roots0[i]) == change_key_of(c) && roots0[i].5 == c.next_authorities@.len()
                        && nodes0.contains(roots0[i]);
                    assert(roots0[i].5 > 0);
                }
            }
        }
        let ghost out = outcome;
        let ghost mid = *self;
        let r = self.apply_finalization(outcome, finalized_hash, finalized_number, is_descendent_of);
        proof {
            if out is Changed && r is Ok {
                assert(finalization_applied(*is_descendent_of, mid, *self, out->Changed_0, finalized_hash, finalized_number, r));
                let ans = choose|ans: Seq<bool>| #[trigger] answered_keep(*is_descendent_of, finalized_hash, mid.forced(), ans, finalized_number)
                    && ans.len() == mid.forced().len() && self.forced() == kept_forced(mid.forced(), ans, finalized_number);
                assert(answered_keep(*is_descendent_of, finalized_hash, old(self).forced(), ans, finalized_number));
            }
            if out is Changed && out->Changed_0 is Some {
                assert(enacted_from(roots0, out->Changed_0->Some_0, finalized_number));
            }
            if out is Changed && r is Ok {
                let ans = choose|ans: Seq<bool>| #[trigger] answered_keep(*is_descendent_of, finalized_hash, mid.forced(), ans, finalized_number)
                    && ans.len() == mid.forced().len() && self.forced() == kept_forced(mid.forced(), ans, finalized_number);
                lemma_kept_forced_later(mid.forced(), ans, finalized_number);
            }
        }
        r
    }

    /// Whether finalizing block `finalized_hash` (number `finalized_number`)
    /// enacts a standard change, without applying it: `Some(true)` when the
    /// change can be applied at once, `Some(false)` when other changes it
    /// depends on come first, `None` when no change is enacted. Every error of
    /// the tree, a lookup error among them, is reported as such.
    pub fn enacts_standard_change<F, E>(
        &self,
        finalized_hash: H256,
        finalized_number: u64,
        is_descendent_of: &F,
    ) -> (r: Result<Option<bool>, Error<E>>)
        where
            F: Fn(&H256, &H256) -> Result<bool, E>,
            E: std::error::Error,
        ensures
            r is Err ==> r->Err_0 is ForkTree && !(r->Err_0->ForkTree_0 is Duplicate),
            (r is Err && r->Err_0 == Error::<E>::ForkTree(TreeError::Revert))
                <==> reverts(self.pending_standard_changes, finalized_number),
            standard_roots(self.pending_standard_changes).len() == 0 ==> (r is Ok && r->Ok_0 is None)
                || (r is Err && r->Err_0 == Error::<E>::ForkTree(TreeError::Revert)),
            r is Ok && r->Ok_0 is None ==> forall|i: int| 0 <= i < standard_roots(self.pending_standard_changes).len()
                ==> #[trigger] root_not_enacted(
                    *is_descendent_of,
                    standard_roots(self.pending_standard_changes)[i],
                    finalized_hash,
                    finalized_number,
                ),
    {
        match fork_tree_finalizes_any(&self.pending_standard_changes, &finalized_hash, finalized_number, is_descendent_of) {
            Ok(b) => Ok(b),
            Err(e) => Err(Error::ForkTree(e)),
        }
    }

    /// Inserts a forced change in its place, unless it was announced at the
    /// block of another one or on a fork that has one.
    fn add_forced_change<F, E>(&mut self, pending: PendingChange<H256>, is_descendent_of: &F) -> (r: Result<(), Error<E>>)
        where
            F: Fn(&H256, &H256) -> Result<bool, E>,
            E: std::error::Error,
        requires
            forall|x: &H256, y: &H256| #[trigger] is_descendent_of.requires((x, y)),
        ensures
            forced_added(*is_descendent_of, old(self).forced(), final(self).forced(), pending, r),
            r is Err ==> final(self).forced() == old(self).forced(),
            final(self).current_authorities == old(self).current_authorities,
            final(self).set_id == old(self).set_id,
            final(self).pending_standard_changes == old(self).pending_standard_changes,
            final(self).authority_set_changes == old(self).authority_set_changes,
    {
        let n = self.pending_forced_changes.len();
        let mut j: usize = 0;
        while j < n
            invariant
                n == self.pending_forced_changes@.len(),
                0 <= j <= n,
                *self == *old(self),
                forall|x: &H256, y: &H256| #[trigger] is_descendent_of.requires((x, y)),
                forall|i: int| 0 <= i < j ==> forced_clear(*is_descendent_of, self.pending_forced_changes@, pending, i),
            decreases n - j,
        {
            let ghost k = j as int;
            let ghost v = self.pending_forced_changes@;
            if bytes32_eq(&self.pending_forced_changes[j].canon_hash, &pending.canon_hash) {
                assert(0 <= k < v.len() && v[k].canon_hash == pending.canon_hash && clear_before(*is_descendent_of, v, pending, k));
                assert(v == old(self).forced());
                return Err(Error::DuplicateAuthoritySetChange);
            }
            let answer = is_descendent_of(&self.pending_forced_changes[j].canon_hash, &pending.canon_hash);
            match answer {
                Err(e) => {
                    assert(0 <= k < v.len() && v[k].canon_hash != pending.canon_hash && clear_before(*is_descendent_of, v, pending, k)
                        && is_descendent_of.ensures((&v[k].canon_hash, &pending.canon_hash), Err::<bool, E>(e)));
                    assert(v == old(self).forced());
                    return Err(Error::Client(e));
                },
                Ok(true) => {
                    assert(0 <= k < v.len() && v[k].canon_hash != pending.canon_hash && clear_before(*is_descendent_of, v, pending, k)
                        && is_descendent_of.ensures((&v[k].canon_hash, &pending.canon_hash), Ok::<bool, E>(true)));
                    assert(v == old(self).forced());
                    return Err(Error::MultiplePendingForcedAuthoritySetChanges);
                },
                Ok(false) => {},
            }
            j += 1;
        }
        let idx = forced_position(&self.pending_forced_changes, &pending);
        proof {
            assert(forced_sorted(self.pending_forced_changes@) ==> placed(self.pending_forced_changes@, pending, idx as int));
        }
        let ghost v0 = self.pending_forced_changes@;
        self.pending_forced_changes.insert(idx, pending);
        assert(self.forced() == v0.insert(idx as int, pending));
        assert(v0 == old(self).forced());
        Ok(())
    }

    /// Imports a standard change into the tree of pending changes.
    fn add_standard_change<F, E>(&mut self, pending: PendingChange<H256>, is_descendent_of: &F) -> (r: Result<(), Error<E>>)
        where
            F: Fn(&H256, &H256) -> Result<bool, E>,
            E: std::error::Error,
        ensures
            standard_added(old(self).pending_standard_changes, final(self).pending_standard_changes, pending, r),
            final(self).forced() == old(self).forced(),
            final(self).current_authorities == old(self).current_authorities,
            final(self).set_id == old(self).set_id,
            final(self).authority_set_changes == old(self).authority_set_changes,
    {
        match fork_tree_import(&mut self.pending_standard_changes, pending, is_descendent_of) {
            Ok(_) => Ok(()),
            Err(e) => Err(from_tree_error(e)),
        }
    }

    /// Notes an upcoming change: a forced one (delay kind `Best`) joins the
    /// forced changes, at most one per fork; a standard one joins the tree.
    /// The lookup `is_descendent_of(base, target)` tells whether `target`
    /// descends from `base`.
    pub fn add_pending_change<F, E>(&mut self, pending: PendingChange<H256>, is_descendent_of: &F) -> (r: Result<(), Error<E>>)
        where
            F: Fn(&H256, &H256) -> Result<bool, E>,
            E: std::error::Error,
        requires
            forall|x: &H256, y: &H256| #[trigger] is_descendent_of.requires((x, y)),
        ensures
            pending.next_authorities@.len() == 0 <==> (r is Err && r->Err_0 is InvalidAuthoritySet),
            pending.next_authorities@.len() == 0 ==> *final(self) == *old(self),
            pending.next_authorities@.len() > 0 && pending.delay_kind is Best ==> {
                &&& forced_added(*is_descendent_of, old(self).forced(), final(self).forced(), pending, r)
                &&& final(self).pending_standard_changes == old(self).pending_standard_changes
            },
            pending.next_authorities@.len() > 0 && pending.delay_kind is Finalized ==> {
                &&& standard_added(old(self).pending_standard_changes, final(self).pending_standard_changes, pending, r)
                &&& final(self).forced() == old(self).forced()
            },
            final(self).current_authorities == old(self).current_authorities,
            final(self).set_id == old(self).set_id,
            final(self).authority_set_changes == old(self).authority_set_changes,
            all_best(old(self).forced()) ==> all_best(final(self).forced()),
            forced_nonempty(old(self).forced()) ==> forced_nonempty(final(self).forced()),
            old(self).authorities_nonempty() ==> final(self).authorities_nonempty(),
            forced_sorted(old(self).forced()) ==> forced_sorted(final(self).forced()),
    {
        if pending.next_authorities.len() == 0 {
            return Err(Error::InvalidAuthoritySet);
        }
        let ghost v = self.pending_forced_changes@;
        let ghost p = pending;
        let r = match pending.delay_kind {
            DelayKind::Best { .. } => self.add_forced_change(pending, is_descendent_of),
            DelayKind::Finalized => self.add_standard_change(pending, is_descendent_of),
        };
        proof {
            if r is Ok && p.delay_kind is Finalized && old(self).authorities_nonempty() {
                let before = tree_nodes(old(self).pending_standard_changes);
                let after = tree_nodes(self.pending_standard_changes);
                assert forall|e: TreeEntry| #[trigger] after.contains(e) implies e.5 > 0 by {
                    if e != root_entry(p) {
                        assert(after.count(e) == before.count(e));
                        assert(before.contains(e));
                    }
                }
            }
            if r is Ok && p.delay_kind is Best {
                let w = self.pending_forced_changes@;
                let idx = choose|idx: int| 0 <= idx <= v.len() && w == #[trigger] v.insert(idx, p)
                    && (forced_sorted(v) ==> placed(v, p, idx));
                lemma_insert_keeps(v, p, idx);
            }
        }
        r
    }
}

/// What adding the forced change `pending` to the forced changes `v` gives
/// (`w` after it), scanning `v` in order: on the first change announced at
/// the same block the change is a duplicate; on the first of which the lookup
/// says that `pending` descends, a second forced change on a fork; on a lookup
/// error, that error; when none, `pending` is inserted in its place.
pub open spec fn forced_added<F, E>(
    f: F,
    v: Seq<PendingChange<H256>>,
    w: Seq<PendingChange<H256>>,
    pending: PendingChange<H256>,
    r: Result<(), Error<E>>,
) -> bool where F: Fn(&H256, &H256) -> Result<bool, E> {
    &&& r is Err ==> w == v
    &&& match r {
        Ok(_) => {
            &&& forall|j: int| 0 <= j < v.len() ==> forced_clear(f, v, pending, j)
            &&& exists|idx: int| 0 <= idx <= v.len() && w == #[trigger] v.insert(idx, pending)
                && (forced_sorted(v) ==> placed(v, pending, idx))
        },
        Err(Error::DuplicateAuthoritySetChange) => exists|k: int| 0 <= k < v.len() && v[k].canon_hash == pending.canon_hash
            && #[trigger] clear_before(f, v, pending, k),
        Err(Error::MultiplePendingForcedAuthoritySetChanges) => exists|k: int| 0 <= k < v.len() && v[k].canon_hash != pending.canon_hash
            && #[trigger] clear_before(f, v, pending, k)
            && f.ensures((&v[k].canon_hash, &pending.canon_hash), Ok::<bool, E>(true)),
        Err(Error::Client(e)) => exists|k: int| 0 <= k < v.len() && v[k].canon_hash != pending.canon_hash
            && #[trigger] clear_before(f, v, pending, k)
            && f.ensures((&v[k].canon_hash, &pending.canon_hash), Err::<bool, E>(e)),
        Err(_) => false,
    }
}

/// What adding the standard change `pending` to the tree `t` gives (`u`
/// after it): on success the change joins the nodes, and a new root is
/// appended or the roots stay as they were up to their order; on an error of the lookup, a duplicate, or a change
/// at or below the last finalized block, the tree is unchanged.
pub open spec fn standard_added<E>(t: ChangeTree, u: ChangeTree, pending: PendingChange<H256>, r: Result<(), Error<E>>) -> bool {
    &&& r is Ok ==> standard_roots(u) == standard_roots(t).push(root_entry(pending))
        || standard_roots(u).to_multiset() == standard_roots(t).to_multiset()
    &&& r is Ok ==> tree_nodes(u) == tree_nodes(t).insert(root_entry(pending))
    &&& r is Err ==> u == t
    &&& r is Err ==> (r->Err_0 is Client || r->Err_0 is DuplicateAuthoritySetChange
        || r->Err_0 == Error::<E>::ForkTree(TreeError::Revert))
    &&& r is Ok ==> best_finalized(u) == best_finalized(t)
    &&& (r is Err && r->Err_0 == Error::<E>::ForkTree(TreeError::Revert)) <==> reverts(t, pending.canon_height)
    &&& r is Err && r->Err_0 is DuplicateAuthoritySetChange ==> has_node_hash(t, pending.canon_hash)
}

/// The announcing blocks of forced changes.
pub open spec fn forced_hashes(v: Seq<PendingChange<H256>>) -> Seq<H256> {
    v.map_values(|c: PendingChange<H256>| c.canon_hash)
}

/// The announcing blocks of root entries.
pub open spec fn root_hashes(v: Seq<TreeEntry>) -> Seq<H256> {
    v.map_values(|e: TreeEntry| e.2)
}

/// Whether every root entry has an effective number that fits in a `u64`.
pub open spec fn roots_fit(v: Seq<TreeEntry>) -> bool {
    forall|i: int| 0 <= i < v.len() ==> entry_effective(#[trigger] v[i]) <= u64::MAX
}

/// A scan of `bases` in order that asks the lookup whether `target` descends
/// from each, stopped at position `k`: every answer before `k` was no, and
/// the answer at `k` (when `k` is not the end) was yes.
pub open spec fn scan_stop<F, E>(f: F, bases: Seq<H256>, target: H256, k: int) -> bool where
    F: Fn(&H256, &H256) -> Result<bool, E>,
 {
    &&& 0 <= k <= bases.len()
    &&& forall|j: int| 0 <= j < k ==> f.ensures((&bases[j], &target), Ok::<bool, E>(false))
    &&& k < bases.len() ==> f.ensures((&bases[k], &target), Ok::<bool, E>(true))
}

/// A scan as for `scan_stop` that met the lookup error `e` at position `k`.
pub open spec fn scan_failed<F, E>(f: F, bases: Seq<H256>, target: H256, k: int, e: E) -> bool where
    F: Fn(&H256, &H256) -> Result<bool, E>,
 {
    &&& 0 <= k < bases.len()
    &&& forall|j: int| 0 <= j < k ==> f.ensures((&bases[j], &target), Ok::<bool, E>(false))
    &&& f.ensures((&bases[k], &target), Err::<bool, E>(e))
}

/// The announcing block of the forced change at position `k`, if any.
pub open spec fn forced_pick(v: Seq<PendingChange<H256>>, k: int) -> Option<(H256, u64)> {
    if 0 <= k < v.len() {
        Some((v[k].canon_hash, v[k].canon_height))
    } else {
        None
    }
}

/// The announcing block of the root entry at position `k`, if any.
pub open spec fn root_pick(v: Seq<TreeEntry>, k: int) -> Option<(H256, u64)> {
    if 0 <= k < v.len() {
        Some((v[k].2, v[k].3))
    } else {
        None
    }
}

/// The earlier of two announcing blocks, the standard one on a tie.
pub open spec fn earliest(forced: Option<(H256, u64)>, standard: Option<(H256, u64)>) -> Option<(H256, u64)> {
    match (forced, standard) {
        (Some(f), Some(s)) => if f.1 < s.1 {
            Some(f)
        } else {
            Some(s)
        },
        (Some(f), None) => Some(f),
        (None, Some(s)) => Some(s),
        (None, None) => None,
    }
}

/// Whether the forced change at position `i` is one that the best block
/// number `n` may enact: its effective number is `n`, and no change before it
/// takes effect after `n`.
pub open spec fn forced_candidate(v: Seq<PendingChange<H256>>, n: u64, i: int) -> bool {
    &&& 0 <= i < v.len()
    &&& effective(v[i]) == n
    &&& forall|j: int| 0 <= j < i ==> effective(#[trigger] v[j]) <= n
}

/// The lookup answered that `best` does not descend from the block of the
/// forced change at position `i`, which is another block.
pub open spec fn off_branch<F, E>(f: F, v: Seq<PendingChange<H256>>, best: H256, i: int) -> bool where
    F: Fn(&H256, &H256) -> Result<bool, E>,
 {
    v[i].canon_hash != best && f.ensures((&v[i].canon_hash, &best), Ok::<bool, E>(false))
}

/// The forced change at position `i` was announced at `best`, or the lookup
/// answered that `best` descends from its block.
pub open spec fn on_branch<F, E>(f: F, v: Seq<PendingChange<H256>>, best: H256, i: int) -> bool where
    F: Fn(&H256, &H256) -> Result<bool, E>,
 {
    v[i].canon_hash == best || f.ensures((&v[i].canon_hash, &best), Ok::<bool, E>(true))
}

/// The forced change at position `k` is the one that the best block enacts:
/// the first candidate on its branch.
pub open spec fn forced_applies<F, E>(f: F, v: Seq<PendingChange<H256>>, best: H256, n: u64, k: int) -> bool where
    F: Fn(&H256, &H256) -> Result<bool, E>,
 {
    &&& forced_candidate(v, n, k)
    &&& on_branch(f, v, best, k)
    &&& forall|i: int| 0 <= i < k && #[trigger] forced_candidate(v, n, i) ==> off_branch(f, v, best, i)
}

/// The scan of forced changes met the lookup error `e` at the candidate `k`.
pub open spec fn forced_scan_failed<F, E>(f: F, v: Seq<PendingChange<H256>>, best: H256, n: u64, k: int, e: E) -> bool where
    F: Fn(&H256, &H256) -> Result<bool, E>,
 {
    &&& forced_candidate(v, n, k)
    &&& v[k].canon_hash != best
    &&& f.ensures((&v[k].canon_hash, &best), Err::<bool, E>(e))
    &&& forall|i: int| 0 <= i < k && #[trigger] forced_candidate(v, n, i) ==> off_branch(f, v, best, i)
}

/// The median last finalized block of a forced change.
pub open spec fn median_of(c: PendingChange<H256>) -> u64 {
    match c.delay_kind {
        DelayKind::Best { median_last_finalized } => median_last_finalized,
        DelayKind::Finalized => 0,
    }
}

/// The root at position `j` does not hold back a forced change announced at
/// `hash` with median `m`: it takes effect after `m`, or the lookup answered
/// that `hash` does not descend from its block.
pub open spec fn root_clear<F, E>(f: F, roots: Seq<TreeEntry>, hash: H256, m: u64, j: int) -> bool where
    F: Fn(&H256, &H256) -> Result<bool, E>,
 {
    entry_effective(roots[j]) <= m ==> f.ensures((&roots[j].2, &hash), Ok::<bool, E>(false))
}

/// The root at position `j` is the first that holds the forced change back.
pub open spec fn root_blocks<F, E>(f: F, roots: Seq<TreeEntry>, hash: H256, m: u64, j: int) -> bool where
    F: Fn(&H256, &H256) -> Result<bool, E>,
 {
    &&& 0 <= j < roots.len()
    &&& forall|q: int| 0 <= q < j ==> #[trigger] root_clear(f, roots, hash, m, q)
    &&& entry_effective(roots[j]) <= m
    &&& f.ensures((&roots[j].2, &hash), Ok::<bool, E>(true))
}

/// The scan of the roots met the lookup error `e` at position `j`.
pub open spec fn root_scan_failed<F, E>(f: F, roots: Seq<TreeEntry>, hash: H256, m: u64, j: int, e: E) -> bool where
    F: Fn(&H256, &H256) -> Result<bool, E>,
 {
    &&& 0 <= j < roots.len()
    &&& forall|q: int| 0 <= q < j ==> #[trigger] root_clear(f, roots, hash, m, q)
    &&& entry_effective(roots[j]) <= m
    &&& f.ensures((&roots[j].2, &hash), Err::<bool, E>(e))
}

/// What applying a changed tree of standard changes does to the set `a`
/// (`b` after it), with the change `change` enacted, if any.
pub open spec fn finalization_applied<F, E>(
    f: F,
    a: AuthoritySet,
    b: AuthoritySet,
    change: Option<PendingChange<H256>>,
    hash: H256,
    n: u64,
    r: Result<Status, Error<E>>,
) -> bool where F: Fn(&H256, &H256) -> Result<bool, E> {
    let v = a.forced();
    match r {
        Ok(st) => {
            &&& st.changed
            &&& exists|ans: Seq<bool>| #[trigger] answered_keep(f, hash, v, ans, n) && ans.len() == v.len()
                && b.forced() == kept_forced(v, ans, n)
            &&& match change {
                Some(c) => {
                    &&& b.current_authorities == c.next_authorities
                    &&& b.set_id == a.set_id + 1
                    &&& b.authority_set_changes.spec_changes() == a.authority_set_changes.spec_changes().push((a.set_id, n))
                    &&& st.new_set_block == Some((hash, n))
                },
                None => {
                    &&& b.current_authorities == a.current_authorities
                    &&& b.set_id == a.set_id
                    &&& b.authority_set_changes == a.authority_set_changes
                    &&& st.new_set_block is None
                },
            }
        },
        Err(Error::Client(e)) => {
            &&& b.current_authorities == a.current_authorities
            &&& b.set_id == a.set_id
            &&& b.authority_set_changes == a.authority_set_changes
            &&& exists|ans: Seq<bool>| #[trigger] answered_keep(f, hash, v, ans, n) && ans.len() < v.len()
                && effective(v[ans.len() as int]) > n
                && f.ensures((&hash, &v[ans.len() as int].canon_hash), Err::<bool, E>(e))
                && b.forced() == kept_forced(v.subrange(0, ans.len() as int), ans, n)
        },
        Err(_) => false,
    }
}

/// Nodes taken from a tree whose changes all have authorities have
/// authorities.
proof fn lemma_nodes_subset_nonempty(a: Multiset<TreeEntry>, b: Multiset<TreeEntry>)
    requires
        b.subset_of(a),
        forall|e: TreeEntry| #[trigger] a.contains(e) ==> e.5 > 0,
    ensures
        forall|e: TreeEntry| #[trigger] b.contains(e) ==> e.5 > 0,
{
    assert forall|e: TreeEntry| #[trigger] b.contains(e) implies e.5 > 0 by {
        assert(b.count(e) <= a.count(e));
        assert(a.contains(e));
    }
}

/// The forced changes kept after block `n` is finalized take effect after it.
proof fn lemma_kept_forced_later(v: Seq<PendingChange<H256>>, ans: Seq<bool>, n: u64)
    ensures
        forall|i: int| 0 <= i < kept_forced(v, ans, n).len() ==> effective(#[trigger] kept_forced(v, ans, n)[i]) > n,
    decreases v.len(),
{
    if v.len() > 0 {
        lemma_kept_forced_later(v.drop_last(), ans, n);
        let rest = kept_forced(v.drop_last(), ans, n);
        let k = kept_forced(v, ans, n);
        let last = v.len() - 1;
        if effective(v[last]) > n && ans[last] {
            assert(k == rest.push(v[last]));
            assert forall|i: int| 0 <= i < k.len() implies effective(#[trigger] k[i]) > n by {
                if i < rest.len() {
                    assert(k[i] == rest[i]);
                }
            }
        } else {
            assert(k == rest);
        }
    }
}

/// The kept forced changes of a prefix depend only on the answers for it.
proof fn lemma_kept_forced_prefix(v: Seq<PendingChange<H256>>, ans: Seq<bool>, shorter: Seq<bool>, n: u64)
    requires
        shorter.len() >= v.len(),
        ans.len() >= shorter.len(),
        forall|i: int| 0 <= i < shorter.len() ==> ans[i] == shorter[i],
    ensures
        kept_forced(v, ans, n) == kept_forced(v, shorter, n),
    decreases v.len(),
{
    if v.len() > 0 {
        lemma_kept_forced_prefix(v.drop_last(), ans, shorter, n);
    }
}

/// A copy of an authority list.
pub(crate) fn copy_authorities(v: &AuthorityList) -> (r: AuthorityList)
    ensures
        r@ == v@,
{
    let mut out: AuthorityList = Vec::new();
    let mut i: usize = 0;
    while i < v.len()
        invariant
            i <= v@.len(),
            out@ == v@.subrange(0, i as int),
        decreases v@.len() - i,
    {
        out.push(v[i]);
        i += 1;
        assert(out@ =~= v@.subrange(0, i as int));
    }
    assert(out@ =~= v@);
    out
}

/// The next change is the earlier of the two found: when a forced change
/// and a standard root are both found on the chain, the result is one of
/// them, announced at the lower height, the standard one on a tie; when only
/// one is found, it is the result.
pub proof fn lemma_earliest_change(forced: Option<(H256, u64)>, standard: Option<(H256, u64)>)
    ensures
        (forced is None && standard is None) <==> earliest(forced, standard) is None,
        forced is Some && standard is None ==> earliest(forced, standard) == forced,
        forced is None && standard is Some ==> earliest(forced, standard) == standard,
        forced is Some && standard is Some ==> {
            let r = earliest(forced, standard)->Some_0;
            let f = forced->Some_0;
            let s = standard->Some_0;
            &&& earliest(forced, standard) is Some
            &&& r == f || r == s
            &&& r.1 <= f.1 && r.1 <= s.1
            &&& f.1 == s.1 ==> r == s
        },
{
}

/// The forced changes before position `k` all let `pending` be added.
pub open spec fn clear_before<F, E>(
    f: F,
    v: Seq<PendingChange<H256>>,
    pending: PendingChange<H256>,
    k: int,
) -> bool where F: Fn(&H256, &H256) -> Result<bool, E> {
    forall|j: int| 0 <= j < k ==> forced_clear(f, v, pending, j)
}

/// Whether position `idx` is a place for `c` in `v`: what comes before it is
/// no later than `c`, and `c` is no later than what comes after it.
pub open spec fn placed(v: Seq<PendingChange<H256>>, c: PendingChange<H256>, idx: int) -> bool {
    &&& 0 <= idx <= v.len()
    &&& forall|i: int| 0 <= i < idx ==> key_le(v[i], c)
    &&& forall|i: int| idx <= i < v.len() ==> key_le(c, v[i])
}

/// Whether `a` comes strictly before `b` in the order of forced changes.
pub open spec fn key_lt(a: PendingChange<H256>, b: PendingChange<H256>) -> bool {
    effective(a) < effective(b) || (effective(a) == effective(b) && a.canon_height < b.canon_height)
}

/// Inserting a forced change keeps the forced changes forced, and in order
/// where it is put in its place.
proof fn lemma_insert_keeps(v: Seq<PendingChange<H256>>, c: PendingChange<H256>, idx: int)
    requires
        0 <= idx <= v.len(),
        c.delay_kind is Best,
        forced_sorted(v) ==> placed(v, c, idx),
    ensures
        all_best(v) ==> all_best(v.insert(idx, c)),
        forced_nonempty(v) && c.next_authorities@.len() > 0 ==> forced_nonempty(v.insert(idx, c)),
        forced_sorted(v) ==> forced_sorted(v.insert(idx, c)),
{
    let w = v.insert(idx, c);
    if forced_nonempty(v) && c.next_authorities@.len() > 0 {
        assert forall|i: int| 0 <= i < w.len() implies (#[trigger] w[i]).next_authorities@.len() > 0 by {
            if i < idx {
                assert(w[i] == v[i]);
            } else if i > idx {
                assert(w[i] == v[i - 1]);
            }
        }
    }
    if all_best(v) {
        assert forall|i: int| 0 <= i < w.len() implies (#[trigger] w[i]).delay_kind is Best by {
            if i < idx {
                assert(w[i] == v[i]);
            } else if i > idx {
                assert(w[i] == v[i - 1]);
            }
        }
    }
    if forced_sorted(v) {
        assert forall|i: int, j: int| 0 <= i < j < w.len() implies key_le(w[i], w[j]) by {
            if j < idx {
            } else if j == idx {
            } else if i < idx {
                assert(w[j] == v[j - 1]);
            } else if i == idx {
                assert(w[j] == v[j - 1]);
            } else {
                assert(w[i] == v[i - 1]);
                assert(w[j] == v[j - 1]);
            }
        }
    }
}

/// The key of a change in the order of forced changes, compared exactly.
fn change_key(c: &PendingChange<H256>) -> (r: (u128, u64))
    ensures
        r.0 == effective(*c),
        r.1 == c.canon_height,
{
    (c.canon_height as u128 + c.delay as u128, c.canon_height)
}

/// The first position of a sorted list of forced changes whose change comes no
/// earlier than `c`.
fn forced_position(v: &Vec<PendingChange<H256>>, c: &PendingChange<H256>) -> (r: usize)
    ensures
        r <= v@.len(),
        forced_sorted(v@) ==> placed(v@, *c, r as int),
{
    let key = change_key(c);
    let mut lo: usize = 0;
    let mut hi: usize = v.len();
    while lo < hi
        invariant
            lo <= hi <= v@.len(),
            key.0 == effective(*c),
            key.1 == c.canon_height,
            forced_sorted(v@) ==> forall|i: int| 0 <= i < lo ==> key_lt(v@[i], *c),
            forced_sorted(v@) ==> forall|i: int| hi <= i < v@.len() ==> key_le(*c, v@[i]),
        decreases hi - lo,
    {
        let mid = lo + (hi - lo) / 2;
        let k = change_key(&v[mid]);
        if k.0 < key.0 || (k.0 == key.0 && k.1 < key.1) {
            proof {
                if forced_sorted(v@) {
                    assert forall|i: int| 0 <= i < mid + 1 implies key_lt(v@[i], *c) by {
                        if i < mid {
                            assert(key_le(v@[i], v@[mid as int]));
                        }
                    }
                }
            }
            lo = mid + 1;
        } else {
            proof {
                if forced_sorted(v@) {
                    assert forall|i: int| mid <= i < v@.len() implies key_le(*c, v@[i]) by {
                        if i > mid {
                            assert(key_le(v@[mid as int], v@[i]));
                        }
                    }
                }
            }
            hi = mid;
        }
    }
    lo
}

} // verus!

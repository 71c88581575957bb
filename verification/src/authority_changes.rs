//! Authority set changes of the Tendermint finality gadget: pending changes,
//! their kinds, and the history of the blocks at which each set ended.
use crate::primitives::AuthorityId;
use vstd::prelude::*;
use vstd::std_specs::convert::FromSpecImpl;

verus! {

/// The authorities of a set, in order.
pub type AuthorityList = Vec<AuthorityId>;

/// Identifier of an authority set; it grows by one at each change.
pub type SetId = u64;

/// Kinds of delays for pending changes.
#[derive(Debug, Clone, PartialEq)]
pub enum DelayKind<N> {
    /// Depth in finalized chain.
    Finalized,
    /// Depth in best chain. The median last finalized block is calculated at
    /// the time the change was signaled.
    Best { median_last_finalized: N },
}

/// A pending change to the authority set, applied when the announcing block
/// is at some depth within the finalized or unfinalized chain.
#[derive(Debug, Clone, PartialEq)]
pub struct PendingChange<H> {
    /// The new authorities and weights to apply.
    pub next_authorities: AuthorityList,
    /// How deep in the chain the announcing block must be before the change is
    /// applied.
    pub delay: u64,
    /// The announcing block's height.
    pub canon_height: u64,
    /// The announcing block's hash.
    pub canon_hash: H,
    /// The delay kind.
    pub delay_kind: DelayKind<u64>,
}

impl<H> PendingChange<H> {
    /// The block number at which the change applies.
    pub fn effective_number(&self) -> (r: u64)
        requires
            self.canon_height + self.delay <= u64::MAX,
        ensures
            r == self.canon_height + self.delay,
    {
        self.canon_height + self.delay
    }
}

/// The set a block belongs to.
#[derive(Debug, PartialEq, Eq, Structural)]
pub enum AuthoritySetChangeId {
    /// The requested block is in the latest set.
    Latest,
    /// The set id and the last block number of that set.
    SetAt(SetId, u64),
    /// The set of the block is not known (data is missing).
    Unknown,
}

/// The block numbers of the last block of each past authority set, with the
/// set id, in increasing order.
#[derive(Debug, PartialEq)]
pub struct AuthoritySetChanges(Vec<(SetId, u64)>);

/// Block numbers strictly increase along the history.
pub open spec fn increasing_numbers(changes: Seq<(SetId, u64)>) -> bool {
    forall|i: int, j: int| 0 <= i < j < changes.len() ==> changes[i].1 < changes[j].1
}

/// Whether `i` is the first position whose block number is at least `n`
/// (the length when there is none).
pub open spec fn is_lower_bound(changes: Seq<(SetId, u64)>, n: u64, i: int) -> bool {
    &&& 0 <= i <= changes.len()
    &&& forall|j: int| 0 <= j < i ==> changes[j].1 < n
    &&& i == changes.len() || changes[i].1 >= n
}

/// Whether `i` is the first position whose block number is above `n` (the
/// length when there is none).
pub open spec fn is_upper_bound(changes: Seq<(SetId, u64)>, n: u64, i: int) -> bool {
    &&& 0 <= i <= changes.len()
    &&& forall|j: int| 0 <= j < i ==> changes[j].1 <= n
    &&& i == changes.len() || changes[i].1 > n
}

/// The first position whose block number is at least `n`.
pub open spec fn lower_bound(changes: Seq<(SetId, u64)>, n: u64) -> int {
    choose|i: int| is_lower_bound(changes, n, i)
}

/// The first position whose block number is above `n`.
pub open spec fn upper_bound(changes: Seq<(SetId, u64)>, n: u64) -> int {
    choose|i: int| is_upper_bound(changes, n, i)
}

/// The set a block of number `n` belongs to, given the history.
pub open spec fn set_id_of(changes: Seq<(SetId, u64)>, n: u64) -> AuthoritySetChangeId {
    if changes.len() > 0 && changes.last().1 < n {
        AuthoritySetChangeId::Latest
    } else {
        let idx = lower_bound(changes, n);
        if idx < changes.len() {
            if idx == 0 && changes[0].0 != 0 {
                AuthoritySetChangeId::Unknown
            } else {
                AuthoritySetChangeId::SetAt(changes[idx].0, changes[idx].1)
            }
        } else {
            AuthoritySetChangeId::Unknown
        }
    }
}

/// The first position whose block number is at least `n`, in an increasing
/// history.
fn search_lower(changes: &Vec<(SetId, u64)>, n: u64) -> (r: usize)
    requires
        increasing_numbers(changes@),
    ensures
        r <= changes@.len(),
        forall|j: int| 0 <= j < r ==> changes@[j].1 < n,
        r == changes@.len() || changes@[r as int].1 >= n,
        r == lower_bound(changes@, n),
{
    let mut lo: usize = 0;
    let mut hi: usize = changes.len();
    while lo < hi
        invariant
            lo <= hi <= changes@.len(),
            increasing_numbers(changes@),
            forall|j: int| 0 <= j < lo ==> changes@[j].1 < n,
            forall|j: int| hi <= j < changes@.len() ==> changes@[j].1 >= n,
        decreases hi - lo,
    {
        let mid = lo + (hi - lo) / 2;
        if changes[mid].1 < n {
            lo = mid + 1;
        } else {
            hi = mid;
        }
    }
    proof {
        lemma_bound_unique(changes@, n, lo as int, false);
    }
    lo
}

/// The first position whose block number is above `n`, in an increasing
/// history.
fn search_upper(changes: &Vec<(SetId, u64)>, n: u64) -> (r: usize)
    requires
        increasing_numbers(changes@),
    ensures
        r <= changes@.len(),
        forall|j: int| 0 <= j < r ==> changes@[j].1 <= n,
        r == changes@.len() || changes@[r as int].1 > n,
        r == upper_bound(changes@, n),
{
    let mut lo: usize = 0;
    let mut hi: usize = changes.len();
    while lo < hi
        invariant
            lo <= hi <= changes@.len(),
            increasing_numbers(changes@),
            forall|j: int| 0 <= j < lo ==> changes@[j].1 <= n,
            forall|j: int| hi <= j < changes@.len() ==> changes@[j].1 > n,
        decreases hi - lo,
    {
        let mid = lo + (hi - lo) / 2;
        if changes[mid].1 <= n {
            lo = mid + 1;
        } else {
            hi = mid;
        }
    }
    proof {
        lemma_bound_unique(changes@, n, lo as int, true);
    }
    lo
}

/// The bounds are unique: a position meeting the definition is the bound.
proof fn lemma_bound_unique(changes: Seq<(SetId, u64)>, n: u64, i: int, upper: bool)
    requires
        !upper ==> is_lower_bound(changes, n, i),
        upper ==> is_upper_bound(changes, n, i),
    ensures
        !upper ==> lower_bound(changes, n) == i,
        upper ==> upper_bound(changes, n) == i,
{
    if !upper {
        let k = lower_bound(changes, n);
        assert(is_lower_bound(changes, n, k));
        if k < i {
            assert(changes[k].1 < n);
        } else if k > i {
            assert(changes[i].1 < n);
        }
    } else {
        let k = upper_bound(changes, n);
        assert(is_upper_bound(changes, n, k));
        if k < i {
            assert(changes[k].1 <= n);
        } else if k > i {
            assert(changes[i].1 <= n);
        }
    }
}

impl AuthoritySetChanges {
    /// The recorded (set id, last block number) pairs, in order.
    pub closed spec fn spec_changes(&self) -> Seq<(SetId, u64)> {
        self.0@
    }

    /// Block numbers strictly increase along the history.
    pub open spec fn wf(&self) -> bool {
        increasing_numbers(self.spec_changes())
    }

    /// No change recorded.
    pub fn empty() -> (r: Self)
        ensures
            r.spec_changes() == Seq::<(SetId, u64)>::empty(),
            r.wf(),
    {
        AuthoritySetChanges(Vec::new())
    }

    /// Records that set `set_id` ended at block `block_number`.
    pub fn append(&mut self, set_id: SetId, block_number: u64)
        ensures
            final(self).spec_changes() == old(self).spec_changes().push((set_id, block_number)),
            old(self).wf() && (old(self).spec_changes().len() == 0 || old(self).spec_changes().last().1 < block_number) ==> final(self).wf(),
    {
        self.0.push((set_id, block_number));
    }

    /// The set a block belongs to: the latest set after the last recorded
    /// change, otherwise the first set that ended at or after the block.
    pub fn get_set_id(&self, block_number: u64) -> (r: AuthoritySetChangeId)
        requires
            self.wf(),
        ensures
            r == set_id_of(self.spec_changes(), block_number),
    {
        let len = self.0.len();
        if len > 0 && self.0[len - 1].1 < block_number {
            return AuthoritySetChangeId::Latest;
        }
        let idx = search_lower(&self.0, block_number);
        if idx < len {
            let (set_id, number) = self.0[idx];
            if idx == 0 && set_id != 0 {
                return AuthoritySetChangeId::Unknown;
            }
            AuthoritySetChangeId::SetAt(set_id, number)
        } else {
            AuthoritySetChangeId::Unknown
        }
    }

    /// Records the end of a set at `block_number`, in its place in the
    /// history: its set id follows the one before it (0 at the front).
    pub fn insert(&mut self, block_number: u64)
        requires
            old(self).wf(),
            ({
                let c = old(self).spec_changes();
                let idx = lower_bound(c, block_number);
                let set_id = if idx == 0 {
                    0
                } else {
                    c[idx - 1].0 + 1
                };
                &&& idx > 0 ==> c[idx - 1].0 < u64::MAX
                &&& idx == c.len() || c[idx].0 != set_id
            }),
        ensures
            ({
                let c = old(self).spec_changes();
                let idx = lower_bound(c, block_number);
                let set_id = if idx == 0 {
                    0
                } else {
                    (c[idx - 1].0 + 1) as u64
                };
                &&& final(self).spec_changes() == c.insert(idx, (set_id, block_number))
                &&& !c.map_values(|e: (SetId, u64)| e.1).contains(block_number) ==> final(self).wf()
            }),
    {
        let idx = search_lower(&self.0, block_number);
        let set_id: u64 = if idx == 0 {
            0
        } else {
            self.0[idx - 1].0 + 1
        };
        let ghost c = self.0@;
        self.0.insert(idx, (set_id, block_number));
        proof {
            if !c.map_values(|e: (SetId, u64)| e.1).contains(block_number) {
                if idx < c.len() {
                    assert(c.map_values(|e: (SetId, u64)| e.1)[idx as int] == c[idx as int].1);
                }
                assert forall|i: int, j: int|
                    0 <= i < j < self.0@.len() implies self.0@[i].1 < self.0@[j].1 by {
                    if j < idx {
                    } else if j == idx {
                    } else if i < idx {
                        assert(self.0@[j] == c[j - 1]);
                    } else if i == idx {
                        assert(self.0@[j] == c[j - 1]);
                    } else {
                        assert(self.0@[i] == c[i - 1]);
                        assert(self.0@[j] == c[j - 1]);
                    }
                }
            }
        }
    }

    /// The recorded changes after block `block_number` (excluded); `None`
    /// when the first of them is the end of a set other than the first one
    /// (data is missing).
    pub fn iter_from(&self, block_number: u64) -> (r: Option<Vec<(SetId, u64)>>)
        requires
            self.wf(),
        ensures
            ({
                let c = self.spec_changes();
                let idx = upper_bound(c, block_number);
                &&& (idx == 0 && idx < c.len() && c[0].0 != 0) ==> r is None
                &&& !(idx == 0 && idx < c.len() && c[0].0 != 0) ==> r is Some && r->Some_0@
                    == c.subrange(idx, c.len() as int)
            }),
    {
        let idx = search_upper(&self.0, block_number);
        if idx < self.0.len() {
            let (set_id, _) = self.0[idx];
            if idx == 0 && set_id != 0 {
                return None;
            }
        }
        let mut out: Vec<(SetId, u64)> = Vec::new();
        let mut i: usize = idx;
        while i < self.0.len()
            invariant
                idx <= i <= self.0@.len(),
                out@ == self.0@.subrange(idx as int, i as int),
            decreases self.0@.len() - i,
        {
            out.push(self.0[i]);
            i += 1;
            assert(out@ =~= self.0@.subrange(idx as int, i as int));
        }
        Some(out)
    }
}

impl Clone for AuthoritySetChanges {
    fn clone(&self) -> (r: Self)
        ensures
            r.spec_changes() == self.spec_changes(),
    {
        let mut out: Vec<(SetId, u64)> = Vec::new();
        let mut i: usize = 0;
        while i < self.0.len()
            invariant
                i <= self.0@.len(),
                out@ == self.0@.subrange(0, i as int),
            decreases self.0@.len() - i,
        {
            out.push(self.0[i]);
            i += 1;
            assert(out@ =~= self.0@.subrange(0, i as int));
        }
        assert(out@ =~= self.0@);
        AuthoritySetChanges(out)
    }
}

impl From<Vec<(SetId, u64)>> for AuthoritySetChanges {
    fn from(changes: Vec<(SetId, u64)>) -> (r: AuthoritySetChanges)
        ensures
            r.spec_changes() == changes@,
    {
        AuthoritySetChanges(changes)
    }
}

impl FromSpecImpl<Vec<(SetId, u64)>> for AuthoritySetChanges {
    open spec fn obeys_from_spec() -> bool {
        true
    }

    closed spec fn from_spec(changes: Vec<(SetId, u64)>) -> Self {
        AuthoritySetChanges(changes)
    }
}

/// What a lookup gives back of the history: the set of a recorded block
/// number is the set recorded with it, unless it is the first record and not
/// of the first set; a block after the last record is in the latest set.
pub proof fn lemma_set_id_of_recorded(changes: Seq<(SetId, u64)>, i: int, n: u64)
    requires
        increasing_numbers(changes),
        0 <= i < changes.len(),
    ensures
        (i > 0 || changes[0].0 == 0) ==> set_id_of(changes, changes[i].1) == AuthoritySetChangeId::SetAt(
            changes[i].0,
            changes[i].1,
        ),
        changes.last().1 < n ==> set_id_of(changes, n) == AuthoritySetChangeId::Latest,
{
    lemma_bound_unique(changes, changes[i].1, i, false);
}

} // verus!

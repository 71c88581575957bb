//! A blockchain held in memory, for driving Tendermint voters in tests: blocks
//! with their height and parent, and the last finalized block.
use std::collections::BTreeMap;
use vstd::prelude::*;
use vstd::std_specs::iter::IteratorSpec;

verus! {

/// Hash of a test block.
pub type BlockHash = u64;

/// Height of a test block.
pub type ChainNumber = u64;

/// The hash of the genesis block.
pub const GENESIS_HASH: BlockHash = 0;

/// The hash standing for "no block" (the parent of the genesis block).
pub const NULL_HASH: BlockHash = 0xffff_ffff_ffff_ffff;

#[derive(Clone, Copy)]
struct BlockRecord {
    /// Block height.
    number: ChainNumber,
    /// Parent hash.
    parent: BlockHash,
}

/// A blockchain structure.
pub struct DummyChain {
    inner: BTreeMap<BlockHash, BlockRecord>,
    finalized: (ChainNumber, BlockHash),
}

/// The blocks of `m` after pushing `blocks` in order, each on top of the one
/// before it and the first on top of `parent`.
pub open spec fn push_chain(
    m: Map<BlockHash, (ChainNumber, BlockHash)>,
    parent: BlockHash,
    blocks: Seq<BlockHash>,
) -> Map<BlockHash, (ChainNumber, BlockHash)>
    decreases blocks.len(),
{
    if blocks.len() == 0 {
        m
    } else {
        let before = push_chain(m, parent, blocks.drop_last());
        let p = if blocks.len() == 1 {
            parent
        } else {
            blocks[blocks.len() - 2]
        };
        before.insert(blocks.last(), (((before[p].0 + 1) as u64), p))
    }
}

/// Pushing a chain of distinct new blocks on top of a known `parent`: the
/// `i`-th block gets the height of `parent` plus `i + 1` and, as its parent,
/// the block before it (`parent` for the first); every other block is left
/// as it was.
pub proof fn lemma_push_chain_heights(
    m: Map<BlockHash, (ChainNumber, BlockHash)>,
    parent: BlockHash,
    blocks: Seq<BlockHash>,
)
    requires
        m.contains_key(parent),
        m[parent].0 + blocks.len() <= u64::MAX,
        blocks.no_duplicates(),
        !blocks.contains(parent),
    ensures
        forall|i: int| 0 <= i < blocks.len() ==> {
            &&& #[trigger] push_chain(m, parent, blocks).contains_key(blocks[i])
            &&& push_chain(m, parent, blocks)[blocks[i]] == (
                (m[parent].0 + i + 1) as u64,
                if i == 0 {
                    parent
                } else {
                    blocks[i - 1]
                },
            )
        },
        forall|k: BlockHash| !blocks.contains(k) ==> {
            &&& #[trigger] push_chain(m, parent, blocks).contains_key(k) == m.contains_key(k)
            &&& m.contains_key(k) ==> push_chain(m, parent, blocks)[k] == m[k]
        },
    decreases blocks.len(),
{
    if blocks.len() > 0 {
        let b = blocks.drop_last();
        let last = blocks.last();
        assert forall|x: BlockHash| b.contains(x) implies blocks.contains(x) by {
            let j = choose|j: int| 0 <= j < b.len() && b[j] == x;
            assert(blocks[j] == x);
        }
        assert(b.no_duplicates()) by {
            assert forall|i: int, j: int| 0 <= i < b.len() && 0 <= j < b.len() && i != j implies b[i] != b[j] by {
                assert(b[i] == blocks[i] && b[j] == blocks[j]);
            }
        }
        lemma_push_chain_heights(m, parent, b);
        assert(!b.contains(last)) by {
            if b.contains(last) {
                let j = choose|j: int| 0 <= j < b.len() && b[j] == last;
                assert(blocks[j] == blocks[blocks.len() - 1]);
            }
        }
        let before = push_chain(m, parent, b);
        assert forall|i: int| 0 <= i < blocks.len() implies {
            &&& #[trigger] push_chain(m, parent, blocks).contains_key(blocks[i])
            &&& push_chain(m, parent, blocks)[blocks[i]] == (
                (m[parent].0 + i + 1) as u64,
                if i == 0 {
                    parent
                } else {
                    blocks[i - 1]
                },
            )
        } by {
            if i < blocks.len() - 1 {
                assert(blocks[i] == b[i]);
                assert(before.contains_key(b[i]));
                assert(blocks[i] != last);
                if i > 0 {
                    assert(blocks[i - 1] == b[i - 1]);
                }
            } else if blocks.len() > 1 {
                let p = blocks[blocks.len() - 2];
                assert(b[b.len() - 1] == p);
                assert(before.contains_key(b[b.len() - 1]));
                assert(before[p].0 == m[parent].0 + b.len());
            } else {
                assert(!b.contains(parent));
                assert(before[parent] == m[parent]);
            }
        }
        assert forall|k: BlockHash| !blocks.contains(k) implies {
            &&& #[trigger] push_chain(m, parent, blocks).contains_key(k) == m.contains_key(k)
            &&& m.contains_key(k) ==> push_chain(m, parent, blocks)[k] == m[k]
        } by {
            assert(!b.contains(k));
            assert(k != last);
        }
    }
}

impl DummyChain {
    /// Each block as its height and parent.
    pub closed spec fn spec_blocks(&self) -> Map<BlockHash, (ChainNumber, BlockHash)> {
        Map::new(
            |h: BlockHash| self.inner@.contains_key(h),
            |h: BlockHash| (self.inner@[h].number, self.inner@[h].parent),
        )
    }

    /// The last finalized block, as its height and hash.
    pub closed spec fn spec_finalized(&self) -> (ChainNumber, BlockHash) {
        self.finalized
    }

    /// A chain with the genesis block only, which is finalized.
    pub fn new() -> (r: Self)
        ensures
            r.spec_blocks() == map![GENESIS_HASH => (0u64, NULL_HASH)],
            r.spec_finalized() == (0u64, GENESIS_HASH),
    {
        let mut inner: BTreeMap<BlockHash, BlockRecord> = BTreeMap::new();
        inner.insert(GENESIS_HASH, BlockRecord { number: 0, parent: NULL_HASH });
        let r = DummyChain { inner, finalized: (0, GENESIS_HASH) };
        assert(r.spec_blocks() =~= map![GENESIS_HASH => (0u64, NULL_HASH)]);
        r
    }

    /// Adds a chain of blocks on top of `parent`, each on top of the one
    /// before it (nothing at all for no blocks, whatever `parent` is).
    pub fn push_blocks(&mut self, parent: BlockHash, blocks: &[BlockHash])
        requires
            blocks@.len() > 0 ==> old(self).spec_blocks().contains_key(parent),
            blocks@.len() > 0 ==> old(self).spec_blocks()[parent].0 + blocks@.len() <= u64::MAX,
        ensures
            final(self).spec_blocks() == push_chain(old(self).spec_blocks(), parent, blocks@),
            final(self).spec_finalized() == old(self).spec_finalized(),
            blocks@.len() == 0 ==> *final(self) == *old(self),
    {
        if blocks.len() == 0 {
            assert(push_chain(self.spec_blocks(), parent, blocks@) == self.spec_blocks());
            return;
        }
        let mut cur = parent;
        let mut i: usize = 0;
        while i < blocks.len()
            invariant
                i <= blocks@.len(),
                self.spec_blocks() == push_chain(
                    old(self).spec_blocks(),
                    parent,
                    blocks@.subrange(0, i as int),
                ),
                self.spec_finalized() == old(self).spec_finalized(),
                cur == (if i == 0 {
                    parent
                } else {
                    blocks@[i - 1]
                }),
                self.spec_blocks().contains_key(cur),
                self.spec_blocks()[cur].0 == old(self).spec_blocks()[parent].0 + i,
                old(self).spec_blocks()[parent].0 + blocks@.len() <= u64::MAX,
            decreases blocks@.len() - i,
        {
            let b = blocks[i];
            proof {
                let s = blocks@.subrange(0, i + 1);
                assert(s.drop_last() =~= blocks@.subrange(0, i as int));
                assert(s.last() == b);
                if i > 0 {
                    assert(s[s.len() - 2] == blocks@[i - 1]);
                }
            }
            self.push_block(cur, b);
            cur = b;
            i += 1;
        }
        assert(blocks@.subrange(0, blocks@.len() as int) =~= blocks@);
    }

    /// Adds a block on top of `parent`.
    pub fn push_block(&mut self, parent: BlockHash, block: BlockHash)
        requires
            old(self).spec_blocks().contains_key(parent),
            old(self).spec_blocks()[parent].0 < u64::MAX,
        ensures
            final(self).spec_blocks() == old(self).spec_blocks().insert(
                block,
                (((old(self).spec_blocks()[parent].0 + 1) as u64), parent),
            ),
            final(self).spec_finalized() == old(self).spec_finalized(),
    {
        let number = match self.inner.get(&parent) {
            Some(rec) => rec.number + 1,
            None => 0,
        };
        self.inner.insert(block, BlockRecord { number, parent });
        assert(self.spec_blocks() =~= old(self).spec_blocks().insert(
            block,
            (((old(self).spec_blocks()[parent].0 + 1) as u64), parent),
        ));
    }

    /// The last finalized block, as its height and hash.
    pub fn last_finalized(&self) -> (r: (ChainNumber, BlockHash))
        ensures
            r == self.spec_finalized(),
    {
        self.finalized
    }

    /// The block after the last finalized one: of the blocks one above the
    /// finalized height, the one with the greatest hash; `Err` when there is
    /// none.
    pub fn next_to_be_finalized(&self) -> (r: Result<(ChainNumber, BlockHash), ()>)
        requires
            self.spec_finalized().0 < u64::MAX,
        ensures
            ({
                let blocks = self.spec_blocks();
                let next = (self.spec_finalized().0 + 1) as u64;
                match r {
                    Ok((n, h)) => {
                        &&& blocks.contains_key(h)
                        &&& n == next
                        &&& blocks[h].0 == next
                        &&& forall|k: BlockHash|
                            #[trigger] blocks.contains_key(k) && k > h ==> blocks[k].0 != next
                    },
                    Err(()) => forall|k: BlockHash| #[trigger]
                        blocks.contains_key(k) ==> blocks[k].0 != next,
                }
            }),
    {
        let next = self.finalized.0 + 1;
        let mut found: Option<(ChainNumber, BlockHash)> = None;
        let ghost mut found_at: int = -1;
        let keys = self.inner.keys();
        let ghost all = keys.remaining();
        for k in it: keys
            invariant
                next == self.spec_finalized().0 + 1,
                it.seq() == all,
                all.unref().to_set() == self.inner@.dom(),
                all.no_duplicates(),
                vstd::std_specs::btree::increasing_seq(all),
                found is None ==> forall|j: int|
                    0 <= j < it.index() ==> self.inner@[*all[j]].number != next,
                found is Some ==> {
                    &&& 0 <= found_at < it.index()
                    &&& *all[found_at] == found->Some_0.1
                    &&& found->Some_0.0 == next
                    &&& self.inner@[*all[found_at]].number == next
                    &&& forall|j: int|
                        found_at < j < it.index() ==> self.inner@[*all[j]].number != next
                },
        {
            proof {
                assert(all.unref()[it.index() as int] == *k);
                assert(all.unref().to_set().contains(*k));
            }
            let rec = match self.inner.get(k) {
                Some(rec) => *rec,
                None => BlockRecord { number: 0, parent: NULL_HASH },
            };
            if rec.number == next {
                found = Some((rec.number, *k));
                proof {
                    found_at = it.index() as int;
                }
            }
        }
        match found {
            Some(f) => {
                proof {
                    let blocks = self.spec_blocks();
                    assert(all.unref()[found_at] == f.1);
                    assert(all.unref().to_set().contains(f.1));
                    assert(blocks.contains_key(f.1));
                    assert forall|kk: BlockHash|
                        #[trigger] blocks.contains_key(kk) && kk > f.1 implies blocks[kk].0 != next by {
                        assert(all.unref().to_set().contains(kk));
                        let j = choose|j: int| 0 <= j < all.len() && all.unref()[j] == kk;
                        if j < found_at {
                            lemma_increasing_hashes(all, j, found_at);
                        }
                    }
                }
                Ok(f)
            },
            None => {
                proof {
                    let blocks = self.spec_blocks();
                    assert forall|kk: BlockHash| #[trigger] blocks.contains_key(kk) implies blocks[kk].0
                        != next by {
                        assert(all.unref().to_set().contains(kk));
                        let j = choose|j: int| 0 <= j < all.len() && all.unref()[j] == kk;
                        assert(self.inner@[*all[j]].number != next);
                    }
                }
                Err(())
            },
        }
    }

    /// Finalizes a known block, whose parent must be a known block below it
    /// (it panics otherwise). Returns whether the block is known.
    pub fn finalize_block(&mut self, block: BlockHash) -> (r: bool)
        requires
            old(self).spec_blocks().contains_key(block) ==> {
                let b = old(self).spec_blocks()[block];
                &&& old(self).spec_blocks().contains_key(b.1)
                &&& old(self).spec_blocks()[b.1].0 < b.0
            },
        ensures
            r == old(self).spec_blocks().contains_key(block),
            final(self).spec_blocks() == old(self).spec_blocks(),
            r ==> final(self).spec_finalized() == (old(self).spec_blocks()[block].0, block),
            !r ==> final(self).spec_finalized() == old(self).spec_finalized(),
    {
        match self.inner.get(&block) {
            Some(b) => {
                let b = *b;
                self.finalized = (b.number, block);
                true
            },
            None => false,
        }
    }
}

/// In a sequence of hashes in increasing order, earlier hashes are smaller.
proof fn lemma_increasing_hashes(s: Seq<&BlockHash>, i: int, j: int)
    requires
        vstd::std_specs::btree::increasing_seq(s),
        0 <= i < j < s.len(),
    ensures
        *s[i] < *s[j],
{
    assert(vstd::std_specs::cmp::OrdSpec::cmp_spec(&s[i], &s[j]) is Less);
}

} // verus!

use vstd::prelude::*;
use std::collections::BTreeMap;
use vstd::std_specs::iter::IteratorSpec;
use crate::ipc::key_order::{lemma_keys_increase, sorted_keys};

verus! {

/// The cache holds at most this many blocks.
pub const CACHE_SIZE: usize = 256;

/// A cached disk block.
#[derive(Clone, Copy)]
pub struct CachedBlock {
    pub data: [u8; 512],
    pub dirty: bool,
    pub access_count: u64,
}

/// A block to be written to the device: `(block number, contents)`.
pub type WriteBack = (u64, [u8; 512]);

/// Least-recently-used write-back cache of disk blocks. Device transfers are performed by
/// the caller: a miss is reported, evicted dirty blocks and flushes are handed back as
/// blocks to write.
pub struct BlockCache {
    cache: BTreeMap<u64, CachedBlock>,
    access_counter: u64,
}

/// `victim` is the block to evict from `m`: the least recently used one, the lowest block
/// number among equals.
pub open spec fn is_lru_victim(m: Map<u64, CachedBlock>, victim: u64) -> bool {
    &&& m.contains_key(victim)
    &&& forall|k: u64| #[trigger] m.contains_key(k) ==> m[victim].access_count <= m[k].access_count
    &&& forall|k: u64| #[trigger] m.contains_key(k) && k < victim ==> m[victim].access_count < m[k].access_count
}

/// The write-back owed when `victim` leaves `m`: its contents if dirty.
pub open spec fn eviction_write(m: Map<u64, CachedBlock>, victim: u64) -> Option<WriteBack> {
    if m[victim].dirty {
        Some((victim, m[victim].data))
    } else {
        None
    }
}

/// `m` after the blocks numbered in `written` have reached the device: those still cached
/// are clean.
pub open spec fn after_flush(m: Map<u64, CachedBlock>, written: Set<u64>) -> Map<u64, CachedBlock> {
    Map::new(
        |k: u64| m.contains_key(k),
        |k: u64| if written.contains(k) { CachedBlock { dirty: false, ..m[k] } } else { m[k] },
    )
}

/// Flushing writes back everything: once the blocks `dirty_blocks` listed have been
/// written and recorded by `flush`, no cached block is dirty.
pub proof fn lemma_flush_cleans(m: Map<u64, CachedBlock>, written: Seq<WriteBack>)
    requires
        forall|k: u64| #[trigger] m.contains_key(k) && m[k].dirty ==> exists|i: int| 0 <= i < written.len() && written[i].0 == k,
    ensures
        ({
            let after = after_flush(m, Set::new(|k: u64| exists|i: int| 0 <= i < written.len() && written[i].0 == k));
            forall|k: u64| #[trigger] after.contains_key(k) ==> !after[k].dirty
        }),
{
}

/// A read that hits keeps the block's contents and dirty flag (it only refreshes its
/// recency) and keeps the set of cached blocks.
pub proof fn lemma_read_hit_keeps_block(m: Map<u64, CachedBlock>, k: u64, count: u64)
    requires
        m.contains_key(k),
    ensures
        m.insert(k, CachedBlock { access_count: count, ..m[k] })[k].data == m[k].data,
        m.insert(k, CachedBlock { access_count: count, ..m[k] })[k].dirty == m[k].dirty,
        m.insert(k, CachedBlock { access_count: count, ..m[k] }).dom() == m.dom(),
{
    assert(m.insert(k, CachedBlock { access_count: count, ..m[k] }).dom() =~= m.dom());
}

/// A read right after a write is served from the cache: `write` leaves the block cached
/// (as `m`, the blocks after any eviction, with the new block inserted) holding the written
/// data and dirty; the read that follows hits, returns that data, and leaves the block
/// cached and dirty, so that a later flush still writes it back.
pub proof fn lemma_read_after_write(m: Map<u64, CachedBlock>, b: u64, data: [u8; 512], c1: u64, c2: u64)
    ensures
        ({
            let written = m.insert(b, CachedBlock { data, dirty: true, access_count: c1 });
            let after_read = written.insert(b, CachedBlock { access_count: c2, ..written[b] });
            &&& written.contains_key(b)
            &&& written[b].data == data
            &&& after_read.contains_key(b)
            &&& after_read[b].data == data
            &&& after_read[b].dirty
            &&& after_read.dom() == written.dom()
        }),
{
    let written = m.insert(b, CachedBlock { data, dirty: true, access_count: c1 });
    lemma_read_hit_keeps_block(written, b, c2);
}

impl BlockCache {
    pub closed spec fn blocks(&self) -> Map<u64, CachedBlock> {
        self.cache@
    }

    pub closed spec fn counter(&self) -> u64 {
        self.access_counter
    }

    pub closed spec fn wf(&self) -> bool {
        self.cache@.len() <= CACHE_SIZE
    }

    /// A well-formed cache holds at most `CACHE_SIZE` blocks.
    pub proof fn lemma_capacity(&self)
        requires
            self.wf(),
        ensures
            self.blocks().len() <= CACHE_SIZE,
    {
    }

    pub fn new() -> (c: Self)
        ensures
            c.wf(),
            c.blocks() == Map::<u64, CachedBlock>::empty(),
            c.counter() == 0,
    {
        BlockCache { cache: BTreeMap::new(), access_counter: 0 }
    }

    /// Look up `block_num`, counting an access. A hit refreshes the block's recency and
    /// returns its contents; a miss returns `None` and the caller reads the device, then
    /// calls [`BlockCache::fill`].
    pub fn read(&mut self, block_num: u64) -> (r: Option<[u8; 512]>)
        requires
            old(self).wf(),
            old(self).counter() < u64::MAX,
        ensures
            final(self).wf(),
            final(self).counter() == old(self).counter() + 1,
            old(self).blocks().contains_key(block_num) ==> {
                &&& r == Some(old(self).blocks()[block_num].data)
                &&& final(self).blocks() == old(self).blocks().insert(
                    block_num,
                    CachedBlock { access_count: final(self).counter(), ..old(self).blocks()[block_num] },
                )
            },
            !old(self).blocks().contains_key(block_num) ==> r is None && final(self).blocks() == old(self).blocks(),
    {
        broadcast use vstd::std_specs::btree::group_btree_axioms;
        self.access_counter = self.access_counter + 1;
        match self.cache.get(&block_num) {
            Some(cached) => {
                let mut b = *cached;
                b.access_count = self.access_counter;
                self.cache.insert(block_num, b);
                Some(b.data)
            },
            None => None,
        }
    }

    /// Store `data`, just read from the device for a missed `block_num`, as a clean block;
    /// when the cache is full the least recently used block is evicted first, and its
    /// contents are returned if they must be written back.
    pub fn fill(&mut self, block_num: u64, data: [u8; 512]) -> (wb: Option<WriteBack>)
        requires
            old(self).wf(),
        ensures
            final(self).wf(),
            final(self).counter() == old(self).counter(),
            ({
                let fresh = CachedBlock { data, dirty: false, access_count: old(self).counter() };
                if old(self).blocks().len() >= CACHE_SIZE {
                    exists|v: u64| {
                        &&& is_lru_victim(old(self).blocks(), v)
                        &&& wb == eviction_write(old(self).blocks(), v)
                        &&& final(self).blocks() == old(self).blocks().remove(v).insert(block_num, fresh)
                    }
                } else {
                    wb is None && final(self).blocks() == old(self).blocks().insert(block_num, fresh)
                }
            }),
    {
        broadcast use vstd::std_specs::btree::group_btree_axioms;
        let mut wb = None;
        if self.cache.len() >= CACHE_SIZE {
            wb = self.evict_one();
        }
        let fresh = CachedBlock { data, dirty: false, access_count: self.access_counter };
        let ghost before = self.cache@;
        self.cache.insert(block_num, fresh);
        proof {
            assert(self.cache@.dom() =~= before.dom().insert(block_num));
        }
        wb
    }

    /// Cache `data` as the new, dirty contents of `block_num`. When the cache is full and
    /// the block is not cached, the least recently used block is evicted first; its
    /// contents are returned if they must be written back.
    pub fn write(&mut self, block_num: u64, data: [u8; 512]) -> (wb: Option<WriteBack>)
        requires
            old(self).wf(),
            old(self).counter() < u64::MAX,
        ensures
            final(self).wf(),
            final(self).counter() == old(self).counter() + 1,
            ({
                let written = CachedBlock { data, dirty: true, access_count: final(self).counter() };
                if old(self).blocks().len() >= CACHE_SIZE && !old(self).blocks().contains_key(block_num) {
                    exists|v: u64| {
                        &&& is_lru_victim(old(self).blocks(), v)
                        &&& wb == eviction_write(old(self).blocks(), v)
                        &&& final(self).blocks() == old(self).blocks().remove(v).insert(block_num, written)
                    }
                } else {
                    wb is None && final(self).blocks() == old(self).blocks().insert(block_num, written)
                }
            }),
    {
        broadcast use vstd::std_specs::btree::group_btree_axioms;
        self.access_counter = self.access_counter + 1;
        let mut wb = None;
        if self.cache.len() >= CACHE_SIZE && !self.cache.contains_key(&block_num) {
            wb = self.evict_one();
        }
        let written = CachedBlock { data, dirty: true, access_count: self.access_counter };
        let ghost before = self.cache@;
        self.cache.insert(block_num, written);
        proof {
            assert(self.cache@.dom() =~= before.dom().insert(block_num));
        }
        wb
    }

    /// The dirty blocks with their contents, in increasing block order: what a flush must
    /// write to the device.
    pub fn dirty_blocks(&self) -> (r: Vec<WriteBack>)
        ensures
            forall|i: int, j: int| 0 <= i < j < r@.len() ==> r@[i].0 < r@[j].0,
            forall|i: int| 0 <= i < r@.len() ==> {
                &&& self.blocks().contains_key(#[trigger] r@[i].0)
                &&& self.blocks()[r@[i].0].dirty
                &&& self.blocks()[r@[i].0].data == r@[i].1
            },
            forall|k: u64| #[trigger] self.blocks().contains_key(k) && self.blocks()[k].dirty
                ==> exists|i: int| 0 <= i < r@.len() && r@[i].0 == k,
    {
        broadcast use vstd::std_specs::btree::group_btree_axioms;
        let keys = sorted_keys(&self.cache);
        let mut r: Vec<WriteBack> = Vec::new();
        let ghost mut pos: Seq<int> = Seq::empty();
        let mut i: usize = 0;
        while i < keys.len()
            invariant
                i <= keys@.len(),
                keys@.to_set() == self.cache@.dom(),
                pos.len() == r@.len(),
                forall|a: int| 0 <= a < r@.len() ==> 0 <= #[trigger] pos[a] < i && keys@[pos[a]] == r@[a].0,
                forall|a: int, b: int| 0 <= a < b < r@.len() ==> pos[a] < pos[b],
                forall|a: int| 0 <= a < r@.len() ==> {
                    &&& self.cache@.contains_key(#[trigger] r@[a].0)
                    &&& self.cache@[r@[a].0].dirty
                    &&& self.cache@[r@[a].0].data == r@[a].1
                },
                forall|x: int| 0 <= x < i && #[trigger] self.cache@[keys@[x]].dirty
                    ==> exists|a: int| 0 <= a < r@.len() && pos[a] == x,
            decreases keys@.len() - i,
        {
            let k = keys[i];
            proof {
                assert(keys@.to_set().contains(k)) by {
                    assert(keys@[i as int] == k);
                }
            }
            match self.cache.get(&k) {
                Some(b) => {
                    if b.dirty {
                        let ghost old_r = r@;
                        let ghost old_pos = pos;
                        r.push((k, b.data));
                        proof {
                            pos = pos.push(i as int);
                            assert(r@[r@.len() - 1] == (k, b.data));
                            assert forall|a: int| 0 <= a < r@.len() implies 0 <= #[trigger] pos[a] < i + 1 && keys@[pos[a]] == r@[a].0 by {
                                if a < old_r.len() {
                                    assert(r@[a] == old_r[a] && pos[a] == old_pos[a]);
                                }
                            }
                            assert forall|a: int| 0 <= a < r@.len() implies {
                                &&& self.cache@.contains_key(#[trigger] r@[a].0)
                                &&& self.cache@[r@[a].0].dirty
                                &&& self.cache@[r@[a].0].data == r@[a].1
                            } by {
                                if a < old_r.len() {
                                    assert(r@[a] == old_r[a]);
                                }
                            }
                            assert forall|x: int| 0 <= x < i + 1 && #[trigger] self.cache@[keys@[x]].dirty
                                implies exists|a: int| 0 <= a < r@.len() && pos[a] == x by {
                                if x < i {
                                    let a = choose|a: int| 0 <= a < old_r.len() && old_pos[a] == x;
                                    assert(pos[a] == old_pos[a]);
                                } else {
                                    assert(pos[pos.len() - 1] == x);
                                }
                            }
                        }
                    }
                },
                None => {},
            }
            i = i + 1;
        }
        proof {
            assert forall|a: int, b: int| 0 <= a < b < r@.len() implies r@[a].0 < r@[b].0 by {
                assert(pos[a] < pos[b]);
            }
            assert forall|k: u64| #[trigger] self.blocks().contains_key(k) && self.blocks()[k].dirty
                implies exists|a: int| 0 <= a < r@.len() && r@[a].0 == k by {
                assert(keys@.to_set().contains(k));
                let x = choose|x: int| 0 <= x < keys@.len() && keys@[x] == k;
                assert(self.cache@[keys@[x]].dirty);
                let a = choose|a: int| 0 <= a < r@.len() && pos[a] == x;
                assert(r@[a].0 == k);
            }
        }
        r
    }

    /// Record that the blocks in `written` have been written to the device: those still
    /// cached become clean. Returns how many blocks were written.
    pub fn flush(&mut self, written: &Vec<WriteBack>) -> (n: usize)
        requires
            old(self).wf(),
        ensures
            final(self).wf(),
            n == written@.len(),
            final(self).counter() == old(self).counter(),
            final(self).blocks() == after_flush(
                old(self).blocks(),
                Set::new(|k: u64| exists|i: int| 0 <= i < written@.len() && written@[i].0 == k),
            ),
    {
        broadcast use vstd::std_specs::btree::group_btree_axioms;
        let ghost m0 = self.cache@;
        let mut i: usize = 0;
        while i < written.len()
            invariant
                i <= written@.len(),
                self.cache@ == after_flush(
                    m0,
                    Set::new(|k: u64| exists|x: int| 0 <= x < i && written@[x].0 == k),
                ),
                m0.len() <= CACHE_SIZE,
                self.access_counter == old(self).access_counter,
            decreases written@.len() - i,
        {
            let num = written[i].0;
            let ghost before = self.cache@;
            let found = match self.cache.get(&num) {
                Some(b) => Some(*b),
                None => None,
            };
            match found {
                Some(b) => {
                    self.cache.insert(num, CachedBlock { dirty: false, ..b });
                },
                None => {},
            }
            proof {
                let s_new = Set::new(|k: u64| exists|x: int| 0 <= x < i + 1 && written@[x].0 == k);
                let s_old = Set::new(|k: u64| exists|x: int| 0 <= x < i && written@[x].0 == k);
                assert forall|k: u64| #[trigger] s_new.contains(k) <==> (s_old.contains(k) || k == num) by {
                    if k == num {
                        assert(written@[i as int].0 == k);
                    }
                    if s_new.contains(k) && k != num {
                        let x = choose|x: int| 0 <= x < i + 1 && written@[x].0 == k;
                        assert(x < i);
                    }
                }
                assert(self.cache@ =~= after_flush(m0, s_new));
            }
            i = i + 1;
        }
        proof {
            assert(self.cache@.dom() =~= m0.dom());
        }
        written.len()
    }

    /// Drop the least recently used block, returning its contents if it was dirty.
    fn evict_one(&mut self) -> (wb: Option<WriteBack>)
        requires
            old(self).blocks().len() > 0,
        ensures
            final(self).counter() == old(self).counter(),
            exists|v: u64| {
                &&& is_lru_victim(old(self).blocks(), v)
                &&& wb == eviction_write(old(self).blocks(), v)
                &&& final(self).blocks() == old(self).blocks().remove(v)
            },
            final(self).blocks().len() + 1 == old(self).blocks().len(),
    {
        broadcast use vstd::std_specs::btree::group_btree_axioms;
        let ghost m = self.cache@;
        let ghost key_seq = vstd::std_specs::btree::spec_keys_iter(&self.cache).remaining();
        let ghost mut seen: Seq<u64> = Seq::empty();
        let mut best: Option<u64> = None;
        let mut best_count: u64 = 0;
        proof {
            assert(vstd::std_specs::btree::increasing_seq(key_seq));
            lemma_keys_increase(key_seq);
        }
        for k in it: self.cache.keys()
            invariant
                self.cache@ == m,
                it.seq().unref().to_set() == m.dom(),
                it.seq() == key_seq,
                seen == it.seq().unref().take(it.index()),
                forall|i: int, j: int| 0 <= i < j < key_seq.len() ==> *key_seq[i] < *key_seq[j],
                m.dom().finite(),
                seen.len() == 0 <==> best is None,
                best matches Some(b) ==> {
                    &&& seen.contains(b)
                    &&& m.contains_key(b)
                    &&& best_count == m[b].access_count
                    &&& forall|x: int| 0 <= x < seen.len() ==> best_count <= #[trigger] m[seen[x]].access_count
                    &&& forall|x: int| 0 <= x < seen.len() && seen[x] < b ==> best_count < #[trigger] m[seen[x]].access_count
                },
        {
            let key: u64 = *k;
            proof {
                assert(it.seq().unref()[it.index()] == key);
                assert(it.seq().unref().to_set().contains(key));
                assert(forall|x: int| 0 <= x < seen.len() ==> seen[x] == *key_seq[x]);
                assert(forall|x: int| 0 <= x < seen.len() ==> #[trigger] seen[x] < key);
            }
            let count = match self.cache.get(&key) {
                Some(cb) => cb.access_count,
                None => 0,
            };
            let ghost old_seen = seen;
            proof {
                seen = seen.push(key);
                assert(seen[seen.len() - 1] == key);
            }
            let take = match best {
                None => true,
                Some(_) => count < best_count,
            };
            if take {
                best = Some(key);
                best_count = count;
                proof {
                    assert(seen.contains(key)) by {
                        assert(seen[seen.len() - 1] == key);
                    }
                    assert forall|x: int| 0 <= x < seen.len() implies best_count <= #[trigger] m[seen[x]].access_count by {
                        if x < old_seen.len() {
                            assert(seen[x] == old_seen[x]);
                        }
                    }
                    assert forall|x: int| 0 <= x < seen.len() && seen[x] < key implies best_count < #[trigger] m[seen[x]].access_count by {
                        assert(x < old_seen.len());
                        assert(seen[x] == old_seen[x]);
                    }
                }
            } else {
                proof {
                    let b = best.unwrap();
                    let xb = choose|x: int| 0 <= x < old_seen.len() && old_seen[x] == b;
                    assert(old_seen[xb] < key);
                    assert(seen.contains(b)) by {
                        assert(seen[xb] == b);
                    }
                    assert forall|x: int| 0 <= x < seen.len() implies best_count <= #[trigger] m[seen[x]].access_count by {
                        if x < old_seen.len() {
                            assert(seen[x] == old_seen[x]);
                        }
                    }
                    assert forall|x: int| 0 <= x < seen.len() && seen[x] < b implies best_count < #[trigger] m[seen[x]].access_count by {
                        if x < old_seen.len() {
                            assert(seen[x] == old_seen[x]);
                        }
                    }
                }
            }
        }
        proof {
            assert(seen =~= key_seq.unref());
            assert(seen.to_set() == m.dom());
            assert(m.dom().len() > 0);
            if seen.len() == 0 {
                assert(seen.to_set() =~= Set::<u64>::empty());
            }
        }
        let v = best.unwrap();
        proof {
            assert forall|k: u64| #[trigger] m.contains_key(k) implies m[v].access_count <= m[k].access_count by {
                assert(seen.to_set().contains(k));
                let x = choose|x: int| 0 <= x < seen.len() && seen[x] == k;
                assert(best_count <= m[seen[x]].access_count);
            }
            assert forall|k: u64| #[trigger] m.contains_key(k) && k < v implies m[v].access_count < m[k].access_count by {
                assert(seen.to_set().contains(k));
                let x = choose|x: int| 0 <= x < seen.len() && seen[x] == k;
                assert(best_count < m[seen[x]].access_count);
            }
        }
        let cb = match self.cache.remove(&v) {
            Some(cb) => cb,
            None => {
                assert(false);
                return None;
            },
        };
        proof {
            assert(self.cache@.dom() =~= m.dom().remove(v));
        }
        if cb.dirty {
            Some((v, cb.data))
        } else {
            None
        }
    }
}

} // verus!

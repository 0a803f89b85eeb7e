use vstd::prelude::*;
use std::collections::BTreeMap;
use vstd::string::StringExecFns;
use super::path_order::{path_lt, path_less, lemma_path_lt_irreflexive, lemma_path_lt_transitive, lemma_path_lt_total};
use crate::capability::resource::{str_eq, str_starts_with};
use crate::ipc::key_order::sorted_keys;
use super::disk_format::{
    sorted_ids, views, superblock, blobs_image, index_image, has_superblock, entries_fit, u64_at, u32_at,
    insert_blobs, insert_hashes, image_blobs, image_entries, overlay_entry, read_blobs, blobs_end,
    read_entries, max_blob_span, entry_fits, superblock_block, push_blob_blocks, index_entry_block,
    has_magic, superblock_fields, lemma_blob_span_bound, read_blob_at, read_entry_at,
};

verus! {

pub type BlobId = u64;

/// A name in the filesystem, pointing at a content-addressed blob.
#[derive(Debug)]
pub struct FileEntry {
    pub path: String,
    pub blob_id: BlobId,
    pub size: u64,
    pub created_tick: u64,
    pub modified_tick: u64,
    pub deleted: bool,
}

pub struct FileEntryView {
    pub path: Seq<char>,
    pub blob_id: BlobId,
    pub size: u64,
    pub created_tick: u64,
    pub modified_tick: u64,
    pub deleted: bool,
}

impl View for FileEntry {
    type V = FileEntryView;

    open spec fn view(&self) -> FileEntryView {
        FileEntryView {
            path: self.path@,
            blob_id: self.blob_id,
            size: self.size,
            created_tick: self.created_tick,
            modified_tick: self.modified_tick,
            deleted: self.deleted,
        }
    }
}

impl Clone for FileEntry {
    fn clone(&self) -> (r: Self)
        ensures
            r == *self,
    {
        FileEntry {
            path: self.path.clone(),
            blob_id: self.blob_id,
            size: self.size,
            created_tick: self.created_tick,
            modified_tick: self.modified_tick,
            deleted: self.deleted,
        }
    }
}

/// Entries in strictly increasing path order (so each path occurs once).
pub open spec fn sorted_by_path(s: Seq<FileEntryView>) -> bool {
    forall|i: int, j: int| 0 <= i < j < s.len() ==> path_lt(s[i].path, s[j].path)
}

/// The entry for path `p` in `s`, if any.
pub open spec fn entry_for(s: Seq<FileEntryView>, p: Seq<char>) -> Option<FileEntryView> {
    if exists|k: int| 0 <= k < s.len() && s[k].path == p {
        Some(s[choose|k: int| 0 <= k < s.len() && s[k].path == p])
    } else {
        None
    }
}

/// FNV-1a hash of `data`.
pub open spec fn fnv1a(data: Seq<u8>) -> u64
    decreases data.len(),
{
    if data.len() == 0 {
        0xcbf29ce484222325u64
    } else {
        (fnv1a(data.drop_last()) ^ (data.last() as u64)).wrapping_mul(0x100000001b3u64)
    }
}

/// The entry is listed under `prefix`: its path starts with it and it is not deleted.
pub open spec fn listed(e: FileEntryView, prefix: Seq<char>) -> bool {
    prefix.is_prefix_of(e.path) && !e.deleted
}

/// Number of entries of `s` that are not deleted.
pub open spec fn live_count(s: Seq<FileEntryView>) -> nat
    decreases s.len(),
{
    if s.len() == 0 {
        0
    } else {
        live_count(s.drop_last()) + if s.last().deleted {
            0nat
        } else {
            1nat
        }
    }
}

/// In an index sorted by path, each entry is the one its path finds.
pub proof fn lemma_sorted_unique(s: Seq<FileEntryView>, k: int)
    requires
        sorted_by_path(s),
        0 <= k < s.len(),
    ensures
        entry_for(s, s[k].path) == Some(s[k]),
{
    let j = choose|j: int| 0 <= j < s.len() && s[j].path == s[k].path;
    if j != k {
        if j < k {
            lemma_path_lt_irreflexive(s[k].path);
        } else {
            lemma_path_lt_irreflexive(s[k].path);
        }
    }
}

/// A write of `data` to `fs` reuses a stored blob: the blob its hash names holds the same
/// bytes.
pub open spec fn dedups(fs: OxideFs, data: Seq<u8>) -> bool {
    let h = fnv1a(data);
    fs.hash_map().contains_key(h) && fs.blob_map().contains_key(fs.hash_map()[h]) && fs.blob_map()[fs.hash_map()[h]]
        == data
}

/// The blob a write of `data` to `fs` names: the stored blob with the same hash and the
/// same bytes, or else a fresh one.
pub open spec fn write_result(fs: OxideFs, data: Seq<u8>) -> BlobId {
    if dedups(fs, data) {
        fs.hash_map()[fnv1a(data)]
    } else {
        fs.next_blob()
    }
}

/// Deduplication: once `data` has been written (with result `id`), writing the same bytes
/// again, under any path, names the same blob and stores no new one (so the blob count and
/// the stored byte total stay as they are).
pub proof fn lemma_rewrite_shares_blob(fs: OxideFs, data: Seq<u8>, id: BlobId)
    requires
        fs.blob_map().contains_key(id),
        fs.blob_map()[id] == data,
        fs.hash_map().contains_key(fnv1a(data)),
        fs.hash_map()[fnv1a(data)] == id,
    ensures
        dedups(fs, data),
        write_result(fs, data) == id,
{
}

/// What `fs` holds at `path`: the contents of a live file.
pub open spec fn file_at(fs: OxideFs, path: Seq<char>) -> Option<Seq<u8>> {
    match entry_for(fs.entries(), path) {
        Some(e) => if !e.deleted && fs.blob_map().contains_key(e.blob_id) {
            Some(fs.blob_map()[e.blob_id])
        } else {
            None
        },
        None => None,
    }
}

/// `fs` holds, at `path`, a live entry written at tick `now` that names blob `id`,
/// which holds `data`.
pub open spec fn file_written(fs: OxideFs, path: Seq<char>, data: Seq<u8>, now: u64, id: BlobId) -> bool {
    &&& fs.blob_map().contains_key(id)
    &&& fs.blob_map()[id] == data
    &&& entry_for(fs.entries(), path) == Some(
        FileEntryView {
            path,
            blob_id: id,
            size: data.len() as u64,
            created_tick: now,
            modified_tick: now,
            deleted: false,
        },
    )
}

/// A read of a path gives back the bytes last written to it.
pub proof fn lemma_read_after_write(fs: OxideFs, path: Seq<char>, data: Seq<u8>, now: u64, id: BlobId)
    requires
        file_written(fs, path, data, now, id),
    ensures
        file_at(fs, path) == Some(data),
{
}

/// Different contents live in different blobs: two files whose contents differ name
/// different blob ids.
pub proof fn lemma_distinct_contents(
    fs: OxideFs,
    p1: Seq<char>,
    d1: Seq<u8>,
    t1: u64,
    id1: BlobId,
    p2: Seq<char>,
    d2: Seq<u8>,
    t2: u64,
    id2: BlobId,
)
    requires
        file_written(fs, p1, d1, t1, id1),
        file_written(fs, p2, d2, t2, id2),
        d1 != d2,
    ensures
        id1 != id2,
{
}

/// A deleted path, or one that was never written, reads as nothing.
pub proof fn lemma_read_missing(fs: OxideFs, path: Seq<char>)
    requires
        entry_for(fs.entries(), path) matches Some(e) ==> e.deleted,
    ensures
        file_at(fs, path) is None,
{
}

/// Content-addressed filesystem: files name blobs, and identical contents share one blob.
pub struct OxideFs {
    index: Vec<FileEntry>,
    blobs: BTreeMap<BlobId, Vec<u8>>,
    content_hashes: BTreeMap<u64, BlobId>,
    next_blob_id: BlobId,
    total_bytes: u64,
}

impl OxideFs {
    /// The entries, in path order.
    pub closed spec fn entries(&self) -> Seq<FileEntryView> {
        self.index@.map_values(|e: FileEntry| e@)
    }

    pub closed spec fn blob_map(&self) -> Map<BlobId, Seq<u8>> {
        self.blobs@.map_values(|v: Vec<u8>| v@)
    }

    /// Content hash to the blob created for it.
    pub closed spec fn hash_map(&self) -> Map<u64, BlobId> {
        self.content_hashes@
    }

    pub closed spec fn next_blob(&self) -> BlobId {
        self.next_blob_id
    }

    /// Bytes of blob content stored.
    pub closed spec fn total(&self) -> u64 {
        self.total_bytes
    }

    pub closed spec fn wf(&self) -> bool {
        sorted_by_path(self.entries())
    }

    /// Each entry is the one its path finds.
    pub proof fn lemma_entry_at(&self, k: int)
        requires
            self.wf(),
            0 <= k < self.entries().len(),
        ensures
            entry_for(self.entries(), self.entries()[k].path) == Some(self.entries()[k]),
    {
        lemma_sorted_unique(self.entries(), k);
    }

    pub fn new() -> (fs: Self)
        ensures
            fs.wf(),
            fs.entries() == Seq::<FileEntryView>::empty(),
            fs.blob_map() == Map::<BlobId, Seq<u8>>::empty(),
            fs.hash_map() == Map::<u64, BlobId>::empty(),
            fs.next_blob() == 1,
            fs.total() == 0,
    {
        let fs = OxideFs {
            index: Vec::new(),
            blobs: BTreeMap::new(),
            content_hashes: BTreeMap::new(),
            next_blob_id: 1,
            total_bytes: 0,
        };
        assert(fs.entries() =~= Seq::<FileEntryView>::empty());
        assert(fs.blob_map() =~= Map::<BlobId, Seq<u8>>::empty());
        fs
    }

    /// FNV-1a hash of `data`, used to find identical contents.
    pub fn content_hash(data: &[u8]) -> (h: u64)
        ensures
            h == fnv1a(data@),
    {
        let mut hash: u64 = 0xcbf29ce484222325;
        let mut i: usize = 0;
        while i < data.len()
            invariant
                i <= data@.len(),
                hash == fnv1a(data@.take(i as int)),
            decreases data@.len() - i,
        {
            assert(data@.take(i + 1).drop_last() =~= data@.take(i as int));
            hash = hash ^ (data[i] as u64);
            hash = hash.wrapping_mul(0x100000001b3);
            i = i + 1;
        }
        assert(data@.take(i as int) =~= data@);
        hash
    }

    /// Position of the first entry whose path is not below `path`.
    fn lower_bound(&self, path: &str) -> (k: usize)
        requires
            self.wf(),
        ensures
            k <= self.entries().len(),
            forall|j: int| 0 <= j < k ==> path_lt(#[trigger] self.entries()[j].path, path@),
            k < self.entries().len() ==> !path_lt(self.entries()[k as int].path, path@),
    {
        let mut k: usize = 0;
        while k < self.index.len()
            invariant
                k <= self.index@.len(),
                forall|j: int| 0 <= j < k ==> path_lt(#[trigger] self.entries()[j].path, path@),
            decreases self.index@.len() - k,
        {
            if !path_less(self.index[k].path.as_str(), path) {
                return k;
            }
            k = k + 1;
        }
        k
    }

    /// Index of the entry for `path`, if any.
    fn find(&self, path: &str) -> (r: Option<usize>)
        requires
            self.wf(),
        ensures
            match r {
                Some(k) => k < self.entries().len() && self.entries()[k as int].path == path@
                    && entry_for(self.entries(), path@) == Some(self.entries()[k as int]),
                None => entry_for(self.entries(), path@) is None,
            },
    {
        let k = self.lower_bound(path);
        if k < self.index.len() && str_eq(self.index[k].path.as_str(), path) {
            proof {
                lemma_sorted_unique(self.entries(), k as int);
            }
            return Some(k);
        }
        proof {
            if exists|j: int| 0 <= j < self.entries().len() && self.entries()[j].path == path@ {
                let j = choose|j: int| 0 <= j < self.entries().len() && self.entries()[j].path == path@;
                lemma_path_lt_irreflexive(path@);
                if j > k {
                    lemma_path_lt_total(self.entries()[k as int].path, path@);
                }
            }
        }
        None
    }

    /// Put `e` under its path: replace the entry with that path, or insert it in order.
    fn upsert(&mut self, e: FileEntry)
        requires
            old(self).wf(),
        ensures
            final(self).wf(),
            entry_for(final(self).entries(), e.path@) == Some(e@),
            forall|p: Seq<char>| p != e.path@ ==> #[trigger] entry_for(final(self).entries(), p) == entry_for(old(self).entries(), p),
            final(self).blob_map() == old(self).blob_map(),
            final(self).hash_map() == old(self).hash_map(),
            final(self).next_blob() == old(self).next_blob(),
            final(self).total() == old(self).total(),
    {
        let ghost ev = e@;
        let ghost old_entries = self.entries();
        let k = self.lower_bound(e.path.as_str());
        if k < self.index.len() && str_eq(self.index[k].path.as_str(), e.path.as_str()) {
            self.index.set(k, e);
            proof {
                let s = self.entries();
                assert(s =~= old_entries.update(k as int, ev));
                assert forall|i: int, j: int| 0 <= i < j < s.len() implies path_lt(s[i].path, s[j].path) by {
                    assert(path_lt(old_entries[i].path, old_entries[j].path));
                }
                lemma_sorted_unique(s, k as int);
                assert forall|p: Seq<char>| p != ev.path implies #[trigger] entry_for(s, p) == entry_for(old_entries, p) by {
                    if exists|j: int| 0 <= j < s.len() && s[j].path == p {
                        let j = choose|j: int| 0 <= j < s.len() && s[j].path == p;
                        lemma_sorted_unique(s, j);
                        lemma_sorted_unique(old_entries, j);
                    }
                    if exists|j: int| 0 <= j < old_entries.len() && old_entries[j].path == p {
                        let j = choose|j: int| 0 <= j < old_entries.len() && old_entries[j].path == p;
                        assert(s[j].path == p);
                    }
                }
            }
        } else {
            self.index.insert(k, e);
            proof {
                let s = self.entries();
                assert(s =~= old_entries.insert(k as int, ev));
                if k < old_entries.len() {
                    lemma_path_lt_total(old_entries[k as int].path, ev.path);
                }
                assert forall|i: int, j: int| 0 <= i < j < s.len() implies path_lt(s[i].path, s[j].path) by {
                    if i < k && j < k {
                        assert(path_lt(old_entries[i].path, old_entries[j].path));
                    } else if i < k && j == k {
                    } else if i < k && j > k {
                        assert(path_lt(old_entries[i].path, ev.path));
                        assert(path_lt(ev.path, old_entries[k as int].path));
                        if j - 1 > k {
                            assert(path_lt(old_entries[k as int].path, old_entries[j - 1].path));
                            lemma_path_lt_transitive(ev.path, old_entries[k as int].path, old_entries[j - 1].path);
                        }
                        lemma_path_lt_transitive(old_entries[i].path, ev.path, old_entries[j - 1].path);
                    } else if i == k {
                        assert(path_lt(ev.path, old_entries[k as int].path));
                        if j - 1 > k {
                            assert(path_lt(old_entries[k as int].path, old_entries[j - 1].path));
                            lemma_path_lt_transitive(ev.path, old_entries[k as int].path, old_entries[j - 1].path);
                        }
                    } else {
                        assert(path_lt(old_entries[i - 1].path, old_entries[j - 1].path));
                    }
                }
                lemma_sorted_unique(s, k as int);
                assert forall|p: Seq<char>| p != ev.path implies #[trigger] entry_for(s, p) == entry_for(old_entries, p) by {
                    if exists|j: int| 0 <= j < s.len() && s[j].path == p {
                        let j = choose|j: int| 0 <= j < s.len() && s[j].path == p;
                        lemma_sorted_unique(s, j);
                        if j < k {
                            lemma_sorted_unique(old_entries, j);
                        } else {
                            lemma_sorted_unique(old_entries, j - 1);
                        }
                    }
                    if exists|j: int| 0 <= j < old_entries.len() && old_entries[j].path == p {
                        let j = choose|j: int| 0 <= j < old_entries.len() && old_entries[j].path == p;
                        if j < k {
                            assert(s[j].path == p);
                        } else {
                            assert(s[j + 1].path == p);
                        }
                    }
                }
            }
        }
    }
}

impl OxideFs {
    /// Store `data` under `path` at tick `now`. Contents already stored (same hash and same
    /// bytes) reuse their blob; other contents get a fresh blob.
    pub fn write_file(&mut self, path: &str, data: &[u8], now: u64) -> (id: BlobId)
        requires
            old(self).wf(),
            old(self).next_blob() < u64::MAX,
            old(self).total() + data@.len() <= u64::MAX,
        ensures
            final(self).wf(),
            ({
                let h = fnv1a(data@);
                if dedups(*old(self), data@) {
                    &&& id == old(self).hash_map()[h]
                    &&& final(self).blob_map() == old(self).blob_map()
                    &&& final(self).hash_map() == old(self).hash_map()
                    &&& final(self).next_blob() == old(self).next_blob()
                    &&& final(self).total() == old(self).total()
                } else {
                    &&& id == old(self).next_blob()
                    &&& final(self).blob_map() == old(self).blob_map().insert(id, data@)
                    &&& final(self).hash_map() == old(self).hash_map().insert(h, id)
                    &&& final(self).next_blob() == old(self).next_blob() + 1
                    &&& final(self).total() == old(self).total() + data@.len()
                }
            }),
            id == write_result(*old(self), data@),
            file_written(*final(self), path@, data@, now, id),
            final(self).hash_map().contains_key(fnv1a(data@)),
            final(self).hash_map()[fnv1a(data@)] == id,
            forall|p: Seq<char>| p != path@ ==> #[trigger] entry_for(final(self).entries(), p) == entry_for(old(self).entries(), p),
    {
        broadcast use vstd::std_specs::btree::group_btree_axioms;
        let hash = Self::content_hash(data);
        let mut existing: Option<BlobId> = None;
        match self.content_hashes.get(&hash) {
            Some(id) => {
                match self.blobs.get(id) {
                    Some(blob) => {
                        if slice_eq(blob.as_slice(), data) {
                            existing = Some(*id);
                        }
                    },
                    None => {},
                }
            },
            None => {},
        }
        match existing {
            Some(existing_id) => {
                let entry = FileEntry {
                    path: String::from_str(path),
                    blob_id: existing_id,
                    size: data.len() as u64,
                    created_tick: now,
                    modified_tick: now,
                    deleted: false,
                };
                self.upsert(entry);
                existing_id
            },
            None => {
                let blob_id = self.next_blob_id;
                self.next_blob_id = self.next_blob_id + 1;
                let ghost old_blobs = self.blob_map();
                let content = slice_to_vec(data);
                self.blobs.insert(blob_id, content);
                assert(self.blob_map() =~= old_blobs.insert(blob_id, data@));
                self.content_hashes.insert(hash, blob_id);
                self.total_bytes = self.total_bytes + data.len() as u64;
                let entry = FileEntry {
                    path: String::from_str(path),
                    blob_id,
                    size: data.len() as u64,
                    created_tick: now,
                    modified_tick: now,
                    deleted: false,
                };
                self.upsert(entry);
                blob_id
            },
        }
    }

    /// Contents of `path`, unless it is missing or deleted.
    pub fn read_file(&self, path: &str) -> (r: Option<&[u8]>)
        requires
            self.wf(),
        ensures
            match r {
                Some(d) => file_at(*self, path@) == Some(d@),
                None => file_at(*self, path@) is None,
            },
    {
        broadcast use vstd::std_specs::btree::group_btree_axioms;
        let k = match self.find(path) {
            Some(k) => k,
            None => return None,
        };
        let entry = &self.index[k];
        if entry.deleted {
            return None;
        }
        match self.blobs.get(&entry.blob_id) {
            Some(v) => Some(v.as_slice()),
            None => None,
        }
    }

    /// Mark `path` deleted (its blob stays); false when there is no entry for it.
    pub fn delete_file(&mut self, path: &str) -> (r: bool)
        requires
            old(self).wf(),
        ensures
            final(self).wf(),
            r == entry_for(old(self).entries(), path@) is Some,
            r ==> entry_for(final(self).entries(), path@) == Some(
                FileEntryView { deleted: true, ..entry_for(old(self).entries(), path@).unwrap() },
            ),
            forall|p: Seq<char>| p != path@ ==> #[trigger] entry_for(final(self).entries(), p) == entry_for(old(self).entries(), p),
            !r ==> final(self).entries() == old(self).entries(),
            final(self).blob_map() == old(self).blob_map(),
            final(self).hash_map() == old(self).hash_map(),
            final(self).next_blob() == old(self).next_blob(),
            final(self).total() == old(self).total(),
    {
        let k = match self.find(path) {
            Some(k) => k,
            None => return false,
        };
        let mut e = self.index[k].clone();
        e.deleted = true;
        self.upsert(e);
        true
    }

    /// The live entries whose path starts with `prefix`, in path order.
    pub fn list(&self, prefix: &str) -> (r: Vec<&FileEntry>)
        ensures
            r@.map_values(|e: &FileEntry| e@) == self.entries().filter(|e: FileEntryView| listed(e, prefix@)),
    {
        let ghost pred = |e: FileEntryView| listed(e, prefix@);
        let mut out: Vec<&FileEntry> = Vec::new();
        let mut i: usize = 0;
        while i < self.index.len()
            invariant
                i <= self.index@.len(),
                pred == (|e: FileEntryView| listed(e, prefix@)),
                out@.map_values(|e: &FileEntry| e@) == self.entries().take(i as int).filter(pred),
            decreases self.index@.len() - i,
        {
            let e = &self.index[i];
            proof {
                assert(self.entries().take(i + 1) =~= self.entries().take(i as int).push(self.entries()[i as int]));
                self.entries().take(i as int).lemma_filter_push(self.entries()[i as int], pred);
            }
            let ghost before = out@;
            if str_starts_with(e.path.as_str(), prefix) && !e.deleted {
                out.push(e);
                assert(out@.map_values(|e: &FileEntry| e@) =~= before.map_values(|e: &FileEntry| e@).push(e@));
            }
            i = i + 1;
        }
        assert(self.entries().take(i as int) =~= self.entries());
        out
    }

    /// `(live files, blobs, bytes stored)`.
    pub fn stats(&self) -> (r: (usize, usize, u64))
        ensures
            r.0 == live_count(self.entries()),
            r.1 == self.blob_map().len(),
            r.2 == self.total(),
    {
        broadcast use vstd::std_specs::btree::group_btree_axioms;
        let mut files: usize = 0;
        let mut i: usize = 0;
        while i < self.index.len()
            invariant
                i <= self.index@.len(),
                files == live_count(self.entries().take(i as int)),
                files <= i,
            decreases self.index@.len() - i,
        {
            assert(self.entries().take(i + 1).drop_last() =~= self.entries().take(i as int));
            if !self.index[i].deleted {
                files = files + 1;
            }
            i = i + 1;
        }
        assert(self.entries().take(i as int) =~= self.entries());
        assert(self.blob_map().dom() =~= self.blobs@.dom());
        (files, self.blobs.len(), self.total_bytes)
    }

    /// The filesystem as disk blocks, block 0 first: the superblock, then the blobs in
    /// increasing id order, then one block per live entry in path order.
    pub fn sync_to_disk(&self) -> (img: Vec<[u8; 512]>)
        ensures
            exists|ids: Seq<u64>| {
                &&& sorted_ids(ids, self.blob_map().dom())
                &&& views(img@) == seq![
                    superblock(
                        self.blob_map().len() as u32,
                        live_count(self.entries()) as u32,
                        self.next_blob(),
                        self.total(),
                    ),
                ] + blobs_image(self.blob_map(), ids) + index_image(self.entries())
            },
    {
        broadcast use vstd::std_specs::btree::group_btree_axioms;
        let (files, blob_count, _) = self.stats();
        let ghost bm = self.blob_map();
        let ghost head = seq![superblock(blob_count as u32, files as u32, self.next_blob_id, self.total_bytes)];
        let mut img: Vec<[u8; 512]> = Vec::new();
        let sb = superblock_block(blob_count as u32, files as u32, self.next_blob_id, self.total_bytes);
        img.push(sb);
        assert(views(img@) =~= head);
        let ids = sorted_keys(&self.blobs);
        assert(bm.dom() =~= self.blobs@.dom());
        let ghost target = head + blobs_image(bm, ids@);
        assert(ids@.skip(0) =~= ids@);
        assert(target =~= views(img@) + blobs_image(bm, ids@.skip(0)));
        let mut i: usize = 0;
        while i < ids.len()
            invariant
                i <= ids@.len(),
                bm == self.blob_map(),
                ids@.to_set() == bm.dom(),
                target == views(img@) + blobs_image(bm, ids@.skip(i as int)),
            decreases ids@.len() - i,
        {
            let id = ids[i];
            proof {
                assert(ids@.to_set().contains(id)) by {
                    assert(ids@[i as int] == id);
                }
                assert(ids@.skip(i as int)[0] == id);
                assert(ids@.skip(i as int).skip(1) =~= ids@.skip(i + 1));
            }
            let ghost before = views(img@);
            match self.blobs.get(&id) {
                Some(data) => {
                    push_blob_blocks(&mut img, id, data.as_slice());
                    assert(before + blobs_image(bm, ids@.skip(i as int))
                        =~= views(img@) + blobs_image(bm, ids@.skip(i + 1)));
                },
                None => {
                    assert(false);
                },
            }
            i = i + 1;
        }
        let ghost es = self.entries();
        let ghost target2 = target + index_image(es);
        assert(ids@.skip(i as int) =~= Seq::<u64>::empty());
        assert(es.skip(0) =~= es);
        assert(target2 =~= views(img@) + index_image(es.skip(0)));
        let mut k: usize = 0;
        while k < self.index.len()
            invariant
                k <= self.index@.len(),
                es == self.entries(),
                target2 == views(img@) + index_image(es.skip(k as int)),
            decreases self.index@.len() - k,
        {
            assert(es.skip(k as int)[0] == self.index@[k as int]@);
            assert(es.skip(k as int).skip(1) =~= es.skip(k + 1));
            let ghost before = views(img@);
            if !self.index[k].deleted {
                let b = index_entry_block(&self.index[k]);
                img.push(b);
                assert(views(img@) =~= before.push(b@));
                assert(before + index_image(es.skip(k as int)) =~= views(img@) + index_image(es.skip(k + 1)));
            } else {
                assert(before + index_image(es.skip(k as int)) =~= views(img@) + index_image(es.skip(k + 1)));
            }
            k = k + 1;
        }
        assert(es.skip(k as int) =~= Seq::<FileEntryView>::empty());
        assert(views(img@) + index_image(Seq::<FileEntryView>::empty()) =~= views(img@));
        assert(sorted_ids(ids@, bm.dom()));
        img
    }

    /// Read the filesystem recorded in `image` (block `n` of the disk at index `n`; blocks
    /// past its end read as zeros) into this one. Without a superblock nothing changes and
    /// the result is `false`; else the recorded blobs and entries are added, in order, the
    /// blob counter and byte count are taken from the superblock, and the result is `true`.
    pub fn load_from_disk(&mut self, image: &Vec<[u8; 512]>) -> (r: bool)
        requires
            old(self).wf(),
            has_superblock(views(image@)) ==> entries_fit(views(image@)),
        ensures
            final(self).wf(),
            r == has_superblock(views(image@)),
            !r ==> *final(self) == *old(self),
            r ==> {
                let img = views(image@);
                &&& final(self).next_blob() == u64_at(img[0], 20)
                &&& final(self).total() == u64_at(img[0], 28)
                &&& final(self).blob_map() == insert_blobs(old(self).blob_map(), image_blobs(img))
                &&& final(self).hash_map() == insert_hashes(old(self).hash_map(), image_blobs(img))
                &&& forall|p: Seq<char>| #[trigger] entry_for(final(self).entries(), p)
                    == overlay_entry(old(self).entries(), image_entries(img), p)
            },
    {
        broadcast use vstd::std_specs::btree::group_btree_axioms;
        let ghost img = views(image@);
        if image.len() == 0 {
            return false;
        }
        let sb = image[0];
        assert(img[0] == sb@);
        if !has_magic(&sb) {
            return false;
        }
        let (blob_count, index_count, next_blob, total) = superblock_fields(&sb);
        self.next_blob_id = next_blob;
        self.total_bytes = total;
        let ghost all_blobs = read_blobs(img, blob_count as nat, 1);
        let ghost end = blobs_end(img, blob_count as nat, 1);
        let ghost old_blobs = old(self).blob_map();
        let ghost old_hashes = old(self).hash_map();
        let ghost old_entries = old(self).entries();
        let mut pos: u64 = 1;
        let mut i: u32 = 0;
        while i < blob_count
            invariant
                i <= blob_count,
                img == views(image@),
                pos <= 1 + i * max_blob_span(),
                insert_blobs(old_blobs, all_blobs) == insert_blobs(self.blob_map(), read_blobs(img, (blob_count - i) as nat, pos as int)),
                insert_hashes(old_hashes, all_blobs) == insert_hashes(self.hash_map(), read_blobs(img, (blob_count - i) as nat, pos as int)),
                end == blobs_end(img, (blob_count - i) as nat, pos as int),
                self.entries() == old_entries,
                sorted_by_path(old_entries),
                self.next_blob_id == next_blob,
                self.total_bytes == total,
            decreases blob_count - i,
        {
            proof {
                lemma_blob_span_bound(img, pos as int);
            }
            let (id, data, next) = read_blob_at(image, pos);
            let h = Self::content_hash(data.as_slice());
            let ghost bm0 = self.blob_map();
            let ghost hm0 = self.hash_map();
            let ghost rest = read_blobs(img, (blob_count - i) as nat, pos as int);
            proof {
                assert(rest[0] == (id, data@));
                assert(rest.skip(1) =~= read_blobs(img, (blob_count - i - 1) as nat, next as int));
            }
            self.content_hashes.insert(h, id);
            self.blobs.insert(id, data);
            proof {
                assert(self.blob_map() =~= bm0.insert(id, data@));
                assert(self.hash_map() =~= hm0.insert(h, id));
                assert(self.entries() == old_entries);
            }
            pos = next;
            i = i + 1;
        }
        assert(read_blobs(img, 0, pos as int) =~= Seq::<(u64, Seq<u8>)>::empty());
        let ghost added = read_entries(img, index_count as nat, end);
        let mut k: u32 = 0;
        while k < index_count
            invariant
                k <= index_count,
                img == views(image@),
                pos as int == end,
                end == blobs_end(img, blob_count as nat, 1),
                pos <= 1 + blob_count * max_blob_span(),
                blob_count <= u32::MAX,
                has_superblock(img) && entries_fit(img),
                u32_at(img[0], 16) == index_count,
                u32_at(img[0], 12) == blob_count,
                added == read_entries(img, index_count as nat, end),
                self.wf(),
                forall|p: Seq<char>| #[trigger] entry_for(self.entries(), p)
                    == overlay_entry(old_entries, added.take(k as int), p),
                self.blob_map() == insert_blobs(old_blobs, all_blobs),
                self.hash_map() == insert_hashes(old_hashes, all_blobs),
                self.next_blob_id == next_blob,
                self.total_bytes == total,
            decreases index_count - k,
        {
            assert(entry_fits(img, blobs_end(img, u32_at(img[0], 12) as nat, 1) + k as int));
            let at: u64 = pos + k as u64;
            let e = read_entry_at(image, at);
            let ghost ev = e@;
            let ghost before = self.entries();
            self.upsert(e);
            proof {
                assert(added.take(k + 1).drop_last() =~= added.take(k as int));
                assert(added.take(k + 1).last() == ev);
                assert forall|p: Seq<char>| #[trigger] entry_for(self.entries(), p)
                    == overlay_entry(old_entries, added.take(k + 1), p) by {
                    if p != ev.path {
                        assert(entry_for(self.entries(), p) == entry_for(before, p));
                    }
                }
            }
            k = k + 1;
        }
        assert(added.take(k as int) =~= added);
        true
    }
}

/// `a` and `b` hold the same bytes.
pub fn slice_eq(a: &[u8], b: &[u8]) -> (r: bool)
    ensures
        r == (a@ == b@),
{
    if a.len() != b.len() {
        return false;
    }
    let mut i: usize = 0;
    while i < a.len()
        invariant
            a@.len() == b@.len(),
            i <= a@.len(),
            forall|j: int| 0 <= j < i ==> a@[j] == b@[j],
        decreases a@.len() - i,
    {
        if a[i] != b[i] {
            return false;
        }
        i = i + 1;
    }
    assert(a@ =~= b@);
    true
}

/// A vector holding the bytes of `s`.
pub fn slice_to_vec(s: &[u8]) -> (v: Vec<u8>)
    ensures
        v@ == s@,
{
    let mut v: Vec<u8> = Vec::new();
    let mut i: usize = 0;
    while i < s.len()
        invariant
            i <= s@.len(),
            v@ == s@.take(i as int),
        decreases s@.len() - i,
    {
        v.push(s[i]);
        assert(s@.take(i + 1) =~= s@.take(i as int).push(s@[i as int]));
        i = i + 1;
    }
    assert(s@.take(i as int) =~= s@);
    v
}

} // verus!

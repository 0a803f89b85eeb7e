//! Per-agent key/value context, cached in memory and persisted in the filesystem under
//! `/agents/<id>/<key>`.
use vstd::prelude::*;
use std::collections::BTreeMap;
use vstd::string::{StringExecFns, StrSliceExecFns};
use super::oxide_fs::{OxideFs, FileEntry, FileEntryView, entry_for, listed, slice_to_vec, file_at};
use crate::agent::AgentId;
use crate::capability::{CapId, CapabilityTable, PermissionBits};
use crate::capability::permissions::{READ_BIT, WRITE_BIT};
use crate::capability::table::validate_result;
use crate::strmap::StrMap;

verus! {

pub open spec fn agents_dir() -> Seq<char> {
    seq!['/', 'a', 'g', 'e', 'n', 't', 's', '/']
}

pub open spec fn digit_chars() -> Seq<char> {
    seq!['0', '1', '2', '3', '4', '5', '6', '7', '8', '9']
}

/// Decimal digits of `n`.
pub open spec fn decimal(n: nat) -> Seq<char>
    decreases n,
{
    if n < 10 {
        seq![digit_chars()[n as int]]
    } else {
        decimal(n / 10).push(digit_chars()[(n % 10) as int])
    }
}

/// The number the decimal digits `s` stand for, most significant digit first.
pub open spec fn digits_value(s: Seq<char>) -> int
    decreases s.len(),
{
    if s.len() == 0 {
        0
    } else {
        digits_value(s.drop_last()) * 10 + (s.last() as int - '0' as int)
    }
}

proof fn lemma_digit_chars()
    ensures
        forall|d: int| 0 <= d < 10 ==> #[trigger] digit_chars()[d] as int == '0' as int + d,
{
    assert(digit_chars()[0] as int == '0' as int + 0);
    assert(digit_chars()[1] as int == '0' as int + 1);
    assert(digit_chars()[2] as int == '0' as int + 2);
    assert(digit_chars()[3] as int == '0' as int + 3);
    assert(digit_chars()[4] as int == '0' as int + 4);
    assert(digit_chars()[5] as int == '0' as int + 5);
    assert(digit_chars()[6] as int == '0' as int + 6);
    assert(digit_chars()[7] as int == '0' as int + 7);
    assert(digit_chars()[8] as int == '0' as int + 8);
    assert(digit_chars()[9] as int == '0' as int + 9);
}

/// `decimal(n)` is the usual decimal rendering of `n`: at least one character, every
/// character a digit, no leading zero except for 0 itself, and read back most significant
/// digit first the digits give `n`.
pub proof fn lemma_decimal_reads_back(n: nat)
    ensures
        decimal(n).len() >= 1,
        forall|i: int| 0 <= i < decimal(n).len() ==> '0' <= #[trigger] decimal(n)[i] <= '9',
        n >= 1 ==> decimal(n)[0] != '0',
        digits_value(decimal(n)) == n,
    decreases n,
{
    lemma_digit_chars();
    if n < 10 {
        let s = decimal(n);
        assert(s.drop_last() =~= Seq::<char>::empty());
        assert(s.last() as int == '0' as int + n);
        assert(digits_value(s.drop_last()) == 0);
        assert(digits_value(s) == digits_value(s.drop_last()) * 10 + (s.last() as int - '0' as int));
    } else {
        lemma_decimal_reads_back(n / 10);
        let s = decimal(n);
        let t = decimal(n / 10);
        assert(s.drop_last() =~= t);
        assert(s.last() as int == '0' as int + (n % 10) as int);
        assert(s[0] == t[0]);
        assert(digits_value(s) == digits_value(t) * 10 + (s.last() as int - '0' as int));
        assert((n / 10) * 10 + n % 10 == n);
        assert forall|i: int| 0 <= i < s.len() implies '0' <= #[trigger] s[i] <= '9' by {
            if i < t.len() {
                assert(s[i] == t[i]);
            }
        }
    }
}

/// Different agents have different directories: the decimal rendering of an id determines
/// the id.
pub proof fn lemma_agent_prefix_injective(a: AgentId, b: AgentId)
    ensures
        agent_prefix(a) == agent_prefix(b) ==> a == b,
{
    if agent_prefix(a) == agent_prefix(b) {
        let da = decimal(a as nat);
        let db = decimal(b as nat);
        assert(da =~= agent_prefix(a).subrange(8, 8 + da.len() as int));
        assert(db =~= agent_prefix(b).subrange(8, 8 + db.len() as int));
        assert(agent_prefix(a).len() == 9 + da.len());
        assert(agent_prefix(b).len() == 9 + db.len());
        assert(da.len() == db.len());
        lemma_decimal_reads_back(a as nat);
        lemma_decimal_reads_back(b as nat);
    }
}

/// `/agents/<id>/`.
pub open spec fn agent_prefix(id: AgentId) -> Seq<char> {
    agents_dir() + decimal(id as nat) + seq!['/']
}

/// Where the value of `key` for agent `id` is stored.
pub open spec fn agent_path(id: AgentId, key: Seq<char>) -> Seq<char> {
    agent_prefix(id) + key
}

fn push_decimal(s: &mut String, n: u64)
    ensures
        final(s)@ == old(s)@ + decimal(n as nat),
    decreases n,
{
    if n >= 10 {
        push_decimal(s, n / 10);
    }
    let d = (n % 10) as usize;
    let digits = "0123456789";
    proof {
        reveal_strlit("0123456789");
        assert(digits@ =~= digit_chars());
    }
    s.append(digits.substring_char(d, d + 1));
    proof {
        assert(digits@.subrange(d as int, d + 1) =~= seq![digit_chars()[d as int]]);
        if n >= 10 {
            assert(decimal(n as nat) == decimal((n / 10) as nat).push(digit_chars()[d as int]));
        }
    }
    assert(s@ =~= old(s)@ + decimal(n as nat));
}

fn prefix_string(id: AgentId) -> (s: String)
    ensures
        s@ == agent_prefix(id),
{
    let mut s = String::from_str("/agents/");
    proof {
        reveal_strlit("/agents/");
        reveal_strlit("/");
    }
    push_decimal(&mut s, id);
    s.append("/");
    assert(s@ =~= agent_prefix(id));
    s
}

fn path_string(id: AgentId, key: &str) -> (s: String)
    ensures
        s@ == agent_path(id, key@),
{
    let mut s = prefix_string(id);
    s.append(key);
    s
}

pub struct ContextStore {
    cache: BTreeMap<AgentId, StrMap<Vec<u8>>>,
}

/// The values of one agent's cache as byte sequences.
pub open spec fn values_of(m: Map<Seq<char>, Vec<u8>>) -> Map<Seq<char>, Seq<u8>> {
    m.map_values(|v: Vec<u8>| v@)
}

/// What a lookup of `key` for `agent` finds: the cached value, else the file's contents.
pub open spec fn context_lookup(store: ContextStore, fs: OxideFs, agent: AgentId, key: Seq<char>) -> Option<Seq<u8>> {
    if store.cached().contains_key(agent) && store.cached()[agent].contains_key(key) {
        Some(store.cached()[agent][key])
    } else {
        file_at(fs, agent_path(agent, key))
    }
}

/// `after` (with `fs`) is `before` with `value` stored under `key` for `agent`: in the
/// cache and in the agent's file for the key.
pub open spec fn value_stored(
    before: ContextStore,
    after: ContextStore,
    fs: OxideFs,
    agent: AgentId,
    key: Seq<char>,
    value: Seq<u8>,
) -> bool {
    &&& after.cached() == before.cached().insert(
        agent,
        (if before.cached().contains_key(agent) {
            before.cached()[agent]
        } else {
            Map::<Seq<char>, Seq<u8>>::empty()
        }).insert(key, value),
    )
    &&& file_at(fs, agent_path(agent, key)) == Some(value)
}

/// A lookup after a store finds the stored value, and so does a lookup through any store
/// that has nothing cached for the key (such as a fresh one after a restart).
pub proof fn lemma_get_after_set(
    before: ContextStore,
    after: ContextStore,
    fs: OxideFs,
    agent: AgentId,
    key: Seq<char>,
    value: Seq<u8>,
    other: ContextStore,
)
    requires
        value_stored(before, after, fs, agent, key, value),
    ensures
        context_lookup(after, fs, agent, key) == Some(value),
        !(other.cached().contains_key(agent) && other.cached()[agent].contains_key(key))
            ==> context_lookup(other, fs, agent, key) == Some(value),
{
}

/// A stored value stays visible while other keys change: once `key` is cached for `agent`
/// (as `set` leaves it), storing `value` under another key or agent, deleting another key,
/// or clearing another agent (each as that call's contract describes the cache afterwards)
/// leaves the lookup of `key` as it was, whatever happens to the files.
pub proof fn lemma_lookup_survives_other_changes(
    before: ContextStore,
    after: ContextStore,
    fs_before: OxideFs,
    fs_after: OxideFs,
    agent: AgentId,
    key: Seq<char>,
    other_agent: AgentId,
    other_key: Seq<char>,
    value: Seq<u8>,
)
    requires
        before.cached().contains_key(agent) && before.cached()[agent].contains_key(key),
        other_agent != agent || other_key != key,
        ({
            let c = before.cached();
            let stored = c.insert(
                other_agent,
                (if c.contains_key(other_agent) {
                    c[other_agent]
                } else {
                    Map::<Seq<char>, Seq<u8>>::empty()
                }).insert(other_key, value),
            );
            let deleted = if c.contains_key(other_agent) {
                c.insert(other_agent, c[other_agent].remove(other_key))
            } else {
                c
            };
            ||| after.cached() == stored
            ||| after.cached() == deleted
            ||| (other_agent != agent && after.cached() == c.remove(other_agent))
        }),
    ensures
        context_lookup(after, fs_after, agent, key) == context_lookup(before, fs_before, agent, key),
        context_lookup(after, fs_after, agent, key) == Some(before.cached()[agent][key]),
{
}

/// A key never stored, neither cached nor on file, is found nowhere; in particular a
/// fresh store over a fresh filesystem finds nothing.
pub proof fn lemma_unset_key(store: ContextStore, fs: OxideFs, agent: AgentId, key: Seq<char>)
    requires
        !(store.cached().contains_key(agent) && store.cached()[agent].contains_key(key)),
        file_at(fs, agent_path(agent, key)) is None,
    ensures
        context_lookup(store, fs, agent, key) is None,
{
}

impl ContextStore {
    /// The cached values, by agent and key.
    pub closed spec fn cached(&self) -> Map<AgentId, Map<Seq<char>, Seq<u8>>> {
        self.cache@.map_values(|m: StrMap<Vec<u8>>| values_of(m@))
    }

    pub closed spec fn wf(&self) -> bool {
        forall|a: AgentId| #[trigger] self.cache@.contains_key(a) ==> self.cache@[a].wf()
    }

    pub fn new() -> (s: Self)
        ensures
            s.wf(),
            s.cached() == Map::<AgentId, Map<Seq<char>, Seq<u8>>>::empty(),
    {
        let s = ContextStore { cache: BTreeMap::new() };
        assert(s.cached() =~= Map::<AgentId, Map<Seq<char>, Seq<u8>>>::empty());
        s
    }

    /// Store `value` under `key` for `agent_id`: in the cache and in the file
    /// `/agents/<id>/<key>`, written at tick `now`.
    pub fn set(&mut self, fs: &mut OxideFs, agent_id: AgentId, key: &str, value: &[u8], now: u64)
        requires
            old(self).wf(),
            old(fs).wf(),
            old(fs).next_blob() < u64::MAX,
            old(fs).total() + value@.len() <= u64::MAX,
        ensures
            final(self).wf(),
            final(fs).wf(),
            value_stored(*old(self), *final(self), *final(fs), agent_id, key@, value@),
            entry_for(final(fs).entries(), agent_path(agent_id, key@)) matches Some(e)
                && e.created_tick == now && e.modified_tick == now && e.size == value@.len(),
            forall|p: Seq<char>| p != agent_path(agent_id, key@) ==> #[trigger] entry_for(final(fs).entries(), p) == entry_for(old(fs).entries(), p),
    {
        broadcast use vstd::std_specs::btree::group_btree_axioms;
        let ghost c0 = self.cached();
        let mut store = match self.cache.remove(&agent_id) {
            Some(s) => s,
            None => StrMap::new(),
        };
        store.insert(String::from_str(key), slice_to_vec(value));
        let ghost m0 = self.cache@;
        self.cache.insert(agent_id, store);
        proof {
            assert(values_of(store@) =~= (if c0.contains_key(agent_id) {
                c0[agent_id]
            } else {
                Map::<Seq<char>, Seq<u8>>::empty()
            }).insert(key@, value@));
            assert(self.cached() =~= c0.insert(agent_id, values_of(store@)));
        }
        let path = path_string(agent_id, key);
        fs.write_file(path.as_str(), value, now);
    }

    /// The value of `key` for `agent_id`: from the cache, else from its file.
    pub fn get(&self, fs: &OxideFs, agent_id: AgentId, key: &str) -> (r: Option<Vec<u8>>)
        requires
            self.wf(),
            fs.wf(),
        ensures
            match r {
                Some(v) => context_lookup(*self, *fs, agent_id, key@) == Some(v@),
                None => context_lookup(*self, *fs, agent_id, key@) is None,
            },
    {
        broadcast use vstd::std_specs::btree::group_btree_axioms;
        match self.cache.get(&agent_id) {
            Some(store) => match store.get(key) {
                Some(v) => return Some(slice_to_vec(v.as_slice())),
                None => {},
            },
            None => {},
        }
        let path = path_string(agent_id, key);
        match fs.read_file(path.as_str()) {
            Some(d) => Some(slice_to_vec(d)),
            None => None,
        }
    }

    /// Forget `key` for `agent_id` in the cache and mark its file deleted; whether
    /// either held it.
    pub fn delete(&mut self, fs: &mut OxideFs, agent_id: AgentId, key: &str) -> (r: bool)
        requires
            old(self).wf(),
            old(fs).wf(),
        ensures
            final(self).wf(),
            final(fs).wf(),
            r == ((old(self).cached().contains_key(agent_id) && old(self).cached()[agent_id].contains_key(key@))
                || entry_for(old(fs).entries(), agent_path(agent_id, key@)) is Some),
            final(self).cached() == if old(self).cached().contains_key(agent_id) {
                old(self).cached().insert(agent_id, old(self).cached()[agent_id].remove(key@))
            } else {
                old(self).cached()
            },
            forall|p: Seq<char>| p != agent_path(agent_id, key@) ==> #[trigger] entry_for(final(fs).entries(), p) == entry_for(old(fs).entries(), p),
            entry_for(old(fs).entries(), agent_path(agent_id, key@)) matches Some(e) ==>
                entry_for(final(fs).entries(), agent_path(agent_id, key@)) == Some(FileEntryView { deleted: true, ..e }),
    {
        broadcast use vstd::std_specs::btree::group_btree_axioms;
        let ghost c0 = self.cached();
        let from_cache = match self.cache.remove(&agent_id) {
            Some(store) => {
                let mut store = store;
                let removed = store.remove(key).is_some();
                self.cache.insert(agent_id, store);
                proof {
                    assert(values_of(store@) =~= c0[agent_id].remove(key@));
                    assert(self.cached() =~= c0.insert(agent_id, c0[agent_id].remove(key@)));
                }
                removed
            },
            None => {
                assert(self.cached() =~= c0);
                false
            },
        };
        let path = path_string(agent_id, key);
        let from_fs = fs.delete_file(path.as_str());
        from_cache || from_fs
    }

    /// The keys `agent_id` has files for, in path order.
    pub fn keys(&self, fs: &OxideFs, agent_id: AgentId) -> (r: Vec<String>)
        ensures
            r@.map_values(|s: String| s@) == fs.entries().filter(|e: FileEntryView| listed(e, agent_prefix(agent_id)))
                .map_values(|e: FileEntryView| e.path.skip(agent_prefix(agent_id).len() as int)),
    {
        let prefix = prefix_string(agent_id);
        let entries = fs.list(prefix.as_str());
        let ghost listed_views = fs.entries().filter(|e: FileEntryView| listed(e, agent_prefix(agent_id)));
        let plen = prefix.as_str().unicode_len();
        let mut out: Vec<String> = Vec::new();
        let mut i: usize = 0;
        while i < entries.len()
            invariant
                i <= entries@.len(),
                entries@.map_values(|e: &FileEntry| e@) == listed_views,
                listed_views == fs.entries().filter(|e: FileEntryView| listed(e, agent_prefix(agent_id))),
                plen == agent_prefix(agent_id).len(),
                prefix@ == agent_prefix(agent_id),
                out@.map_values(|s: String| s@) == listed_views.take(i as int).map_values(|e: FileEntryView| e.path.skip(plen as int)),
            decreases entries@.len() - i,
        {
            let e = entries[i];
            let p = e.path.as_str();
            proof {
                assert(listed_views[i as int] == e@);
                assert(listed(e@, agent_prefix(agent_id))) by {
                    broadcast use vstd::seq_lib::group_filter_ensures;
                    assert(listed_views.contains(listed_views[i as int]));
                }
            }
            let n = p.unicode_len();
            let rest = String::from_str(p.substring_char(plen, n));
            assert(rest@ =~= e@.path.skip(plen as int));
            let ghost out0 = out@;
            out.push(rest);
            proof {
                assert(out@.map_values(|s: String| s@) =~= out0.map_values(|s: String| s@).push(rest@));
                assert(listed_views.take(i + 1) =~= listed_views.take(i as int).push(e@));
                assert(out@.map_values(|s: String| s@) =~= listed_views.take(i + 1).map_values(|e: FileEntryView| e.path.skip(plen as int)));
            }
            i = i + 1;
        }
        assert(listed_views.take(i as int) =~= listed_views);
        out
    }

    /// Forget everything of `agent_id`: its cache and (marked deleted) its files.
    pub fn clear_agent(&mut self, fs: &mut OxideFs, agent_id: AgentId)
        requires
            old(self).wf(),
            old(fs).wf(),
        ensures
            final(self).wf(),
            final(fs).wf(),
            final(self).cached() == old(self).cached().remove(agent_id),
            forall|p: Seq<char>| #[trigger] entry_for(final(fs).entries(), p) == match entry_for(old(fs).entries(), p) {
                Some(e) => if listed(e, agent_prefix(agent_id)) {
                    Some(FileEntryView { deleted: true, ..e })
                } else {
                    Some(e)
                },
                None => None,
            },
    {
        broadcast use vstd::std_specs::btree::group_btree_axioms;
        let ghost c0 = self.cached();
        let _ = self.cache.remove(&agent_id);
        assert(self.cached() =~= c0.remove(agent_id));
        let prefix = prefix_string(agent_id);
        let ghost pre = agent_prefix(agent_id);
        let ghost s0 = old(fs).entries();
        let ghost lv = s0.filter(|e: FileEntryView| listed(e, pre));
        let mut paths: Vec<String> = Vec::new();
        {
            let entries = fs.list(prefix.as_str());
            let mut i: usize = 0;
            while i < entries.len()
                invariant
                    i <= entries@.len(),
                    entries@.map_values(|e: &FileEntry| e@) == lv,
                    paths@.len() == i,
                    forall|j: int| 0 <= j < i ==> paths@[j]@ == #[trigger] lv[j].path,
                decreases entries@.len() - i,
            {
                assert(lv[i as int] == entries@[i as int]@);
                paths.push(entries[i].path.clone());
                i = i + 1;
            }
        }
        proof {
            broadcast use vstd::seq_lib::group_filter_ensures;
            // Every listed path is in `paths`, and every path of `paths` names a listed entry.
            assert forall|p: Seq<char>| #[trigger] entry_for(s0, p) matches Some(e) && listed(e, pre)
                implies exists|j: int| 0 <= j < paths@.len() && paths@[j]@ == p by {
                let k = choose|k: int| 0 <= k < s0.len() && s0[k].path == p;
                assert(s0.filter(|e: FileEntryView| listed(e, pre)).contains(s0[k]));
                let j = choose|j: int| 0 <= j < lv.len() && lv[j] == s0[k];
                assert(paths@[j]@ == p);
            }
            assert forall|j: int| 0 <= j < paths@.len() implies #[trigger] entry_for(s0, paths@[j]@) == Some(lv[j]) && listed(lv[j], pre) by {
                s0.lemma_filter_contains_rev(|e: FileEntryView| listed(e, pre), lv[j]);
                let k = choose|k: int| 0 <= k < s0.len() && s0[k] == lv[j];
                old(fs).lemma_entry_at(k);
            }
        }
        let mut i: usize = 0;
        while i < paths.len()
            invariant
                i <= paths@.len(),
                fs.wf(),
                s0 == old(fs).entries(),
                forall|j: int| 0 <= j < paths@.len() ==> #[trigger] entry_for(s0, paths@[j]@) == Some(lv[j]) && listed(lv[j], pre),
                forall|p: Seq<char>| #[trigger] entry_for(fs.entries(), p) == if exists|j: int| 0 <= j < i && paths@[j]@ == p {
                    match entry_for(s0, p) {
                        Some(e) => Some(FileEntryView { deleted: true, ..e }),
                        None => None,
                    }
                } else {
                    entry_for(s0, p)
                },
            decreases paths@.len() - i,
        {
            let ghost before = fs.entries();
            let ghost q = paths@[i as int]@;
            fs.delete_file(paths[i].as_str());
            proof {
                assert forall|p: Seq<char>| #[trigger] entry_for(fs.entries(), p) == if exists|j: int| 0 <= j < i + 1 && paths@[j]@ == p {
                    match entry_for(s0, p) {
                        Some(e) => Some(FileEntryView { deleted: true, ..e }),
                        None => None,
                    }
                } else {
                    entry_for(s0, p)
                } by {
                    if p == q {
                        assert(paths@[i as int]@ == p);
                        assert(entry_for(s0, q) == Some(lv[i as int]));
                    } else {
                        if exists|j: int| 0 <= j < i + 1 && paths@[j]@ == p {
                            let j = choose|j: int| 0 <= j < i + 1 && paths@[j]@ == p;
                            assert(j < i);
                        }
                    }
                }
            }
            i = i + 1;
        }
        proof {
            assert forall|p: Seq<char>| #[trigger] entry_for(fs.entries(), p) == match entry_for(s0, p) {
                Some(e) => if listed(e, pre) {
                    Some(FileEntryView { deleted: true, ..e })
                } else {
                    Some(e)
                },
                None => None,
            } by {
                if exists|j: int| 0 <= j < i && paths@[j]@ == p {
                    let j = choose|j: int| 0 <= j < i && paths@[j]@ == p;
                    assert(entry_for(s0, paths@[j]@) == Some(lv[j]));
                } else {
                    if entry_for(s0, p) matches Some(e) && listed(e, pre) {
                        let j = choose|j: int| 0 <= j < paths@.len() && paths@[j]@ == p;
                        assert(false);
                    }
                }
            }
        }
    }
}

/// Store `value` under `key` for `agent_id`, who must hold `cap_id` with write rights.
pub fn set(
    store: &mut ContextStore,
    table: &CapabilityTable,
    fs: &mut OxideFs,
    agent_id: AgentId,
    key: &str,
    value: &[u8],
    cap_id: CapId,
    now: u64,
) -> (r: Result<(), &'static str>)
    requires
        table.wf(),
        old(store).wf(),
        old(fs).wf(),
        old(fs).next_blob() < u64::MAX,
        old(fs).total() + value@.len() <= u64::MAX,
    ensures
        final(store).wf(),
        final(fs).wf(),
        validate_result(table.caps(), cap_id as int, agent_id, WRITE_BIT) is Err ==> (r matches Err(m)
            && m@ == "insufficient storage capability"@ && *final(store) == *old(store) && *final(fs) == *old(fs)),
        validate_result(table.caps(), cap_id as int, agent_id, WRITE_BIT) is Ok ==> r is Ok
            && value_stored(*old(store), *final(store), *final(fs), agent_id, key@, value@),
{
    if table.validate(cap_id, agent_id, PermissionBits::write()).is_err() {
        return Err("insufficient storage capability");
    }
    store.set(fs, agent_id, key, value, now);
    Ok(())
}

/// The value of `key` for `agent_id`, who must hold `cap_id` with read rights.
pub fn get(
    store: &ContextStore,
    table: &CapabilityTable,
    fs: &OxideFs,
    agent_id: AgentId,
    key: &str,
    cap_id: CapId,
) -> (r: Result<Option<Vec<u8>>, &'static str>)
    requires
        table.wf(),
        store.wf(),
        fs.wf(),
    ensures
        validate_result(table.caps(), cap_id as int, agent_id, READ_BIT) is Err ==> (r matches Err(m)
            && m@ == "insufficient storage capability"@),
        validate_result(table.caps(), cap_id as int, agent_id, READ_BIT) is Ok ==> (r matches Ok(v) && match v {
            Some(v) => context_lookup(*store, *fs, agent_id, key@) == Some(v@),
            None => context_lookup(*store, *fs, agent_id, key@) is None,
        }),
{
    if table.validate(cap_id, agent_id, PermissionBits::read()).is_err() {
        return Err("insufficient storage capability");
    }
    Ok(store.get(fs, agent_id, key))
}

} // verus!

use vstd::prelude::*;
use std::collections::BTreeMap;
use super::{AgentId, AgentState, AgentConfig};
use crate::capability::resource::str_eq;
use crate::ipc::key_order::sorted_keys;

verus! {

/// A registered agent.
pub struct Agent {
    pub id: AgentId,
    pub config: AgentConfig,
    pub state: AgentState,
    pub parent: Option<AgentId>,
    pub children: Vec<AgentId>,
    pub restart_count: u32,
    pub max_restarts: u32,
}

/// The agents, by id, and an index from name to id.
pub struct AgentRegistry {
    agents: BTreeMap<AgentId, Agent>,
    name_index: Vec<(String, AgentId)>,
}

/// Each agent is stored under its own id and lists only children with larger ids (a
/// child is always created after its parent).
pub open spec fn agents_wf(m: Map<AgentId, Agent>) -> bool {
    &&& m.dom().finite()
    &&& forall|k: AgentId| #[trigger] m.contains_key(k) ==> m[k].id == k
    &&& forall|k: AgentId, j: int| #[trigger] m.contains_key(k) && 0 <= j < m[k].children@.len()
        ==> k < #[trigger] m[k].children@[j]
}

/// The index maps each name at most once.
pub open spec fn names_wf(s: Seq<(String, AgentId)>) -> bool {
    forall|i: int, j: int| 0 <= i < j < s.len() ==> s[i].0@ != s[j].0@
}

/// The name index as a map.
pub open spec fn names_map(s: Seq<(String, AgentId)>) -> Map<Seq<char>, AgentId> {
    Map::new(
        |n: Seq<char>| exists|i: int| 0 <= i < s.len() && s[i].0@ == n,
        |n: Seq<char>| s[choose|i: int| 0 <= i < s.len() && s[i].0@ == n].1,
    )
}

/// `b` is `a` except, perhaps, for its children.
pub open spec fn same_but_children(a: Agent, b: Agent) -> bool {
    &&& a.id == b.id
    &&& a.config == b.config
    &&& a.state == b.state
    &&& a.parent == b.parent
    &&& a.restart_count == b.restart_count
    &&& a.max_restarts == b.max_restarts
}

/// `after` is `before` with the children of `parent` replaced by `kids` (if `parent` exists).
pub open spec fn children_set(before: Map<AgentId, Agent>, after: Map<AgentId, Agent>, parent: AgentId, kids: Seq<AgentId>) -> bool {
    &&& after.dom() == before.dom()
    &&& forall|k: AgentId| #[trigger] before.contains_key(k) && k != parent ==> after[k] == before[k]
    &&& before.contains_key(parent) ==> same_but_children(before[parent], after[parent]) && after[parent].children@ == kids
}

/// The name index finds the id an agent was registered under, and still finds nothing
/// for a name never registered.
pub proof fn lemma_name_lookup(before: Map<Seq<char>, AgentId>, name: Seq<char>, id: AgentId, other: Seq<char>)
    ensures
        before.insert(name, id).contains_key(name) && before.insert(name, id)[name] == id,
        other != name && !before.contains_key(other) ==> !before.insert(name, id).contains_key(other),
{
}

/// The rows printed for the subtree of `id` at `depth`: the agent itself, then the
/// subtrees of its children that exist, one level deeper, in order.
pub open spec fn subtree_rows(m: Map<AgentId, Agent>, id: AgentId, depth: u64) -> Seq<(u64, AgentId)>
    decreases u64::MAX - id, m[id].children@.len() + 1,
{
    seq![(depth, id)] + children_rows(m, m[id].children@, id, (depth + 1) as u64)
}

/// The rows of the subtrees of `kids`, children of `parent`, at `depth`.
pub open spec fn children_rows(m: Map<AgentId, Agent>, kids: Seq<AgentId>, parent: AgentId, depth: u64) -> Seq<(u64, AgentId)>
    decreases u64::MAX - parent, kids.len(),
{
    if kids.len() == 0 {
        seq![]
    } else {
        let rest = children_rows(m, kids.drop_first(), parent, depth);
        if m.contains_key(kids[0]) && parent < kids[0] {
            subtree_rows(m, kids[0], depth) + rest
        } else {
            rest
        }
    }
}

/// The rows of the trees rooted at the agents of `ids` that have no parent, in order.
pub open spec fn forest_rows(m: Map<AgentId, Agent>, ids: Seq<AgentId>) -> Seq<(u64, AgentId)>
    decreases ids.len(),
{
    if ids.len() == 0 {
        seq![]
    } else {
        let rest = forest_rows(m, ids.drop_first());
        if m.contains_key(ids[0]) && m[ids[0]].parent is None {
            subtree_rows(m, ids[0], 0) + rest
        } else {
            rest
        }
    }
}

impl AgentRegistry {
    /// The agents by id.
    pub closed spec fn agents(&self) -> Map<AgentId, Agent> {
        self.agents@
    }

    /// The name index.
    pub closed spec fn names(&self) -> Map<Seq<char>, AgentId> {
        names_map(self.name_index@)
    }

    pub closed spec fn wf(&self) -> bool {
        &&& agents_wf(self.agents@)
        &&& names_wf(self.name_index@)
    }

    /// What well-formedness guarantees of the agents.
    pub proof fn lemma_wf(&self)
        requires
            self.wf(),
        ensures
            self.agents().dom().finite(),
            forall|k: AgentId| #[trigger] self.agents().contains_key(k) ==> self.agents()[k].id == k,
            forall|k: AgentId, j: int| #[trigger] self.agents().contains_key(k) && 0 <= j < self.agents()[k].children@.len()
                ==> k < #[trigger] self.agents()[k].children@[j],
    {
    }

    pub fn new() -> (r: Self)
        ensures
            r.wf(),
            r.agents() == Map::<AgentId, Agent>::empty(),
            r.names() == Map::<Seq<char>, AgentId>::empty(),
    {
        let r = AgentRegistry { agents: BTreeMap::new(), name_index: Vec::new() };
        assert(r.names() =~= Map::<Seq<char>, AgentId>::empty());
        r
    }

    /// Position of `name` in the name index.
    fn name_pos(&self, name: &str) -> (r: Option<usize>)
        requires
            self.wf(),
        ensures
            match r {
                Some(i) => i < self.name_index@.len() && self.name_index@[i as int].0@ == name@,
                None => forall|i: int| 0 <= i < self.name_index@.len() ==> self.name_index@[i].0@ != name@,
            },
    {
        let mut i: usize = 0;
        while i < self.name_index.len()
            invariant
                i <= self.name_index@.len(),
                forall|j: int| 0 <= j < i ==> self.name_index@[j].0@ != name@,
            decreases self.name_index@.len() - i,
        {
            if str_eq(self.name_index[i].0.as_str(), name) {
                return Some(i);
            }
            i = i + 1;
        }
        None
    }

    proof fn lemma_names_at(s: Seq<(String, AgentId)>, i: int)
        requires
            names_wf(s),
            0 <= i < s.len(),
        ensures
            names_map(s).contains_key(s[i].0@),
            names_map(s)[s[i].0@] == s[i].1,
    {
        let j = choose|j: int| 0 <= j < s.len() && s[j].0@ == s[i].0@;
        assert(j == i) by {
            if j < i {
                assert(s[j].0@ != s[i].0@);
            } else if j > i {
                assert(s[i].0@ != s[j].0@);
            }
        }
    }

    /// Map `name` to `id` in the index.
    fn index_name(&mut self, name: String, id: AgentId)
        requires
            old(self).wf(),
        ensures
            final(self).wf(),
            final(self).agents() == old(self).agents(),
            final(self).names() == old(self).names().insert(name@, id),
    {
        let ghost n = name@;
        let ghost old_s = self.name_index@;
        match self.name_pos(name.as_str()) {
            Some(i) => {
                self.name_index.set(i, (name, id));
                proof {
                    let s = self.name_index@;
                    assert(names_wf(s)) by {
                        assert forall|a: int, b: int| 0 <= a < b < s.len() implies s[a].0@ != s[b].0@ by {
                            if a != i && b != i {
                                assert(s[a] == old_s[a] && s[b] == old_s[b]);
                            } else if a == i {
                                assert(s[b] == old_s[b]);
                            } else {
                                assert(s[a] == old_s[a]);
                            }
                        }
                    }
                    assert forall|m: Seq<char>| #[trigger] names_map(s).contains_key(m) <==> names_map(old_s).insert(n, id).contains_key(m) by {
                        if names_map(old_s).contains_key(m) && m != n {
                            let j = choose|j: int| 0 <= j < old_s.len() && old_s[j].0@ == m;
                            assert(s[j] == old_s[j]);
                        }
                        if names_map(s).contains_key(m) && m != n {
                            let j = choose|j: int| 0 <= j < s.len() && s[j].0@ == m;
                            assert(j != i);
                            assert(s[j] == old_s[j]);
                        }
                        if m == n {
                            assert(s[i as int].0@ == n);
                        }
                    }
                    assert forall|m: Seq<char>| names_map(s).contains_key(m) implies #[trigger] names_map(s)[m] == names_map(old_s).insert(n, id)[m] by {
                        let j = choose|j: int| 0 <= j < s.len() && s[j].0@ == m;
                        Self::lemma_names_at(s, j);
                        if m != n {
                            assert(j != i);
                            assert(s[j] == old_s[j]);
                            Self::lemma_names_at(old_s, j);
                        }
                    }
                    assert(names_map(s) =~= names_map(old_s).insert(n, id));
                }
            },
            None => {
                self.name_index.push((name, id));
                proof {
                    let s = self.name_index@;
                    assert(s[s.len() - 1].0@ == n);
                    assert(names_wf(s)) by {
                        assert forall|a: int, b: int| 0 <= a < b < s.len() implies s[a].0@ != s[b].0@ by {
                            assert(s[a] == old_s[a]);
                            if b < old_s.len() {
                                assert(s[b] == old_s[b]);
                            }
                        }
                    }
                    assert forall|m: Seq<char>| #[trigger] names_map(s).contains_key(m) <==> names_map(old_s).insert(n, id).contains_key(m) by {
                        if names_map(old_s).contains_key(m) {
                            let j = choose|j: int| 0 <= j < old_s.len() && old_s[j].0@ == m;
                            assert(s[j] == old_s[j]);
                        }
                        if names_map(s).contains_key(m) && m != n {
                            let j = choose|j: int| 0 <= j < s.len() && s[j].0@ == m;
                            assert(j < old_s.len());
                            assert(s[j] == old_s[j]);
                        }
                        if m == n {
                            assert(s[s.len() - 1].0@ == n);
                        }
                    }
                    assert forall|m: Seq<char>| names_map(s).contains_key(m) implies #[trigger] names_map(s)[m] == names_map(old_s).insert(n, id)[m] by {
                        let j = choose|j: int| 0 <= j < s.len() && s[j].0@ == m;
                        Self::lemma_names_at(s, j);
                        if m != n {
                            assert(j < old_s.len());
                            assert(s[j] == old_s[j]);
                            Self::lemma_names_at(old_s, j);
                        }
                    }
                    assert(names_map(s) =~= names_map(old_s).insert(n, id));
                }
            },
        }
    }

    /// Drop `name` from the index.
    fn unindex_name(&mut self, name: &str)
        requires
            old(self).wf(),
        ensures
            final(self).wf(),
            final(self).agents() == old(self).agents(),
            final(self).names() == old(self).names().remove(name@),
    {
        let ghost old_s = self.name_index@;
        match self.name_pos(name) {
            Some(i) => {
                self.name_index.remove(i);
                proof {
                    let s = self.name_index@;
                    assert(s =~= old_s.take(i as int) + old_s.skip(i + 1));
                    assert forall|j: int| 0 <= j < s.len() implies #[trigger] s[j] == (if j < i { old_s[j] } else { old_s[j + 1] }) by {}
                    assert(names_wf(s)) by {
                        assert forall|a: int, b: int| 0 <= a < b < s.len() implies s[a].0@ != s[b].0@ by {
                            let a0 = if a < i { a } else { a + 1 };
                            let b0 = if b < i { b } else { b + 1 };
                            assert(s[a] == old_s[a0] && s[b] == old_s[b0]);
                        }
                    }
                    assert forall|m: Seq<char>| #[trigger] names_map(s).contains_key(m) <==> names_map(old_s).remove(name@).contains_key(m) by {
                        if names_map(old_s).contains_key(m) && m != name@ {
                            let j = choose|j: int| 0 <= j < old_s.len() && old_s[j].0@ == m;
                            assert(j != i);
                            if j < i {
                                assert(s[j] == old_s[j]);
                            } else {
                                assert(s[j - 1] == old_s[j]);
                            }
                        }
                        if names_map(s).contains_key(m) {
                            let j = choose|j: int| 0 <= j < s.len() && s[j].0@ == m;
                            let j0 = if j < i { j } else { j + 1 };
                            assert(s[j] == old_s[j0]);
                            assert(j0 != i);
                            assert(old_s[i as int].0@ != old_s[j0].0@);
                        }
                    }
                    assert forall|m: Seq<char>| names_map(s).contains_key(m) implies #[trigger] names_map(s)[m] == names_map(old_s).remove(name@)[m] by {
                        let j = choose|j: int| 0 <= j < s.len() && s[j].0@ == m;
                        let j0 = if j < i { j } else { j + 1 };
                        assert(s[j] == old_s[j0]);
                        Self::lemma_names_at(s, j);
                        Self::lemma_names_at(old_s, j0);
                    }
                    assert(names_map(s) =~= names_map(old_s).remove(name@));
                }
            },
            None => {
                proof {
                    assert(!names_map(old_s).contains_key(name@));
                    assert(names_map(old_s) =~= names_map(old_s).remove(name@));
                }
            },
        }
    }

    /// Add `agent` under its id, and its name to the index. The agent lists only
    /// children with larger ids.
    pub fn register(&mut self, agent: Agent)
        requires
            old(self).wf(),
            forall|j: int| 0 <= j < agent.children@.len() ==> agent.id < #[trigger] agent.children@[j],
        ensures
            final(self).wf(),
            final(self).agents() == old(self).agents().insert(agent.id, agent),
            final(self).names() == old(self).names().insert(agent.config.name@, agent.id),
    {
        broadcast use vstd::std_specs::btree::group_btree_axioms;
        let name = agent.config.name.clone();
        let id = agent.id;
        self.index_name(name, id);
        let ghost m0 = self.agents@;
        self.agents.insert(id, agent);
        proof {
            let m = self.agents@;
            assert forall|k: AgentId, j: int| #[trigger] m.contains_key(k) && 0 <= j < m[k].children@.len()
                implies k < #[trigger] m[k].children@[j] by {
                if k != id {
                    assert(m[k] == m0[k]);
                }
            }
        }
    }

    /// Remove the agent `id` and its name from the index; the agent is returned.
    pub fn unregister(&mut self, id: AgentId) -> (r: Option<Agent>)
        requires
            old(self).wf(),
        ensures
            final(self).wf(),
            final(self).agents() == old(self).agents().remove(id),
            match r {
                Some(a) => old(self).agents().contains_key(id) && a == old(self).agents()[id]
                    && final(self).names() == old(self).names().remove(a.config.name@),
                None => !old(self).agents().contains_key(id) && final(self).names() == old(self).names(),
            },
    {
        broadcast use vstd::std_specs::btree::group_btree_axioms;
        let ghost m0 = self.agents@;
        match self.agents.remove(&id) {
            Some(agent) => {
                proof {
                    let m = self.agents@;
                    assert forall|k: AgentId, j: int| #[trigger] m.contains_key(k) && 0 <= j < m[k].children@.len()
                        implies k < #[trigger] m[k].children@[j] by {
                        assert(m[k] == m0[k]);
                    }
                }
                self.unindex_name(agent.config.name.as_str());
                Some(agent)
            },
            None => None,
        }
    }

    /// The agent `id`.
    pub fn get(&self, id: AgentId) -> (r: Option<&Agent>)
        ensures
            match r {
                Some(a) => self.agents().contains_key(id) && *a == self.agents()[id],
                None => !self.agents().contains_key(id),
            },
    {
        broadcast use vstd::std_specs::btree::group_btree_axioms;
        self.agents.get(&id)
    }

    /// The id the index holds for `name`.
    pub fn find_by_name(&self, name: &str) -> (r: Option<AgentId>)
        requires
            self.wf(),
        ensures
            match r {
                Some(id) => self.names().contains_key(name@) && self.names()[name@] == id,
                None => !self.names().contains_key(name@),
            },
    {
        match self.name_pos(name) {
            Some(i) => {
                proof {
                    Self::lemma_names_at(self.name_index@, i as int);
                }
                Some(self.name_index[i].1)
            },
            None => None,
        }
    }

    /// Number of agents.
    pub fn count(&self) -> (n: usize)
        ensures
            n == self.agents().len(),
    {
        broadcast use vstd::std_specs::btree::group_btree_axioms;
        self.agents.len()
    }

    /// The agent ids in increasing order.
    pub fn all_ids(&self) -> (r: Vec<AgentId>)
        ensures
            forall|i: int, j: int| 0 <= i < j < r@.len() ==> r@[i] < r@[j],
            r@.to_set() == self.agents().dom(),
    {
        sorted_keys(&self.agents)
    }

    /// Replace the agent `id` by `f`-like update: used by the mutators below.
    fn replace(&mut self, a: Agent)
        requires
            old(self).wf(),
            old(self).agents().contains_key(a.id),
            a.config.name@ == old(self).agents()[a.id].config.name@,
            forall|j: int| 0 <= j < a.children@.len() ==> a.id < #[trigger] a.children@[j],
        ensures
            final(self).wf(),
            final(self).agents() == old(self).agents().insert(a.id, a),
            final(self).names() == old(self).names(),
    {
        broadcast use vstd::std_specs::btree::group_btree_axioms;
        let ghost m0 = self.agents@;
        let id = a.id;
        self.agents.insert(id, a);
        proof {
            let m = self.agents@;
            assert forall|k: AgentId, j: int| #[trigger] m.contains_key(k) && 0 <= j < m[k].children@.len()
                implies k < #[trigger] m[k].children@[j] by {
                if k != id {
                    assert(m[k] == m0[k]);
                }
            }
        }
    }

    /// Set the state of agent `id`; `false` if there is none.
    pub fn set_state(&mut self, id: AgentId, state: AgentState) -> (r: bool)
        requires
            old(self).wf(),
        ensures
            final(self).wf(),
            r == old(self).agents().contains_key(id),
            final(self).names() == old(self).names(),
            final(self).agents() == if r {
                old(self).agents().insert(id, Agent { state, ..old(self).agents()[id] })
            } else {
                old(self).agents()
            },
    {
        broadcast use vstd::std_specs::btree::group_btree_axioms;
        match self.agents.remove(&id) {
            Some(a) => {
                let ghost m0 = old(self).agents@;
                self.agents.insert(id, Agent { state, ..a });
                proof {
                    let m = self.agents@;
                    assert forall|k: AgentId, j: int| #[trigger] m.contains_key(k) && 0 <= j < m[k].children@.len()
                        implies k < #[trigger] m[k].children@[j] by {
                        assert(m[k].children@ == m0[k].children@);
                    }
                    assert(m =~= m0.insert(id, Agent { state, ..m0[id] }));
                }
                true
            },
            None => false,
        }
    }

    /// Count one more restart of agent `id`, if there is one (saturating at `u32::MAX`).
    pub fn increment_restart_count(&mut self, id: AgentId)
        requires
            old(self).wf(),
        ensures
            final(self).wf(),
            final(self).names() == old(self).names(),
            final(self).agents() == if old(self).agents().contains_key(id) {
                old(self).agents().insert(id, Agent {
                    restart_count: if old(self).agents()[id].restart_count < u32::MAX {
                        (old(self).agents()[id].restart_count + 1) as u32
                    } else {
                        u32::MAX
                    },
                    ..old(self).agents()[id]
                })
            } else {
                old(self).agents()
            },
    {
        broadcast use vstd::std_specs::btree::group_btree_axioms;
        match self.agents.remove(&id) {
            Some(a) => {
                let ghost m0 = old(self).agents@;
                let rc = if a.restart_count < u32::MAX { a.restart_count + 1 } else { u32::MAX };
                self.agents.insert(id, Agent { restart_count: rc, ..a });
                proof {
                    let m = self.agents@;
                    assert forall|k: AgentId, j: int| #[trigger] m.contains_key(k) && 0 <= j < m[k].children@.len()
                        implies k < #[trigger] m[k].children@[j] by {
                        assert(m[k].children@ == m0[k].children@);
                    }
                    assert(m =~= m0.insert(id, Agent { restart_count: rc, ..m0[id] }));
                }
            },
            None => {},
        }
    }

    /// Append `child` to the children of `parent`, if there is such an agent; the child
    /// must have a larger id.
    pub fn add_child(&mut self, parent: AgentId, child: AgentId)
        requires
            old(self).wf(),
            parent < child,
        ensures
            final(self).wf(),
            final(self).names() == old(self).names(),
            children_set(old(self).agents(), final(self).agents(), parent, old(self).agents()[parent].children@.push(child)),
    {
        broadcast use vstd::std_specs::btree::group_btree_axioms;
        match self.agents.remove(&parent) {
            Some(a) => {
                let ghost m0 = old(self).agents@;
                let mut a = a;
                a.children.push(child);
                let ghost na = a;
                self.agents.insert(parent, a);
                proof {
                    let m = self.agents@;
                    assert forall|k: AgentId, j: int| #[trigger] m.contains_key(k) && 0 <= j < m[k].children@.len()
                        implies k < #[trigger] m[k].children@[j] by {
                        if k != parent {
                            assert(m[k] == m0[k]);
                        } else if j < m0[k].children@.len() {
                            assert(m[k].children@[j] == m0[k].children@[j]);
                        }
                    }
                    assert(m.dom() =~= m0.dom());
                }
            },
            None => {
                assert(self.agents@ =~= old(self).agents@);
            },
        }
    }

    /// Drop `child` from the children of `parent`, if there is such an agent.
    pub fn remove_child(&mut self, parent: AgentId, child: AgentId)
        requires
            old(self).wf(),
        ensures
            final(self).wf(),
            final(self).names() == old(self).names(),
            children_set(old(self).agents(), final(self).agents(), parent,
                old(self).agents()[parent].children@.filter(|c: AgentId| c != child)),
    {
        broadcast use vstd::std_specs::btree::group_btree_axioms;
        match self.agents.remove(&parent) {
            Some(a) => {
                let ghost m0 = old(self).agents@;
                let mut a = a;
                let mut kept: Vec<AgentId> = Vec::new();
                let mut i: usize = 0;
                while i < a.children.len()
                    invariant
                        i <= a.children@.len(),
                        kept@ == a.children@.take(i as int).filter(|c: AgentId| c != child),
                    decreases a.children@.len() - i,
                {
                    let c = a.children[i];
                    proof {
                        a.children@.take(i as int).lemma_filter_push(c, |c: AgentId| c != child);
                        assert(a.children@.take(i as int).push(c) =~= a.children@.take(i + 1));
                    }
                    if c != child {
                        kept.push(c);
                    }
                    i = i + 1;
                }
                assert(a.children@.take(i as int) =~= a.children@);
                let ghost a0 = a;
                a.children = kept;
                let ghost na = a;
                self.agents.insert(parent, a);
                proof {
                    let m = self.agents@;
                    assert forall|k: AgentId, j: int| #[trigger] m.contains_key(k) && 0 <= j < m[k].children@.len()
                        implies k < #[trigger] m[k].children@[j] by {
                        if k != parent {
                            assert(m[k] == m0[k]);
                        } else {
                            let f = a0.children@.filter(|c: AgentId| c != child);
                            assert(f.contains(m[k].children@[j])) by {
                                assert(f[j] == m[k].children@[j]);
                            }
                            a0.children@.lemma_filter_contains_rev(|c: AgentId| c != child, m[k].children@[j]);
                        }
                    }
                    assert(m.dom() =~= m0.dom());
                }
            },
            None => {
                assert(self.agents@ =~= old(self).agents@);
            },
        }
    }

    /// Append to `out` the rows of the subtree of `id` printed at `depth`.
    pub fn print_subtree(&self, id: AgentId, depth: u64, out: &mut Vec<(u64, AgentId)>)
        requires
            self.wf(),
            self.agents().contains_key(id),
            depth <= id,
        ensures
            final(out)@ == old(out)@ + subtree_rows(self.agents(), id, depth),
        decreases u64::MAX - id,
    {
        broadcast use vstd::std_specs::btree::group_btree_axioms;
        let ghost m = self.agents();
        let agent = self.agents.get(&id).unwrap();
        let ghost kids = agent.children@;
        out.push((depth, id));
        let ghost child_depth = (depth + 1) as u64;
        let mut i: usize = 0;
        proof {
            assert(kids.skip(0) =~= kids);
        }
        while i < agent.children.len()
            invariant
                self.wf(),
                m == self.agents(),
                m.contains_key(id),
                *agent == m[id],
                kids == agent.children@,
                depth <= id,
                child_depth == (depth + 1) as u64,
                i <= kids.len(),
                out@ + children_rows(m, kids.skip(i as int), id, child_depth)
                    == old(out)@ + subtree_rows(m, id, depth),
            decreases kids.len() - i,
        {
            let c = agent.children[i];
            proof {
                assert(kids.skip(i as int).drop_first() =~= kids.skip(i + 1));
                assert(kids.skip(i as int)[0] == c);
                assert(id < c);
            }
            if self.agents.contains_key(&c) {
                self.print_subtree(c, depth + 1, out);
                proof {
                    assert(out@ + children_rows(m, kids.skip(i + 1), id, child_depth)
                        =~= old(out)@ + subtree_rows(m, id, depth));
                }
            }
            i = i + 1;
        }
        proof {
            assert(kids.skip(i as int) =~= Seq::<AgentId>::empty());
            assert(out@ =~= out@ + children_rows(m, kids.skip(i as int), id, child_depth));
        }
    }

    /// The rows of the agent tree: each root (an agent without parent), in increasing id
    /// order, followed by its subtree, each agent at its depth below its root.
    pub fn print_tree(&self) -> (rows: Vec<(u64, AgentId)>)
        requires
            self.wf(),
        ensures
            exists|ids: Seq<AgentId>| {
                &&& forall|i: int, j: int| 0 <= i < j < ids.len() ==> ids[i] < ids[j]
                &&& ids.to_set() == self.agents().dom()
                &&& rows@ == forest_rows(self.agents(), ids)
            },
    {
        broadcast use vstd::std_specs::btree::group_btree_axioms;
        let ghost m = self.agents();
        let ids = self.all_ids();
        let mut rows: Vec<(u64, AgentId)> = Vec::new();
        let mut i: usize = 0;
        proof {
            assert(ids@.skip(0) =~= ids@);
        }
        while i < ids.len()
            invariant
                self.wf(),
                m == self.agents(),
                ids@.to_set() == m.dom(),
                i <= ids@.len(),
                rows@ + forest_rows(m, ids@.skip(i as int)) == forest_rows(m, ids@),
            decreases ids@.len() - i,
        {
            let id = ids[i];
            proof {
                assert(ids@.skip(i as int).drop_first() =~= ids@.skip(i + 1));
                assert(ids@.skip(i as int)[0] == id);
                assert(ids@.to_set().contains(id)) by {
                    assert(ids@.contains(id));
                }
            }
            let agent = self.agents.get(&id).unwrap();
            if agent.parent.is_none() {
                self.print_subtree(id, 0, &mut rows);
            }
            proof {
                assert(rows@ + forest_rows(m, ids@.skip(i + 1)) =~= forest_rows(m, ids@));
            }
            i = i + 1;
        }
        proof {
            assert(ids@.skip(i as int) =~= Seq::<AgentId>::empty());
            assert(rows@ =~= forest_rows(m, ids@));
        }
        rows
    }
}

} // verus!

use vstd::prelude::*;
use vstd::string::StrSliceExecFns;
use crate::task::TaskId;

verus! {

/// What a capability grants access to.
#[derive(Debug)]
pub enum ResourceRef {
    Agent(TaskId),
    Memory { base: u64, length: u64 },
    Network { host: String, port: u16 },
    Storage { path: String },
    Channel { name: String },
    Tool { name: String },
    Model { model_id: String },
    AgentSpawn,
    System { name: String },
}

/// Mathematical model of a [`ResourceRef`]: strings are taken by their characters.
pub enum ResourceView {
    Agent(TaskId),
    Memory { base: u64, length: u64 },
    Network { host: Seq<char>, port: u16 },
    Storage { path: Seq<char> },
    Channel { name: Seq<char> },
    Tool { name: Seq<char> },
    Model { model_id: Seq<char> },
    AgentSpawn,
    System { name: Seq<char> },
}

impl View for ResourceRef {
    type V = ResourceView;

    open spec fn view(&self) -> ResourceView {
        match self {
            ResourceRef::Agent(t) => ResourceView::Agent(*t),
            ResourceRef::Memory { base, length } => ResourceView::Memory { base: *base, length: *length },
            ResourceRef::Network { host, port } => ResourceView::Network { host: host@, port: *port },
            ResourceRef::Storage { path } => ResourceView::Storage { path: path@ },
            ResourceRef::Channel { name } => ResourceView::Channel { name: name@ },
            ResourceRef::Tool { name } => ResourceView::Tool { name: name@ },
            ResourceRef::Model { model_id } => ResourceView::Model { model_id: model_id@ },
            ResourceRef::AgentSpawn => ResourceView::AgentSpawn,
            ResourceRef::System { name } => ResourceView::System { name: name@ },
        }
    }
}

/// The wildcard host `*`.
pub open spec fn wildcard_host() -> Seq<char> {
    seq!['*']
}

/// `child` may be handed out under a capability for `parent`: the same resource, a network
/// endpoint covered by a wildcard host or port 0, or a storage path under the parent's path.
pub open spec fn resource_subset(child: ResourceView, parent: ResourceView) -> bool {
    child == parent || match (child, parent) {
        (
            ResourceView::Network { host: ch, port: cp },
            ResourceView::Network { host: ph, port: pp },
        ) => (ph == wildcard_host() || ch == ph) && (pp == 0 || cp == pp),
        (ResourceView::Storage { path: c }, ResourceView::Storage { path: p }) => p.is_prefix_of(c),
        _ => false,
    }
}

/// `s` starts with `prefix`, character by character.
pub fn str_starts_with(s: &str, prefix: &str) -> (r: bool)
    ensures
        r == prefix@.is_prefix_of(s@),
{
    let n = prefix.unicode_len();
    let m = s.unicode_len();
    if n > m {
        return false;
    }
    let mut i: usize = 0;
    while i < n
        invariant
            n == prefix@.len(),
            m == s@.len(),
            n <= m,
            i <= n,
            forall|j: int| 0 <= j < i ==> s@[j] == prefix@[j],
        decreases n - i,
    {
        if s.get_char(i) != prefix.get_char(i) {
            assert(!(prefix@ =~= s@.subrange(0, n as int))) by {
                assert(s@.subrange(0, n as int)[i as int] == s@[i as int]);
            }
            return false;
        }
        i = i + 1;
    }
    assert(prefix@ =~= s@.subrange(0, n as int));
    true
}

/// `a` and `b` hold the same characters.
pub fn str_eq(a: &str, b: &str) -> (r: bool)
    ensures
        r == (a@ == b@),
{
    if a.unicode_len() != b.unicode_len() {
        return false;
    }
    let r = str_starts_with(a, b);
    proof {
        if r {
            assert(a@ =~= b@);
        }
    }
    r
}

/// `s` is exactly the one-character string `*`.
pub(crate) fn is_wildcard(s: &String) -> (r: bool)
    ensures
        r == (s@ == wildcard_host()),
{
    let t = s.as_str();
    if t.unicode_len() != 1 {
        return false;
    }
    let c = t.get_char(0);
    if c == '*' {
        assert(t@ =~= wildcard_host());
        true
    } else {
        false
    }
}

impl Clone for ResourceRef {
    fn clone(&self) -> (r: Self)
        ensures
            r == *self,
    {
        match self {
            ResourceRef::Agent(t) => ResourceRef::Agent(*t),
            ResourceRef::Memory { base, length } => ResourceRef::Memory { base: *base, length: *length },
            ResourceRef::Network { host, port } => ResourceRef::Network { host: host.clone(), port: *port },
            ResourceRef::Storage { path } => ResourceRef::Storage { path: path.clone() },
            ResourceRef::Channel { name } => ResourceRef::Channel { name: name.clone() },
            ResourceRef::Tool { name } => ResourceRef::Tool { name: name.clone() },
            ResourceRef::Model { model_id } => ResourceRef::Model { model_id: model_id.clone() },
            ResourceRef::AgentSpawn => ResourceRef::AgentSpawn,
            ResourceRef::System { name } => ResourceRef::System { name: name.clone() },
        }
    }
}

impl PartialEq for ResourceRef {
    fn eq(&self, other: &Self) -> (r: bool) {
        match (self, other) {
            (ResourceRef::Agent(a), ResourceRef::Agent(b)) => *a == *b,
            (
                ResourceRef::Memory { base: a, length: l },
                ResourceRef::Memory { base: b, length: m },
            ) => *a == *b && *l == *m,
            (ResourceRef::Network { host: a, port: p }, ResourceRef::Network { host: b, port: q }) => {
                *a == *b && *p == *q
            },
            (ResourceRef::Storage { path: a }, ResourceRef::Storage { path: b }) => *a == *b,
            (ResourceRef::Channel { name: a }, ResourceRef::Channel { name: b }) => *a == *b,
            (ResourceRef::Tool { name: a }, ResourceRef::Tool { name: b }) => *a == *b,
            (ResourceRef::Model { model_id: a }, ResourceRef::Model { model_id: b }) => *a == *b,
            (ResourceRef::AgentSpawn, ResourceRef::AgentSpawn) => true,
            (ResourceRef::System { name: a }, ResourceRef::System { name: b }) => *a == *b,
            _ => false,
        }
    }
}

impl vstd::std_specs::cmp::PartialEqSpecImpl for ResourceRef {
    open spec fn obeys_eq_spec() -> bool {
        true
    }

    open spec fn eq_spec(&self, other: &Self) -> bool {
        self@ == other@
    }
}

impl Eq for ResourceRef {}

impl ResourceRef {
    /// `self` may be delegated from a capability on `parent` (see [`resource_subset`]).
    pub fn is_subset_of(&self, parent: &ResourceRef) -> (r: bool)
        ensures
            r == resource_subset(self@, parent@),
    {
        if self.eq(parent) {
            return true;
        }
        match (self, parent) {
            (ResourceRef::Network { host: ch, port: cp }, ResourceRef::Network { host: ph, port: pp }) => {
                (is_wildcard(ph) || *ch == *ph) && (*pp == 0 || *cp == *pp)
            },
            (ResourceRef::Storage { path: child }, ResourceRef::Storage { path: parent_path }) => {
                str_starts_with(child.as_str(), parent_path.as_str())
            },
            _ => false,
        }
    }
}

/// Every resource covers itself.
pub proof fn lemma_subset_reflexive(r: ResourceView)
    ensures
        resource_subset(r, r),
{
}

/// Covering is transitive, so a chain of delegations never reaches beyond its root.
pub proof fn lemma_subset_transitive(a: ResourceView, b: ResourceView, c: ResourceView)
    requires
        resource_subset(a, b),
        resource_subset(b, c),
    ensures
        resource_subset(a, c),
{
    match (a, b, c) {
        (
            ResourceView::Storage { path: pa },
            ResourceView::Storage { path: pb },
            ResourceView::Storage { path: pc },
        ) => {
            if pc.is_prefix_of(pb) && pb.is_prefix_of(pa) {
                assert(pc =~= pa.subrange(0, pc.len() as int)) by {
                    assert forall|i: int| 0 <= i < pc.len() implies pc[i] == pa.subrange(0, pc.len() as int)[i] by {
                        assert(pb.subrange(0, pc.len() as int)[i] == pb[i]);
                        assert(pa.subrange(0, pb.len() as int)[i] == pa[i]);
                    }
                }
            }
        },
        _ => {},
    }
}

} // verus!

use vstd::prelude::*;
use super::permissions::{PermissionBits, bits_contain, DELEGATE_BIT, lemma_contains_order};
use super::resource::{ResourceRef, resource_subset, lemma_subset_reflexive, lemma_subset_transitive};
use super::CapError;
use crate::task::TaskId;

verus! {

pub type CapId = u64;

/// An unforgeable grant of `permissions` on `resource`, held by `owner`.
#[derive(Debug)]
pub struct Capability {
    pub id: CapId,
    pub resource: ResourceRef,
    pub permissions: PermissionBits,
    pub owner: TaskId,
    pub parent_cap: Option<CapId>,
    pub revoked: bool,
}

impl Clone for Capability {
    fn clone(&self) -> (r: Self)
        ensures
            r == *self,
    {
        Capability {
            id: self.id,
            resource: self.resource.clone(),
            permissions: self.permissions,
            owner: self.owner,
            parent_cap: self.parent_cap,
            revoked: self.revoked,
        }
    }
}

/// The capability stored under `id` in the slots `caps`, if any.
pub open spec fn slot(caps: Seq<Option<Capability>>, id: int) -> Option<Capability> {
    if 0 <= id < caps.len() {
        caps[id]
    } else {
        None
    }
}

/// The capability under `id` exists and has not been revoked.
pub open spec fn is_active(caps: Seq<Option<Capability>>, id: int) -> bool {
    slot(caps, id) is Some && !slot(caps, id).unwrap().revoked
}

/// `x` lies in the active subtree rooted at `root`: `x` is `root`, or its parent lies in
/// that subtree, and every capability on the way is active.
pub open spec fn in_subtree(caps: Seq<Option<Capability>>, x: int, root: int) -> bool
    decreases x,
{
    if is_active(caps, x) {
        if x == root {
            true
        } else {
            match slot(caps, x).unwrap().parent_cap {
                Some(p) => 0 <= p < x && in_subtree(caps, p as int, root),
                None => false,
            }
        }
    } else {
        false
    }
}

/// Number of ids below `n` in the active subtree rooted at `root`.
pub open spec fn subtree_count(caps: Seq<Option<Capability>>, root: int, n: int) -> nat
    decreases n,
{
    if n <= 0 {
        0
    } else {
        subtree_count(caps, root, n - 1) + if in_subtree(caps, n - 1, root) {
            1nat
        } else {
            0nat
        }
    }
}

/// Number of active capabilities among the first `n` slots.
pub open spec fn active_below(caps: Seq<Option<Capability>>, n: int) -> nat
    decreases n,
{
    if n <= 0 {
        0
    } else {
        active_below(caps, n - 1) + if is_active(caps, n - 1) {
            1nat
        } else {
            0nat
        }
    }
}

/// Two slot sequences that agree on the first `n` ids count the same active capabilities there.
proof fn lemma_active_below_same(a: Seq<Option<Capability>>, b: Seq<Option<Capability>>, n: int)
    requires
        forall|j: int| 0 <= j < n ==> #[trigger] slot(a, j) == slot(b, j),
    ensures
        active_below(a, n) == active_below(b, n),
    decreases n,
{
    if n > 0 {
        lemma_active_below_same(a, b, n - 1);
        assert(slot(a, n - 1) == slot(b, n - 1));
    }
}

/// Past the last slot nothing more is counted.
proof fn lemma_active_below_beyond(a: Seq<Option<Capability>>, n: int)
    requires
        n >= a.len(),
    ensures
        active_below(a, n) == active_below(a, a.len() as int),
    decreases n,
{
    if n > a.len() {
        lemma_active_below_beyond(a, n - 1);
    }
}

/// `c` with its revoked flag set.
pub open spec fn revoked_copy(c: Capability) -> Capability {
    Capability { revoked: true, ..c }
}

/// The outcome of a lookup of `id` in `caps`.
pub open spec fn lookup_result(caps: Seq<Option<Capability>>, id: int) -> Result<Capability, CapError> {
    match slot(caps, id) {
        Some(c) => if c.revoked {
            Err(CapError::Revoked)
        } else {
            Ok(c)
        },
        None => Err(CapError::NotFound),
    }
}

/// The outcome of validating `cap_id` for `task` with `required` rights.
pub open spec fn validate_result(
    caps: Seq<Option<Capability>>,
    cap_id: int,
    task: TaskId,
    required: u32,
) -> Result<Capability, CapError> {
    match lookup_result(caps, cap_id) {
        Ok(c) => if c.owner != task {
            Err(CapError::NotOwner)
        } else if !bits_contain(c.permissions@, required) {
            Err(CapError::InsufficientPermissions)
        } else {
            Ok(c)
        },
        Err(e) => Err(e),
    }
}

/// Invariant of the slots of a table whose next id is `next`: each slot holds the capability
/// with its own id, ids start at 1 and stay below `next`, every child names an older parent
/// that still exists, and a child never holds more rights or more resource than its parent.
pub open spec fn caps_wf(caps: Seq<Option<Capability>>, next: u64) -> bool {
    &&& 1 <= next
    &&& caps.len() <= next
    &&& forall|i: int| 0 <= i < caps.len() && (#[trigger] caps[i]) is Some ==> slot_wf(caps, i)
}

/// Slot `i` holds a well-formed capability (see [`caps_wf`]).
pub open spec fn slot_wf(caps: Seq<Option<Capability>>, i: int) -> bool {
    let c = caps[i].unwrap();
    &&& c.id == i
    &&& i >= 1
    &&& match c.parent_cap {
        Some(p) => {
            &&& 1 <= p < i
            &&& caps[p as int] is Some
            &&& bits_contain(caps[p as int].unwrap().permissions@, c.permissions@)
            &&& resource_subset(c.resource@, caps[p as int].unwrap().resource@)
        },
        None => true,
    }
}

/// `after` differs from `before` at most by revoked flags.
pub open spec fn only_flags_changed(before: Seq<Option<Capability>>, after: Seq<Option<Capability>>) -> bool {
    &&& after.len() == before.len()
    &&& forall|j: int|
        0 <= j < before.len() ==> #[trigger] after[j] == before[j] || (before[j] is Some && after[j] == Some(
            revoked_copy(before[j].unwrap()),
        ))
}

proof fn lemma_flags_keep_wf(before: Seq<Option<Capability>>, after: Seq<Option<Capability>>, next: u64)
    requires
        caps_wf(before, next),
        only_flags_changed(before, after),
    ensures
        caps_wf(after, next),
{
    assert forall|i: int| 0 <= i < after.len() && (#[trigger] after[i]) is Some implies slot_wf(after, i) by {
        assert(before[i] is Some);
        assert(slot_wf(before, i));
        let c = before[i].unwrap();
        match c.parent_cap {
            Some(p) => {
                assert(after[p as int] == before[p as int] || after[p as int] == Some(revoked_copy(before[p as int].unwrap())));
            },
            None => {},
        }
    }
}

/// Table of every capability ever created, indexed by id. Slots are never reused:
/// revocation only sets a flag.
pub struct CapabilityTable {
    capabilities: Vec<Option<Capability>>,
    next_id: CapId,
}

impl CapabilityTable {
    /// The slots of the table, indexed by capability id.
    pub closed spec fn caps(&self) -> Seq<Option<Capability>> {
        self.capabilities@
    }

    /// The id the next created capability receives.
    pub closed spec fn next(&self) -> CapId {
        self.next_id
    }

    /// Table invariant: each slot holds the capability with its own id, ids start at 1 and
    /// stay below `next`, every child names an older parent that still exists, and a child
    /// never holds more rights or more resource than its parent.
    pub closed spec fn wf(&self) -> bool {
        caps_wf(self.capabilities@, self.next_id)
    }

    /// What the table invariant gives: ids start at 1, no slot at or past `next` is taken,
    /// each taken slot holds the capability with its own id, and a child names an older
    /// parent whose rights and resource cover its own.
    pub proof fn lemma_wf(&self)
        requires
            self.wf(),
        ensures
            self.next() >= 1,
            forall|j: int| j >= self.next() ==> #[trigger] slot(self.caps(), j) is None,
            forall|j: int| #[trigger] slot(self.caps(), j) is Some ==> {
                let c = slot(self.caps(), j).unwrap();
                &&& c.id == j
                &&& 1 <= j < self.next()
                &&& match c.parent_cap {
                    Some(p) => {
                        &&& 1 <= p < j
                        &&& slot(self.caps(), p as int) is Some
                        &&& bits_contain(slot(self.caps(), p as int).unwrap().permissions@, c.permissions@)
                        &&& resource_subset(c.resource@, slot(self.caps(), p as int).unwrap().resource@)
                    },
                    None => true,
                }
            },
    {
        assert forall|j: int| #[trigger] slot(self.caps(), j) is Some implies {
            let c = slot(self.caps(), j).unwrap();
            &&& c.id == j
            &&& 1 <= j < self.next()
            &&& match c.parent_cap {
                Some(p) => {
                    &&& 1 <= p < j
                    &&& slot(self.caps(), p as int) is Some
                    &&& bits_contain(slot(self.caps(), p as int).unwrap().permissions@, c.permissions@)
                    &&& resource_subset(c.resource@, slot(self.caps(), p as int).unwrap().resource@)
                },
                None => true,
            }
        } by {
            assert(self.capabilities@[j] is Some);
            assert(slot_wf(self.capabilities@, j));
        }
    }

    pub fn new() -> (t: Self)
        ensures
            t.wf(),
            t.caps().len() == 0,
            t.next() == 1,
    {
        CapabilityTable { capabilities: Vec::new(), next_id: 1 }
    }

    /// Store `cap` under the fresh id `next_id` and advance `next_id`.
    fn insert_fresh(&mut self, cap: Capability)
        requires
            old(self).wf(),
            old(self).next_id < usize::MAX,
            cap.id == old(self).next_id,
            cap.revoked == false,
            match cap.parent_cap {
                Some(p) => {
                    &&& is_active(old(self).caps(), p as int)
                    &&& bits_contain(slot(old(self).caps(), p as int).unwrap().permissions@, cap.permissions@)
                    &&& resource_subset(cap.resource@, slot(old(self).caps(), p as int).unwrap().resource@)
                },
                None => true,
            },
        ensures
            final(self).wf(),
            final(self).next() == old(self).next() + 1,
            final(self).caps().len() == old(self).next() + 1,
            forall|j: int| j != cap.id ==> slot(#[trigger] final(self).caps(), j) == slot(old(self).caps(), j),
            slot(final(self).caps(), cap.id as int) == Some(cap),
            slot(old(self).caps(), cap.id as int) is None,
            active_below(final(self).caps(), final(self).caps().len() as int) == active_below(
                old(self).caps(),
                old(self).caps().len() as int,
            ) + 1,
    {
        let idx = self.next_id as usize;
        let ghost old_caps = self.capabilities@;
        while self.capabilities.len() < idx
            invariant
                idx == self.next_id,
                self.capabilities@.len() <= idx,
                old_caps.len() <= self.capabilities@.len(),
                forall|j: int| 0 <= j < old_caps.len() ==> self.capabilities@[j] == old_caps[j],
                forall|j: int| old_caps.len() <= j < self.capabilities@.len() ==> self.capabilities@[j] is None,
            decreases idx - self.capabilities@.len(),
        {
            self.capabilities.push(None);
        }
        self.capabilities.push(Some(cap));
        self.next_id = self.next_id + 1;
        proof {
            let cur = self.capabilities@;
            assert forall|i: int| 0 <= i < cur.len() && (#[trigger] cur[i]) is Some implies slot_wf(cur, i) by {
                if i < old_caps.len() {
                    assert(old_caps[i] is Some);
                    assert(slot_wf(old_caps, i));
                } else {
                    assert(i == idx);
                }
            }
            assert forall|j: int| j != cap.id implies slot(self.capabilities@, j) == slot(old_caps, j) by {}
            assert(slot(self.capabilities@, cap.id as int) == Some(cap));
            assert forall|j: int| 0 <= j < idx implies #[trigger] slot(cur, j) == slot(old_caps, j) by {}
            lemma_active_below_same(cur, old_caps, idx as int);
            lemma_active_below_beyond(old_caps, idx as int);
            assert(is_active(cur, idx as int));
        }
    }

    /// Create a root capability (no parent) for `owner`.
    pub fn create_root(
        &mut self,
        owner: TaskId,
        resource: ResourceRef,
        permissions: PermissionBits,
    ) -> (id: CapId)
        requires
            old(self).wf(),
            old(self).next() < usize::MAX,
        ensures
            final(self).wf(),
            id == old(self).next(),
            final(self).next() == old(self).next() + 1,
            slot(final(self).caps(), id as int) == Some(
                Capability { id, resource, permissions, owner, parent_cap: None, revoked: false },
            ),
            forall|j: int| j != id ==> slot(#[trigger] final(self).caps(), j) == slot(old(self).caps(), j),
            slot(old(self).caps(), id as int) is None,
            active_below(final(self).caps(), final(self).caps().len() as int) == active_below(
                old(self).caps(),
                old(self).caps().len() as int,
            ) + 1,
    {
        let id = self.next_id;
        let cap = Capability { id, resource, permissions, owner, parent_cap: None, revoked: false };
        self.insert_fresh(cap);
        id
    }

    /// Look up a capability: `NotFound` for an id never created, `Revoked` for a revoked one.
    pub fn get(&self, id: CapId) -> (r: Result<&Capability, CapError>)
        requires
            self.wf(),
        ensures
            match (r, lookup_result(self.caps(), id as int)) {
                (Ok(c), Ok(d)) => *c == d,
                (Err(e), Err(f)) => e == f,
                _ => false,
            },
            r is Ok ==> r->Ok_0.id == id,
    {
        if id >= self.capabilities.len() as u64 {
            return Err(CapError::NotFound);
        }
        proof {
            if self.capabilities@[id as int] is Some {
                assert(slot_wf(self.capabilities@, id as int));
            }
        }
        match &self.capabilities[id as usize] {
            Some(cap) => {
                if !cap.revoked {
                    Ok(cap)
                } else {
                    Err(CapError::Revoked)
                }
            },
            None => Err(CapError::NotFound),
        }
    }

    /// The capability exists, is not revoked, belongs to `task_id` and holds `required`.
    pub fn validate(&self, cap_id: CapId, task_id: TaskId, required: PermissionBits) -> (r: Result<
        &Capability,
        CapError,
    >)
        requires
            self.wf(),
        ensures
            match (r, validate_result(self.caps(), cap_id as int, task_id, required@)) {
                (Ok(c), Ok(d)) => *c == d,
                (Err(e), Err(f)) => e == f,
                _ => false,
            },
            r is Ok ==> r->Ok_0.id == cap_id,
    {
        let cap = match self.get(cap_id) {
            Ok(c) => c,
            Err(e) => return Err(e),
        };
        if cap.owner != task_id {
            return Err(CapError::NotOwner);
        }
        if !cap.permissions.contains(required) {
            return Err(CapError::InsufficientPermissions);
        }
        Ok(cap)
    }

    /// Delegate `source_id` (owned by `from`) to `to` with `permissions`, optionally narrowing
    /// the resource. The child never holds more than its source.
    pub fn delegate(
        &mut self,
        source_id: CapId,
        from: TaskId,
        to: TaskId,
        permissions: PermissionBits,
        resource_override: Option<ResourceRef>,
    ) -> (r: Result<CapId, CapError>)
        requires
            old(self).wf(),
            old(self).next() < usize::MAX,
        ensures
            final(self).wf(),
            match lookup_result(old(self).caps(), source_id as int) {
                Err(e) => r == Err::<CapId, CapError>(e) && *final(self) == *old(self),
                Ok(src) => if src.owner != from {
                    r == Err::<CapId, CapError>(CapError::NotOwner) && *final(self) == *old(self)
                } else if !(bits_contain(src.permissions@, DELEGATE_BIT) && bits_contain(
                    src.permissions@,
                    permissions@,
                )) {
                    r == Err::<CapId, CapError>(CapError::InvalidDelegation) && *final(self) == *old(self)
                } else {
                    match resource_override {
                        Some(o) if !resource_subset(o@, src.resource@) => {
                            r == Err::<CapId, CapError>(CapError::InvalidDelegation) && *final(self)
                                == *old(self)
                        },
                        _ => {
                            let res = match resource_override {
                                Some(o) => o,
                                None => src.resource,
                            };
                            &&& r == Ok::<CapId, CapError>(old(self).next())
                            &&& final(self).next() == old(self).next() + 1
                            &&& slot(final(self).caps(), old(self).next() as int) == Some(
                                Capability {
                                    id: old(self).next(),
                                    resource: res,
                                    permissions,
                                    owner: to,
                                    parent_cap: Some(source_id),
                                    revoked: false,
                                },
                            )
                            &&& forall|j: int|
                                j != old(self).next() ==> slot(#[trigger] final(self).caps(), j)
                                    == slot(old(self).caps(), j)
                            &&& slot(old(self).caps(), old(self).next() as int) is None
                            &&& active_below(final(self).caps(), final(self).caps().len() as int)
                                == active_below(old(self).caps(), old(self).caps().len() as int) + 1
                        },
                    }
                }
            },
    {
        let source = match self.get(source_id) {
            Ok(c) => c.clone(),
            Err(e) => return Err(e),
        };
        if source.owner != from {
            return Err(CapError::NotOwner);
        }
        if !source.permissions.can_delegate_to(permissions) {
            return Err(CapError::InvalidDelegation);
        }
        let resource = match resource_override {
            Some(r) => {
                if r.is_subset_of(&source.resource) {
                    r
                } else {
                    return Err(CapError::InvalidDelegation);
                }
            },
            None => source.resource.clone(),
        };
        let id = self.next_id;
        let cap = Capability {
            id,
            resource,
            permissions,
            owner: to,
            parent_cap: Some(source_id),
            revoked: false,
        };
        self.insert_fresh(cap);
        Ok(id)
    }

    /// Revoke `cap_id` and, in cascade, every active capability delegated from it. Allowed
    /// for the capability's owner and for the owner of its parent.
    pub fn revoke(&mut self, cap_id: CapId, revoker: TaskId) -> (r: Result<usize, CapError>)
        requires
            old(self).wf(),
        ensures
            final(self).wf(),
            final(self).next() == old(self).next(),
            match lookup_result(old(self).caps(), cap_id as int) {
                Err(e) => r == Err::<usize, CapError>(e) && *final(self) == *old(self),
                Ok(c) => if c.owner == revoker || (c.parent_cap is Some && slot(
                    old(self).caps(),
                    c.parent_cap.unwrap() as int,
                ) is Some && slot(old(self).caps(), c.parent_cap.unwrap() as int).unwrap().owner
                    == revoker) {
                    &&& r == Ok::<usize, CapError>(
                        subtree_count(old(self).caps(), cap_id as int, old(self).caps().len() as int) as usize,
                    )
                    &&& revoked_subtree(old(self).caps(), final(self).caps(), cap_id as int)
                } else {
                    r == Err::<usize, CapError>(CapError::NotOwner) && *final(self) == *old(self)
                },
            },
    {
        let authorized = match self.get(cap_id) {
            Err(e) => return Err(e),
            Ok(cap) => {
                cap.owner == revoker || match cap.parent_cap {
                    Some(pid) => {
                        if pid < self.capabilities.len() as u64 {
                            match &self.capabilities[pid as usize] {
                                Some(p) => p.owner == revoker,
                                None => false,
                            }
                        } else {
                            false
                        }
                    },
                    None => false,
                }
            },
        };
        if !authorized {
            return Err(CapError::NotOwner);
        }
        let count = self.revoke_recursive(cap_id);
        Ok(count)
    }

    /// Mark every capability of the active subtree rooted at `cap_id` revoked and return how
    /// many were marked. Children always carry larger ids than their parents, so one pass in
    /// id order reaches the whole subtree.
    fn revoke_recursive(&mut self, cap_id: CapId) -> (count: usize)
        requires
            old(self).wf(),
        ensures
            final(self).wf(),
            final(self).next() == old(self).next(),
            count == subtree_count(old(self).caps(), cap_id as int, old(self).caps().len() as int),
            revoked_subtree(old(self).caps(), final(self).caps(), cap_id as int),
    {
        let ghost old_caps = self.capabilities@;
        let len = self.capabilities.len();
        let mut marked: Vec<bool> = Vec::new();
        let mut count: usize = 0;
        let mut i: usize = 0;
        while i < len
            invariant
                caps_wf(old_caps, self.next_id),
                self.next_id == old(self).next_id,
                len == old_caps.len(),
                self.capabilities@.len() == len,
                i <= len,
                marked@.len() == i,
                count == subtree_count(old_caps, cap_id as int, i as int),
                count <= i,
                forall|j: int| 0 <= j < i ==> marked@[j] == in_subtree(old_caps, j, cap_id as int),
                forall|j: int|
                    0 <= j < i ==> #[trigger] self.capabilities@[j] == if in_subtree(
                        old_caps,
                        j,
                        cap_id as int,
                    ) {
                        Some(revoked_copy(old_caps[j].unwrap()))
                    } else {
                        old_caps[j]
                    },
                forall|j: int| i <= j < len ==> #[trigger] self.capabilities@[j] == old_caps[j],
            decreases len - i,
        {
            let mark = match &self.capabilities[i] {
                Some(c) => {
                    if c.revoked {
                        false
                    } else if i as u64 == cap_id {
                        true
                    } else {
                        match c.parent_cap {
                            Some(p) => marked[p as usize],
                            None => false,
                        }
                    }
                },
                None => false,
            };
            proof {
                assert(self.capabilities@[i as int] == old_caps[i as int]);
                if old_caps[i as int] is Some {
                    assert(slot_wf(old_caps, i as int));
                }
                reveal_with_fuel(in_subtree, 2);
            }
            assert(mark == in_subtree(old_caps, i as int, cap_id as int));
            if mark {
                let mut c = match &self.capabilities[i] {
                    Some(c) => c.clone(),
                    None => {
                        assert(false);
                        return 0;
                    },
                };
                c.revoked = true;
                self.capabilities.set(i, Some(c));
                count = count + 1;
            }
            marked.push(mark);
            i = i + 1;
        }
        proof {
            assert(only_flags_changed(old_caps, self.capabilities@));
            lemma_flags_keep_wf(old_caps, self.capabilities@, self.next_id);
            assert forall|j: int| #![trigger slot(self.capabilities@, j)]
                slot(self.capabilities@, j) == if in_subtree(old_caps, j, cap_id as int) {
                    Some(revoked_copy(slot(old_caps, j).unwrap()))
                } else {
                    slot(old_caps, j)
                } by {
                if 0 <= j < len {
                    assert(self.capabilities@[j] == if in_subtree(old_caps, j, cap_id as int) {
                        Some(revoked_copy(old_caps[j].unwrap()))
                    } else {
                        old_caps[j]
                    });
                } else {
                    assert(!is_active(old_caps, j));
                }
            }
        }
        count
    }

    /// Number of capabilities that exist and are not revoked.
    pub fn active_count(&self) -> (n: usize)
        requires
            self.wf(),
        ensures
            n == active_below(self.caps(), self.caps().len() as int),
    {
        let mut n: usize = 0;
        let mut i: usize = 0;
        while i < self.capabilities.len()
            invariant
                i <= self.capabilities@.len(),
                n == active_below(self.capabilities@, i as int),
                n <= i,
            decreases self.capabilities@.len() - i,
        {
            match &self.capabilities[i] {
                Some(c) => {
                    if !c.revoked {
                        n = n + 1;
                    }
                },
                None => {},
            }
            i = i + 1;
        }
        n
    }
}

/// `after` is `before` with exactly the active subtree rooted at `root` revoked.
pub open spec fn revoked_subtree(
    before: Seq<Option<Capability>>,
    after: Seq<Option<Capability>>,
    root: int,
) -> bool {
    &&& after.len() == before.len()
    &&& forall|j: int|
        #![trigger slot(after, j)]
        slot(after, j) == if in_subtree(before, j, root) {
            Some(revoked_copy(slot(before, j).unwrap()))
        } else {
            slot(before, j)
        }
}

/// `x` was delegated, directly or through a chain of delegations, from `a` (or is `a`).
pub open spec fn descends_from(caps: Seq<Option<Capability>>, x: int, a: int) -> bool
    decreases x,
{
    if slot(caps, x) is Some {
        if x == a {
            true
        } else {
            match slot(caps, x).unwrap().parent_cap {
                Some(p) => 0 <= p < x && descends_from(caps, p as int, a),
                None => false,
            }
        }
    } else {
        false
    }
}

/// Attenuation: a capability never holds a right or a resource that any of its ancestors
/// lacks.
pub proof fn lemma_descendant_attenuated(t: &CapabilityTable, x: int, a: int)
    requires
        t.wf(),
        descends_from(t.caps(), x, a),
    ensures
        bits_contain(slot(t.caps(), a).unwrap().permissions@, slot(t.caps(), x).unwrap().permissions@),
        resource_subset(slot(t.caps(), x).unwrap().resource@, slot(t.caps(), a).unwrap().resource@),
    decreases x,
{
    lemma_ancestor_bounds(t.caps(), t.next(), x, a);
}

proof fn lemma_ancestor_bounds(caps: Seq<Option<Capability>>, next: u64, x: int, a: int)
    requires
        caps_wf(caps, next),
        descends_from(caps, x, a),
    ensures
        bits_contain(slot(caps, a).unwrap().permissions@, slot(caps, x).unwrap().permissions@),
        resource_subset(slot(caps, x).unwrap().resource@, slot(caps, a).unwrap().resource@),
    decreases x,
{
    let cx = slot(caps, x).unwrap();
    if x == a {
        lemma_contains_order(cx.permissions@, cx.permissions@, cx.permissions@);
        lemma_subset_reflexive(cx.resource@);
    } else {
        let p = cx.parent_cap.unwrap() as int;
        assert(slot_wf(caps, x));
        lemma_ancestor_bounds(caps, next, p, a);
        let cp = slot(caps, p).unwrap();
        let ca = slot(caps, a).unwrap();
        lemma_contains_order(ca.permissions@, cp.permissions@, cx.permissions@);
        lemma_subset_transitive(cx.resource@, cp.resource@, ca.resource@);
    }
}

/// After a cascading revocation every member of the revoked subtree is refused with
/// `Revoked`, and every other capability is looked up exactly as before.
pub proof fn lemma_revocation_effect(
    before: Seq<Option<Capability>>,
    after: Seq<Option<Capability>>,
    root: int,
    x: int,
)
    requires
        revoked_subtree(before, after, root),
    ensures
        in_subtree(before, x, root) ==> lookup_result(after, x) == Err::<Capability, CapError>(CapError::Revoked),
        !in_subtree(before, x, root) ==> lookup_result(after, x) == lookup_result(before, x),
{
    assert(slot(after, x) == slot(after, x));
}

} // verus!

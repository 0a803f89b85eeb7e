//! Shared memory regions: frames taken for a region, a root capability for its owner, and
//! read-only capabilities handed to the tasks it is shared with.
use vstd::prelude::*;
use std::collections::BTreeMap;
use super::IpcError;
use crate::task::TaskId;
use crate::capability::{CapId, CapabilityTable, Capability, PermissionBits, ResourceRef};
use crate::capability::permissions::{READ_BIT, WRITE_BIT, DELEGATE_BIT};
use crate::capability::table::{slot, validate_result};
use crate::memory::frame_allocator::BitmapFrameAllocator;
use crate::memory::PAGE_SIZE;

verus! {

pub type SharedRegionId = u64;

#[derive(Debug)]
pub struct SharedRegion {
    pub id: SharedRegionId,
    pub phys_base: u64,
    pub size: u64,
    pub owner: TaskId,
    pub grants: Vec<TaskId>,
}

/// The regions, by id, and the id the next region gets.
pub struct SharedRegions {
    map: BTreeMap<SharedRegionId, SharedRegion>,
    next_id: u64,
}

impl SharedRegions {
    pub closed spec fn regions(&self) -> Map<SharedRegionId, SharedRegion> {
        self.map@
    }

    pub closed spec fn next_region(&self) -> u64 {
        self.next_id
    }

    pub fn new() -> (r: Self)
        ensures
            r.regions() == Map::<SharedRegionId, SharedRegion>::empty(),
            r.next_region() == 1,
    {
        SharedRegions { map: BTreeMap::new(), next_id: 1 }
    }

    /// The region `id`.
    pub fn get(&self, id: SharedRegionId) -> (r: Option<&SharedRegion>)
        ensures
            match r {
                Some(reg) => self.regions().contains_key(id) && *reg == self.regions()[id],
                None => !self.regions().contains_key(id),
            },
    {
        broadcast use vstd::std_specs::btree::group_btree_axioms;
        self.map.get(&id)
    }
}

/// Pages a region of `size` bytes takes (whole pages; one page is taken even for an
/// empty region).
pub open spec fn region_pages(size: u64) -> int {
    (size + 4095) / 4096
}

pub open spec fn frames_taken(size: u64) -> int {
    if region_pages(size) == 0 { 1 } else { region_pages(size) }
}

/// Rights of a region's owner.
pub open spec fn owner_rights() -> u32 {
    READ_BIT | WRITE_BIT | DELEGATE_BIT
}

/// Create a region of `size` bytes (rounded up to whole pages) for `owner`: take its
/// frames, give the owner a root capability with read, write and delegate rights on the
/// memory, and record the region under the next id. When frames run out the request
/// fails with `RecipientNotFound`, and the frames taken stay taken.
pub fn create_region(
    regions: &mut SharedRegions,
    table: &mut CapabilityTable,
    frames: &mut BitmapFrameAllocator,
    owner: TaskId,
    size: u64,
) -> (r: Result<SharedRegionId, IpcError>)
    requires
        old(table).wf(),
        old(table).next() < usize::MAX,
        old(frames).wf(),
        size + PAGE_SIZE - 1 <= u64::MAX,
    ensures
        final(table).wf(),
        final(frames).wf(),
        final(frames).total() == old(frames).total(),
        old(frames).free_count() < frames_taken(size) ==> {
            &&& r == Err::<SharedRegionId, IpcError>(IpcError::RecipientNotFound)
            &&& final(frames).free_count() == 0
            &&& *final(table) == *old(table)
            &&& *final(regions) == *old(regions)
        },
        old(frames).free_count() >= frames_taken(size) ==> {
            let id = old(regions).next_region();
            let base = final(regions).regions()[id].phys_base;
            let len = (region_pages(size) * PAGE_SIZE) as u64;
            &&& r == Ok::<SharedRegionId, IpcError>(id)
            &&& final(frames).free_count() + frames_taken(size) == old(frames).free_count()
            &&& base % PAGE_SIZE == 0
            &&& !old(frames).is_used((base / PAGE_SIZE) as int) && final(frames).is_used((base / PAGE_SIZE) as int)
            &&& final(regions).next_region() == if id == u64::MAX { 0 } else { (id + 1) as u64 }
            &&& final(regions).regions().dom() == old(regions).regions().dom().insert(id)
            &&& forall|k: SharedRegionId| k != id && #[trigger] old(regions).regions().contains_key(k)
                ==> final(regions).regions()[k] == old(regions).regions()[k]
            &&& final(regions).regions()[id].id == id
            &&& final(regions).regions()[id].size == len
            &&& final(regions).regions()[id].owner == owner
            &&& final(regions).regions()[id].grants@ == Seq::<TaskId>::empty()
            &&& final(table).next() == old(table).next() + 1
            &&& slot(final(table).caps(), old(table).next() as int) matches Some(c) && {
                &&& c.id == old(table).next()
                &&& c.resource == ResourceRef::Memory { base, length: len }
                &&& c.permissions@ == owner_rights()
                &&& c.owner == owner
                &&& c.parent_cap is None
                &&& !c.revoked
            }
            &&& forall|j: int| j != old(table).next() ==> slot(#[trigger] final(table).caps(), j) == slot(old(table).caps(), j)
        },
{
    broadcast use vstd::std_specs::btree::group_btree_axioms;
    let page_count = (size + (PAGE_SIZE - 1)) / PAGE_SIZE;
    assert(page_count * 4096 <= size + 4095) by (nonlinear_arith)
        requires
            page_count == (size + 4095) / 4096,
    ;
    let ghost a0 = *frames;
    let first = match frames.allocate_frame() {
        Some(a) => a,
        None => return Err(IpcError::RecipientNotFound),
    };
    let ghost a1 = *frames;
    proof {
        a0.lemma_bit_len();
        frames.lemma_bit_len();
    }
    let mut k: u64 = 1;
    while k < page_count
        invariant
            1 <= k,
            k <= page_count || page_count == 0,
            frames.wf(),
            frames.total() == a0.total(),
            a0 == *old(frames),
            frames.bit_len() == a0.bit_len(),
            frames.free_count() + k == a0.free_count(),
            frames.is_used((first / PAGE_SIZE) as int),
            (first / PAGE_SIZE) < a0.total(),
            *table == *old(table),
            *regions == *old(regions),
            old(table).wf(),
            page_count == region_pages(size),
            page_count == 0 ==> k == 1,
            !a0.is_used((first / PAGE_SIZE) as int),
            first % PAGE_SIZE == 0,
        decreases page_count - k,
    {
        let ghost before = *frames;
        match frames.allocate_frame() {
            Some(_) => {
                proof {
                    before.lemma_bit_len();
                    frames.lemma_bit_len();
                    assert(frames.is_used((first / PAGE_SIZE) as int));
                }
            },
            None => return Err(IpcError::RecipientNotFound),
        }
        k = k + 1;
    }
    assert(k == frames_taken(size));
    let id = regions.next_id;
    regions.next_id = if id == u64::MAX { 0 } else { id + 1 };
    let length = page_count * PAGE_SIZE;
    let rights = PermissionBits::read().union(PermissionBits::write()).union(PermissionBits::delegate());
    let _cap = table.create_root(owner, ResourceRef::Memory { base: first, length }, rights);
    let ghost m0 = regions.map@;
    regions.map.insert(id, SharedRegion { id, phys_base: first, size: length, owner, grants: Vec::new() });
    proof {
        assert(regions.map@.dom() =~= m0.dom().insert(id));
    }
    Ok(id)
}

/// Share region `region_id` with `grantee`: the granter's capability must be valid, its
/// own and hold delegate rights (else `CapabilityDenied`), the region must exist (else
/// `RecipientNotFound`); the grantee is recorded and receives a read-only root capability
/// on the region's memory, whose id is returned.
pub fn grant_access(
    regions: &mut SharedRegions,
    table: &mut CapabilityTable,
    region_id: SharedRegionId,
    granter: TaskId,
    grantee: TaskId,
    granter_cap: CapId,
) -> (r: Result<CapId, IpcError>)
    requires
        old(table).wf(),
        old(table).next() < usize::MAX,
    ensures
        final(table).wf(),
        validate_result(old(table).caps(), granter_cap as int, granter, DELEGATE_BIT) is Err ==> {
            &&& r == Err::<CapId, IpcError>(IpcError::CapabilityDenied)
            &&& *final(table) == *old(table)
            &&& *final(regions) == *old(regions)
        },
        validate_result(old(table).caps(), granter_cap as int, granter, DELEGATE_BIT) is Ok
            && !old(regions).regions().contains_key(region_id) ==> {
            &&& r == Err::<CapId, IpcError>(IpcError::RecipientNotFound)
            &&& *final(table) == *old(table)
            &&& final(regions).regions() == old(regions).regions()
            &&& final(regions).next_region() == old(regions).next_region()
        },
        validate_result(old(table).caps(), granter_cap as int, granter, DELEGATE_BIT) is Ok
            && old(regions).regions().contains_key(region_id) ==> {
            let reg = old(regions).regions()[region_id];
            &&& r == Ok::<CapId, IpcError>(old(table).next() as u64)
            &&& final(regions).next_region() == old(regions).next_region()
            &&& final(regions).regions().dom() == old(regions).regions().dom()
            &&& forall|k: SharedRegionId| k != region_id && #[trigger] old(regions).regions().contains_key(k)
                ==> final(regions).regions()[k] == old(regions).regions()[k]
            &&& final(regions).regions()[region_id].grants@ == reg.grants@.push(grantee)
            &&& final(regions).regions()[region_id].id == reg.id
            &&& final(regions).regions()[region_id].phys_base == reg.phys_base
            &&& final(regions).regions()[region_id].size == reg.size
            &&& final(regions).regions()[region_id].owner == reg.owner
            &&& final(table).next() == old(table).next() + 1
            &&& slot(final(table).caps(), old(table).next() as int) matches Some(c) && {
                &&& c.id == old(table).next()
                &&& c.resource == ResourceRef::Memory { base: reg.phys_base, length: reg.size }
                &&& c.permissions@ == READ_BIT
                &&& c.owner == grantee
                &&& c.parent_cap is None
                &&& !c.revoked
            }
            &&& forall|j: int| j != old(table).next() ==> slot(#[trigger] final(table).caps(), j) == slot(old(table).caps(), j)
        },
{
    broadcast use vstd::std_specs::btree::group_btree_axioms;
    if table.validate(granter_cap, granter, PermissionBits::delegate()).is_err() {
        return Err(IpcError::CapabilityDenied);
    }
    let mut region = match regions.map.remove(&region_id) {
        Some(reg) => reg,
        None => {
            assert(regions.map@ =~= old(regions).map@);
            return Err(IpcError::RecipientNotFound);
        },
    };
    region.grants.push(grantee);
    let base = region.phys_base;
    let length = region.size;
    let ghost m0 = regions.map@;
    regions.map.insert(region_id, region);
    proof {
        assert(regions.map@.dom() =~= old(regions).map@.dom());
    }
    let cap_id = table.create_root(grantee, ResourceRef::Memory { base, length }, PermissionBits::read());
    Ok(cap_id)
}

} // verus!

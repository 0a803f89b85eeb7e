//! The virtio-blk driver's logic, legacy PCI transport, one split virtqueue used
//! synchronously. Port and DMA-memory accesses are made by the caller: a request comes
//! back as the header, descriptors and ring entry to write, and completion is reported
//! back as the device's used index and status byte.
use vstd::prelude::*;
use crate::pci::{PciDevice, find_device};
use crate::memory::frame_allocator::BitmapFrameAllocator;
use crate::memory::PAGE_SIZE;

verus! {

/// Virtio PCI vendor id.
pub const VIRTIO_PCI_VENDOR: u16 = 0x1AF4;
/// Legacy virtio block device id.
pub const VIRTIO_BLK_DEVICE_LEGACY: u16 = 0x1001;
/// Mass storage controller class.
pub const MASS_STORAGE_CLASS: u8 = 0x01;

/// Legacy register offsets from BAR0.
pub const VIRTIO_DEVICE_FEATURES: u16 = 0x00;
pub const VIRTIO_GUEST_FEATURES: u16 = 0x04;
pub const VIRTIO_QUEUE_ADDR: u16 = 0x08;
pub const VIRTIO_QUEUE_SIZE: u16 = 0x0C;
pub const VIRTIO_QUEUE_SELECT: u16 = 0x0E;
pub const VIRTIO_QUEUE_NOTIFY: u16 = 0x10;
pub const VIRTIO_DEVICE_STATUS: u16 = 0x12;
pub const VIRTIO_BLK_CAPACITY: u16 = 0x14;

/// Device status bits.
pub const VIRTIO_STATUS_RESET: u8 = 0;
pub const VIRTIO_STATUS_ACKNOWLEDGE: u8 = 1;
pub const VIRTIO_STATUS_DRIVER: u8 = 2;
pub const VIRTIO_STATUS_DRIVER_OK: u8 = 4;

/// Descriptor flags.
pub const VRING_DESC_F_NEXT: u16 = 1;
pub const VRING_DESC_F_WRITE: u16 = 2;

/// Request types.
pub const VIRTIO_BLK_T_IN: u32 = 0;
pub const VIRTIO_BLK_T_OUT: u32 = 1;

/// Request status for success.
pub const VIRTIO_BLK_S_OK: u8 = 0;

/// Entries in the request queue.
pub const QUEUE_SIZE: usize = 128;
/// Index of the request queue.
pub const REQUEST_QUEUE: u16 = 0;
/// Polls of the used ring before a request is given up.
pub const SPIN_LIMIT: u64 = 100_000_000;

/// Request header, as the device reads it.
#[derive(Clone, Copy, Debug, PartialEq, Eq)]
pub struct VirtioBlkReqHeader {
    pub type_: u32,
    pub reserved: u32,
    pub sector: u64,
}

/// A virtqueue descriptor.
#[derive(Clone, Copy, Debug, PartialEq, Eq)]
pub struct VirtqDesc {
    pub addr: u64,
    pub len: u32,
    pub flags: u16,
    pub next: u16,
}

/// The driver's side of the split virtqueue.
#[derive(Clone, Copy, Debug)]
pub struct Virtqueue {
    /// Next free descriptor for building a chain.
    pub next_desc: u16,
    /// Used-ring index last consumed.
    pub last_used_idx: u16,
    /// Available-ring index last published.
    pub avail_idx: u16,
}

/// Where the queue and the request buffer live.
#[derive(Clone, Copy, Debug)]
pub struct QueueLayout {
    pub phys_base: u64,
    pub virt_base: u64,
    pub num_pages: usize,
    /// Offset of the available ring from the queue base.
    pub avail_offset: usize,
    /// Offset of the used ring from the queue base (page aligned).
    pub used_offset: usize,
    /// Page frame number told to the device.
    pub pfn: u32,
    pub dma_phys: u64,
    pub dma_virt: u64,
}

/// One block request, ready to hand to the device: the DMA buffer holds the header at
/// `header_virt`, the data at `data_virt` (copied in first for a write) and a status byte
/// at `status_virt` (set to 0xFF first); the three descriptors go to the given slots, the
/// chain head into available-ring slot `avail_slot`, then the available index is set to
/// `new_avail_idx` and `REQUEST_QUEUE` is written to `notify_port`.
#[derive(Clone, Copy, Debug)]
pub struct BlockRequest {
    pub header: VirtioBlkReqHeader,
    pub header_virt: u64,
    pub data_virt: u64,
    pub status_virt: u64,
    pub copy_in: bool,
    pub desc_slots: [usize; 3],
    pub descs: [VirtqDesc; 3],
    pub avail_slot: usize,
    pub avail_entry: u16,
    pub new_avail_idx: u16,
    pub notify_port: u16,
}

/// Why a block transfer failed.
#[derive(Clone, Copy, Debug, PartialEq, Eq)]
pub enum BlkError {
    NotInitialized,
    OutOfRange,
    NoQueue,
    Timeout,
    IoError,
}

impl BlkError {
    /// The driver's message for this failure.
    pub fn message(&self) -> (m: &'static str)
        ensures
            m@ == match self {
                BlkError::NotInitialized => "not initialized"@,
                BlkError::OutOfRange => "block out of range"@,
                BlkError::NoQueue => "no virtqueue"@,
                BlkError::Timeout => "virtio-blk: timeout waiting for I/O"@,
                BlkError::IoError => "virtio-blk: I/O error"@,
            },
    {
        match self {
            BlkError::NotInitialized => "not initialized",
            BlkError::OutOfRange => "block out of range",
            BlkError::NoQueue => "no virtqueue",
            BlkError::Timeout => "virtio-blk: timeout waiting for I/O",
            BlkError::IoError => "virtio-blk: I/O error",
        }
    }
}

/// The outcome of one look at the used ring.
#[derive(Clone, Copy, Debug, PartialEq, Eq)]
pub enum IoPoll {
    /// The device has finished the request.
    Complete,
    /// Not yet; poll again with this many polls counted.
    Wait(u64),
    /// Too many polls: the request is given up.
    TimedOut,
}

/// The virtio-blk device state.
pub struct VirtioBlkDevice {
    pub io_base: u16,
    pub capacity_blocks: u64,
    pub queue: Option<Virtqueue>,
    pub dma_phys: u64,
    pub dma_virt: u64,
    pub initialized: bool,
}

/// The request that `dev` builds for `req_type` on `sector`.
pub open spec fn request_for(dev: VirtioBlkDevice, q: Virtqueue, req_type: u32, sector: u64) -> BlockRequest {
    let d0 = (q.next_desc as int % 128) as usize;
    let d1 = ((q.next_desc as int + 1) % 128) as usize;
    let d2 = ((q.next_desc as int + 2) % 128) as usize;
    BlockRequest {
        header: VirtioBlkReqHeader { type_: req_type, reserved: 0, sector },
        header_virt: dev.dma_virt,
        data_virt: (dev.dma_virt + 16) as u64,
        status_virt: (dev.dma_virt + 528) as u64,
        copy_in: req_type == VIRTIO_BLK_T_OUT,
        desc_slots: [d0, d1, d2],
        descs: [
            VirtqDesc { addr: dev.dma_phys, len: 16, flags: VRING_DESC_F_NEXT, next: d1 as u16 },
            VirtqDesc {
                addr: (dev.dma_phys + 16) as u64,
                len: 512,
                flags: if req_type == VIRTIO_BLK_T_IN { 3u16 } else { 1u16 },
                next: d2 as u16,
            },
            VirtqDesc { addr: (dev.dma_phys + 528) as u64, len: 1, flags: VRING_DESC_F_WRITE, next: 0 },
        ],
        avail_slot: (q.avail_idx as int % 128) as usize,
        avail_entry: d0 as u16,
        new_avail_idx: ((q.avail_idx as int + 1) % 0x10000) as u16,
        notify_port: ((dev.io_base as int + 0x10) % 0x10000) as u16,
    }
}

/// The queue after a request was published.
pub open spec fn queue_after_request(q: Virtqueue) -> Virtqueue {
    Virtqueue {
        next_desc: ((q.next_desc as int + 3) % 128) as u16,
        avail_idx: ((q.avail_idx as int + 1) % 0x10000) as u16,
        ..q
    }
}

impl VirtioBlkDevice {
    pub open spec fn wf(&self) -> bool {
        &&& self.dma_phys + 4096 <= u64::MAX
        &&& self.dma_virt + 4096 <= u64::MAX
        &&& (self.queue matches Some(q) ==> q.next_desc < 128)
    }

    /// A device that has not been found: every transfer fails.
    pub fn empty() -> (d: Self)
        ensures
            d.wf(),
            d.io_base == 0 && d.capacity_blocks == 0 && d.queue is None,
            d.dma_phys == 0 && d.dma_virt == 0 && !d.initialized,
    {
        VirtioBlkDevice { io_base: 0, capacity_blocks: 0, queue: None, dma_phys: 0, dma_virt: 0, initialized: false }
    }

    /// Bring the device online with its I/O base, capacity and queue.
    pub fn attach(&mut self, io_base: u16, capacity: u64, layout: &QueueLayout)
        requires
            layout.dma_phys + 4096 <= u64::MAX,
            layout.dma_virt + 4096 <= u64::MAX,
        ensures
            final(self).wf(),
            final(self).io_base == io_base,
            final(self).capacity_blocks == capacity,
            final(self).queue == Some(Virtqueue { next_desc: 0, last_used_idx: 0, avail_idx: 0 }),
            final(self).dma_phys == layout.dma_phys,
            final(self).dma_virt == layout.dma_virt,
            final(self).initialized,
    {
        self.io_base = io_base;
        self.capacity_blocks = capacity;
        self.queue = Some(Virtqueue { next_desc: 0, last_used_idx: 0, avail_idx: 0 });
        self.dma_phys = layout.dma_phys;
        self.dma_virt = layout.dma_virt;
        self.initialized = true;
    }

    /// Prepare a read of `block_num`; the data is copied out of the DMA buffer once
    /// [`VirtioBlkDevice::complete_io`] succeeds.
    pub fn read_block(&mut self, block_num: u64) -> (r: Result<BlockRequest, BlkError>)
        requires
            old(self).wf(),
        ensures
            final(self).wf(),
            !old(self).initialized ==> r == Err::<BlockRequest, BlkError>(BlkError::NotInitialized) && *final(self) == *old(self),
            old(self).initialized && block_num >= old(self).capacity_blocks ==> r == Err::<BlockRequest, BlkError>(BlkError::OutOfRange) && *final(self) == *old(self),
            old(self).initialized && block_num < old(self).capacity_blocks ==> io_started(*old(self), *final(self), VIRTIO_BLK_T_IN, block_num, r),
    {
        if !self.initialized {
            return Err(BlkError::NotInitialized);
        }
        if block_num >= self.capacity_blocks {
            return Err(BlkError::OutOfRange);
        }
        self.do_block_io(VIRTIO_BLK_T_IN, block_num)
    }

    /// Prepare a write of `block_num`; the data is copied into the DMA buffer before the
    /// device is notified.
    pub fn write_block(&mut self, block_num: u64) -> (r: Result<BlockRequest, BlkError>)
        requires
            old(self).wf(),
        ensures
            final(self).wf(),
            !old(self).initialized ==> r == Err::<BlockRequest, BlkError>(BlkError::NotInitialized) && *final(self) == *old(self),
            old(self).initialized && block_num >= old(self).capacity_blocks ==> r == Err::<BlockRequest, BlkError>(BlkError::OutOfRange) && *final(self) == *old(self),
            old(self).initialized && block_num < old(self).capacity_blocks ==> io_started(*old(self), *final(self), VIRTIO_BLK_T_OUT, block_num, r),
    {
        if !self.initialized {
            return Err(BlkError::NotInitialized);
        }
        if block_num >= self.capacity_blocks {
            return Err(BlkError::OutOfRange);
        }
        self.do_block_io(VIRTIO_BLK_T_OUT, block_num)
    }

    /// Build the three-descriptor chain (header, data, status) for a request and publish it
    /// in the available ring.
    fn do_block_io(&mut self, req_type: u32, sector: u64) -> (r: Result<BlockRequest, BlkError>)
        requires
            old(self).wf(),
        ensures
            final(self).wf(),
            io_started(*old(self), *final(self), req_type, sector, r),
    {
        let mut q = match self.queue {
            Some(q) => q,
            None => return Err(BlkError::NoQueue),
        };
        let header_phys = self.dma_phys;
        let data_phys = self.dma_phys + 16;
        let status_phys = self.dma_phys + 16 + 512;
        let desc_base = q.next_desc;
        let d0 = desc_base as usize % QUEUE_SIZE;
        let d1 = (desc_base as usize + 1) % QUEUE_SIZE;
        let d2 = (desc_base as usize + 2) % QUEUE_SIZE;
        let desc0 = VirtqDesc { addr: header_phys, len: 16, flags: VRING_DESC_F_NEXT, next: d1 as u16 };
        let data_flags: u16 = VRING_DESC_F_NEXT | if req_type == VIRTIO_BLK_T_IN { VRING_DESC_F_WRITE } else { 0 };
        assert(data_flags == if req_type == VIRTIO_BLK_T_IN { 3u16 } else { 1u16 }) by (bit_vector)
            requires
                data_flags == 1u16 | (if req_type == 0u32 { 2u16 } else { 0u16 }),
        ;
        let desc1 = VirtqDesc { addr: data_phys, len: 512, flags: data_flags, next: d2 as u16 };
        let desc2 = VirtqDesc { addr: status_phys, len: 1, flags: VRING_DESC_F_WRITE, next: 0 };
        q.next_desc = (desc_base + 3) % (QUEUE_SIZE as u16);
        let avail_idx = q.avail_idx;
        let avail_slot = (avail_idx % (QUEUE_SIZE as u16)) as usize;
        let new_avail_idx = avail_idx.wrapping_add(1);
        q.avail_idx = new_avail_idx;
        self.queue = Some(q);
        Ok(BlockRequest {
            header: VirtioBlkReqHeader { type_: req_type, reserved: 0, sector },
            header_virt: self.dma_virt,
            data_virt: self.dma_virt + 16,
            status_virt: self.dma_virt + 16 + 512,
            copy_in: req_type == VIRTIO_BLK_T_OUT,
            desc_slots: [d0, d1, d2],
            descs: [desc0, desc1, desc2],
            avail_slot,
            avail_entry: d0 as u16,
            new_avail_idx,
            notify_port: self.io_base.wrapping_add(VIRTIO_QUEUE_NOTIFY),
        })
    }

    /// One look at the used ring, whose index the device has set to `used_idx`, after
    /// `spins` earlier looks.
    pub fn poll_io(&self, used_idx: u16, spins: u64) -> (p: IoPoll)
        ensures
            p == (if self.queue matches Some(q) && used_idx != q.last_used_idx {
                IoPoll::Complete
            } else if spins >= SPIN_LIMIT {
                IoPoll::TimedOut
            } else {
                IoPoll::Wait((spins + 1) as u64)
            }),
    {
        let last = match self.queue {
            Some(q) => Some(q.last_used_idx),
            None => None,
        };
        match last {
            Some(l) => if used_idx != l {
                return IoPoll::Complete;
            },
            None => {},
        }
        if spins >= SPIN_LIMIT {
            IoPoll::TimedOut
        } else {
            IoPoll::Wait(spins + 1)
        }
    }

    /// Consume the completed request whose status byte is `status`.
    pub fn complete_io(&mut self, status: u8) -> (r: Result<(), BlkError>)
        requires
            old(self).wf(),
        ensures
            final(self).wf(),
            match old(self).queue {
                None => r == Err::<(), BlkError>(BlkError::NoQueue) && *final(self) == *old(self),
                Some(q) => {
                    &&& final(self).queue == Some(Virtqueue {
                        last_used_idx: ((q.last_used_idx as int + 1) % 0x10000) as u16,
                        ..q
                    })
                    &&& final(self).io_base == old(self).io_base
                    &&& final(self).capacity_blocks == old(self).capacity_blocks
                    &&& final(self).dma_phys == old(self).dma_phys
                    &&& final(self).dma_virt == old(self).dma_virt
                    &&& final(self).initialized == old(self).initialized
                    &&& r == if status == VIRTIO_BLK_S_OK { Ok::<(), BlkError>(()) } else { Err(BlkError::IoError) }
                },
            },
    {
        let mut q = match self.queue {
            Some(q) => q,
            None => return Err(BlkError::NoQueue),
        };
        q.last_used_idx = q.last_used_idx.wrapping_add(1);
        self.queue = Some(q);
        if status != VIRTIO_BLK_S_OK {
            return Err(BlkError::IoError);
        }
        Ok(())
    }

    /// Capacity in 512-byte blocks.
    pub fn capacity(&self) -> (c: u64)
        ensures
            c == self.capacity_blocks,
    {
        self.capacity_blocks
    }
}

/// `after` is `before` with a request for `req_type` on `sector` started, and `r` is that
/// request; without a queue, `r` is `NoQueue` and nothing changes.
pub open spec fn io_started(
    before: VirtioBlkDevice,
    after: VirtioBlkDevice,
    req_type: u32,
    sector: u64,
    r: Result<BlockRequest, BlkError>,
) -> bool {
    match before.queue {
        None => r == Err::<BlockRequest, BlkError>(BlkError::NoQueue) && after == before,
        Some(q) => {
            &&& r == Ok::<BlockRequest, BlkError>(request_for(before, q, req_type, sector))
            &&& after == VirtioBlkDevice { queue: Some(queue_after_request(q)), ..before }
        },
    }
}

/// The device has been brought online.
pub fn is_online(dev: &VirtioBlkDevice) -> (r: bool)
    ensures
        r == dev.initialized,
{
    dev.initialized
}

/// The block device to drive among the scanned `devices`: the legacy virtio-blk device,
/// else the first virtio function of the mass-storage class.
pub fn select_device(devices: &Vec<PciDevice>) -> (r: Option<PciDevice>)
    ensures
        match find_device_spec(devices@, VIRTIO_PCI_VENDOR, VIRTIO_BLK_DEVICE_LEGACY) {
            Some(d) => r == Some(d),
            None => r == find_storage_spec(devices@),
        },
{
    match find_device(devices, VIRTIO_PCI_VENDOR, VIRTIO_BLK_DEVICE_LEGACY) {
        Some(d) => {
            proof {
                lemma_first_match_unique(devices@, d);
            }
            Some(d)
        },
        None => {
            proof {
                lemma_no_match(devices@);
            }
            let mut i: usize = 0;
            while i < devices.len()
                invariant
                    i <= devices@.len(),
                    forall|j: int| 0 <= j < i ==> !is_virtio_storage(#[trigger] devices@[j]),
                    find_device_spec(devices@, VIRTIO_PCI_VENDOR, VIRTIO_BLK_DEVICE_LEGACY) is None,
                decreases devices@.len() - i,
            {
                let d = devices[i];
                if d.vendor_id == VIRTIO_PCI_VENDOR && d.class_code == MASS_STORAGE_CLASS {
                    proof {
                        lemma_first_storage(devices@, i as int);
                    }
                    return Some(d);
                }
                i = i + 1;
            }
            proof {
                lemma_no_storage(devices@);
            }
            None
        },
    }
}

/// A virtio function of the mass-storage class.
pub open spec fn is_virtio_storage(d: PciDevice) -> bool {
    d.vendor_id == VIRTIO_PCI_VENDOR && d.class_code == MASS_STORAGE_CLASS
}

/// The first function of `s` with the given ids.
pub open spec fn find_device_spec(s: Seq<PciDevice>, vendor_id: u16, device_id: u16) -> Option<PciDevice>
    decreases s.len(),
{
    if s.len() == 0 {
        None
    } else if s[0].vendor_id == vendor_id && s[0].device_id == device_id {
        Some(s[0])
    } else {
        find_device_spec(s.skip(1), vendor_id, device_id)
    }
}

/// The first virtio mass-storage function of `s`.
pub open spec fn find_storage_spec(s: Seq<PciDevice>) -> Option<PciDevice>
    decreases s.len(),
{
    if s.len() == 0 {
        None
    } else if is_virtio_storage(s[0]) {
        Some(s[0])
    } else {
        find_storage_spec(s.skip(1))
    }
}

proof fn lemma_first_match_unique(s: Seq<PciDevice>, d: PciDevice)
    requires
        exists|i: int| {
            &&& 0 <= i < s.len()
            &&& s[i] == d
            &&& d.vendor_id == VIRTIO_PCI_VENDOR && d.device_id == VIRTIO_BLK_DEVICE_LEGACY
            &&& forall|j: int| 0 <= j < i ==> !(#[trigger] s[j].vendor_id == VIRTIO_PCI_VENDOR && s[j].device_id == VIRTIO_BLK_DEVICE_LEGACY)
        },
    ensures
        find_device_spec(s, VIRTIO_PCI_VENDOR, VIRTIO_BLK_DEVICE_LEGACY) == Some(d),
    decreases s.len(),
{
    let i = choose|i: int| {
        &&& 0 <= i < s.len()
        &&& s[i] == d
        &&& d.vendor_id == VIRTIO_PCI_VENDOR && d.device_id == VIRTIO_BLK_DEVICE_LEGACY
        &&& forall|j: int| 0 <= j < i ==> !(#[trigger] s[j].vendor_id == VIRTIO_PCI_VENDOR && s[j].device_id == VIRTIO_BLK_DEVICE_LEGACY)
    };
    if i > 0 {
        assert(!(s[0].vendor_id == VIRTIO_PCI_VENDOR && s[0].device_id == VIRTIO_BLK_DEVICE_LEGACY));
        let t = s.skip(1);
        assert(t[i - 1] == d);
        assert forall|j: int| 0 <= j < i - 1 implies !(#[trigger] t[j].vendor_id == VIRTIO_PCI_VENDOR && t[j].device_id == VIRTIO_BLK_DEVICE_LEGACY) by {
            assert(t[j] == s[j + 1]);
        }
        lemma_first_match_unique(t, d);
    }
}

proof fn lemma_no_match(s: Seq<PciDevice>)
    requires
        forall|j: int| 0 <= j < s.len() ==> !(#[trigger] s[j].vendor_id == VIRTIO_PCI_VENDOR && s[j].device_id == VIRTIO_BLK_DEVICE_LEGACY),
    ensures
        find_device_spec(s, VIRTIO_PCI_VENDOR, VIRTIO_BLK_DEVICE_LEGACY) is None,
    decreases s.len(),
{
    if s.len() > 0 {
        let t = s.skip(1);
        assert forall|j: int| 0 <= j < t.len() implies !(#[trigger] t[j].vendor_id == VIRTIO_PCI_VENDOR && t[j].device_id == VIRTIO_BLK_DEVICE_LEGACY) by {
            assert(t[j] == s[j + 1]);
        }
        lemma_no_match(t);
    }
}

proof fn lemma_first_storage(s: Seq<PciDevice>, i: int)
    requires
        0 <= i < s.len(),
        is_virtio_storage(s[i]),
        forall|j: int| 0 <= j < i ==> !is_virtio_storage(#[trigger] s[j]),
    ensures
        find_storage_spec(s) == Some(s[i]),
    decreases s.len(),
{
    if i > 0 {
        let t = s.skip(1);
        assert(!is_virtio_storage(s[0]));
        assert forall|j: int| 0 <= j < i - 1 implies !is_virtio_storage(#[trigger] t[j]) by {
            assert(t[j] == s[j + 1]);
        }
        lemma_first_storage(t, i - 1);
    }
}

proof fn lemma_no_storage(s: Seq<PciDevice>)
    requires
        forall|j: int| 0 <= j < s.len() ==> !is_virtio_storage(#[trigger] s[j]),
    ensures
        find_storage_spec(s) is None,
    decreases s.len(),
{
    if s.len() > 0 {
        let t = s.skip(1);
        assert forall|j: int| 0 <= j < t.len() implies !is_virtio_storage(#[trigger] t[j]) by {
            assert(t[j] == s[j + 1]);
        }
        lemma_no_storage(t);
    }
}

/// The I/O port base in BAR0, if BAR0 is an I/O-space BAR (bit 0 set).
pub fn io_base_of(bar0: u32) -> (r: Option<u16>)
    ensures
        r == (if bar0 & 1 == 0 { None } else { Some((bar0 & 0xFFFC) as u16) }),
{
    if bar0 & 1 == 0 {
        None
    } else {
        Some((bar0 & 0xFFFC) as u16)
    }
}

/// Disk capacity in sectors from the two halves of the capacity register.
pub fn capacity_from(lo: u32, hi: u32) -> (c: u64)
    ensures
        c == lo + hi * 0x1_0000_0000,
{
    let c = (lo as u64) | ((hi as u64) << 32u64);
    assert(c == lo + hi * 0x1_0000_0000) by (bit_vector)
        requires
            c == (lo as u64) | ((hi as u64) << 32u64),
    ;
    c
}

/// Frames taken for the queue and request buffer: the queue's pages, then one page.
pub open spec fn queue_pages() -> nat {
    2
}

/// Set up the request queue, which the device reports `queue_size` entries for: take the
/// queue's pages and a page for request buffers from `alloc`, and lay out the descriptor
/// table, available ring and page-aligned used ring. `None` when the queue does not exist
/// or a frame cannot be had (frames already taken stay taken).
pub fn setup_virtqueue(queue_size: u16, alloc: &mut BitmapFrameAllocator, hhdm_offset: u64) -> (r: Option<QueueLayout>)
    requires
        old(alloc).wf(),
        hhdm_offset + old(alloc).total() * PAGE_SIZE <= u64::MAX,
    ensures
        final(alloc).wf(),
        final(alloc).total() == old(alloc).total(),
        queue_size == 0 ==> r is None && *final(alloc) == *old(alloc),
        queue_size != 0 ==> (r is Some <==> old(alloc).free_count() >= 3),
        queue_size != 0 && old(alloc).free_count() < 3 ==> final(alloc).free_count() == 0,
        r matches Some(l) ==> {
            &&& final(alloc).free_count() + 3 == old(alloc).free_count()
            &&& l.num_pages == queue_pages()
            &&& l.avail_offset == 16 * QUEUE_SIZE
            &&& l.used_offset == 4096
            &&& l.phys_base % PAGE_SIZE == 0 && l.dma_phys % PAGE_SIZE == 0
            &&& l.phys_base != l.dma_phys
            &&& !old(alloc).is_used((l.phys_base / PAGE_SIZE) as int) && final(alloc).is_used((l.phys_base / PAGE_SIZE) as int)
            &&& !old(alloc).is_used((l.dma_phys / PAGE_SIZE) as int) && final(alloc).is_used((l.dma_phys / PAGE_SIZE) as int)
            &&& l.pfn == (l.phys_base / PAGE_SIZE) as u32
            &&& l.virt_base == l.phys_base + hhdm_offset
            &&& l.dma_virt == l.dma_phys + hhdm_offset
            &&& l.dma_phys + 4096 <= u64::MAX && l.dma_virt + 4096 <= u64::MAX
        },
{
    if queue_size == 0 {
        return None;
    }
    let desc_size: usize = 16 * QUEUE_SIZE;
    let avail_size: usize = 6 + 2 * QUEUE_SIZE;
    let used_size: usize = 6 + 8 * QUEUE_SIZE;
    let total_size: usize = desc_size + avail_size + used_size + 4096;
    let num_pages: usize = (total_size + 4095) / 4096;
    let ghost a0 = *alloc;
    let first = match alloc.allocate_frame() {
        Some(a) => a,
        None => return None,
    };
    let ghost a1 = *alloc;
    proof {
        alloc.lemma_bit_len();
        a0.lemma_bit_len();
    }
    let mut k: usize = 1;
    while k < num_pages
        invariant
            1 <= k <= num_pages == 2,
            queue_size != 0,
            a0 == *old(alloc),
            alloc.bit_len() == a0.bit_len(),
            forall|j: int| 0 <= j < a0.bit_len() && #[trigger] a0.is_used(j) ==> alloc.is_used(j),
            !a0.is_used((first / PAGE_SIZE) as int),
            first % PAGE_SIZE == 0,
            alloc.wf(),
            alloc.total() == a0.total(),
            k == 1 ==> *alloc == a1,
            k == 2 ==> alloc.free_count() + 2 == a0.free_count(),
            k == 2 ==> alloc.is_used((first / PAGE_SIZE) as int),
            a1.free_count() + 1 == a0.free_count(),
            a1.is_used((first / PAGE_SIZE) as int),
            first / PAGE_SIZE < a0.total(),
        decreases num_pages - k,
    {
        let ghost before = *alloc;
        match alloc.allocate_frame() {
            Some(_) => {
                proof {
                    before.lemma_bit_len();
                    alloc.lemma_bit_len();
                    assert(alloc.is_used((first / PAGE_SIZE) as int));
                    assert forall|j: int| 0 <= j < a0.bit_len() && #[trigger] a0.is_used(j) implies alloc.is_used(j) by {
                        assert(before.is_used(j));
                    }
                }
            },
            None => return None,
        }
        k = k + 1;
    }
    let ghost a2 = *alloc;
    let dma_phys = match alloc.allocate_frame() {
        Some(a) => a,
        None => return None,
    };
    proof {
        a2.lemma_bit_len();
        alloc.lemma_bit_len();
        a0.lemma_bit_len();
        assert(alloc.is_used((first / PAGE_SIZE) as int));
        assert(first / PAGE_SIZE != dma_phys / PAGE_SIZE);
        assert(!a0.is_used((dma_phys / PAGE_SIZE) as int));
        let t = a0.total() as int;
        let fi = (first / PAGE_SIZE) as int;
        let di = (dma_phys / PAGE_SIZE) as int;
        assert(first + 4096 <= t * 4096) by (nonlinear_arith)
            requires
                first % 4096 == 0, fi == first / 4096, fi < t,
        ;
        assert(dma_phys + 4096 <= t * 4096) by (nonlinear_arith)
            requires
                dma_phys % 4096 == 0, di == dma_phys / 4096, di < t,
        ;
    }
    let virt_base = first + hhdm_offset;
    let dma_virt = dma_phys + hhdm_offset;
    let used_offset: usize = ((desc_size + avail_size + 4095) / 4096) * 4096;
    let pfn = (first / PAGE_SIZE) as u32;
    Some(QueueLayout {
        phys_base: first,
        virt_base,
        num_pages,
        avail_offset: desc_size,
        used_offset,
        pfn,
        dma_phys,
        dma_virt,
    })
}

} // verus!

use oxide_kernel::capability::{CapabilityTable, PermissionBits, ResourceRef};
use oxide_kernel::memory::frame_allocator::BitmapFrameAllocator;
use oxide_kernel::storage::block_cache::BlockCache;
use oxide_kernel::storage::context_store::{get as ctx_get, set as ctx_set, ContextStore};
use oxide_kernel::storage::oxide_fs::OxideFs;
use oxide_kernel::storage::virtio_blk::{
    capacity_from, io_base_of, is_online, select_device, setup_virtqueue, BlkError, IoPoll, VirtioBlkDevice,
    SPIN_LIMIT, VIRTIO_BLK_T_IN, VIRTIO_BLK_T_OUT,
};
use oxide_kernel::pci::PciDevice;

#[test]
fn write_then_read_and_dedup() {
    let mut fs = OxideFs::new();
    let a = fs.write_file("/a.txt", b"hello", 5);
    assert_eq!(fs.read_file("/a.txt"), Some(&b"hello"[..]));
    let b = fs.write_file("/b.txt", b"hello", 6);
    assert_eq!(a, b);
    let c = fs.write_file("/c.txt", b"world", 7);
    assert_ne!(a, c);
    assert_eq!(fs.stats(), (3, 2, 10));
    assert!(fs.delete_file("/a.txt"));
    assert!(!fs.delete_file("/zzz"));
    assert_eq!(fs.read_file("/a.txt"), None);
    let listed: Vec<String> = fs.list("/").iter().map(|e| e.path.clone()).collect();
    assert_eq!(listed, vec!["/b.txt".to_string(), "/c.txt".to_string()]);
}

#[test]
fn fnv1a_content_hash() {
    assert_eq!(OxideFs::content_hash(b""), 0xcbf29ce484222325);
    assert_eq!(OxideFs::content_hash(b"a"), 0xaf63dc4c8601ec8c);
}

#[test]
fn sync_then_load_round_trip() {
    let mut fs = OxideFs::new();
    fs.write_file("/docs/readme", b"first file", 3);
    let big: Vec<u8> = (0..1300u32).map(|i| (i % 251) as u8).collect();
    fs.write_file("/docs/big", &big, 4);
    fs.write_file("/tmp/x", b"gone", 5);
    fs.delete_file("/tmp/x");
    let image = fs.sync_to_disk();
    // superblock, blob 1, blob 2 (1 + 2 continuation blocks), blob 3, two live entries
    assert_eq!(image.len(), 1 + 1 + 3 + 1 + 2);
    assert_eq!(&image[0][0..8], b"OXIDEFS\0");
    let mut loaded = OxideFs::new();
    assert!(loaded.load_from_disk(&image));
    assert_eq!(loaded.read_file("/docs/readme"), Some(&b"first file"[..]));
    assert_eq!(loaded.read_file("/docs/big"), Some(&big[..]));
    assert_eq!(loaded.read_file("/tmp/x"), None);
    assert_eq!(loaded.stats(), (2, 3, fs.stats().2));
}

#[test]
fn load_without_superblock_changes_nothing() {
    let mut fs = OxideFs::new();
    assert!(!fs.load_from_disk(&Vec::new()));
    assert!(!fs.load_from_disk(&vec![[0u8; 512]]));
    assert_eq!(fs.stats(), (0, 0, 0));
}

#[test]
fn block_cache_hits_misses_and_flush() {
    let mut c = BlockCache::new();
    assert_eq!(c.read(4), None);
    assert_eq!(c.fill(4, [1u8; 512]), None);
    assert_eq!(c.read(4), Some([1u8; 512]));
    assert_eq!(c.write(9, [2u8; 512]), None);
    assert_eq!(c.write(3, [3u8; 512]), None);
    let dirty = c.dirty_blocks();
    assert_eq!(dirty.iter().map(|d| d.0).collect::<Vec<_>>(), vec![3, 9]);
    assert_eq!(c.flush(&dirty), 2);
    assert!(c.dirty_blocks().is_empty());
}

#[test]
fn block_cache_evicts_least_recently_used() {
    let mut c = BlockCache::new();
    for n in 0..256u64 {
        assert_eq!(c.write(n, [n as u8; 512]), None);
    }
    // Block 0 is refreshed, so block 1 is now the least recently used and dirty.
    assert!(c.read(0).is_some());
    let wb = c.write(1000, [9u8; 512]);
    assert_eq!(wb, Some((1, [1u8; 512])));
}

#[test]
fn context_store_set_get_delete_keys_clear() {
    let mut table = CapabilityTable::new();
    let cap = table.create_root(3, ResourceRef::Storage { path: "/agents/3".to_string() },
        PermissionBits::read().union(PermissionBits::write()));
    let ro = table.create_root(3, ResourceRef::Storage { path: "/agents/3".to_string() }, PermissionBits::read());
    let mut store = ContextStore::new();
    let mut fs = OxideFs::new();
    assert_eq!(ctx_set(&mut store, &table, &mut fs, 3, "goal", b"win", ro, 1), Err("insufficient storage capability"));
    assert_eq!(ctx_set(&mut store, &table, &mut fs, 3, "goal", b"win", cap, 1), Ok(()));
    assert_eq!(fs.read_file("/agents/3/goal"), Some(&b"win"[..]));
    assert_eq!(ctx_get(&store, &table, &fs, 3, "goal", ro), Ok(Some(b"win".to_vec())));
    assert_eq!(ctx_get(&store, &table, &fs, 4, "goal", ro), Err("insufficient storage capability"));
    store.set(&mut fs, 3, "plan", b"step", 2);
    store.set(&mut fs, 12, "goal", b"other", 2);
    assert_eq!(store.keys(&fs, 3), vec!["goal".to_string(), "plan".to_string()]);
    assert!(store.delete(&mut fs, 3, "plan"));
    // The file stays listed as deleted, so deleting again still reports it.
    assert!(store.delete(&mut fs, 3, "plan"));
    assert_eq!(store.get(&fs, 3, "plan"), None);
    // A value only on disk is read from its file.
    let fresh = ContextStore::new();
    assert_eq!(fresh.get(&fs, 12, "goal"), Some(b"other".to_vec()));
    store.clear_agent(&mut fs, 3);
    assert_eq!(store.get(&fs, 3, "goal"), None);
    assert_eq!(store.get(&fs, 12, "goal"), Some(b"other".to_vec()));
}

fn dev(vendor: u16, device: u16, class: u8) -> PciDevice {
    PciDevice { bus: 0, device: 3, function: 0, vendor_id: vendor, device_id: device, class_code: class,
        subclass: 0, header_type: 0, bars: [0xc001, 0, 0, 0, 0, 0], interrupt_line: 11 }
}

#[test]
fn virtio_blk_device_selection_and_registers() {
    let devs = vec![dev(0x8086, 0x1237, 6), dev(0x1af4, 0x1000, 2), dev(0x1af4, 0x1042, 1)];
    assert_eq!(select_device(&devs).unwrap().device_id, 0x1042);
    let devs2 = vec![dev(0x1af4, 0x1042, 1), dev(0x1af4, 0x1001, 1)];
    assert_eq!(select_device(&devs2).unwrap().device_id, 0x1001);
    assert!(select_device(&vec![dev(0x8086, 0x1237, 6)]).is_none());
    assert_eq!(io_base_of(0xc041), Some(0xc040));
    assert_eq!(io_base_of(0xfebf_0000), None);
    assert_eq!(capacity_from(0x10, 0x2), 0x2_0000_0010);
}

#[test]
fn virtio_blk_request_cycle() {
    let mut d = VirtioBlkDevice::empty();
    assert!(!is_online(&d));
    assert_eq!(d.read_block(0).unwrap_err(), BlkError::NotInitialized);
    assert_eq!(BlkError::NotInitialized.message(), "not initialized");
    let mut frames = BitmapFrameAllocator::new(64);
    frames.mark_region_free(0, 64);
    assert!(setup_virtqueue(0, &mut frames, 0).is_none());
    let layout = setup_virtqueue(128, &mut frames, 0xffff_8000_0000_0000).unwrap();
    assert_eq!(layout.used_offset, 4096);
    assert_eq!(layout.virt_base, layout.phys_base + 0xffff_8000_0000_0000);
    assert_eq!(layout.pfn as u64, layout.phys_base / 4096);
    assert_eq!(frames.free_frames(), 61);
    d.attach(0xc040, 100, &layout);
    assert!(is_online(&d));
    assert_eq!(d.read_block(100).unwrap_err(), BlkError::OutOfRange);
    let r = d.read_block(7).unwrap();
    assert_eq!(r.header.type_, VIRTIO_BLK_T_IN);
    assert_eq!(r.header.sector, 7);
    assert_eq!(r.desc_slots, [0, 1, 2]);
    assert_eq!(r.descs[1].flags, 3);
    assert_eq!(r.descs[1].addr, layout.dma_phys + 16);
    assert_eq!(r.descs[2].addr, layout.dma_phys + 528);
    assert_eq!(r.new_avail_idx, 1);
    assert_eq!(r.notify_port, 0xc050);
    assert_eq!(d.poll_io(0, 0), IoPoll::Wait(1));
    assert_eq!(d.poll_io(0, SPIN_LIMIT), IoPoll::TimedOut);
    assert_eq!(d.poll_io(1, 5), IoPoll::Complete);
    assert_eq!(d.complete_io(0), Ok(()));
    let w = d.write_block(8).unwrap();
    assert_eq!(w.header.type_, VIRTIO_BLK_T_OUT);
    assert!(w.copy_in);
    assert_eq!(w.desc_slots, [3, 4, 5]);
    assert_eq!(w.descs[1].flags, 1);
    assert_eq!(d.complete_io(1), Err(BlkError::IoError));
}

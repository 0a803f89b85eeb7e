use oxide_kernel::ipc::message::{register_mailbox, receive, mailbox_len, Message};
use oxide_kernel::ipc::request_reply::{request, reply, collect_reply, RequestTable};
use oxide_kernel::ipc::{MessageId, MessageType};
use oxide_kernel::storage::block_cache::BlockCache;
use oxide_kernel::storage::virtio_blk::setup_virtqueue;
use oxide_kernel::agent::registry::AgentRegistry;
use oxide_kernel::capability::{CapabilityTable, PermissionBits, ResourceRef};
use oxide_kernel::ipc::message::Mailboxes;
use oxide_kernel::storage::context_store::ContextStore;
use oxide_kernel::storage::oxide_fs::OxideFs;
use oxide_kernel::syscall::{dispatch, KernelState, Syscall};
use oxide_kernel::crypto::rng::write_words;
use oxide_kernel::gpu::scheduler::{submit_request, GpuScheduler, InferencePriority};
use oxide_kernel::memory::frame_allocator::BitmapFrameAllocator;
use oxide_kernel::task::scheduler::Scheduler;
use oxide_kernel::task::{Priority, Task};
use oxide_kernel::timer::deadline::DeadlineQueue;

#[test]
fn frame_stats_count_clear_bits_below_total() {
    let mut a = BitmapFrameAllocator::new(10);
    assert_eq!(a.stats(), (0, 10));
    a.mark_region_free(0, 10);
    assert_eq!(a.stats(), (10, 10));
    a.allocate_frame();
    assert_eq!(a.stats(), (9, 10));
}

#[test]
fn words_written_little_endian() {
    let mut buffer = [0u8; 10];
    write_words(&mut buffer, &[0x0807_0605_0403_0201, 0x0a09]);
    assert_eq!(buffer, [1, 2, 3, 4, 5, 6, 7, 8, 9, 10]);
    let mut empty: [u8; 0] = [];
    write_words(&mut empty, &[]);
}

#[test]
fn every_ready_task_gets_the_cpu() {
    let mut frames = BitmapFrameAllocator::new(64);
    frames.mark_region_free(0, 64);
    let mut next = 1u64;
    let mut s = Scheduler::new();
    s.spawn(Task::new("rt".to_string(), Priority::Realtime, 0x1000, 0, &mut next, &mut frames));
    s.spawn(Task::new("normal".to_string(), Priority::Normal, 0x1000, 0, &mut next, &mut frames));
    s.spawn(Task::new("bg".to_string(), Priority::Background, 0x1000, 0, &mut next, &mut frames));
    let mut runs = [0usize; 4];
    for _ in 0..14 {
        s.schedule();
        runs[s.current_id()] += 1;
    }
    // Four turns of seven for realtime, two for normal, one for background.
    assert_eq!(runs, [0, 8, 4, 2]);
}

#[test]
fn kernel_stack_is_a_guarded_contiguous_run() {
    let mut frames = BitmapFrameAllocator::new(16);
    frames.mark_region_free(0, 16);
    frames.mark_region_used(3, 1);
    let mut next = 1u64;
    let t = Task::new("t".to_string(), Priority::Normal, 0x1000, 0x10_0000, &mut next, &mut frames);
    // Frames 0-2 are too few; 4 is the guard and 5-8 the stack.
    assert_eq!(t.kernel_stack_bottom, 0x10_0000 + 5 * 4096);
    assert_eq!(t.kernel_stack_top, t.kernel_stack_bottom + 16384);
    for i in 4..9 {
        assert!(frames.is_set(i));
    }
    assert!(!frames.is_set(0) && !frames.is_set(9));
    assert_eq!(frames.stats(), (10, 16));
}

#[test]
fn gpu_ties_broken_by_submission() {
    let mut g = GpuScheduler::new();
    let mut next = 1u64;
    let late = g.submit(1, "m".to_string(), InferencePriority::Normal, Some(50), 9, &mut next);
    let early = g.submit(2, "m".to_string(), InferencePriority::Normal, Some(50), 4, &mut next);
    assert_eq!(g.dequeue().map(|r| r.id), Some(early));
    g.complete_current();
    assert_eq!(g.dequeue().map(|r| r.id), Some(late));
}

#[test]
fn gpu_refusal_message() {
    let mut caps = CapabilityTable::new();
    let ro = caps.create_root(1, ResourceRef::Model { model_id: "m".to_string() }, PermissionBits::read());
    let mut g = GpuScheduler::new();
    let mut next = 1u64;
    assert_eq!(
        submit_request(&mut g, &caps, 1, "m".to_string(), InferencePriority::Batch, None, ro, 0, &mut next),
        Err("insufficient inference capability")
    );
    assert_eq!(g.queue_length(), 0);
}

#[test]
fn cancel_removes_one_pending_entry() {
    let mut q = DeadlineQueue::new();
    let mut next = 1u64;
    let a = q.schedule(1, 10, &mut next);
    let _b = q.schedule(2, 20, &mut next);
    q.cancel(a);
    assert_eq!(q.pending_count(), 1);
    q.cancel(a);
    assert_eq!(q.pending_count(), 1);
    q.cancel(99);
    assert_eq!(q.pending_count(), 1);
}

#[test]
fn syscall_routing() {
    let mut k = KernelState {
        registry: AgentRegistry::new(),
        caps: CapabilityTable::new(),
        mailboxes: Mailboxes::new(),
        next_msg_id: 1,
        sched: Scheduler::new(),
        store: ContextStore::new(),
        fs: OxideFs::new(),
        deadlines: DeadlineQueue::new(),
        next_callback: 1,
    };
    assert_eq!(dispatch(&mut k, Syscall::Unknown(999), 0), -1);
    assert_eq!(dispatch(&mut k, Syscall::AgentList, 0), 0);
    assert_eq!(dispatch(&mut k, Syscall::AgentStatus(4), 0), -1);
    assert_eq!(dispatch(&mut k, Syscall::AgentKill(4), 0), -1);
    assert_eq!(dispatch(&mut k, Syscall::Print(Some(b"hi there")), 0), 8);
    assert_eq!(dispatch(&mut k, Syscall::Print(None), 0), -1);
    assert_eq!(dispatch(&mut k, Syscall::IpcReceive(3), 0), 0);
    assert_eq!(dispatch(&mut k, Syscall::StorageSet { agent: 3, key: Some(b"k"), value: Some(b"vvv") }, 5), 0);
    assert_eq!(dispatch(&mut k, Syscall::StorageGet { agent: 3, key: Some(b"k") }, 6), 3);
    assert_eq!(dispatch(&mut k, Syscall::Sleep(10), 7), 0);
    assert_eq!(dispatch(&mut k, Syscall::Yield, 8), 0);
    assert_eq!(dispatch(&mut k, Syscall::Exit(0), 9), 0);
    assert_eq!(
        dispatch(&mut k, Syscall::IpcSend { sender: 1, recipient: 2, payload: Some(b"x"), cap: 0 }, 10),
        -1
    );
}

#[test]
fn lookup_returns_the_requested_id() {
    let mut caps = CapabilityTable::new();
    let a = caps.create_root(1, ResourceRef::Agent(2), PermissionBits::all());
    let b = caps.create_root(1, ResourceRef::Agent(3), PermissionBits::read());
    assert_eq!((a, b), (1, 2));
    assert_eq!(caps.get(a).unwrap().id, a);
    assert_eq!(caps.get(b).unwrap().id, b);
    assert_eq!(caps.validate(b, 1, PermissionBits::read()).unwrap().id, b);
    assert!(caps.get(0).is_err());
    assert!(caps.get(3).is_err());
}

#[test]
fn delegation_adds_one_active_capability_under_a_fresh_id() {
    let mut caps = CapabilityTable::new();
    let root = caps.create_root(1, ResourceRef::Agent(2), PermissionBits::all());
    assert_eq!(caps.active_count(), 1);
    assert!(caps.get(2).is_err());
    let child = caps.delegate(root, 1, 5, PermissionBits::read(), None).unwrap();
    assert_eq!(child, 2);
    assert_eq!(caps.active_count(), 2);
    let c = caps.get(child).unwrap();
    assert_eq!((c.id, c.owner, c.parent_cap), (child, 5, Some(root)));
    // A refused delegation changes nothing.
    assert!(caps.delegate(root, 9, 5, PermissionBits::read(), None).is_err());
    assert_eq!(caps.active_count(), 2);
}

#[test]
fn kernel_stack_in_the_higher_half() {
    let mut frames = BitmapFrameAllocator::new(16);
    frames.mark_region_free(0, 16);
    let mut next = 1u64;
    let hhdm = 0xffff_8000_0000_0000u64;
    let t = Task::new("t".to_string(), Priority::Normal, 0x1000, hhdm, &mut next, &mut frames);
    // Frame 0 is the guard; frames 1-4 hold the stack.
    assert_eq!(t.kernel_stack_bottom, hhdm + 4096);
    assert_eq!(t.kernel_stack_top, hhdm + 5 * 4096);
    assert_eq!(t.context.rsp, t.kernel_stack_top);
}

#[test]
fn virtqueue_in_the_higher_half() {
    let mut frames = BitmapFrameAllocator::new(16);
    frames.mark_region_free(0, 16);
    let hhdm = 0xffff_8000_0000_0000u64;
    let l = setup_virtqueue(256, &mut frames, hhdm).unwrap();
    assert_eq!((l.phys_base, l.dma_phys), (0, 2 * 4096));
    assert_eq!(l.virt_base, hhdm);
    assert_eq!(l.dma_virt, hhdm + 2 * 4096);
    assert_eq!(frames.stats(), (13, 16));
}

#[test]
fn cancel_right_after_schedule_restores_the_queue() {
    let mut q = DeadlineQueue::new();
    let mut next = 1u64;
    let a = q.schedule(1, 10, &mut next);
    let b = q.schedule(2, 20, &mut next);
    assert_eq!((a, b, next), (1, 2, 3));
    let c = q.schedule(3, 5, &mut next);
    q.cancel(c);
    assert_eq!(q.pending_count(), 2);
}

#[test]
fn gpu_completion_without_a_current_job_counts_nothing() {
    let mut g = GpuScheduler::new();
    g.complete_current();
    g.fail_current();
    let mut next = 1u64;
    g.submit(1, "m".to_string(), InferencePriority::Normal, None, 0, &mut next);
    assert!(g.dequeue().is_some());
    g.fail_current();
    g.complete_current();
    assert_eq!(g.queue_length(), 0);
}

fn data_message(id: u64, payload: Vec<u8>) -> Message {
    Message {
        id: MessageId(id),
        sender: 1,
        recipient: 2,
        msg_type: MessageType::Data,
        payload,
        cap_transfer: None,
        reply_to: None,
    }
}

#[test]
fn mailbox_is_first_in_first_out() {
    let mut mb = Mailboxes::new();
    assert!(receive(&mut mb, 2).is_none());
    register_mailbox(&mut mb, 2);
    for i in 0..3u64 {
        assert!(mb.deliver(data_message(i, vec![i as u8])).is_ok());
    }
    assert_eq!(mailbox_len(&mb, 2), 3);
    for i in 0..3u64 {
        let m = receive(&mut mb, 2).unwrap();
        assert_eq!((m.id.0, m.payload.clone()), (i, vec![i as u8]));
        assert_eq!(mailbox_len(&mb, 2), (2 - i) as usize);
    }
    assert!(receive(&mut mb, 2).is_none());
    assert_eq!(mailbox_len(&mb, 9), 0);
}

#[test]
fn collected_reply_carries_the_payload_once() {
    let mut caps = CapabilityTable::new();
    let cap = caps.create_root(1, ResourceRef::Agent(2), PermissionBits::write());
    let mut mb = Mailboxes::new();
    register_mailbox(&mut mb, 2);
    let mut next_msg = 1u64;
    let mut s = Scheduler::new();
    let mut table = RequestTable::new();
    let id = request(&mut table, 1, 2, vec![7], cap, 100, 0, &caps, &mut mb, &mut next_msg, &mut s).unwrap();
    assert!(collect_reply(&mut table, id).is_none());
    assert!(reply(&mut table, 2, id, vec![4, 2], cap, &mut s).is_ok());
    let r = collect_reply(&mut table, id).unwrap();
    assert_eq!((r.reply_to, r.payload.clone(), r.sender, r.recipient), (Some(id), vec![4, 2], 2, 1));
    assert!(matches!(r.msg_type, MessageType::Reply));
    assert!(collect_reply(&mut table, id).is_none());
    assert!(collect_reply(&mut table, MessageId(77)).is_none());
}

#[test]
fn block_read_after_write_hits_and_stays_dirty() {
    let mut c = BlockCache::new();
    let data = [0x5au8; 512];
    assert!(c.write(3, data).is_none());
    assert_eq!(c.read(3), Some(data));
    let dirty = c.dirty_blocks();
    assert_eq!(dirty.len(), 1);
    assert_eq!(dirty[0].0, 3);
}

#[test]
fn stored_value_survives_changes_to_other_keys() {
    let mut fs = OxideFs::new();
    let mut store = ContextStore::new();
    store.set(&mut fs, 3, "k", b"one", 1);
    store.set(&mut fs, 3, "other", b"two", 2);
    store.set(&mut fs, 4, "k", b"three", 3);
    assert!(store.delete(&mut fs, 3, "other"));
    store.clear_agent(&mut fs, 4);
    assert_eq!(store.get(&fs, 3, "k"), Some(b"one".to_vec()));
    assert_eq!(store.get(&fs, 4, "k"), None);
}

use oxide_kernel::agent::lifecycle::spawn;
use oxide_kernel::agent::registry::AgentRegistry;
use oxide_kernel::agent::{AgentConfig, AgentState, ModelBinding, ResourceLimits, RestartPolicy};
use oxide_kernel::apic::{apic_base_phys, timer_writes, APIC_TIMER_DIVIDE, APIC_TIMER_INIT_COUNT, APIC_TIMER_LVT};
use oxide_kernel::capability::{CapabilityTable, PermissionBits, ResourceRef};
use oxide_kernel::ipc::message::{mailbox_len, register_mailbox, Mailboxes};
use oxide_kernel::ipc::channel::{create, publish, subscribe, unsubscribe, ChannelTable};
use oxide_kernel::ipc::request_reply::{check_timeouts, collect_reply, reply, request, RequestTable};
use oxide_kernel::ipc::{IpcError, MessageType};
use oxide_kernel::memory::frame_allocator::BitmapFrameAllocator;
use oxide_kernel::memory::heap::{heap_pages, HEAP_SIZE, HEAP_START};
use oxide_kernel::memory::memmap::{try_init, MemmapEntry, MEMMAP_RESERVED, MEMMAP_USABLE};
use oxide_kernel::storage::context_store::ContextStore;
use oxide_kernel::storage::oxide_fs::OxideFs;
use oxide_kernel::syscall::{
    sys_agent_kill, sys_agent_list, sys_agent_status, sys_ipc_receive, sys_ipc_send, sys_print, sys_sleep,
    sys_storage_get, sys_storage_set,
};
use oxide_kernel::task::scheduler::Scheduler;
use oxide_kernel::task::{Priority, Task, TaskState};
use oxide_kernel::timer::deadline::DeadlineQueue;

fn config(name: &str, max_children: usize) -> AgentConfig {
    AgentConfig {
        name: name.to_string(),
        system_prompt: None,
        model: ModelBinding::Local { model_id: "m".to_string() },
        tools: Vec::new(),
        capabilities: Vec::new(),
        restart_policy: RestartPolicy::Permanent,
        resource_limits: ResourceLimits { max_memory_bytes: 1024, max_children },
    }
}

struct World {
    reg: AgentRegistry,
    next_id: u64,
    frames: BitmapFrameAllocator,
    mailboxes: Mailboxes,
    sched: Scheduler,
}

fn world() -> World {
    let mut frames = BitmapFrameAllocator::new(256);
    frames.mark_region_free(0, 256);
    World { reg: AgentRegistry::new(), next_id: 1, frames, mailboxes: Mailboxes::new(), sched: Scheduler::new() }
}

fn spawn_in(w: &mut World, parent: Option<u64>, name: &str) -> u64 {
    spawn(&mut w.reg, parent, config(name, 4), 0x1000, 0, &mut w.next_id, &mut w.frames, &mut w.mailboxes, &mut w.sched)
        .unwrap()
}

#[test]
fn agent_tree_rows_depth_first() {
    let mut w = world();
    let root = spawn_in(&mut w, None, "root");
    let a = spawn_in(&mut w, Some(root), "a");
    let b = spawn_in(&mut w, Some(root), "b");
    let a1 = spawn_in(&mut w, Some(a), "a1");
    let other = spawn_in(&mut w, None, "other");
    assert_eq!(w.reg.print_tree(), vec![(0, root), (1, a), (2, a1), (1, b), (0, other)]);
    let mut rows = vec![(9, 9)];
    w.reg.print_subtree(a, 3, &mut rows);
    assert_eq!(rows, vec![(9, 9), (3, a), (4, a1)]);
    assert_eq!(AgentRegistry::new().print_tree(), Vec::<(u64, u64)>::new());
}

#[test]
fn permissions_text() {
    assert_eq!(PermissionBits::none().to_string(), "[NONE]");
    assert_eq!(PermissionBits::read().to_string(), "[R]");
    let rwd = PermissionBits::read().union(PermissionBits::write()).union(PermissionBits::delegate());
    assert_eq!(rwd.to_string(), "[R|W|D]");
    assert_eq!(PermissionBits::spawn().union(PermissionBits::connect()).to_string(), "[SPAWN|CONN]");
    assert_eq!(PermissionBits::all().to_string(), "[R|W|X|D|SPAWN|KILL|SUB|PUB|CONN]");
    assert_eq!(PermissionBits::from_raw(0x200).to_string(), "[]");
}

#[test]
fn syscall_print_checks_text() {
    assert_eq!(sys_print(Some(b"hello")), Some("hello"));
    assert_eq!(sys_print(None), None);
    assert_eq!(sys_print(Some(&[0xff, 0xfe])), None);
    let long = vec![b'a'; 4097];
    assert_eq!(sys_print(Some(&long)), None);
    let max = vec![b'a'; 4096];
    assert_eq!(sys_print(Some(&max)).map(|s| s.len()), Some(4096));
}

#[test]
fn syscall_agents() {
    let mut w = world();
    let root = spawn_in(&mut w, None, "root");
    let child = spawn_in(&mut w, Some(root), "child");
    assert_eq!(sys_agent_list(&w.reg), 2);
    assert_eq!(sys_agent_status(&w.reg, child), 1);
    assert_eq!(sys_agent_status(&w.reg, 99), -1);
    assert_eq!(sys_agent_kill(&mut w.reg, 99), -1);
    assert_eq!(sys_agent_kill(&mut w.reg, root), 0);
    assert_eq!(sys_agent_list(&w.reg), 0);
    assert_eq!(sys_agent_status(&w.reg, child), -1);
    assert_eq!(w.reg.get(root).map(|a| a.state), None::<AgentState>);
}

#[test]
fn syscall_ipc() {
    let mut caps = CapabilityTable::new();
    let cap = caps.create_root(1, ResourceRef::Agent(2), PermissionBits::write());
    let ro = caps.create_root(1, ResourceRef::Agent(2), PermissionBits::read());
    let mut mb = Mailboxes::new();
    let mut next_msg = 5u64;
    let mut s = Scheduler::new();
    register_mailbox(&mut mb, 2);
    assert_eq!(sys_ipc_send(1, 2, Some(&[1, 2, 3]), cap, &caps, &mut mb, &mut next_msg, &mut s), 5);
    assert_eq!(next_msg, 6);
    assert_eq!(sys_ipc_send(1, 2, None, cap, &caps, &mut mb, &mut next_msg, &mut s), -1);
    let big = vec![0u8; 65537];
    assert_eq!(sys_ipc_send(1, 2, Some(&big), cap, &caps, &mut mb, &mut next_msg, &mut s), -1);
    assert_eq!(sys_ipc_send(1, 2, Some(&[1]), ro, &caps, &mut mb, &mut next_msg, &mut s), -1);
    assert_eq!(sys_ipc_send(1, 7, Some(&[1]), cap, &caps, &mut mb, &mut next_msg, &mut s), -1);
    assert_eq!(mailbox_len(&mb, 2), 1);
    assert_eq!(sys_ipc_receive(&mut mb, 2), 1);
    assert_eq!(sys_ipc_receive(&mut mb, 2), 0);
    assert_eq!(sys_ipc_receive(&mut mb, 9), 0);
}

#[test]
fn syscall_storage() {
    let mut store = ContextStore::new();
    let mut fs = OxideFs::new();
    assert_eq!(sys_storage_set(&mut store, &mut fs, 3, Some(b"goal"), Some(b"ship it"), 10), 0);
    assert_eq!(sys_storage_get(&store, &fs, 3, Some(b"goal")), 7);
    assert_eq!(fs.read_file("/agents/3/goal"), Some(&b"ship it"[..]));
    assert_eq!(sys_storage_get(&store, &fs, 3, Some(b"none")), -1);
    assert_eq!(sys_storage_get(&store, &fs, 3, None), -1);
    assert_eq!(sys_storage_set(&mut store, &mut fs, 3, Some(&[0xc3]), Some(b"x"), 11), -1);
    assert_eq!(sys_storage_set(&mut store, &mut fs, 3, Some(b"k"), None, 11), -1);
    let long_key = vec![b'k'; 257];
    assert_eq!(sys_storage_set(&mut store, &mut fs, 3, Some(&long_key), Some(b"x"), 11), -1);
    assert_eq!(sys_storage_get(&store, &fs, 3, Some(&long_key)), -1);
    let big = vec![0u8; 65537];
    assert_eq!(sys_storage_set(&mut store, &mut fs, 3, Some(b"k"), Some(&big), 11), -1);
    assert_eq!(fs.list("/agents/3/").len(), 1);
}

#[test]
fn syscall_sleep_blocks_current_task() {
    let mut frames = BitmapFrameAllocator::new(64);
    frames.mark_region_free(0, 64);
    let mut next = 1u64;
    let mut s = Scheduler::new();
    let mut q = DeadlineQueue::new();
    let mut next_cb = 1u64;
    assert_eq!(sys_sleep(5, 100, &mut s, &mut q, &mut next_cb), 0);
    assert_eq!(q.pending_count(), 0);
    s.spawn(Task::new("t".to_string(), Priority::Normal, 0x1000, 0, &mut next, &mut frames));
    s.schedule();
    assert_eq!(sys_sleep(5, 100, &mut s, &mut q, &mut next_cb), 0);
    assert_eq!(q.pending_count(), 1);
    assert_eq!(next_cb, 2);
    assert_eq!(s.current_task().map(|t| t.state), Some(TaskState::Blocked));
    s.schedule();
    assert_eq!(s.blocked_len(), 1);
}

#[test]
fn apic_values() {
    assert_eq!(apic_base_phys(0xFEE0_0900, 0), 0xFEE0_0000);
    assert_eq!(apic_base_phys(0x1234_5FFF, 0x1), 0x1_1234_5000);
    assert_eq!(
        timer_writes(32, 1_000_000),
        vec![(APIC_TIMER_DIVIDE, 3), (APIC_TIMER_LVT, 0x20020), (APIC_TIMER_INIT_COUNT, 1_000_000)]
    );
}

#[test]
fn heap_page_span() {
    let pages = heap_pages(HEAP_START, HEAP_SIZE);
    assert_eq!(pages.len(), 256);
    assert_eq!(pages[0], HEAP_START);
    assert_eq!(pages[255], HEAP_START + 255 * 4096);
    assert_eq!(heap_pages(4000, 200), vec![0, 4096]);
    assert_eq!(heap_pages(8192, 1), vec![8192]);
}

#[test]
fn free_undoes_allocate() {
    let mut frames = BitmapFrameAllocator::new(16);
    frames.mark_region_free(0, 16);
    frames.mark_region_used(0, 1);
    let before = frames.stats();
    let addr = frames.allocate_frame().unwrap();
    assert_eq!(addr, 4096);
    assert!(frames.is_set(1));
    frames.free_frame(addr);
    assert_eq!(frames.stats(), before);
    assert!(!frames.is_set(1));
    assert!(frames.is_set(0));
    assert_eq!(frames.allocate_frame(), Some(4096));
}

#[test]
fn memory_map_checked_init() {
    let entries = vec![
        MemmapEntry { base: 0, length: 0x1000, type_: MEMMAP_RESERVED },
        MemmapEntry { base: 0x1000, length: 0xF000, type_: MEMMAP_USABLE },
    ];
    let frames = try_init(&entries).unwrap();
    assert_eq!(frames.stats(), (14, 16));
    let too_far = vec![MemmapEntry { base: u64::MAX - 10, length: 20, type_: MEMMAP_USABLE }];
    assert!(try_init(&too_far).is_none());
    let past_space = vec![MemmapEntry { base: 1 << 52, length: 0x1000, type_: MEMMAP_USABLE }];
    assert!(try_init(&past_space).is_none());
    let no_room = vec![MemmapEntry { base: 0, length: 0x10000, type_: MEMMAP_RESERVED }];
    assert!(try_init(&no_room).is_none());
}

#[test]
fn request_reply_round_trip() {
    let mut caps = CapabilityTable::new();
    let cap = caps.create_root(1, ResourceRef::Agent(2), PermissionBits::write());
    let mut mb = Mailboxes::new();
    register_mailbox(&mut mb, 1);
    register_mailbox(&mut mb, 2);
    let mut next_msg = 1u64;
    let mut frames = BitmapFrameAllocator::new(64);
    frames.mark_region_free(0, 64);
    let mut next_task = 1u64;
    let mut s = Scheduler::new();
    s.spawn(Task::new("requester".to_string(), Priority::Normal, 0x1000, 0, &mut next_task, &mut frames));
    let mut table = RequestTable::new();

    let id = request(&mut table, 1, 2, vec![7], cap, 10, 100, &caps, &mut mb, &mut next_msg, &mut s).unwrap();
    assert_eq!(mailbox_len(&mb, 2), 1);
    s.schedule();
    s.block_current();
    s.schedule();
    assert_eq!(s.blocked_len(), 1);
    assert_eq!(reply(&mut table, 2, id, vec![8], cap, &mut s), Ok(()));
    assert_eq!(s.blocked_len(), 0);
    assert_eq!(reply(&mut table, 2, id, vec![9], cap, &mut s), Err(IpcError::RecipientNotFound));
    let m = collect_reply(&mut table, id).unwrap();
    assert_eq!(m.payload, vec![8]);
    assert_eq!(m.recipient, 1);
    assert_eq!(m.sender, 2);
    assert_eq!(m.msg_type, MessageType::Reply);
    assert_eq!(m.reply_to, Some(id));
    assert!(collect_reply(&mut table, id).is_none());

    let late = request(&mut table, 1, 2, vec![1], cap, 10, 100, &caps, &mut mb, &mut next_msg, &mut s).unwrap();
    check_timeouts(&mut table, 109, &mut s);
    let later = request(&mut table, 1, 2, vec![2], cap, 50, 100, &caps, &mut mb, &mut next_msg, &mut s).unwrap();
    check_timeouts(&mut table, 110, &mut s);
    assert_eq!(reply(&mut table, 2, late, vec![3], cap, &mut s), Err(IpcError::RecipientNotFound));
    assert_eq!(reply(&mut table, 2, later, vec![4], cap, &mut s), Ok(()));
    let other = caps.create_root(3, ResourceRef::Agent(2), PermissionBits::read());
    assert_eq!(
        request(&mut table, 3, 2, vec![1], other, 10, 100, &caps, &mut mb, &mut next_msg, &mut s),
        Err(IpcError::CapabilityDenied)
    );
}

#[test]
fn channel_publish_subscribe() {
    let mut caps = CapabilityTable::new();
    let sub2 = caps.create_root(2, ResourceRef::Channel { name: "news".to_string() }, PermissionBits::subscribe());
    let sub3 = caps.create_root(3, ResourceRef::Channel { name: "news".to_string() }, PermissionBits::subscribe());
    let pub1 = caps.create_root(1, ResourceRef::Channel { name: "news".to_string() }, PermissionBits::publish());
    let both2 = caps.create_root(
        2,
        ResourceRef::Channel { name: "news".to_string() },
        PermissionBits::publish().union(PermissionBits::subscribe()),
    );
    let mut t = ChannelTable::new();
    assert_eq!(create(&mut t, "news".to_string()), 1);
    assert_eq!(create(&mut t, "other".to_string()), 2);
    assert_eq!(subscribe(&mut t, "news", 2, sub2, &caps), Ok(()));
    assert_eq!(subscribe(&mut t, "news", 2, sub2, &caps), Ok(()));
    assert_eq!(subscribe(&mut t, "news", 3, sub3, &caps), Ok(()));
    assert_eq!(subscribe(&mut t, "missing", 3, sub3, &caps), Err(IpcError::RecipientNotFound));
    assert_eq!(subscribe(&mut t, "news", 3, pub1, &caps), Err(IpcError::CapabilityDenied));
    let mut mb = Mailboxes::new();
    register_mailbox(&mut mb, 2);
    register_mailbox(&mut mb, 3);
    assert_eq!(publish(&t, "news", 1, vec![5], pub1, &caps, &mut mb), Ok(2));
    assert_eq!(mailbox_len(&mb, 2), 1);
    assert_eq!(mailbox_len(&mb, 3), 1);
    assert_eq!(publish(&t, "news", 2, vec![6], both2, &caps, &mut mb), Ok(1));
    assert_eq!(mailbox_len(&mb, 2), 1);
    assert_eq!(mailbox_len(&mb, 3), 2);
    assert_eq!(publish(&t, "news", 1, vec![7], sub2, &caps, &mut mb), Err(IpcError::CapabilityDenied));
    assert_eq!(publish(&t, "missing", 1, vec![7], pub1, &caps, &mut mb), Err(IpcError::RecipientNotFound));
    assert_eq!(unsubscribe(&mut t, "news", 3), Ok(()));
    assert_eq!(unsubscribe(&mut t, "missing", 3), Err(IpcError::RecipientNotFound));
    assert_eq!(publish(&t, "news", 1, vec![8], pub1, &caps, &mut mb), Ok(1));
    assert_eq!(mailbox_len(&mb, 3), 2);
    assert_eq!(mailbox_len(&mb, 2), 2);
}

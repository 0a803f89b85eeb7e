use oxide_kernel::agent::lifecycle::{kill, resume, spawn, suspend};
use oxide_kernel::agent::registry::{Agent, AgentRegistry};
use oxide_kernel::agent::supervisor::notify_child_death;
use oxide_kernel::agent::{AgentConfig, AgentError, AgentState, ModelBinding, ResourceLimits, RestartPolicy};
use oxide_kernel::capability::{CapabilityTable, PermissionBits, ResourceRef};
use oxide_kernel::ipc::message::Mailboxes;
use oxide_kernel::ipc::shared_memory::{create_region, grant_access, SharedRegions};
use oxide_kernel::ipc::IpcError;
use oxide_kernel::memory::frame_allocator::BitmapFrameAllocator;
use oxide_kernel::memory::memmap::{init as memmap_init, MemmapEntry, MEMMAP_EXECUTABLE_AND_MODULES, MEMMAP_RESERVED, MEMMAP_USABLE};
use oxide_kernel::pci::{config_address, enable_bus_master, find_by_vendor, find_device, scan, ScanAction};
use oxide_kernel::qemu::ExitCode;
use oxide_kernel::task::scheduler::Scheduler;
use oxide_kernel::userspace::elf::{count_load_segments, validate, ElfHeader};
use oxide_kernel::userspace::process::{Process, USER_STACK_TOP};

fn config(name: &str, policy: RestartPolicy, max_children: usize) -> AgentConfig {
    AgentConfig {
        name: name.to_string(),
        system_prompt: None,
        model: ModelBinding::Local { model_id: "m".to_string() },
        tools: Vec::new(),
        capabilities: Vec::new(),
        restart_policy: policy,
        resource_limits: ResourceLimits { max_memory_bytes: 1024, max_children },
    }
}

struct World {
    reg: AgentRegistry,
    next_id: u64,
    frames: BitmapFrameAllocator,
    mailboxes: Mailboxes,
    sched: Scheduler,
}

fn world() -> World {
    let mut frames = BitmapFrameAllocator::new(256);
    frames.mark_region_free(0, 256);
    World { reg: AgentRegistry::new(), next_id: 1, frames, mailboxes: Mailboxes::new(), sched: Scheduler::new() }
}

fn spawn_in(w: &mut World, parent: Option<u64>, c: AgentConfig) -> Result<u64, AgentError> {
    spawn(&mut w.reg, parent, c, 0x1000, 0, &mut w.next_id, &mut w.frames, &mut w.mailboxes, &mut w.sched)
}

#[test]
fn spawn_registers_child_under_parent() {
    let mut w = world();
    let root = spawn_in(&mut w, None, config("root", RestartPolicy::Permanent, 1)).unwrap();
    let child = spawn_in(&mut w, Some(root), config("child", RestartPolicy::Permanent, 4)).unwrap();
    assert_eq!(w.reg.get(root).unwrap().children, vec![child]);
    assert_eq!(w.reg.get(child).unwrap().parent, Some(root));
    assert_eq!(w.reg.get(child).unwrap().state, AgentState::Running);
    assert_eq!(w.reg.find_by_name("child"), Some(child));
    assert_eq!(spawn_in(&mut w, Some(root), config("second", RestartPolicy::Permanent, 4)), Err(AgentError::MaxChildren));
    assert_eq!(w.reg.count(), 2);
    assert_eq!(w.reg.all_ids(), vec![root, child]);
    assert_eq!(w.sched.task_count(), 2);
}

#[test]
fn kill_cascades_to_children() {
    let mut w = world();
    let root = spawn_in(&mut w, None, config("root", RestartPolicy::Permanent, 8)).unwrap();
    let a = spawn_in(&mut w, Some(root), config("a", RestartPolicy::Permanent, 8)).unwrap();
    let b = spawn_in(&mut w, Some(a), config("b", RestartPolicy::Permanent, 8)).unwrap();
    let c = spawn_in(&mut w, Some(root), config("c", RestartPolicy::Permanent, 8)).unwrap();
    assert_eq!(kill(&mut w.reg, a), Ok(()));
    assert!(w.reg.get(a).is_none());
    assert!(w.reg.get(b).is_none());
    assert!(w.reg.get(c).is_some());
    assert_eq!(w.reg.get(root).unwrap().children, vec![c]);
    assert_eq!(w.reg.find_by_name("a"), None);
    assert_eq!(kill(&mut w.reg, a), Err(AgentError::NotFound));
    assert_eq!(AgentError::NotFound.message(), "agent not found");
}

#[test]
fn supervisor_policies() {
    let mut w = world();
    let p = spawn_in(&mut w, None, config("p", RestartPolicy::RestartOne, 8)).unwrap();
    let c = spawn_in(&mut w, Some(p), config("c", RestartPolicy::Permanent, 8)).unwrap();
    assert_eq!(kill(&mut w.reg, c), Ok(()));
    assert_eq!(w.reg.get(p).unwrap().restart_count, 1);
    let e = spawn_in(&mut w, None, config("e", RestartPolicy::Escalate, 8)).unwrap();
    notify_child_death(&mut w.reg, e, 99);
    assert!(w.reg.get(e).is_none());
    let q = spawn_in(&mut w, None, config("q", RestartPolicy::RestartAll, 8)).unwrap();
    for _ in 0..5 {
        notify_child_death(&mut w.reg, q, 99);
    }
    assert_eq!(w.reg.get(q).unwrap().restart_count, 5);
    notify_child_death(&mut w.reg, q, 99);
    assert!(w.reg.get(q).is_none());
}

#[test]
fn suspend_and_resume() {
    let mut w = world();
    let a = spawn_in(&mut w, None, config("a", RestartPolicy::Permanent, 8)).unwrap();
    assert_eq!(suspend(&mut w.reg, a), Ok(()));
    assert_eq!(w.reg.get(a).unwrap().state, AgentState::Suspended);
    assert_eq!(resume(&mut w.reg, a), Ok(()));
    assert_eq!(w.reg.get(a).unwrap().state, AgentState::Running);
    assert_eq!(suspend(&mut w.reg, 77), Err(AgentError::NotFound));
    let limits = ResourceLimits::default();
    assert_eq!((limits.max_memory_bytes, limits.max_children), (16 * 1024 * 1024, 32));
}

#[test]
fn registry_register_unregister() {
    let mut r = AgentRegistry::new();
    r.register(Agent { id: 4, config: config("x", RestartPolicy::Permanent, 1), state: AgentState::Initializing,
        parent: None, children: Vec::new(), restart_count: 0, max_restarts: 5 });
    assert_eq!(r.find_by_name("x"), Some(4));
    let a = r.unregister(4).unwrap();
    assert_eq!(a.id, 4);
    assert_eq!(r.find_by_name("x"), None);
    assert!(r.unregister(4).is_none());
}

#[test]
fn shared_memory_regions() {
    let mut regions = SharedRegions::new();
    let mut table = CapabilityTable::new();
    let mut frames = BitmapFrameAllocator::new(16);
    frames.mark_region_free(0, 16);
    let id = create_region(&mut regions, &mut table, &mut frames, 1, 5000).unwrap();
    assert_eq!(id, 1);
    let reg = regions.get(id).unwrap();
    assert_eq!(reg.size, 8192);
    assert_eq!(frames.free_frames(), 14);
    let owner_cap = 1;
    assert!(table.validate(owner_cap, 1, PermissionBits::delegate()).is_ok());
    let granted = grant_access(&mut regions, &mut table, id, 1, 2, owner_cap).unwrap();
    assert!(table.validate(granted, 2, PermissionBits::read()).is_ok());
    assert!(table.validate(granted, 2, PermissionBits::write()).is_err());
    assert_eq!(regions.get(id).unwrap().grants, vec![2]);
    assert_eq!(grant_access(&mut regions, &mut table, 99, 1, 2, owner_cap), Err(IpcError::RecipientNotFound));
    assert_eq!(grant_access(&mut regions, &mut table, id, 2, 3, granted), Err(IpcError::CapabilityDenied));
    let mut none = BitmapFrameAllocator::new(16);
    assert_eq!(create_region(&mut regions, &mut table, &mut none, 1, 10), Err(IpcError::RecipientNotFound));
}

#[test]
fn frame_allocator_from_memory_map() {
    let entries = vec![
        MemmapEntry { base: 0, length: 0x1000, type_: MEMMAP_RESERVED },
        MemmapEntry { base: 0x1000, length: 0x7000, type_: MEMMAP_USABLE },
        MemmapEntry { base: 0x3000, length: 0x2000, type_: MEMMAP_EXECUTABLE_AND_MODULES },
    ];
    let a = memmap_init(&entries);
    // 8 frames tracked; frame 0 reserved, frame 1 holds the bitmap, frames 3-4 the kernel.
    assert_eq!(a.stats(), (4, 8));
}

#[test]
fn pci_scan_state_machine() {
    assert_eq!(config_address(1, 2, 3, 0x13), 0x8000_0000 | (1 << 16) | (2 << 11) | (3 << 8) | 0x10);
    assert_eq!(enable_bus_master(0x3), 0x7);
    let mut s = scan();
    assert_eq!(s.next_action(), ScanAction::ReadId { bus: 0, device: 0, function: 0 });
    s.on_id(0x1237_8086);
    assert_eq!(s.next_action(), ScanAction::ReadFunction { bus: 0, device: 0, function: 0 });
    s.on_function(0x0600_0000, 0x0080_0000, 0x0b, [0; 6]);
    assert_eq!(s.next_action(), ScanAction::ReadId { bus: 0, device: 0, function: 1 });
    s.on_id(0xffff_ffff);
    assert_eq!(s.next_action(), ScanAction::ReadId { bus: 0, device: 0, function: 2 });
    let d = s.devices()[0];
    assert_eq!((d.vendor_id, d.device_id, d.class_code, d.header_type, d.interrupt_line), (0x8086, 0x1237, 6, 0x80, 0x0b));
    let devs = s.devices().clone();
    assert_eq!(find_device(&devs, 0x8086, 0x1237).unwrap().device, 0);
    assert!(find_device(&devs, 0x1af4, 1).is_none());
    assert_eq!(find_by_vendor(&devs, 0x8086).len(), 1);
}

fn elf_with_segments(types: &[u32]) -> Vec<u8> {
    let mut b = vec![0u8; 64 + 56 * types.len()];
    b[0..4].copy_from_slice(&[0x7f, b'E', b'L', b'F']);
    b[4] = 2;
    b[18..20].copy_from_slice(&0x3Eu16.to_le_bytes());
    b[24..32].copy_from_slice(&0x401000u64.to_le_bytes());
    b[32..40].copy_from_slice(&64u64.to_le_bytes());
    b[54..56].copy_from_slice(&56u16.to_le_bytes());
    b[56..58].copy_from_slice(&(types.len() as u16).to_le_bytes());
    for (i, t) in types.iter().enumerate() {
        b[64 + 56 * i..68 + 56 * i].copy_from_slice(&t.to_le_bytes());
    }
    b
}

#[test]
fn elf_validation_and_segments() {
    let b = elf_with_segments(&[1, 2, 1]);
    assert_eq!(validate(&b), Ok(0x401000));
    assert_eq!(count_load_segments(&b), 2);
    assert_eq!(ElfHeader::parse(&b).e_phnum, 3);
    assert_eq!(validate(&b[..10]), Err("binary too small"));
    let mut bad = b.clone();
    bad[1] = b'X';
    assert_eq!(validate(&bad), Err("not a valid ELF"));
    let mut b32 = b.clone();
    b32[4] = 1;
    assert_eq!(validate(&b32), Err("not 64-bit"));
    let mut arm = b.clone();
    arm[18] = 0xB7;
    assert_eq!(validate(&arm), Err("not x86_64"));
    let mut short = b.clone();
    short.truncate(64 + 56 + 10);
    assert_eq!(count_load_segments(&short), 1);
}

#[test]
fn process_and_exit_codes() {
    let p = Process::new(3, "init".to_string(), 0x400000);
    assert_eq!(p.user_stack_top, USER_STACK_TOP);
    let f = p.usermode_frame();
    assert_eq!((f.rip, f.cs, f.rflags, f.rsp, f.ss), (0x400000, 0x1B, 0x200, USER_STACK_TOP, 0x23));
    assert_eq!(ExitCode::Success.code(), 0x10);
    assert_eq!(ExitCode::Failure.code(), 0x11);
}

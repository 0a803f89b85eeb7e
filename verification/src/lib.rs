//! Verified core of an agent-native microkernel: capabilities, IPC, scheduling, frame
//! allocation, storage and the decisions of its drivers.
pub mod agent;
pub mod apic;
pub mod capability;
pub mod crypto;
pub mod gpu;
pub mod ipc;
pub mod memory;
pub mod net;
pub mod pci;
pub mod qemu;
pub mod storage;
pub mod strmap;
pub mod syscall;
pub mod task;
pub mod timer;
pub mod userspace;

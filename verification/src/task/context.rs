use vstd::prelude::*;

verus! {

/// Callee-saved registers kept across a context switch.
#[derive(Debug, Clone, Copy, PartialEq, Eq, Structural)]
pub struct CpuContext {
    pub rsp: u64,
    pub rbp: u64,
    pub rbx: u64,
    pub r12: u64,
    pub r13: u64,
    pub r14: u64,
    pub r15: u64,
    pub rip: u64,
}

impl CpuContext {
    /// The context with every register zero.
    pub open spec fn empty_spec() -> Self {
        CpuContext { rsp: 0, rbp: 0, rbx: 0, r12: 0, r13: 0, r14: 0, r15: 0, rip: 0 }
    }

    /// All registers zero.
    pub fn empty() -> (c: Self)
        ensures
            c == Self::empty_spec(),
    {
        CpuContext { rsp: 0, rbp: 0, rbx: 0, r12: 0, r13: 0, r14: 0, r15: 0, rip: 0 }
    }
}

} // verus!

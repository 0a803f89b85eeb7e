//! QEMU's `isa-debug-exit` device.
use vstd::prelude::*;

verus! {

/// Port of the debug-exit device.
pub const DEBUG_EXIT_PORT: u16 = 0xf4;

#[derive(Debug, Clone, Copy, PartialEq, Eq)]
pub enum ExitCode {
    Success,
    Failure,
}

impl ExitCode {
    /// The value written to the debug-exit port.
    pub fn code(&self) -> (c: u32)
        ensures
            c == match self {
                ExitCode::Success => 0x10u32,
                ExitCode::Failure => 0x11u32,
            },
    {
        match self {
            ExitCode::Success => 0x10,
            ExitCode::Failure => 0x11,
        }
    }
}

} // verus!

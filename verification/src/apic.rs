//! The local APIC: where it sits and which register writes set it up. The writes
//! themselves are memory-mapped I/O done by the caller.
use vstd::prelude::*;

verus! {

/// The IA32_APIC_BASE model-specific register.
pub const APIC_BASE_MSR: u32 = 0x1B;

/// Register offsets from the APIC's base address.
pub const APIC_SPURIOUS_VEC: u32 = 0x0F0;
pub const APIC_TIMER_LVT: u32 = 0x320;
pub const APIC_TIMER_INIT_COUNT: u32 = 0x380;
pub const APIC_TIMER_DIVIDE: u32 = 0x3E0;
pub const APIC_EOI: u32 = 0x0B0;

/// Spurious-interrupt register value: vector 0xFF with the APIC-enable bit (bit 8).
pub const APIC_ENABLE: u32 = 0x1FF;

/// Timer divide configuration: divide by 16.
pub const TIMER_DIVIDE_BY_16: u32 = 0x03;

/// Timer mode bit for periodic interrupts (bit 17).
pub const TIMER_PERIODIC: u32 = 0x20000;

/// Physical base address of the APIC from the two halves of its base MSR: the 64-bit
/// value with its low 12 (flag) bits cleared.
pub fn apic_base_phys(low: u32, high: u32) -> (r: u64)
    ensures
        r == (high as int) * 0x1_0000_0000 + (low as int) - (low as int) % 4096,
{
    let h = high as u64;
    let l = low as u64;
    let r = (h << 32u64 | l) & 0xFFFF_FFFF_FFFF_F000u64;
    assert(r == h * 0x1_0000_0000 + (l - l % 4096)) by (bit_vector)
        requires
            h < 0x1_0000_0000,
            l < 0x1_0000_0000,
            r == (h << 32u64 | l) & 0xFFFF_FFFF_FFFF_F000u64,
    ;
    r
}

/// The register writes, as (offset, value), that start the timer in periodic mode on
/// `vector` every `interval` counts: divide by 16, periodic mode and vector, initial count.
pub fn timer_writes(vector: u8, interval: u32) -> (w: Vec<(u32, u32)>)
    ensures
        w@ == seq![
            (APIC_TIMER_DIVIDE, TIMER_DIVIDE_BY_16),
            (APIC_TIMER_LVT, (TIMER_PERIODIC + vector) as u32),
            (APIC_TIMER_INIT_COUNT, interval),
        ],
{
    let v = vector as u32;
    let lvt = TIMER_PERIODIC | v;
    assert(lvt == TIMER_PERIODIC + v) by (bit_vector)
        requires
            v < 256,
            lvt == 0x20000u32 | v,
            TIMER_PERIODIC == 0x20000u32,
    ;
    let mut w: Vec<(u32, u32)> = Vec::new();
    w.push((APIC_TIMER_DIVIDE, TIMER_DIVIDE_BY_16));
    w.push((APIC_TIMER_LVT, lvt));
    w.push((APIC_TIMER_INIT_COUNT, interval));
    assert(w@ =~= seq![
        (APIC_TIMER_DIVIDE, TIMER_DIVIDE_BY_16),
        (APIC_TIMER_LVT, (TIMER_PERIODIC + vector) as u32),
        (APIC_TIMER_INIT_COUNT, interval),
    ]);
    w
}

} // verus!

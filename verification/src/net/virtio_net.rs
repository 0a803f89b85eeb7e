//! The virtio-net device: its MAC address; no frames are exchanged yet.
use vstd::prelude::*;

verus! {

pub struct VirtioNetDevice {
    pub mac: [u8; 6],
    pub initialized: bool,
}

impl VirtioNetDevice {
    pub fn empty() -> (d: Self)
        ensures
            d.mac@ == seq![0u8, 0u8, 0u8, 0u8, 0u8, 0u8],
            !d.initialized,
    {
        let d = VirtioNetDevice { mac: [0u8; 6], initialized: false };
        assert(d.mac@ =~= seq![0u8, 0u8, 0u8, 0u8, 0u8, 0u8]);
        d
    }

    /// Receive a frame into `buffer`: none is ever available.
    pub fn receive(&mut self, buffer: &mut [u8]) -> (r: Option<usize>)
        ensures
            r is None,
            *final(self) == *old(self),
            final(buffer)@ == old(buffer)@,
    {
        None
    }

    /// Transmit a frame: refused before initialization, else accepted.
    pub fn transmit(&mut self, data: &[u8]) -> (r: Result<(), &'static str>)
        ensures
            *final(self) == *old(self),
            !old(self).initialized ==> (r matches Err(m) && m@ == "not initialized"@),
            old(self).initialized ==> r is Ok,
    {
        if !self.initialized {
            return Err("not initialized");
        }
        Ok(())
    }

    pub fn mac_address(&self) -> (m: [u8; 6])
        ensures
            m == self.mac,
    {
        self.mac
    }
}

/// Bring the device up with QEMU's default MAC address.
pub fn init(dev: &mut VirtioNetDevice, hhdm_offset: u64)
    ensures
        final(dev).mac@ == seq![0x52u8, 0x54u8, 0x00u8, 0x12u8, 0x34u8, 0x56u8],
        final(dev).initialized,
{
    dev.mac = [0x52, 0x54, 0x00, 0x12, 0x34, 0x56];
    dev.initialized = true;
    assert(dev.mac@ =~= seq![0x52u8, 0x54u8, 0x00u8, 0x12u8, 0x34u8, 0x56u8]);
}

} // verus!

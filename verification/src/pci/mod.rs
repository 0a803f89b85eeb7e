//! PCI configuration mechanism #1: register decoding and the bus-scan order. The port
//! accesses themselves are made by the caller.
use vstd::prelude::*;

verus! {

/// Configuration address port.
pub const PCI_CONFIG_ADDR: u16 = 0xCF8;

/// Configuration data port.
pub const PCI_CONFIG_DATA: u16 = 0xCFC;

/// A function found on the bus.
#[derive(Debug, Clone, Copy)]
pub struct PciDevice {
    pub bus: u8,
    pub device: u8,
    pub function: u8,
    pub vendor_id: u16,
    pub device_id: u16,
    pub class_code: u8,
    pub subclass: u8,
    pub header_type: u8,
    pub bars: [u32; 6],
    pub interrupt_line: u8,
}

/// The value written to the address port to reach register `offset` of a function.
pub open spec fn config_address_spec(bus: u8, device: u8, function: u8, offset: u8) -> u32 {
    0x8000_0000u32 | ((bus as u32) << 16u32) | ((device as u32) << 11u32) | ((function as u32) << 8u32)
        | ((offset as u32) & 0xFCu32)
}

/// The configuration address of register `offset` (rounded down to a dword) of
/// `bus:device.function`, with the enable bit set.
pub fn config_address(bus: u8, device: u8, function: u8, offset: u8) -> (r: u32)
    ensures
        r == config_address_spec(bus, device, function, offset),
{
    0x8000_0000u32 | ((bus as u32) << 16u32) | ((device as u32) << 11u32) | ((function as u32) << 8u32)
        | ((offset as u32) & 0xFCu32)
}

/// The vendor id in register 0 (low half).
pub open spec fn vendor_of(reg0: u32) -> u16 {
    (reg0 & 0xFFFF) as u16
}

/// A function answers: its vendor id is not all ones.
pub fn is_present(reg0: u32) -> (r: bool)
    ensures
        r == (vendor_of(reg0) != 0xFFFF),
{
    ((reg0 & 0xFFFF) as u16) != 0xFFFF
}

/// The function described by its raw configuration registers: register 0 (vendor and
/// device id), register 0x08 (class), register 0x0C (header type), register 0x3C
/// (interrupt line) and the six base address registers.
pub open spec fn decode_spec(
    bus: u8,
    device: u8,
    function: u8,
    reg0: u32,
    class_reg: u32,
    header_type: u8,
    int_reg: u32,
    bars: [u32; 6],
) -> PciDevice {
    PciDevice {
        bus,
        device,
        function,
        vendor_id: (reg0 & 0xFFFF) as u16,
        device_id: ((reg0 >> 16u32) & 0xFFFF) as u16,
        class_code: ((class_reg >> 24u32) & 0xFF) as u8,
        subclass: ((class_reg >> 16u32) & 0xFF) as u8,
        header_type,
        bars,
        interrupt_line: (int_reg & 0xFF) as u8,
    }
}

/// The header type byte of register 0x0C.
pub fn header_type_of(header_reg: u32) -> (r: u8)
    ensures
        r == ((header_reg >> 16u32) & 0xFF) as u8,
{
    ((header_reg >> 16u32) & 0xFF) as u8
}

/// Decode a function's registers into a [`PciDevice`].
pub fn decode_function(
    bus: u8,
    device: u8,
    function: u8,
    reg0: u32,
    class_reg: u32,
    header_type: u8,
    int_reg: u32,
    bars: [u32; 6],
) -> (d: PciDevice)
    ensures
        d == decode_spec(bus, device, function, reg0, class_reg, header_type, int_reg, bars),
{
    PciDevice {
        bus,
        device,
        function,
        vendor_id: (reg0 & 0xFFFF) as u16,
        device_id: ((reg0 >> 16u32) & 0xFFFF) as u16,
        class_code: ((class_reg >> 24u32) & 0xFF) as u8,
        subclass: ((class_reg >> 16u32) & 0xFF) as u8,
        header_type,
        bars,
        interrupt_line: (int_reg & 0xFF) as u8,
    }
}

/// What a bus scan asks of the configuration ports next.
#[derive(Debug, Clone, Copy, PartialEq, Eq)]
pub enum ScanAction {
    /// Read register 0 of the function.
    ReadId { bus: u8, device: u8, function: u8 },
    /// Read the class, interrupt and base address registers of the function, and for
    /// function 0 its header type register.
    ReadFunction { bus: u8, device: u8, function: u8 },
    /// Every bus has been scanned.
    Finished,
}

/// A scan of all 256 buses, 32 devices each: function 0 of every device, and functions
/// 1 to 7 of a multi-function device, in that order.
pub struct PciScan {
    bus: u8,
    device: u8,
    function: u8,
    /// Register 0 of the function being read, once it answered.
    pending: Option<u32>,
    /// Function 0 of the current device declared several functions.
    multi: bool,
    finished: bool,
    devices: Vec<PciDevice>,
}

/// The probe after function `function` of `bus:device`: the next function of a
/// multi-function device, else function 0 of the next device; `None` after the last one.
pub open spec fn next_probe(bus: u8, device: u8, function: u8, multi: bool) -> Option<(u8, u8, u8)> {
    if multi && function < 7 {
        Some((bus, device, (function + 1) as u8))
    } else if device < 31 {
        Some((bus, (device + 1) as u8, 0u8))
    } else if bus < 255 {
        Some(((bus + 1) as u8, 0u8, 0u8))
    } else {
        None
    }
}

impl PciScan {
    /// The functions found so far, in scan order.
    pub closed spec fn found(&self) -> Seq<PciDevice> {
        self.devices@
    }

    /// The function being probed, unless the scan is over.
    pub closed spec fn position(&self) -> Option<(u8, u8, u8)> {
        if self.finished {
            None
        } else {
            Some((self.bus, self.device, self.function))
        }
    }

    /// Register 0 of the function being read, if it answered.
    pub closed spec fn answered(&self) -> Option<u32> {
        self.pending
    }

    /// Function 0 of the current device declared several functions.
    pub closed spec fn multi_function(&self) -> bool {
        self.multi
    }

    pub closed spec fn wf(&self) -> bool {
        &&& self.function < 8
        &&& self.device < 32
        &&& (self.function > 0 ==> self.multi)
    }

    fn advance(&mut self)
        requires
            old(self).wf(),
            !old(self).finished,
        ensures
            final(self).wf(),
            final(self).found() == old(self).found(),
            final(self).answered() is None,
            match next_probe(old(self).bus, old(self).device, old(self).function, old(self).multi) {
                Some((b, d, f)) => final(self).position() == Some((b, d, f)) && (f > 0 <==> final(self).multi_function())
                    && (f > 0 ==> final(self).multi_function() == old(self).multi_function()),
                None => final(self).position() is None,
            },
    {
        self.pending = None;
        if self.multi && self.function < 7 {
            self.function = self.function + 1;
        } else {
            self.function = 0;
            self.multi = false;
            if self.device < 31 {
                self.device = self.device + 1;
            } else if self.bus < 255 {
                self.device = 0;
                self.bus = self.bus + 1;
            } else {
                self.finished = true;
            }
        }
    }

    /// What the scan needs next.
    pub fn next_action(&self) -> (a: ScanAction)
        ensures
            a == match self.position() {
                None => ScanAction::Finished,
                Some((b, d, f)) => if self.answered() is Some {
                    ScanAction::ReadFunction { bus: b, device: d, function: f }
                } else {
                    ScanAction::ReadId { bus: b, device: d, function: f }
                },
            },
    {
        if self.finished {
            ScanAction::Finished
        } else if self.pending.is_some() {
            ScanAction::ReadFunction { bus: self.bus, device: self.device, function: self.function }
        } else {
            ScanAction::ReadId { bus: self.bus, device: self.device, function: self.function }
        }
    }

    /// Take register 0 of the probed function: an absent function is skipped (and with it
    /// the rest of the device when it is function 0), a present one is read next.
    pub fn on_id(&mut self, reg0: u32)
        requires
            old(self).wf(),
            old(self).position() is Some,
            old(self).answered() is None,
        ensures
            final(self).wf(),
            final(self).found() == old(self).found(),
            vendor_of(reg0) != 0xFFFF ==> final(self).position() == old(self).position()
                && final(self).answered() == Some(reg0)
                && final(self).multi_function() == old(self).multi_function(),
            vendor_of(reg0) == 0xFFFF ==> {
                let (b, d, f) = old(self).position()->0;
                &&& final(self).answered() is None
                &&& match next_probe(b, d, f, old(self).multi_function()) {
                    Some(p) => final(self).position() == Some(p),
                    None => final(self).position() is None,
                }
            },
    {
        if is_present(reg0) {
            self.pending = Some(reg0);
        } else {
            self.advance();
        }
    }

    /// Take the remaining registers of the probed function, record it and move on.
    /// `header_reg` is read only for function 0; a later function records header type 0.
    pub fn on_function(&mut self, class_reg: u32, header_reg: u32, int_reg: u32, bars: [u32; 6])
        requires
            old(self).wf(),
            old(self).position() is Some,
            old(self).answered() is Some,
        ensures
            final(self).wf(),
            ({
                let (b, d, f) = old(self).position()->0;
                let header_type = if f == 0 { ((header_reg >> 16u32) & 0xFF) as u8 } else { 0u8 };
                let multi = if f == 0 { header_type & 0x80 != 0 } else { old(self).multi_function() };
                &&& final(self).found() == old(self).found().push(
                    decode_spec(b, d, f, old(self).answered()->0, class_reg, header_type, int_reg, bars),
                )
                &&& final(self).answered() is None
                &&& match next_probe(b, d, f, multi) {
                    Some(p) => final(self).position() == Some(p),
                    None => final(self).position() is None,
                }
            }),
    {
        let reg0 = match self.pending {
            Some(r) => r,
            None => 0,
        };
        let header_type = if self.function == 0 { header_type_of(header_reg) } else { 0u8 };
        if self.function == 0 {
            self.multi = header_type & 0x80 != 0;
        }
        let dev = decode_function(self.bus, self.device, self.function, reg0, class_reg, header_type, int_reg, bars);
        self.devices.push(dev);
        self.advance();
    }

    /// The functions found, in scan order.
    pub fn devices(&self) -> (r: &Vec<PciDevice>)
        ensures
            r@ == self.found(),
    {
        &self.devices
    }
}

/// Start a scan of the bus at `00:00.0`.
pub fn scan() -> (s: PciScan)
    ensures
        s.wf(),
        s.found() == Seq::<PciDevice>::empty(),
        s.position() == Some((0u8, 0u8, 0u8)),
        s.answered() is None,
        !s.multi_function(),
{
    PciScan { bus: 0, device: 0, function: 0, pending: None, multi: false, finished: false, devices: Vec::new() }
}

/// The first function of `devices` with the given vendor and device id.
pub fn find_device(devices: &Vec<PciDevice>, vendor_id: u16, device_id: u16) -> (r: Option<PciDevice>)
    ensures
        match r {
            Some(d) => exists|i: int| {
                &&& 0 <= i < devices@.len()
                &&& devices@[i] == d
                &&& d.vendor_id == vendor_id && d.device_id == device_id
                &&& forall|j: int| 0 <= j < i ==> !(#[trigger] devices@[j].vendor_id == vendor_id && devices@[j].device_id == device_id)
            },
            None => forall|j: int| 0 <= j < devices@.len() ==> !(#[trigger] devices@[j].vendor_id == vendor_id && devices@[j].device_id == device_id),
        },
{
    let mut i: usize = 0;
    while i < devices.len()
        invariant
            i <= devices@.len(),
            forall|j: int| 0 <= j < i ==> !(#[trigger] devices@[j].vendor_id == vendor_id && devices@[j].device_id == device_id),
        decreases devices@.len() - i,
    {
        let d = devices[i];
        if d.vendor_id == vendor_id && d.device_id == device_id {
            return Some(d);
        }
        i = i + 1;
    }
    None
}

/// The functions of `devices` with the given vendor id, in order.
pub fn find_by_vendor(devices: &Vec<PciDevice>, vendor_id: u16) -> (r: Vec<PciDevice>)
    ensures
        r@ == devices@.filter(|d: PciDevice| d.vendor_id == vendor_id),
{
    let mut r: Vec<PciDevice> = Vec::new();
    let mut i: usize = 0;
    while i < devices.len()
        invariant
            i <= devices@.len(),
            r@ == devices@.take(i as int).filter(|d: PciDevice| d.vendor_id == vendor_id),
        decreases devices@.len() - i,
    {
        let d = devices[i];
        proof {
            assert(devices@.take(i + 1).drop_last() =~= devices@.take(i as int));
            devices@.take(i as int).lemma_filter_push(d, |d: PciDevice| d.vendor_id == vendor_id);
            assert(devices@.take(i as int).push(d) =~= devices@.take(i + 1));
        }
        if d.vendor_id == vendor_id {
            r.push(d);
        }
        i = i + 1;
    }
    assert(devices@.take(i as int) =~= devices@);
    r
}

/// The command register with bus mastering (bit 2) enabled, as DMA requires.
pub fn enable_bus_master(command: u32) -> (r: u32)
    ensures
        r == command | 0x04,
{
    command | 0x04
}

} // verus!

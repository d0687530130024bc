//! Message signalled interrupts: the message format, the MSI and MSI-X
//! capabilities, and spreading interrupts over the cores.
use vstd::prelude::*;
use super::{bar_value, register, spec_make_address, Pci, PciConfigIo, PciDevice};

verus! {

/// An MSI message: where it goes (address) and what it says (data).
#[derive(Clone, Copy)]
pub struct Message {
    pub dest_id: u8,
    pub dest_mode: bool,
    pub redirection: bool,
    pub int_vec: u8,
    pub trigger: bool,
    pub level: bool,
    pub delivery_mode: u8,
}

pub open spec fn bit(b: bool) -> u32 {
    if b { 1 } else { 0 }
}

impl Message {
    /// All fields zero.
    pub fn new() -> (r: Self)
        ensures
            r == (Message { dest_id: 0, dest_mode: false, redirection: false, int_vec: 0, trigger: false, level: false, delivery_mode: 0 }),
    {
        Self { dest_id: 0, dest_mode: false, redirection: false, int_vec: 0, trigger: false, level: false, delivery_mode: 0 }
    }

    pub fn destionation_id(self, id: u8) -> (r: Self)
        ensures
            r == (Message { dest_id: id, ..self }),
    {
        let mut m = self;
        m.dest_id = id;
        m
    }

    pub fn destionation_mode(self, mode: bool) -> (r: Self)
        ensures
            r == (Message { dest_mode: mode, ..self }),
    {
        let mut m = self;
        m.dest_mode = mode;
        m
    }

    pub fn redirection(self, hint: bool) -> (r: Self)
        ensures
            r == (Message { redirection: hint, ..self }),
    {
        let mut m = self;
        m.redirection = hint;
        m
    }

    pub fn interrupt_index(self, index: u8) -> (r: Self)
        ensures
            r == (Message { int_vec: index, ..self }),
    {
        let mut m = self;
        m.int_vec = index;
        m
    }

    pub fn trigger_mode(self, trigger: bool) -> (r: Self)
        ensures
            r == (Message { trigger, ..self }),
    {
        let mut m = self;
        m.trigger = trigger;
        m
    }

    pub fn level(self, level: bool) -> (r: Self)
        ensures
            r == (Message { level, ..self }),
    {
        let mut m = self;
        m.level = level;
        m
    }

    /// Only the low three bits of `mode` are kept.
    pub fn delivery_mode(self, mode: u8) -> (r: Self)
        ensures
            r == (Message { delivery_mode: mode & 0x07, ..self }),
    {
        let mut m = self;
        m.delivery_mode = mode & 0x07;
        m
    }

    pub open spec fn spec_address(&self) -> u32 {
        0xFEE0_0000u32 | (self.dest_id as u32) << 12u32 | bit(self.redirection) << 3u32 | bit(self.dest_mode) << 2u32
    }

    /// FEE00000h with the destination in bits 12 to 19, the redirection
    /// hint in bit 3 and the destination mode in bit 2.
    pub fn address(&self) -> (r: u32)
        ensures
            r == self.spec_address(),
    {
        let mut address: u32 = 0xFEE0_0000;
        address = address | (self.dest_id as u32) << 12u32;
        address = address | (if self.redirection { 1u32 } else { 0u32 }) << 3u32;
        address = address | (if self.dest_mode { 1u32 } else { 0u32 }) << 2u32;
        address
    }

    pub open spec fn spec_data(&self) -> u32 {
        (self.int_vec as u32) | (self.delivery_mode as u32) << 8u32 | bit(self.level) << 14u32 | bit(self.trigger) << 15u32
    }

    /// The vector in bits 0 to 7, the delivery mode from bit 8, the level
    /// in bit 14 and the trigger mode in bit 15.
    pub fn data(&self) -> (r: u32)
        ensures
            r == self.spec_data(),
    {
        let mut data = self.int_vec as u32;
        data = data | (self.delivery_mode as u32) << 8u32;
        data = data | (if self.level { 1u32 } else { 0u32 }) << 14u32;
        data = data | (if self.trigger { 1u32 } else { 0u32 }) << 15u32;
        data
    }
}

/// Enabling message signalled interrupts on a capability.
pub trait Msi {
    /// The capability's registers fit in configuration space.
    spec fn fits(&self) -> bool;

    /// The configuration space after enabling, from space `before`.
    spec fn enabled(&self, before: Map<u32, u32>, message: Message) -> Map<u32, u32>;

    fn enable<I: PciConfigIo>(&self, io: &mut I, message: &Message)
        requires
            self.fits(),
        ensures
            final(io).modeled() == old(io).modeled(),
            old(io).modeled() ==> final(io).space() == self.enabled(old(io).space(), *message),
    ;
}

/// The MSI control word that enables MSI with as many messages as the
/// function asks for: the requested count (bits 17 to 19) copied to the
/// enabled count (bits 20 to 22), and bit 16 set.
pub open spec fn msi_enable_header(header: u32) -> u32 {
    header | (((header >> 17u32) & 0x07) << 20u32) | 0x010000u32
}

/// An MSI capability.
#[derive(Clone, Copy)]
pub struct MsiCapabilityRegister {
    pub device: PciDevice,
    pub offset: u8,
}

/// Computes the MSI control word that enables the capability.
pub fn msi_header(header: u32) -> (r: u32)
    ensures
        r == msi_enable_header(header),
{
    let muiti_msg = (header >> 17u32) & 0x07;
    header | (muiti_msg << 20u32) | 0x010000u32
}

/// The register writes that enable MSI on a capability at `offset` whose
/// control word reads `header`: the enabling control word, then the
/// message address (offset 4) and data (offset 12).
pub fn msi_enable_writes(offset: u8, header: u32, message: &Message) -> (r: Vec<(u8, u32)>)
    requires
        offset <= 243,
    ensures
        r@ == seq![(offset, msi_enable_header(header)), ((offset + 4) as u8, message.spec_address()),
            ((offset + 12) as u8, message.spec_data())],
{
    vec![(offset, msi_header(header)), (offset + 4, message.address()), (offset + 12, message.data())]
}

impl Msi for MsiCapabilityRegister {
    open spec fn fits(&self) -> bool {
        self.offset <= 243
    }

    /// The enabling control word at the capability, the message address at
    /// offset 4 and the data at offset 12.
    open spec fn enabled(&self, before: Map<u32, u32>, message: Message) -> Map<u32, u32> {
        let d = self.device;
        let header = register(before, d.bus, d.dev, d.func, self.offset);
        before.insert(spec_make_address(d.bus, d.dev, d.func, self.offset), msi_enable_header(header))
            .insert(spec_make_address(d.bus, d.dev, d.func, (self.offset + 4) as u8), message.spec_address())
            .insert(spec_make_address(d.bus, d.dev, d.func, (self.offset + 12) as u8), message.spec_data())
    }

    /// Enables MSI and writes the message address (offset 4) and data
    /// (offset 12).
    fn enable<I: PciConfigIo>(&self, io: &mut I, message: &Message) {
        let header = Pci::read_config(io, &self.device, self.offset);
        let writes = msi_enable_writes(self.offset, header, message);
        Pci::write_config(io, &self.device, writes[0].0, writes[0].1);
        Pci::write_config(io, &self.device, writes[1].0, writes[1].1);
        Pci::write_config(io, &self.device, writes[2].0, writes[2].1);
    }
}

/// An MSI-X capability.
#[derive(Clone, Copy)]
pub struct MsiXCapabilityRegister {
    pub device: PciDevice,
    pub offset: u8,
}

/// The MSI-X control word with the enable bit (31) set, and the number the
/// kernel takes for the table size: the header's bit 27, as
/// `(header >> 16) & 0x07FF + 1` evaluates.
pub open spec fn msix_enable(header: u32) -> (u32, u32) {
    (header | 0x8000_0000u32, (header >> 16u32) & 0x0800u32)
}

/// Base address register `bar` without its flag bits plus the table offset
/// in `table_st`, wrapping past 64 bits.
pub open spec fn msix_table_address(table_st: u32, bar: u64) -> u64 {
    let sum = (bar & !0x0Fu64) + ((table_st & !0x07u32) as u64);
    if sum > u64::MAX { (sum - 0x1_0000_0000_0000_0000) as u64 } else { sum as u64 }
}

impl MsiXCapabilityRegister {
    /// The address of the MSI-X table: the table register read from the
    /// capability (offset 4), the base address register its low three bits
    /// name, and the sum of the two without their flag bits, wrapping on
    /// overflow.
    pub fn table<I: PciConfigIo>(&self, io: &mut I) -> (r: u64)
        requires
            self.offset + 4 <= u8::MAX,
        ensures
            final(io).modeled() == old(io).modeled(),
            old(io).modeled() ==> final(io).space() == old(io).space() && ({
                let d = self.device;
                let sp = old(io).space();
                let table_st = register(sp, d.bus, d.dev, d.func, (self.offset + 4) as u8);
                let bar = (table_st & 0x07u32) as u8;
                r == msix_table_address(table_st, bar_value(register(sp, d.bus, d.dev, d.func, (0x10 + bar * 4) as u8),
                    register(sp, d.bus, d.dev, d.func, (0x14 + bar * 4) as u8)))
            }),
    {
        let table_st = Pci::read_config(io, &self.device, self.offset + 4);
        let bar_index = table_st & 0x07;
        proof {
            assert(table_st & 0x07u32 <= 7) by (bit_vector);
        }
        let bar = self.device.read_bar(io, bar_index as u8);
        Self::table_address(table_st, bar)
    }

    /// The address of the MSI-X table from the table register and the base
    /// address register it names: the register without its flag bits plus
    /// the table offset, wrapping on overflow.
    pub fn table_address(table_st: u32, bar: u64) -> (r: u64)
        ensures
            r == msix_table_address(table_st, bar),
    {
        let bar = bar & !0x0Fu64;
        let offset = (table_st & !0x07u32) as u64;
        bar.wrapping_add(offset)
    }

    /// Prepares the enable: the new control word and the table size.
    pub fn enable_header(header: u32) -> (r: (u32, u32))
        ensures
            r == msix_enable(header),
    {
        let table_size = (header >> 16u32) & 0x07FFu32 + 1;
        (header | 0x8000_0000u32, table_size)
    }
}

/// Where an interrupt line is routed.
#[derive(Clone, Copy)]
pub enum MSIEntry {
    MSI(PciDevice, u8),
    MSIX(u64, u8),
}

/// MSI address that sends to the core with APIC ID `id`.
pub fn msi_route_address(id: u8) -> (r: u32)
    ensures
        r == 0xFEE0_0000u32 | (id as u32) << 12u32,
{
    0xFEE0_0000u32 | (id as u32) << 12u32
}

/// An MSI-X table address retargeted to the core with APIC ID `id`.
pub fn msix_route_address(address: u32, id: u8) -> (r: u32)
    ensures
        r == (address & !0x000F_F000u32) | (id as u32) << 12u32,
{
    (address & !0x000F_F000u32) | (id as u32) << 12u32
}

/// Interrupts are rebalanced every this many.
pub const LOADBALANCING_DIVIDER: u64 = 10;

/// Cores and interrupt lines the counters cover.
pub const IRQ_CORES: usize = 16;
pub const IRQ_LINES: usize = 2;

/// Counts of interrupts per core and line.
pub struct IrqCounter {
    counts: Vec<[u64; 2]>,
}

/// The core with the fewest interrupts of line `irq` among the first
/// `cpu_count`: the first one with the least count below `u64::MAX`, or 0.
pub open spec fn least_loaded(counts: Seq<[u64; 2]>, irq: int, cpu_count: int) -> int
    decreases cpu_count,
{
    if cpu_count <= 0 {
        0
    } else {
        let best = least_loaded(counts, irq, cpu_count - 1);
        let c = cpu_count - 1;
        if counts[c]@[irq] < min_count(counts, irq, cpu_count - 1) { c } else { best }
    }
}

/// The least count below `u64::MAX` among the first `cpu_count` cores, or
/// `u64::MAX`.
pub open spec fn min_count(counts: Seq<[u64; 2]>, irq: int, cpu_count: int) -> u64
    decreases cpu_count,
{
    if cpu_count <= 0 {
        u64::MAX
    } else {
        let m = min_count(counts, irq, cpu_count - 1);
        let v = counts[cpu_count - 1]@[irq];
        if v < m { v } else { m }
    }
}

impl IrqCounter {
    pub closed spec fn view(&self) -> Seq<[u64; 2]> {
        self.counts@
    }

    pub fn new() -> (r: Self)
        ensures
            r@.len() == IRQ_CORES,
            forall|c: int, i: int| 0 <= c < IRQ_CORES && 0 <= i < IRQ_LINES ==> r@[c]@[i] == 0,
    {
        let mut counts: Vec<[u64; 2]> = Vec::new();
        while counts.len() < IRQ_CORES
            invariant
                counts@.len() <= IRQ_CORES,
                forall|c: int, i: int| 0 <= c < counts@.len() && 0 <= i < IRQ_LINES ==> counts@[c]@[i] == 0,
            decreases IRQ_CORES - counts@.len(),
        {
            counts.push([0u64; 2]);
        }
        Self { counts }
    }

    /// The interrupts of line `irq` counted on core `apic_id`.
    pub fn count(&self, apic_id: u8, irq: u8) -> (r: u64)
        requires
            self@.len() == IRQ_CORES,
            apic_id < IRQ_CORES,
            irq < IRQ_LINES,
        ensures
            r == self@[apic_id as int]@[irq as int],
    {
        self.counts[apic_id as usize][irq as usize]
    }

    /// Counts one interrupt of line `irq` on core `apic_id`.
    pub fn increase_int_count(&mut self, apic_id: u8, irq: u8)
        requires
            old(self)@.len() == IRQ_CORES,
            apic_id < IRQ_CORES,
            irq < IRQ_LINES,
            old(self)@[apic_id as int]@[irq as int] < u64::MAX,
        ensures
            final(self)@.len() == IRQ_CORES,
            forall|c: int, i: int| 0 <= c < IRQ_CORES && 0 <= i < IRQ_LINES ==> #[trigger] final(self)@[c]@[i] == (
                if c == apic_id && i == irq { old(self)@[c]@[i] + 1 } else { old(self)@[c]@[i] as int }),
    {
        let mut row = self.counts[apic_id as usize];
        row[irq as usize] = row[irq as usize] + 1;
        self.counts.set(apic_id as usize, row);
    }

    /// Every `LOADBALANCING_DIVIDER`-th interrupt of line `irq` on core
    /// `apic_id`, the core to route the line to: the least loaded one.
    pub fn load_balance_int(&self, apic_id: u8, irq: u8, cpu_count: usize) -> (r: Option<u8>)
        requires
            self@.len() == IRQ_CORES,
            apic_id < IRQ_CORES,
            irq < IRQ_LINES,
            cpu_count <= IRQ_CORES,
        ensures
            ({
                let n = self@[apic_id as int]@[irq as int];
                &&& (n % LOADBALANCING_DIVIDER != 0 || n == 0) ==> r is None
                &&& !(n % LOADBALANCING_DIVIDER != 0 || n == 0) ==> r == Some(least_loaded(self@, irq as int, cpu_count as int) as u8)
            }),
    {
        let n = self.counts[apic_id as usize][irq as usize];
        if n % LOADBALANCING_DIVIDER != 0 || n == 0 {
            return None;
        }
        let mut min_counted_core: u8 = 0;
        let mut min_count_v: u64 = u64::MAX;
        let mut core: usize = 0;
        while core < cpu_count
            invariant
                core <= cpu_count,
                cpu_count <= IRQ_CORES,
                self@.len() == IRQ_CORES,
                irq < IRQ_LINES,
                min_count_v == min_count(self@, irq as int, core as int),
                min_counted_core == least_loaded(self@, irq as int, core as int),
                least_loaded(self@, irq as int, core as int) < IRQ_CORES,
            decreases cpu_count - core,
        {
            let v = self.counts[core][irq as usize];
            if v < min_count_v {
                min_count_v = v;
                min_counted_core = core as u8;
            }
            core = core + 1;
        }
        Some(min_counted_core)
    }
}

} // verus!

//! PCI configuration space: device discovery over the legacy configuration
//! ports, class codes, base address registers.
use vstd::prelude::*;

pub mod capability;
pub mod msi;
pub mod search;

verus! {

/// The word configuration address `addr` reads as in `space`: the value
/// stored there, or all ones where no function answers.
pub open spec fn config_value(space: Map<u32, u32>, addr: u32) -> u32 {
    if space.contains_key(addr) { space[addr] } else { 0xFFFF_FFFFu32 }
}

/// Access to the configuration mechanism: an address port and a data port.
pub trait PciConfigIo {
    /// The mechanism is modeled: a configuration space `space`, which a
    /// read gives back at the address selected last and a write stores
    /// into. `ConfigSpace` of this library is; ports driven from outside the
    /// library are not, and proofs learn nothing of what they read.
    closed spec fn modeled(&self) -> bool {
        false
    }

    /// The configuration space of a modeled mechanism.
    closed spec fn space(&self) -> Map<u32, u32> {
        Map::empty()
    }

    /// The address a modeled mechanism selected last.
    closed spec fn selected(&self) -> u32 {
        0
    }

    fn write_address(&mut self, addr: u32)
        ensures
            final(self).modeled() == old(self).modeled(),
            old(self).modeled() ==> final(self).space() == old(self).space() && final(self).selected() == addr,
    ;

    fn write_data(&mut self, data: u32)
        ensures
            final(self).modeled() == old(self).modeled(),
            old(self).modeled() ==> final(self).space() == old(self).space().insert(old(self).selected(), data)
                && final(self).selected() == old(self).selected(),
    ;

    fn read_data(&mut self) -> (r: u32)
        ensures
            final(self).modeled() == old(self).modeled(),
            old(self).modeled() ==> final(self).space() == old(self).space()
                && final(self).selected() == old(self).selected()
                && r == config_value(old(self).space(), old(self).selected()),
    ;
}

/// The configuration space that the stores `regs` leave, later stores
/// over earlier ones.
pub open spec fn stored(regs: Seq<(u32, u32)>) -> Map<u32, u32>
    decreases regs.len(),
{
    if regs.len() == 0 {
        Map::empty()
    } else {
        stored(regs.drop_last()).insert(regs.last().0, regs.last().1)
    }
}

/// The last store at `addr` gives its value; with none, `addr` holds
/// nothing.
proof fn lemma_stored(regs: Seq<(u32, u32)>, addr: u32, i: int)
    requires
        -1 <= i < regs.len(),
        i >= 0 ==> regs[i].0 == addr,
        forall|j: int| i < j < regs.len() ==> regs[j].0 != addr,
    ensures
        i >= 0 ==> stored(regs).contains_key(addr) && stored(regs)[addr] == regs[i].1,
        i < 0 ==> !stored(regs).contains_key(addr),
    decreases regs.len(),
{
    if regs.len() > 0 {
        if i < regs.len() - 1 {
            lemma_stored(regs.drop_last(), addr, i);
        }
    }
}

/// A configuration space in memory: the stores made, in order, and the
/// selected address.
pub struct ConfigSpace {
    regs: Vec<(u32, u32)>,
    address: u32,
}

impl ConfigSpace {
    /// The stores made, oldest first.
    pub closed spec fn stores(&self) -> Seq<(u32, u32)> {
        self.regs@
    }

    /// The selected address.
    pub closed spec fn address_register(&self) -> u32 {
        self.address
    }

    /// An empty space: no function answers.
    pub fn new() -> (r: Self)
        ensures
            r.modeled(),
            r.space() == Map::<u32, u32>::empty(),
            r.selected() == 0,
    {
        ConfigSpace { regs: Vec::new(), address: 0 }
    }
}

impl PciConfigIo for ConfigSpace {
    open spec fn modeled(&self) -> bool {
        true
    }

    open spec fn space(&self) -> Map<u32, u32> {
        stored(self.stores())
    }

    open spec fn selected(&self) -> u32 {
        self.address_register()
    }

    fn write_address(&mut self, addr: u32) {
        self.address = addr;
    }

    fn write_data(&mut self, data: u32) {
        let ghost before = self.regs@;
        self.regs.push((self.address, data));
        proof {
            assert(self.regs@.drop_last() =~= before);
        }
    }

    fn read_data(&mut self) -> (r: u32) {
        let mut i = self.regs.len();
        while i > 0
            invariant
                i <= self.regs@.len(),
                forall|j: int| i <= j < self.regs@.len() ==> self.regs@[j].0 != self.address,
            decreases i,
        {
            i = i - 1;
            if self.regs[i].0 == self.address {
                proof {
                    lemma_stored(self.regs@, self.address, i as int);
                }
                return self.regs[i].1;
            }
        }
        proof {
            lemma_stored(self.regs@, self.address, -1);
        }
        0xFFFF_FFFF
    }
}

/// The configuration address of register `addr` of function `func` of
/// device `dev` on bus `bus`, with the enable bit set.
pub open spec fn spec_make_address(bus: u8, dev: u8, func: u8, addr: u8) -> u32 {
    1u32 << 31u32 | (bus as u32) << 16u32 | (dev as u32) << 11u32 | (func as u32) << 8u32 | (addr & 0xfc) as u32
}

pub fn make_address(bus: u8, dev: u8, func: u8, addr: u8) -> (r: u32)
    ensures
        r == spec_make_address(bus, dev, func, addr),
{
    1u32 << 31u32 | (bus as u32) << 16u32 | (dev as u32) << 11u32 | (func as u32) << 8u32 | (addr & 0xfc) as u32
}

/// The vendor ID in a word of register 00h: its low half.
pub fn vendor_id_of(word: u32) -> (r: u16)
    ensures
        r == word as u16,
{
    word as u16
}

/// The header type in a word of register 0Ch: bits 16 to 23.
pub open spec fn header_type_word(word: u32) -> u8 {
    (word >> 16u32) as u8
}

pub fn header_type_of(word: u32) -> (r: u8)
    ensures
        r == header_type_word(word),
{
    (word >> 16u32) as u8
}

/// The secondary bus in a word of a bridge's bus number register: bits 8
/// to 15.
pub open spec fn secondary_bus_word(word: u32) -> u8 {
    (word >> 8u32) as u8
}

pub fn secondary_bus_of(word: u32) -> (r: u8)
    ensures
        r == secondary_bus_word(word),
{
    (word >> 8u32) as u8
}

/// The class register's fields: base in bits 24-31, sub in 16-23,
/// interface in 8-15, revision in 0-7.
pub open spec fn spec_class(value: u32) -> PciClass {
    PciClass {
        base: (value >> 24) as u8,
        sub: (value >> 16) as u8,
        interface: (value >> 8) as u8,
        revision_id: value as u8,
    }
}

/// Class code, subclass, programming interface and revision of a function.
#[derive(Clone, Copy, PartialEq, Eq, Structural)]
pub struct PciClass {
    pub base: u8,
    pub sub: u8,
    pub interface: u8,
    pub revision_id: u8,
}

impl PciClass {
    /// Splits the class register: base in bits 24-31, sub in 16-23,
    /// interface in 8-15, revision in 0-7.
    pub fn from(value: u32) -> (r: Self)
        ensures
            r == spec_class(value),
            r.base == (value >> 24) as u8,
            r.sub == (value >> 16) as u8,
            r.interface == (value >> 8) as u8,
            r.revision_id == value as u8,
    {
        Self {
            base: (value >> 24) as u8,
            sub: (value >> 16) as u8,
            interface: (value >> 8) as u8,
            revision_id: value as u8,
        }
    }

    pub open spec fn spec_is_class(&self, base: u8, sub: u8, interface: u8) -> bool {
        self.base == base && self.sub == sub && (self.interface == interface || interface == 0xFF)
    }

    /// Matches base and sub exactly; an interface of `0xFF` matches any.
    pub fn is_class(&self, base: u8, sub: u8, interface: u8) -> (r: bool)
        ensures
            r == self.spec_is_class(base, sub, interface),
    {
        self.base == base && self.sub == sub && (self.interface == interface || interface == 0xFF)
    }

    /// A PCI-to-PCI bridge (class 06h, subclass 04h).
    pub fn is_pci_bridge(&self) -> (r: bool)
        ensures
            r == (self.base == 0x06 && self.sub == 0x04),
    {
        self.base == 0x06 && self.sub == 0x04
    }
}

/// One function found on the bus.
#[derive(Clone, Copy, PartialEq, Eq, Structural)]
pub struct PciDevice {
    pub bus: u8,
    pub dev: u8,
    pub func: u8,
    pub header_type: u8,
    pub class_code: PciClass,
}

/// Value of a base address register: a 32-bit one alone, a 64-bit one
/// (bit 2 set) with the next register as its upper half.
pub open spec fn bar_value(lower: u32, upper: u32) -> u64 {
    if (lower as u64) & 0x04 == 0 { lower as u64 } else { (lower as u64) | ((upper as u64) << 32u64) }
}

impl PciDevice {
    pub fn new(bus: u8, dev: u8, func: u8, header_type: u8, class_code: PciClass) -> (r: Self)
        ensures
            r == (PciDevice { bus, dev, func, header_type, class_code }),
    {
        Self { bus, dev, func, header_type, class_code }
    }

    /// The vendor ID register of the function.
    pub fn read_vendor_id<I: PciConfigIo>(&self, io: &mut I) -> (r: u16)
        ensures
            final(io).modeled() == old(io).modeled(),
            old(io).modeled() ==> final(io).space() == old(io).space()
                && r == register(old(io).space(), self.bus, self.dev, self.func, 0x00) as u16,
    {
        Pci::read_vendor_id(io, self.bus, self.dev, self.func)
    }

    /// Reads base address register `offset`; a 64-bit one takes the next
    /// register as its upper half.
    pub fn read_bar<I: PciConfigIo>(&self, io: &mut I, offset: u8) -> (r: u64)
        requires
            offset <= 58,
        ensures
            r & 0x04 == 0 ==> r <= u32::MAX,
            final(io).modeled() == old(io).modeled(),
            old(io).modeled() ==> final(io).space() == old(io).space()
                && r == bar_value(register(old(io).space(), self.bus, self.dev, self.func, (0x10 + offset * 4) as u8),
                    register(old(io).space(), self.bus, self.dev, self.func, (0x14 + offset * 4) as u8)),
    {
        let bar_addr = 0x10 + offset * 4;
        io.write_address(make_address(self.bus, self.dev, self.func, bar_addr));
        let lower = io.read_data();
        let bar = lower as u64;
        if bar & 0x04 == 0 {
            bar
        } else {
            io.write_address(make_address(self.bus, self.dev, self.func, bar_addr + 4));
            let upper = io.read_data();
            let r = combine_bar(lower, upper);
            proof {
                let l = lower as u64;
                let u = upper as u64;
                assert(l & 0x04 != 0 ==> (l | (u << 32u64)) & 0x04 != 0) by (bit_vector);
            }
            r
        }
    }

    /// The first entry of the capability list: the offset in register 34h.
    pub fn capabilities<I: PciConfigIo>(&self, io: &mut I) -> (r: capability::CapabilityRegisterIter)
        ensures
            r.device == *self,
            final(io).modeled() == old(io).modeled(),
            old(io).modeled() ==> final(io).space() == old(io).space()
                && r.offset == register(old(io).space(), self.bus, self.dev, self.func, 0x34) as u8,
    {
        let offset = Pci::read_config(io, self, 0x34) as u8;
        capability::CapabilityRegisterIter { device: *self, offset }
    }
}

/// Combines the two halves of a 64-bit base address register.
pub fn combine_bar(lower: u32, upper: u32) -> (r: u64)
    ensures
        r == bar_value(lower, upper),
{
    let bar = lower as u64;
    if bar & 0x04 == 0 {
        bar
    } else {
        bar | (upper as u64) << 32u64
    }
}

/// Room for this many functions.
pub const PCI_MAX_DEVICES: usize = 32;

/// The word register `reg` of function `func` of device `dev` on `bus`
/// reads as.
pub open spec fn register(space: Map<u32, u32>, bus: u8, dev: u8, func: u8, reg: u8) -> u32 {
    config_value(space, spec_make_address(bus, dev, func, reg))
}

/// A function answers when its vendor ID is not FFFFh.
pub open spec fn answers(space: Map<u32, u32>, bus: u8, dev: u8, func: u8) -> bool {
    register(space, bus, dev, func, 0x00) as u16 != 0xffff
}

/// A function as a scan records it: its header type and class register.
pub open spec fn found_device(space: Map<u32, u32>, bus: u8, dev: u8, func: u8) -> PciDevice {
    PciDevice {
        bus,
        dev,
        func,
        header_type: header_type_word(register(space, bus, dev, func, 0x0C)),
        class_code: spec_class(register(space, bus, dev, func, 0x08)),
    }
}

/// The table after recording function `func` and, behind a PCI-to-PCI
/// bridge, scanning its secondary bus; the flag is false when the table
/// was full. `fuel` bounds the bridges followed, and is never short of
/// the room left in the table.
pub open spec fn scanned_function(space: Map<u32, u32>, bus: u8, dev: u8, func: u8, acc: Seq<PciDevice>, fuel: nat)
    -> (Seq<PciDevice>, bool)
    decreases fuel, 0int, 0int,
{
    if acc.len() >= PCI_MAX_DEVICES || fuel == 0 {
        (acc, false)
    } else {
        let d = found_device(space, bus, dev, func);
        let next = acc.push(d);
        if d.class_code.base == 0x06 && d.class_code.sub == 0x04 {
            scanned_bus(space, secondary_bus_word(register(space, bus, dev, func, 0x18)), 0, next, (fuel - 1) as nat)
        } else {
            (next, true)
        }
    }
}

/// The table after scanning device numbers `dev` to 31 of `bus`, each that
/// answers at function 0.
pub open spec fn scanned_bus(space: Map<u32, u32>, bus: u8, dev: nat, acc: Seq<PciDevice>, fuel: nat) -> (Seq<PciDevice>, bool)
    decreases fuel, 2int, 32 - dev,
{
    if dev >= 32 {
        (acc, true)
    } else if answers(space, bus, dev as u8, 0) {
        let (next, ok) = scanned_device(space, bus, dev as u8, acc, fuel);
        if !ok { (next, false) } else { scanned_bus(space, bus, dev + 1, next, fuel) }
    } else {
        scanned_bus(space, bus, dev + 1, acc, fuel)
    }
}

/// The table after scanning function 0 of a device and, when its header
/// type has bit 7 set, functions 1 to 7.
pub open spec fn scanned_device(space: Map<u32, u32>, bus: u8, dev: u8, acc: Seq<PciDevice>, fuel: nat) -> (Seq<PciDevice>, bool)
    decreases fuel, 1int, 8int,
{
    let (next, ok) = scanned_function(space, bus, dev, 0, acc, fuel);
    if !ok {
        (next, false)
    } else if header_type_word(register(space, bus, dev, 0, 0x0C)) & 0x80 == 0 {
        (next, true)
    } else {
        scanned_functions(space, bus, dev, 1, next, fuel)
    }
}

/// The table after scanning functions `func` to 7 of a device, each that
/// answers.
pub open spec fn scanned_functions(space: Map<u32, u32>, bus: u8, dev: u8, func: nat, acc: Seq<PciDevice>, fuel: nat)
    -> (Seq<PciDevice>, bool)
    decreases fuel, 1int, 8 - func,
{
    if func >= 8 {
        (acc, true)
    } else if answers(space, bus, dev, func as u8) {
        let (next, ok) = scanned_function(space, bus, dev, func as u8, acc, fuel);
        if !ok { (next, false) } else { scanned_functions(space, bus, dev, func + 1, next, fuel) }
    } else {
        scanned_functions(space, bus, dev, func + 1, acc, fuel)
    }
}

/// The table after scanning the bus of each host bridge function from
/// `func` to 7 that answers.
pub open spec fn scanned_hosts(space: Map<u32, u32>, func: nat, acc: Seq<PciDevice>) -> (Seq<PciDevice>, bool)
    decreases 8 - func,
{
    if func >= 8 {
        (acc, true)
    } else if answers(space, 0, 0, func as u8) {
        let (next, ok) = scanned_bus(space, func as u8, 0, acc, PCI_MAX_DEVICES as nat);
        if !ok { (next, false) } else { scanned_hosts(space, func + 1, next) }
    } else {
        scanned_hosts(space, func + 1, acc)
    }
}

/// What a scan from bus 0 finds: bus 0 alone when host bridge 0 is a
/// single-function device, else the bus of each host bridge function from
/// 1 that answers.
pub open spec fn scanned_all(space: Map<u32, u32>) -> (Seq<PciDevice>, bool) {
    if header_type_word(register(space, 0, 0, 0, 0x0C)) & 0x80 == 0 {
        scanned_bus(space, 0, 0, Seq::empty(), PCI_MAX_DEVICES as nat)
    } else {
        scanned_hosts(space, 1, Seq::empty())
    }
}

/// The functions found on the bus.
pub struct Pci {
    devices: Vec<PciDevice>,
    num_device: u64,
}

impl Pci {
    pub closed spec fn wf(&self) -> bool {
        self.devices@.len() == PCI_MAX_DEVICES && self.num_device <= PCI_MAX_DEVICES
    }

    /// The functions found so far, in the order they were found.
    pub closed spec fn view(&self) -> Seq<PciDevice> {
        self.devices@.subrange(0, self.num_device as int)
    }

    pub fn new() -> (r: Self)
        ensures
            r.wf(),
            r@ == Seq::<PciDevice>::empty(),
    {
        let blank = PciDevice::new(0, 0, 0, 0, PciClass::from(0));
        let mut devices: Vec<PciDevice> = Vec::new();
        while devices.len() < PCI_MAX_DEVICES
            invariant
                devices@.len() <= PCI_MAX_DEVICES,
            decreases PCI_MAX_DEVICES - devices@.len(),
        {
            devices.push(blank);
        }
        let r = Self { devices, num_device: 0 };
        proof {
            assert(r@ =~= Seq::<PciDevice>::empty());
        }
        r
    }

    /// Reads register `addr` of a function: selects its address, then reads
    /// the data port.
    pub fn read_config<I: PciConfigIo>(io: &mut I, dev: &PciDevice, addr: u8) -> (r: u32)
        ensures
            final(io).modeled() == old(io).modeled(),
            old(io).modeled() ==> {
                let a = spec_make_address(dev.bus, dev.dev, dev.func, addr);
                &&& final(io).space() == old(io).space()
                &&& final(io).selected() == a
                &&& r == config_value(old(io).space(), a)
            },
    {
        io.write_address(make_address(dev.bus, dev.dev, dev.func, addr));
        io.read_data()
    }

    /// Writes register `addr` of a function: selects its address, then
    /// writes the data port.
    pub fn write_config<I: PciConfigIo>(io: &mut I, dev: &PciDevice, addr: u8, data: u32)
        ensures
            final(io).modeled() == old(io).modeled(),
            old(io).modeled() ==> {
                let a = spec_make_address(dev.bus, dev.dev, dev.func, addr);
                &&& final(io).space() == old(io).space().insert(a, data)
                &&& final(io).selected() == a
            },
    {
        io.write_address(make_address(dev.bus, dev.dev, dev.func, addr));
        io.write_data(data);
    }

    /// The vendor ID: the low half of register 00h.
    pub fn read_vendor_id<I: PciConfigIo>(io: &mut I, bus: u8, device: u8, function: u8) -> (r: u16)
        ensures
            final(io).modeled() == old(io).modeled(),
            old(io).modeled() ==> final(io).space() == old(io).space()
                && r == config_value(old(io).space(), spec_make_address(bus, device, function, 0x00)) as u16,
    {
        io.write_address(make_address(bus, device, function, 0x00));
        vendor_id_of(io.read_data())
    }

    /// The header type: bits 16 to 23 of register 0Ch.
    pub fn read_header_type<I: PciConfigIo>(io: &mut I, bus: u8, device: u8, function: u8) -> (r: u8)
        ensures
            final(io).modeled() == old(io).modeled(),
            old(io).modeled() ==> final(io).space() == old(io).space()
                && r == header_type_word(config_value(old(io).space(), spec_make_address(bus, device, function, 0x0C))),
    {
        io.write_address(make_address(bus, device, function, 0x0C));
        header_type_of(io.read_data())
    }

    /// The class register, 08h.
    pub fn read_class_code<I: PciConfigIo>(io: &mut I, bus: u8, device: u8, function: u8) -> (r: PciClass)
        ensures
            final(io).modeled() == old(io).modeled(),
            old(io).modeled() ==> final(io).space() == old(io).space()
                && r == spec_class(config_value(old(io).space(), spec_make_address(bus, device, function, 0x08))),
    {
        io.write_address(make_address(bus, device, function, 0x08));
        PciClass::from(io.read_data())
    }

    /// The bus number register of a bridge, 18h.
    pub fn read_bus_numbers<I: PciConfigIo>(io: &mut I, bus: u8, device: u8, function: u8) -> (r: u32)
        ensures
            final(io).modeled() == old(io).modeled(),
            old(io).modeled() ==> final(io).space() == old(io).space()
                && r == config_value(old(io).space(), spec_make_address(bus, device, function, 0x18)),
    {
        io.write_address(make_address(bus, device, function, 0x18));
        io.read_data()
    }

    /// Appends a function; `Err` when the table is full.
    pub fn add_device(&mut self, device: PciDevice) -> (r: Result<(), ()>)
        requires
            old(self).wf(),
        ensures
            final(self).wf(),
            old(self)@.len() == PCI_MAX_DEVICES ==> r is Err && final(self)@ == old(self)@,
            old(self)@.len() < PCI_MAX_DEVICES ==> r is Ok && final(self)@ == old(self)@.push(device),
    {
        if self.num_device == self.devices.len() as u64 {
            return Err(());
        }
        let ghost before = self@;
        self.devices.set(self.num_device as usize, device);
        self.num_device = self.num_device + 1;
        proof {
            assert(self@ =~= before.push(device));
        }
        Ok(())
    }

    /// Scans from bus 0: host bridge 0 alone when it is a single-function
    /// device, else the bus of each host bridge function from 1 that
    /// answers. The table starts empty.
    pub fn init<I: PciConfigIo>(&mut self, io: &mut I) -> (r: Result<(), ()>)
        requires
            old(self).wf(),
        ensures
            final(self).wf(),
            r is Err ==> final(self)@.len() == PCI_MAX_DEVICES,
            final(self)@.len() > 0 ==> final(self)@[0].bus < 8,
            final(io).modeled() == old(io).modeled(),
            old(io).modeled() ==> final(io).space() == old(io).space()
                && scanned_all(old(io).space()) == (final(self)@, r is Ok),
    {
        let ghost sp = io.space();
        let ghost m = io.modeled();
        self.num_device = 0;
        proof {
            assert(self@ =~= Seq::<PciDevice>::empty());
        }
        let header_type = Self::read_header_type(io, 0, 0, 0);
        if header_type & 0x80 == 0 {
            return self.scan_bus(io, 0);
        }
        let mut func: u8 = 1;
        while func < 8
            invariant
                self.wf(),
                1 <= func <= 8,
                self@.len() > 0 ==> self@[0].bus < 8,
                m == old(io).modeled(),
                io.modeled() == m,
                sp == old(io).space(),
                m ==> io.space() == sp,
                m ==> scanned_all(sp) == scanned_hosts(sp, func as nat, self@),
            decreases 8 - func,
        {
            if Self::read_vendor_id(io, 0, 0, func) != 0xffff {
                let ghost before = self@;
                let r = self.scan_bus(io, func);
                proof {
                    if before.len() > 0 {
                        assert(self@[0] == before[0]);
                    }
                    if m {
                        assert(PCI_MAX_DEVICES as nat >= PCI_MAX_DEVICES - before.len());
                        assert(scanned_bus(sp, func, 0, before, PCI_MAX_DEVICES as nat) == (self@, r is Ok));
                    }
                }
                if r.is_err() {
                    return r;
                }
            }
            func = func + 1;
        }
        Ok(())
    }

    /// Scans the 32 device numbers of `bus`; functions found are appended,
    /// those already found stay.
    pub fn scan_bus<I: PciConfigIo>(&mut self, io: &mut I, bus: u8) -> (r: Result<(), ()>)
        requires
            old(self).wf(),
        ensures
            final(self).wf(),
            old(self)@.is_prefix_of(final(self)@),
            r is Err ==> final(self)@.len() == PCI_MAX_DEVICES,
            final(self)@.len() > old(self)@.len() ==> final(self)@[old(self)@.len() as int].bus == bus,
            final(io).modeled() == old(io).modeled(),
            old(io).modeled() ==> final(io).space() == old(io).space()
                && forall|f: nat| f >= PCI_MAX_DEVICES - old(self)@.len()
                    ==> #[trigger] scanned_bus(old(io).space(), bus, 0, old(self)@, f) == (final(self)@, r is Ok),
        decreases PCI_MAX_DEVICES - old(self)@.len(), 2int,
    {
        let ghost sp = io.space();
        let ghost m = io.modeled();
        let mut dev: u8 = 0;
        while dev < 32
            invariant
                self.wf(),
                old(self)@.is_prefix_of(self@),
                dev <= 32,
                self@.len() > old(self)@.len() ==> self@[old(self)@.len() as int].bus == bus,
                m == old(io).modeled(),
                io.modeled() == m,
                sp == old(io).space(),
                m ==> io.space() == sp,
                m ==> forall|f: nat| f >= PCI_MAX_DEVICES - old(self)@.len()
                    ==> #[trigger] scanned_bus(sp, bus, 0, old(self)@, f) == scanned_bus(sp, bus, dev as nat, self@, f),
            decreases 32 - dev,
        {
            if Self::read_vendor_id(io, bus, dev, 0) != 0xffff {
                let ghost before = self@;
                let r = self.scan_device(io, bus, dev);
                proof {
                    lemma_prefix_trans(old(self)@, before, self@);
                    if before.len() > old(self)@.len() {
                        assert(self@[old(self)@.len() as int] == before[old(self)@.len() as int]);
                    }
                    if m {
                        assert forall|f: nat| f >= PCI_MAX_DEVICES - old(self)@.len()
                            implies #[trigger] scanned_bus(sp, bus, 0, old(self)@, f)
                                == (if r is Ok { scanned_bus(sp, bus, (dev + 1) as nat, self@, f) } else { (self@, false) }) by {
                            assert(scanned_bus(sp, bus, 0, old(self)@, f) == scanned_bus(sp, bus, dev as nat, before, f));
                            assert(f >= PCI_MAX_DEVICES - before.len());
                            assert(scanned_device(sp, bus, dev, before, f) == (self@, r is Ok));
                        }
                    }
                }
                if r.is_err() {
                    return r;
                }
            } else {
                proof {
                    if m {
                        assert forall|f: nat| f >= PCI_MAX_DEVICES - old(self)@.len()
                            implies #[trigger] scanned_bus(sp, bus, 0, old(self)@, f) == scanned_bus(sp, bus, (dev + 1) as nat, self@, f) by {
                            assert(scanned_bus(sp, bus, 0, old(self)@, f) == scanned_bus(sp, bus, dev as nat, self@, f));
                        }
                    }
                }
            }
            dev = dev + 1;
        }
        proof {
            if m {
                assert forall|f: nat| f >= PCI_MAX_DEVICES - old(self)@.len()
                    implies #[trigger] scanned_bus(sp, bus, 0, old(self)@, f) == (self@, true) by {
                    assert(scanned_bus(sp, bus, 0, old(self)@, f) == scanned_bus(sp, bus, 32, self@, f));
                }
            }
        }
        Ok(())
    }

    /// Scans function 0 of a device and, for a multi-function device, each
    /// other function that answers.
    pub fn scan_device<I: PciConfigIo>(&mut self, io: &mut I, bus: u8, device: u8) -> (r: Result<(), ()>)
        requires
            old(self).wf(),
        ensures
            final(self).wf(),
            old(self)@.is_prefix_of(final(self)@),
            r is Err ==> final(self)@.len() == PCI_MAX_DEVICES,
            old(self)@.len() == PCI_MAX_DEVICES ==> r is Err,
            final(self)@.len() > old(self)@.len() ==> ({
                let d = final(self)@[old(self)@.len() as int];
                d.bus == bus && d.dev == device && d.func == 0
            }),
            r is Ok ==> final(self)@.len() > old(self)@.len(),
            final(io).modeled() == old(io).modeled(),
            old(io).modeled() ==> final(io).space() == old(io).space()
                && forall|f: nat| f >= PCI_MAX_DEVICES - old(self)@.len()
                    ==> #[trigger] scanned_device(old(io).space(), bus, device, old(self)@, f) == (final(self)@, r is Ok),
        decreases PCI_MAX_DEVICES - old(self)@.len(), 1int,
    {
        let ghost sp = io.space();
        let ghost m = io.modeled();
        let ghost start = old(self)@;
        let r = self.scan_function(io, bus, device, 0);
        proof {
            if m {
                assert forall|f: nat| f >= PCI_MAX_DEVICES - start.len()
                    implies #[trigger] scanned_device(sp, bus, device, start, f) == (if r is Ok {
                        if header_type_word(register(sp, bus, device, 0, 0x0C)) & 0x80 == 0 { (self@, true) }
                        else { scanned_functions(sp, bus, device, 1, self@, f) }
                    } else { (self@, false) }) by {
                    assert(scanned_function(sp, bus, device, 0, start, f) == (self@, r is Ok));
                }
            }
        }
        if r.is_err() {
            return r;
        }
        let header_type = Self::read_header_type(io, bus, device, 0);
        if header_type & 0x80 == 0 {
            return Ok(());
        }
        let mut func: u8 = 1;
        while func < 8
            invariant
                self.wf(),
                old(self)@.is_prefix_of(self@),
                1 <= func <= 8,
                start == old(self)@,
                self@.len() > start.len(),
                ({
                    let d = self@[start.len() as int];
                    d.bus == bus && d.dev == device && d.func == 0
                }),
                m == old(io).modeled(),
                io.modeled() == m,
                sp == old(io).space(),
                m ==> io.space() == sp,
                m ==> forall|f: nat| f >= PCI_MAX_DEVICES - start.len()
                    ==> #[trigger] scanned_device(sp, bus, device, start, f) == scanned_functions(sp, bus, device, func as nat, self@, f),
            decreases 8 - func,
        {
            if Self::read_vendor_id(io, bus, device, func) != 0xffff {
                let ghost before = self@;
                let r = self.scan_function(io, bus, device, func);
                proof {
                    lemma_prefix_trans(old(self)@, before, self@);
                    assert(self@[start.len() as int] == before[start.len() as int]);
                    if m {
                        assert forall|f: nat| f >= PCI_MAX_DEVICES - start.len()
                            implies #[trigger] scanned_device(sp, bus, device, start, f)
                                == (if r is Ok { scanned_functions(sp, bus, device, (func + 1) as nat, self@, f) } else { (self@, false) }) by {
                            assert(scanned_device(sp, bus, device, start, f) == scanned_functions(sp, bus, device, func as nat, before, f));
                            assert(f >= PCI_MAX_DEVICES - before.len());
                            assert(scanned_function(sp, bus, device, func, before, f) == (self@, r is Ok));
                        }
                    }
                }
                if r.is_err() {
                    return r;
                }
            } else {
                proof {
                    if m {
                        assert forall|f: nat| f >= PCI_MAX_DEVICES - start.len()
                            implies #[trigger] scanned_device(sp, bus, device, start, f)
                                == scanned_functions(sp, bus, device, (func + 1) as nat, self@, f) by {
                            assert(scanned_device(sp, bus, device, start, f) == scanned_functions(sp, bus, device, func as nat, self@, f));
                        }
                    }
                }
            }
            func = func + 1;
        }
        proof {
            if m {
                assert forall|f: nat| f >= PCI_MAX_DEVICES - start.len()
                    implies #[trigger] scanned_device(sp, bus, device, start, f) == (self@, true) by {
                    assert(scanned_device(sp, bus, device, start, f) == scanned_functions(sp, bus, device, 8, self@, f));
                }
            }
        }
        Ok(())
    }

    /// Records a function and, behind a PCI-to-PCI bridge, scans its
    /// secondary bus (bits 8 to 15 of the bus number register).
    pub fn scan_function<I: PciConfigIo>(&mut self, io: &mut I, bus: u8, device: u8, function: u8) -> (r: Result<(), ()>)
        requires
            old(self).wf(),
        ensures
            final(self).wf(),
            old(self)@.is_prefix_of(final(self)@),
            r is Err ==> final(self)@.len() == PCI_MAX_DEVICES,
            r is Ok ==> final(self)@.len() > old(self)@.len(),
            old(self)@.len() == PCI_MAX_DEVICES ==> r is Err,
            final(self)@.len() > old(self)@.len() ==> final(self)@[old(self)@.len() as int].bus == bus
                && final(self)@[old(self)@.len() as int].dev == device
                && final(self)@[old(self)@.len() as int].func == function,
            final(io).modeled() == old(io).modeled(),
            old(io).modeled() ==> final(io).space() == old(io).space()
                && forall|f: nat| f >= PCI_MAX_DEVICES - old(self)@.len()
                    ==> #[trigger] scanned_function(old(io).space(), bus, device, function, old(self)@, f) == (final(self)@, r is Ok),
        decreases PCI_MAX_DEVICES - old(self)@.len(), 0int,
    {
        let ghost sp = io.space();
        let header_type = Self::read_header_type(io, bus, device, function);
        let class_code = Self::read_class_code(io, bus, device, function);
        let added = self.add_device(PciDevice::new(bus, device, function, header_type, class_code));
        if added.is_err() {
            return added;
        }
        let ghost mid = self@;
        proof {
            assert(old(self)@.is_prefix_of(mid)) by {
                assert(mid.subrange(0, old(self)@.len() as int) =~= old(self)@);
            }
        }
        if class_code.is_pci_bridge() {
            let bus_numbers = Self::read_bus_numbers(io, bus, device, function);
            let secondary_bus = secondary_bus_of(bus_numbers);
            let r = self.scan_bus(io, secondary_bus);
            proof {
                lemma_prefix_trans(old(self)@, mid, self@);
                assert(self@[old(self)@.len() as int] == mid[old(self)@.len() as int]);
                if old(io).modeled() {
                    assert forall|f: nat| f >= PCI_MAX_DEVICES - old(self)@.len()
                        implies #[trigger] scanned_function(sp, bus, device, function, old(self)@, f) == (self@, r is Ok) by {
                        assert((f - 1) as nat >= PCI_MAX_DEVICES - mid.len());
                        assert(scanned_bus(sp, secondary_bus, 0, mid, (f - 1) as nat) == (self@, r is Ok));
                    }
                }
            }
            return r;
        }
        Ok(())
    }

    /// The functions found, in order.
    pub fn device_iter(&self) -> (r: PciDeviceIterator)
        requires
            self.wf(),
        ensures
            r.device@ == self@,
            r.index == 0,
    {
        let mut v: Vec<PciDevice> = Vec::new();
        let mut i: usize = 0;
        while i < self.num_device as usize
            invariant
                self.wf(),
                i <= self.num_device,
                v@ == self@.subrange(0, i as int),
            decreases self.num_device - i,
        {
            v.push(self.devices[i]);
            i = i + 1;
            proof {
                assert(v@ =~= self@.subrange(0, i as int));
            }
        }
        proof {
            assert(v@ =~= self@);
        }
        PciDeviceIterator { device: v, index: 0 }
    }
}

/// A prefix of a prefix is a prefix.
pub proof fn lemma_prefix_trans<A>(a: Seq<A>, b: Seq<A>, c: Seq<A>)
    requires
        a.is_prefix_of(b),
        b.is_prefix_of(c),
    ensures
        a.is_prefix_of(c),
{
    assert(c.subrange(0, a.len() as int) =~= b.subrange(0, a.len() as int));
}

/// Walks a list of functions.
pub struct PciDeviceIterator {
    pub device: Vec<PciDevice>,
    pub index: usize,
}

impl PciDeviceIterator {
    pub fn next(&mut self) -> (r: Option<PciDevice>)
        ensures
            final(self).device@ == old(self).device@,
            old(self).index < old(self).device@.len() ==> r == Some(old(self).device@[old(self).index as int])
                && final(self).index == old(self).index + 1,
            old(self).index >= old(self).device@.len() ==> r is None && final(self).index == old(self).index,
    {
        if self.index < self.device.len() {
            let d = self.device[self.index];
            self.index = self.index + 1;
            Some(d)
        } else {
            None
        }
    }
}

/// Registers in different dwords of a function have different
/// configuration addresses.
pub proof fn lemma_registers_apart(bus: u8, dev: u8, func: u8, a: u8, b: u8)
    requires
        a & 0xfc != b & 0xfc,
    ensures
        spec_make_address(bus, dev, func, a) != spec_make_address(bus, dev, func, b),
{
    assert(a & 0xfc != b & 0xfc ==> 1u32 << 31u32 | (bus as u32) << 16u32 | (dev as u32) << 11u32 | (func as u32) << 8u32 | (a & 0xfc) as u32
        != 1u32 << 31u32 | (bus as u32) << 16u32 | (dev as u32) << 11u32 | (func as u32) << 8u32 | (b & 0xfc) as u32) by (bit_vector);
}

/// The configuration registers the hand-over reads, in order: the
/// superspeed enable (DCh), then the routing mask (D4h).
pub fn ehci_handover_reads() -> (r: (u8, u8))
    ensures
        r == (0xdcu8, 0xd4u8),
{
    (0xdc, 0xd4)
}

/// The writes of the hand-over for the values read: the superspeed enable
/// to D8h, the routing mask to D0h.
pub fn ehci_handover_writes(superspeed_port: u32, ehci2xhci_ports: u32) -> (r: Vec<(u8, u32)>)
    ensures
        r@ == seq![(0xd8u8, superspeed_port), (0xd0u8, ehci2xhci_ports)],
{
    vec![(0xd8, superspeed_port), (0xd0, ehci2xhci_ports)]
}

/// Hands the EHCI ports of an Intel chipset over to the xHCI controller:
/// copies the superspeed enable (DCh) to D8h and the routing mask (D4h) to
/// D0h, when an EHCI controller is present.
pub fn switch_ehci_to_xhci<I: PciConfigIo>(io: &mut I, xhc_dev: &PciDevice, intel_ehc_exist: bool)
    ensures
        final(io).modeled() == old(io).modeled(),
        old(io).modeled() ==> final(io).space() == (if intel_ehc_exist {
            let sp = old(io).space();
            let d = *xhc_dev;
            sp.insert(spec_make_address(d.bus, d.dev, d.func, 0xd8), register(sp, d.bus, d.dev, d.func, 0xdc))
                .insert(spec_make_address(d.bus, d.dev, d.func, 0xd0), register(sp, d.bus, d.dev, d.func, 0xd4))
        } else {
            old(io).space()
        }),
{
    if intel_ehc_exist {
        let (superspeed_reg, routing_reg) = ehci_handover_reads();
        let superspeed_port = Pci::read_config(io, xhc_dev, superspeed_reg);
        let first = ehci_handover_writes(superspeed_port, 0);
        Pci::write_config(io, xhc_dev, first[0].0, first[0].1);
        proof {
            assert(0xd4u8 & 0xfc != 0xd8u8 & 0xfc) by (bit_vector);
            lemma_registers_apart(xhc_dev.bus, xhc_dev.dev, xhc_dev.func, 0xd4, 0xd8);
        }
        let ehci2xhci_ports = Pci::read_config(io, xhc_dev, routing_reg);
        let writes = ehci_handover_writes(superspeed_port, ehci2xhci_ports);
        Pci::write_config(io, xhc_dev, writes[1].0, writes[1].1);
    }
}

} // verus!

use std::collections::HashMap;

use kernel::acpi::{
    find_table, xsdt_entries_of, DescriptionHeader, IOAPICEntry, IntNMIOverrideEntry, IntOverrideEntry,
    LocalAPICEntry, LocalNMIOverideEntry, LocalOverrideEntry, FADT, MADT,
};
use kernel::ap::{init_ap, ApAction, ApEvent};
use kernel::device::pci::capability::{CapabilityId, CapabilityRegister};
use kernel::device::pci::msi::{
    msi_enable_writes, msi_header, msi_route_address, msix_route_address, IrqCounter, Message, Msi, MsiXCapabilityRegister,
};
use kernel::device::pci::search::{Base, Interface, PciSearcher, Sub};
use kernel::device::pci::{
    combine_bar, ehci_handover_reads, ehci_handover_writes, header_type_of, make_address, secondary_bus_of,
    switch_ehci_to_xhci, vendor_id_of, ConfigSpace, Pci, PciClass, PciConfigIo, PciDevice,
};
use kernel::elf::{calculate_address, copy_load_segment, Elf64, Elf64PHeader};
use kernel::gdt::{interrupt_stack_tops, StackFrame};

/// A configuration space held in a map from configuration addresses.
struct FakeConfig {
    address: u32,
    regs: HashMap<u32, u32>,
    writes: Vec<(u32, u32)>,
}

impl FakeConfig {
    fn new() -> Self {
        FakeConfig { address: 0, regs: HashMap::new(), writes: Vec::new() }
    }

    fn set(&mut self, bus: u8, dev: u8, func: u8, reg: u8, value: u32) {
        self.regs.insert(make_address(bus, dev, func, reg), value);
    }

    fn function(&mut self, bus: u8, dev: u8, func: u8, header_type: u8, class: u32) {
        self.set(bus, dev, func, 0x00, 0x1234_8086);
        self.set(bus, dev, func, 0x0C, (header_type as u32) << 16);
        self.set(bus, dev, func, 0x08, class);
    }
}

impl PciConfigIo for FakeConfig {
    fn write_address(&mut self, addr: u32) {
        self.address = addr;
    }

    fn write_data(&mut self, data: u32) {
        self.writes.push((self.address, data));
        self.regs.insert(self.address, data);
    }

    fn read_data(&mut self) -> u32 {
        *self.regs.get(&self.address).unwrap_or(&0xFFFF_FFFF)
    }
}

#[test]
fn configuration_addresses() {
    assert_eq!(make_address(0, 0, 0, 0), 0x8000_0000);
    assert_eq!(make_address(1, 2, 3, 0x13), 0x8001_1310);
    let c = PciClass::from(0x0C03_3001);
    assert_eq!((c.base, c.sub, c.interface, c.revision_id), (0x0C, 0x03, 0x30, 0x01));
    assert!(c.is_class(0x0C, 0x03, 0x30));
    assert!(c.is_class(0x0C, 0x03, 0xFF));
    assert!(!c.is_class(0x0C, 0x03, 0x20));
    assert!(PciClass::from(0x0604_0000).is_pci_bridge());
    assert_eq!(combine_bar(0x1000, 0x2), 0x1000);
    assert_eq!(combine_bar(0x1004, 0x2), 0x2_0000_1004);
}

#[test]
fn bus_scan_follows_bridges_and_functions() {
    let mut io = FakeConfig::new();
    // host bridge, single function
    io.function(0, 0, 0, 0x00, 0x0600_0000);
    // a multi-function device with a second function
    io.function(0, 3, 0, 0x80, 0x0C03_3000);
    io.function(0, 3, 1, 0x00, 0x0C03_2000);
    // a bridge to bus 1, with one device behind it
    io.function(0, 5, 0, 0x01, 0x0604_0000);
    io.set(0, 5, 0, 0x18, 0x0000_0100);
    io.function(1, 0, 0, 0x00, 0x0106_0100);

    let mut pci = Pci::new();
    assert_eq!(pci.init(&mut io), Ok(()));
    let mut it = pci.device_iter();
    let mut found = Vec::new();
    while let Some(d) = it.next() {
        found.push((d.bus, d.dev, d.func, d.class_code.base));
    }
    assert_eq!(found, vec![(0, 0, 0, 0x06), (0, 3, 0, 0x0C), (0, 3, 1, 0x0C), (0, 5, 0, 0x06), (1, 0, 0, 0x01)]);
}

#[test]
fn device_table_fills_up() {
    let mut pci = Pci::new();
    for i in 0..32u8 {
        assert_eq!(pci.add_device(PciDevice::new(0, i, 0, 0, PciClass::from(0))), Ok(()));
    }
    assert_eq!(pci.add_device(PciDevice::new(1, 0, 0, 0, PciClass::from(0))), Err(()));
}

#[test]
fn searching_devices() {
    let xhc = PciDevice::new(0, 3, 0, 0, PciClass::from(0x0C03_3000));
    let ehc = PciDevice::new(0, 4, 0, 0, PciClass::from(0x0C03_2000));
    let devices = vec![ehc, xhc];
    let found = PciSearcher::new().base(Base::Serial).sub(Sub::USB).interface(Interface::XHCI).search(&devices).unwrap();
    assert_eq!(found.len(), 1);
    assert_eq!(found[0].dev, 3);
    assert!(PciSearcher::new().base(Base::Serial).search(&devices).is_none());
}

#[test]
fn bars_capabilities_and_msi() {
    let mut io = FakeConfig::new();
    let dev = PciDevice::new(0, 3, 0, 0, PciClass::from(0x0C03_3000));
    io.set(0, 3, 0, 0x10, 0xFEB0_0004);
    io.set(0, 3, 0, 0x14, 0x0000_0001);
    assert_eq!(dev.read_bar(&mut io, 0), 0x1_FEB0_0004);
    assert_eq!(dev.read_vendor_id(&mut io), 0xFFFF);

    // capability list: MSI-X at 0x70, MSI at 0x80, end
    io.set(0, 3, 0, 0x34, 0x70);
    io.set(0, 3, 0, 0x70, 0x0003_8011);
    io.set(0, 3, 0, 0x74, 0x0000_2000);
    io.set(0, 3, 0, 0x80, 0x0006_0005);
    let mut caps = dev.capabilities(&mut io);
    let first = caps.next(&mut io).unwrap();
    assert_eq!(first.offset, 0x70);
    assert_eq!(first.id(&mut io), CapabilityId::MSIX);
    assert!(first.msi(&mut io).is_none());
    let msix = first.msix(&mut io).unwrap();
    assert_eq!(msix.table(&mut io), 0x1_FEB0_2000);
    let second = caps.next(&mut io).unwrap();
    assert_eq!(second.offset, 0x80);
    assert_eq!(CapabilityId::from_id(5), CapabilityId::MSI);
    assert!(caps.next(&mut io).is_none());

    let msi = second.msi(&mut io).unwrap();
    let m = Message::new().destionation_id(3).interrupt_index(0x40).level(true).delivery_mode(0x0F);
    assert_eq!(m.address(), 0xFEE0_3000);
    assert_eq!(m.data(), 0x4740);
    msi.enable(&mut io, &m);
    assert_eq!(io.writes, vec![
        (make_address(0, 3, 0, 0x80), 0x0037_0005),
        (make_address(0, 3, 0, 0x84), 0xFEE0_3000),
        (make_address(0, 3, 0, 0x8C), 0x4740),
    ]);
    let _ = CapabilityRegister { device: dev, offset: 0x80 };
}

#[test]
fn message_fields() {
    let m = Message::new().destionation_mode(true).redirection(true).trigger_mode(true);
    assert_eq!(m.address(), 0xFEE0_000C);
    assert_eq!(m.data(), 0x8000);
    assert_eq!(msi_header(0x0004_0000), 0x0024_0000 | 0x0001_0000 | 0x0004_0000);
    assert_eq!(msi_route_address(2), 0xFEE0_2000);
    assert_eq!(msix_route_address(0xFEE0_5008, 1), 0xFEE0_1008);
    assert_eq!(MsiXCapabilityRegister::table_address(0x2003, 0x1_0000_000C), 0x1_0000_2000);
    // the table size reads bit 27 of the header, as the precedence of the
    // expression has it
    assert_eq!(MsiXCapabilityRegister::enable_header(0x0807_0011), (0x8807_0011, 0x0800));
    assert_eq!(MsiXCapabilityRegister::enable_header(0x0007_0011), (0x8007_0011, 0));
}

#[test]
fn interrupts_go_to_the_least_loaded_core() {
    let mut c = IrqCounter::new();
    for _ in 0..3 {
        c.increase_int_count(1, 0);
    }
    c.increase_int_count(2, 0);
    for _ in 0..9 {
        c.increase_int_count(0, 0);
    }
    assert_eq!(c.load_balance_int(0, 0, 3), None);
    c.increase_int_count(0, 0);
    // core 0 counted its tenth; cores 0, 1, 2 hold 10, 3, 1
    assert_eq!(c.load_balance_int(0, 0, 3), Some(2));
    assert_eq!(c.load_balance_int(0, 0, 2), Some(1));
    assert_eq!(c.load_balance_int(0, 1, 3), None);
    assert_eq!((c.count(0, 0), c.count(1, 0), c.count(2, 0), c.count(3, 0)), (10, 3, 1, 0));
}

#[test]
fn ehci_ports_switch_to_xhci() {
    let mut io = FakeConfig::new();
    let xhc = PciDevice::new(0, 3, 0, 0, PciClass::from(0x0C03_3000));
    io.set(0, 3, 0, 0xdc, 0xF);
    io.set(0, 3, 0, 0xd4, 0x3);
    switch_ehci_to_xhci(&mut io, &xhc, false);
    assert!(io.writes.is_empty());
    switch_ehci_to_xhci(&mut io, &xhc, true);
    assert_eq!(io.writes, vec![(make_address(0, 3, 0, 0xd8), 0xF), (make_address(0, 3, 0, 0xd0), 0x3)]);
}

fn table(sig: &[u8; 4], len: usize) -> Vec<u8> {
    let mut b = vec![0u8; len];
    b[..4].copy_from_slice(sig);
    b[4..8].copy_from_slice(&(len as u32).to_le_bytes());
    let s: u8 = b.iter().fold(0u8, |a, x| a.wrapping_add(*x));
    b[9] = 0u8.wrapping_sub(s);
    b
}

#[test]
fn acpi_tables() {
    let mut xsdt = table(b"XSDT", 36 + 16);
    xsdt[36..44].copy_from_slice(&0x1000u64.to_le_bytes());
    xsdt[44..52].copy_from_slice(&0x2000u64.to_le_bytes());
    let mut it = xsdt_entries_of(&xsdt);
    assert_eq!(it.next(), Some(0x1000));
    assert_eq!(it.next(), Some(0x2000));
    assert_eq!(it.next(), None);

    let facp = DescriptionHeader { bytes: table(b"FACP", 116) };
    let apic = DescriptionHeader { bytes: table(b"APIC", 44) };
    let mut broken = table(b"APIC", 44);
    broken[20] = 1;
    let headers = vec![DescriptionHeader { bytes: broken }, facp, apic];
    assert_eq!(headers[1].length(), 116);
    assert!(headers[1].is_valid(b"FACP"));
    assert!(!headers[0].is_valid(b"APIC"));
    assert_eq!(find_table(&headers, b"APIC"), Some(2));
    assert_eq!(find_table(&headers, b"FACP"), Some(1));
    assert_eq!(find_table(&headers, b"HPET"), None);

    let mut f = vec![0u8; 116];
    f[76..80].copy_from_slice(&0x608u32.to_le_bytes());
    f[112..116].copy_from_slice(&0x100u32.to_le_bytes());
    let fadt = FADT { bytes: f };
    assert_eq!((fadt.timer(), fadt.flags()), (0x608, 0x100));
}

#[test]
fn madt_entries() {
    let mut b = vec![0u8; 44];
    b.extend_from_slice(&[0, 8, 0, 1, 1, 0, 0, 0]);
    b.extend_from_slice(&[1, 12, 2, 0, 0, 0, 0xC0, 0xFE, 0, 0, 0, 0]);
    let len = b.len() as u32;
    b[4..8].copy_from_slice(&len.to_le_bytes());
    let madt = MADT { bytes: b };
    let mut it = madt.entries();
    assert_eq!(it.length, 64);
    let h = it.next().unwrap();
    assert_eq!((h.type_, h.length), (0, 8));
    let lapic = LocalAPICEntry::parse(&it.entries, 0);
    assert_eq!((lapic.uid, lapic.id, lapic.flags), (0, 1, 1));
    // positions are counted from the first entry, the length from the
    // start of the table
    let h = it.next().unwrap();
    assert_eq!((h.type_, h.length), (1, 12));
    assert_eq!(it.idx, 20);
    let io = IOAPICEntry::parse(&it.entries, 8);
    assert_eq!((io.id, io.address, io.global_addr), (2, 0xFEC0_0000, 0));

    let raw = [2u8, 10, 0, 9, 9, 0, 0, 0, 0x0D, 0, 0, 0];
    let o = IntOverrideEntry::parse(&raw, 0);
    assert_eq!((o.bus, o.source, o.global_int, o.flags), (0, 9, 9, 0x0D));
    let n = IntNMIOverrideEntry::parse(&[3, 8, 5, 0, 2, 0, 0, 0], 0);
    assert_eq!((n.flags, n.global_int), (5, 2));
    let lo = LocalOverrideEntry::parse(&[5, 12, 0, 0, 0, 0, 0xE0, 0xFE, 0, 0, 0, 0], 0);
    assert_eq!(lo.address, 0xFEE0_0000);
    let ln = LocalNMIOverideEntry::parse(&[4, 6, 0xFF, 5, 0, 1], 0);
    assert_eq!((ln.uid, ln.flags, ln.int), (0xFF, 5, 1));
}

fn elf_image() -> Vec<u8> {
    let mut b = vec![0u8; 64 + 3 * 56];
    b[16..18].copy_from_slice(&2u16.to_le_bytes());
    b[24..32].copy_from_slice(&0x10_0120u64.to_le_bytes());
    b[32..40].copy_from_slice(&64u64.to_le_bytes());
    b[56..58].copy_from_slice(&3u16.to_le_bytes());
    let ph = |b: &mut Vec<u8>, i: usize, ty: u32, off: u64, vaddr: u64, filesz: u64, memsz: u64| {
        let o = 64 + 56 * i;
        b[o..o + 4].copy_from_slice(&ty.to_le_bytes());
        b[o + 8..o + 16].copy_from_slice(&off.to_le_bytes());
        b[o + 16..o + 24].copy_from_slice(&vaddr.to_le_bytes());
        b[o + 32..o + 40].copy_from_slice(&filesz.to_le_bytes());
        b[o + 40..o + 48].copy_from_slice(&memsz.to_le_bytes());
    };
    ph(&mut b, 0, 6, 64, 0x10_0040, 168, 168);
    ph(&mut b, 1, 1, 0x1000, 0x10_0000, 0x200, 0x200);
    ph(&mut b, 2, 1, 0x2000, 0x10_1000, 0x100, 0x300);
    b
}

#[test]
fn elf_segments() {
    let image = elf_image();
    let elf = Elf64::new(0x40_0000);
    let h = elf.get_header(&image);
    assert_eq!((h.e_type, h.e_entry, h.e_phoff, h.e_phnum), (2, 0x10_0120, 64, 3));
    let ps: Vec<Elf64PHeader> = elf.get_pheader_iter(&image);
    assert_eq!(ps.len(), 3);
    assert_eq!(ps[2].p_memsz, 0x300);
    assert_eq!(calculate_address(&ps), (0x10_0000, 0x10_1300));
    let copies = copy_load_segment(&elf, &ps);
    assert_eq!(copies.len(), 2);
    assert_eq!((copies[0].src, copies[0].dst, copies[0].filesz, copies[0].zero_len), (0x40_1000, 0x10_0000, 0x200, 0));
    assert_eq!((copies[1].src, copies[1].zero_dst, copies[1].zero_len), (0x40_2000, 0x10_1100, 0x200));
    assert_eq!(calculate_address(&vec![]), (u64::MAX, 0));
}

#[test]
fn application_processors_wake_up() {
    let (mut b, a) = init_ap(4, 0x10_0000, 0x10_0000);
    assert!(a == ApAction::WriteTrampoline { stack_top: 0x20_0000, stack_part: 0x1_0000 });
    assert!(b.step(ApEvent::Completed) == ApAction::EnableApic);
    assert!(b.step(ApEvent::Completed) == ApAction::SendIpi(0x000C_4500));
    assert!(b.step(ApEvent::Completed) == ApAction::Wait(10000));
    assert!(b.step(ApEvent::Completed) == ApAction::ReadIcr);
    assert!(b.step(ApEvent::Icr(0)) == ApAction::SendIpi(0x000C_4608));
    assert!(b.step(ApEvent::Completed) == ApAction::Wait(200));
    assert!(b.step(ApEvent::Completed) == ApAction::ReadIcr);
    assert!(b.step(ApEvent::Icr(0)) == ApAction::SendIpi(0x000C_4608));
    assert!(b.step(ApEvent::Completed) == ApAction::Wait(200));
    assert!(b.step(ApEvent::Completed) == ApAction::ReadIcr);
    assert!(b.step(ApEvent::Icr(0x1000)) == ApAction::ReadCoreCount);
    assert!(b.step(ApEvent::CoreCount(1)) == ApAction::Wait(50000));
    assert!(b.step(ApEvent::Completed) == ApAction::ReadCoreCount);
    assert!(b.step(ApEvent::CoreCount(3)) == ApAction::Finish(3));
    // finished for good
    assert!(b.step(ApEvent::Completed) == ApAction::Finish(3));
}

#[test]
fn pending_init_skips_the_startups() {
    let (mut b, _) = init_ap(1, 0, 0x1000);
    b.step(ApEvent::Completed);
    b.step(ApEvent::Completed);
    b.step(ApEvent::Completed);
    b.step(ApEvent::Completed);
    assert!(b.step(ApEvent::Icr(0x1000)) == ApAction::ReadCoreCount);
    assert!(b.step(ApEvent::CoreCount(0)) == ApAction::Finish(0));
}

#[test]
fn interrupt_stacks() {
    let tops = interrupt_stack_tops(0x1000, 0x1_0000);
    assert_eq!(tops.len(), 16);
    assert_eq!(tops[0], 0x1_1000);
    assert_eq!(tops[1], 0x1_0000);
    assert_eq!(tops[15], 0x2000);
    let f = StackFrame { stack_start: 1, stack_size: 2 };
    assert_eq!(f.stack_frame(), (1, 2));
}

#[test]
fn register_plans() {
    let m = Message::new().destionation_id(3).interrupt_index(0x40).level(true).delivery_mode(0x0F);
    assert_eq!(msi_enable_writes(0x80, 0x0006_0005, &m), vec![(0x80, 0x0037_0005), (0x84, 0xFEE0_3000), (0x8C, 0x4740)]);
    assert_eq!(ehci_handover_reads(), (0xdc, 0xd4));
    assert_eq!(ehci_handover_writes(7, 9), vec![(0xd8, 7), (0xd0, 9)]);
}

fn store(io: &mut ConfigSpace, bus: u8, dev: u8, func: u8, reg: u8, value: u32) {
    io.write_address(make_address(bus, dev, func, reg));
    io.write_data(value);
}

fn read_back(io: &mut ConfigSpace, bus: u8, dev: u8, func: u8, reg: u8) -> u32 {
    io.write_address(make_address(bus, dev, func, reg));
    io.read_data()
}

#[test]
fn config_space_reads_back_what_was_stored() {
    let mut io = ConfigSpace::new();
    assert_eq!(read_back(&mut io, 0, 1, 0, 0x00), 0xFFFF_FFFF);
    store(&mut io, 0, 1, 0, 0x00, 0x1234_8086);
    store(&mut io, 0, 1, 0, 0x0C, 0x0080_0000);
    assert_eq!(read_back(&mut io, 0, 1, 0, 0x00), 0x1234_8086);
    store(&mut io, 0, 1, 0, 0x00, 0x5678_8086);
    assert_eq!(read_back(&mut io, 0, 1, 0, 0x00), 0x5678_8086);
    assert_eq!(Pci::read_vendor_id(&mut io, 0, 1, 0), 0x8086);
    assert_eq!(Pci::read_header_type(&mut io, 0, 1, 0), 0x80);
    assert_eq!(Pci::read_vendor_id(&mut io, 0, 2, 0), 0xFFFF);
    assert_eq!(vendor_id_of(0x1234_8086), 0x8086);
    assert_eq!(header_type_of(0x00FF_0000), 0xFF);
    assert_eq!(secondary_bus_of(0x0003_0201), 0x02);
    // the table offset wraps past 64 bits
    assert_eq!(MsiXCapabilityRegister::table_address(0x10, 0xFFFF_FFFF_FFFF_FFF0), 0);
}

#[test]
fn scan_of_a_modeled_space() {
    let mut io = ConfigSpace::new();
    for (bus, dev, func, header, class) in [
        (0u8, 0u8, 0u8, 0x80u32, 0x0600_0000u32),
        (0, 0, 1, 0x00, 0x0600_0000),
        (0, 2, 0, 0x00, 0x0C03_3000),
        (1, 4, 0, 0x01, 0x0604_0000),
        (2, 0, 0, 0x00, 0x0106_0100),
    ] {
        store(&mut io, bus, dev, func, 0x00, 0x1234_8086);
        store(&mut io, bus, dev, func, 0x0C, header << 16);
        store(&mut io, bus, dev, func, 0x08, class);
    }
    store(&mut io, 1, 4, 0, 0x18, 0x0000_0200);
    let mut pci = Pci::new();
    // host bridge 0 is multi-function: the buses of functions 1 to 7 that
    // answer are scanned, here bus 1, whose bridge leads to bus 2
    assert_eq!(pci.init(&mut io), Ok(()));
    let mut it = pci.device_iter();
    let mut found = Vec::new();
    while let Some(d) = it.next() {
        found.push((d.bus, d.dev, d.func, d.header_type, d.class_code.base));
    }
    assert_eq!(found, vec![(1, 4, 0, 0x01, 0x06), (2, 0, 0, 0x00, 0x01)]);

    let mut bus0 = Pci::new();
    assert_eq!(bus0.scan_bus(&mut io, 0), Ok(()));
    let mut it = bus0.device_iter();
    let mut found = Vec::new();
    while let Some(d) = it.next() {
        found.push((d.bus, d.dev, d.func));
    }
    assert_eq!(found, vec![(0, 0, 0), (0, 0, 1), (0, 2, 0)]);
}

#[test]
fn msi_enable_on_a_modeled_space() {
    let mut io = ConfigSpace::new();
    let dev = PciDevice::new(0, 3, 0, 0, PciClass::from(0x0C03_3000));
    store(&mut io, 0, 3, 0, 0x80, 0x0006_0005);
    store(&mut io, 0, 3, 0, 0xdc, 0xF);
    store(&mut io, 0, 3, 0, 0xd4, 0x3);
    let cap = CapabilityRegister { device: dev, offset: 0x80 };
    assert_eq!(cap.id(&mut io), CapabilityId::MSI);
    let msi = cap.msi(&mut io).unwrap();
    let m = Message::new().destionation_id(3).interrupt_index(0x40).level(true).delivery_mode(0x0F);
    msi.enable(&mut io, &m);
    assert_eq!(read_back(&mut io, 0, 3, 0, 0x80), 0x0037_0005);
    assert_eq!(read_back(&mut io, 0, 3, 0, 0x84), 0xFEE0_3000);
    assert_eq!(read_back(&mut io, 0, 3, 0, 0x8C), 0x4740);
    switch_ehci_to_xhci(&mut io, &dev, true);
    assert_eq!(read_back(&mut io, 0, 3, 0, 0xd8), 0xF);
    assert_eq!(read_back(&mut io, 0, 3, 0, 0xd0), 0x3);
}

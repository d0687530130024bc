//! The capability list of a PCI function.
use vstd::prelude::*;
use super::{register, Pci, PciConfigIo, PciDevice};
use super::msi::{MsiCapabilityRegister, MsiXCapabilityRegister};

verus! {

/// Capability IDs the kernel knows.
#[derive(Clone, Copy, Debug, PartialEq, Eq, Structural)]
pub enum CapabilityId {
    MSI,
    MSIX,
    Unknown,
}

/// The capability an ID byte names: 05h is MSI, 11h is MSI-X.
pub open spec fn capability_id(id: u8) -> CapabilityId {
    if id == 0x05 { CapabilityId::MSI } else if id == 0x11 { CapabilityId::MSIX } else { CapabilityId::Unknown }
}

impl CapabilityId {
    /// 05h is MSI, 11h is MSI-X.
    pub fn from_id(id: u8) -> (r: Self)
        ensures
            r == capability_id(id),
    {
        match id {
            0x05 => CapabilityId::MSI,
            0x11 => CapabilityId::MSIX,
            _ => CapabilityId::Unknown,
        }
    }
}

/// A capability of a function, at `offset` in its configuration space.
#[derive(Clone, Copy)]
pub struct CapabilityRegister {
    pub device: PciDevice,
    pub offset: u8,
}

impl CapabilityRegister {
    /// The ID the capability's header names.
    pub open spec fn id_in(&self, space: Map<u32, u32>) -> CapabilityId {
        capability_id(register(space, self.device.bus, self.device.dev, self.device.func, self.offset) as u8)
    }

    /// The ID byte of the capability: the low byte of its header.
    pub fn id<I: PciConfigIo>(&self, io: &mut I) -> (r: CapabilityId)
        ensures
            final(io).modeled() == old(io).modeled(),
            old(io).modeled() ==> final(io).space() == old(io).space() && r == self.id_in(old(io).space()),
    {
        let id = Pci::read_config(io, &self.device, self.offset) as u8;
        CapabilityId::from_id(id)
    }

    /// The capability as an MSI one, if it is one.
    pub fn msi<I: PciConfigIo>(&self, io: &mut I) -> (r: Option<MsiCapabilityRegister>)
        ensures
            r matches Some(m) ==> m.device == self.device && m.offset == self.offset,
            final(io).modeled() == old(io).modeled(),
            old(io).modeled() ==> final(io).space() == old(io).space()
                && (r is Some <==> self.id_in(old(io).space()) == CapabilityId::MSI),
    {
        match self.id(io) {
            CapabilityId::MSI => Some(MsiCapabilityRegister { device: self.device, offset: self.offset }),
            _ => None,
        }
    }

    /// The capability as an MSI-X one, if it is one.
    pub fn msix<I: PciConfigIo>(&self, io: &mut I) -> (r: Option<MsiXCapabilityRegister>)
        ensures
            r matches Some(m) ==> m.device == self.device && m.offset == self.offset,
            final(io).modeled() == old(io).modeled(),
            old(io).modeled() ==> final(io).space() == old(io).space()
                && (r is Some <==> self.id_in(old(io).space()) == CapabilityId::MSIX),
    {
        match self.id(io) {
            CapabilityId::MSIX => Some(MsiXCapabilityRegister { device: self.device, offset: self.offset }),
            _ => None,
        }
    }
}

/// Follows the capability list; offset 0 ends it.
pub struct CapabilityRegisterIter {
    pub device: PciDevice,
    pub offset: u8,
}

impl CapabilityRegisterIter {
    /// The capability at the current offset; the next offset is bits 8 to 15
    /// of its header.
    pub fn next<I: PciConfigIo>(&mut self, io: &mut I) -> (r: Option<CapabilityRegister>)
        ensures
            old(self).offset == 0 ==> r is None && *final(self) == *old(self),
            old(self).offset != 0 ==> r == Some(CapabilityRegister { device: old(self).device, offset: old(self).offset })
                && final(self).device == old(self).device,
            final(io).modeled() == old(io).modeled(),
            old(io).modeled() ==> final(io).space() == old(io).space(),
            old(io).modeled() && old(self).offset != 0 ==> final(self).offset
                == (register(old(io).space(), old(self).device.bus, old(self).device.dev, old(self).device.func, old(self).offset) >> 8u32) as u8,
    {
        if self.offset == 0 {
            return None;
        }
        let header = Pci::read_config(io, &self.device, self.offset);
        let new_offset = (header >> 8) as u8;
        let old_offset = self.offset;
        self.offset = new_offset;
        Some(CapabilityRegister { device: self.device, offset: old_offset })
    }
}

} // verus!

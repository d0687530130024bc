//! Finding functions by class.
use vstd::prelude::*;
use super::PciDevice;

verus! {

/// Base classes the searcher knows.
pub enum Base {
    Serial,
}

impl Base {
    pub fn as_u8(self) -> (r: Option<u8>)
        ensures
            r == Some(0x0Cu8),
    {
        match self {
            Self::Serial => Some(0x0C),
        }
    }
}

/// Subclasses the searcher knows.
pub enum Sub {
    USB,
}

impl Sub {
    pub fn as_u8(self) -> (r: Option<u8>)
        ensures
            r == Some(0x03u8),
    {
        match self {
            Self::USB => Some(0x03),
        }
    }
}

/// USB host controller interfaces.
#[derive(PartialEq, Eq, Structural)]
pub enum Interface {
    UHC,
    OHCI,
    EHCI,
    XHCI,
}

impl Interface {
    pub open spec fn spec_code(self) -> Option<u8> {
        match self {
            Self::OHCI => Some(0x10u8),
            Self::EHCI => Some(0x20u8),
            Self::XHCI => Some(0x30u8),
            Self::UHC => None,
        }
    }

    /// The programming interface code; the UHC one has none.
    pub fn as_u8(self) -> (r: Option<u8>)
        ensures
            r == self.spec_code(),
    {
        match self {
            Self::OHCI => Some(0x10),
            Self::EHCI => Some(0x20),
            Self::XHCI => Some(0x30),
            _ => None,
        }
    }
}

/// A class pattern; `0xFF` leaves a field open, but an open base class
/// finds nothing.
pub struct PciSearcher {
    pub base: u8,
    pub sub: u8,
    pub interface: u8,
}

impl PciSearcher {
    pub fn new() -> (r: Self)
        ensures
            r.base == 0xFF && r.sub == 0xFF && r.interface == 0xFF,
    {
        Self { base: 0xFF, sub: 0xFF, interface: 0xFF }
    }

    pub fn base(self, base: Base) -> (r: Self)
        ensures
            r == (PciSearcher { base: 0x0C, ..self }),
    {
        let mut s = self;
        s.base = base.as_u8().unwrap();
        s
    }

    pub fn sub(self, sub: Sub) -> (r: Self)
        ensures
            r == (PciSearcher { sub: 0x03, ..self }),
    {
        let mut s = self;
        s.sub = sub.as_u8().unwrap();
        s
    }

    pub fn interface(self, interface: Interface) -> (r: Self)
        requires
            interface != Interface::UHC,
        ensures
            r == (PciSearcher { interface: interface.spec_code()->0, ..self }),
    {
        let mut s = self;
        s.interface = interface.as_u8().unwrap();
        s
    }

    /// The functions among `devices` whose class matches, in order; `None`
    /// when none does or the base class is open.
    pub fn search(&self, devices: &Vec<PciDevice>) -> (r: Option<Vec<PciDevice>>)
        ensures
            self.base == 0xFF ==> r is None,
            self.base != 0xFF ==> {
                let found = devices@.filter(|d: PciDevice| d.class_code.spec_is_class(self.base, self.sub, self.interface));
                &&& found.len() == 0 ==> r is None
                &&& found.len() > 0 ==> (r matches Some(v) && v@ == found)
            },
    {
        if self.base == 0xFF {
            return None;
        }
        let ghost pred = |d: PciDevice| d.class_code.spec_is_class(self.base, self.sub, self.interface);
        let mut found: Vec<PciDevice> = Vec::new();
        let mut i: usize = 0;
        while i < devices.len()
            invariant
                i <= devices@.len(),
                pred == (|d: PciDevice| d.class_code.spec_is_class(self.base, self.sub, self.interface)),
                found@ == devices@.subrange(0, i as int).filter(pred),
            decreases devices@.len() - i,
        {
            let d = devices[i];
            proof {
                assert(devices@.subrange(0, i + 1) =~= devices@.subrange(0, i as int).push(d));
                crate::device::keyboard::lemma_filter_push(devices@.subrange(0, i as int), pred, d);
            }
            if d.class_code.is_class(self.base, self.sub, self.interface) {
                found.push(d);
            }
            i = i + 1;
        }
        proof {
            assert(devices@.subrange(0, i as int) =~= devices@);
        }
        if found.len() == 0 {
            None
        } else {
            Some(found)
        }
    }
}

} // verus!

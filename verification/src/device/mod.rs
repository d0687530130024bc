//! Device drivers: block storage, PCI, input devices and the xHCI host
//! controller.
use vstd::prelude::*;

pub mod block;
pub mod keyboard;
pub mod mouse;
pub mod pata;
pub mod pci;
pub mod ps2;

verus! {

/// An x86 I/O port, by its number.
#[derive(Clone, Copy, PartialEq, Eq, Structural)]
pub struct Port {
    pub port: u16,
}

impl Port {
    pub fn new(port: u16) -> (r: Port)
        ensures
            r.port == port,
    {
        Port { port }
    }
}

} // verus!

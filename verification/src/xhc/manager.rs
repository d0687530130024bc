//! The device manager's choice of the port being addressed, and what the
//! controller does on each event the event ring reports.
use vstd::prelude::*;

verus! {

/// The port whose device is being given an address, if any.
pub struct Manager {
    pub addressing_port_id: Option<u8>,
}

impl Manager {
    pub fn new() -> (r: Self)
        ensures
            r.addressing_port_id is None,
    {
        Manager { addressing_port_id: None }
    }

    /// Whether a port may be addressed now: it is the port being addressed,
    /// or no port is.
    pub fn is_addressing_port(&self, port_id: u8) -> (r: bool)
        ensures
            r == match self.addressing_port_id {
                Some(id) => id == port_id,
                None => true,
            },
    {
        match self.addressing_port_id {
            Some(id) => port_id == id,
            None => true,
        }
    }

    pub fn set_addressing_port(&mut self, port_id: u8)
        ensures
            final(self).addressing_port_id == Some(port_id),
    {
        self.addressing_port_id = Some(port_id);
    }

    /// The port being addressed; `Err` when there is none.
    pub fn try_addressing_id_port(&self) -> (r: Result<u8, ()>)
        ensures
            r == match self.addressing_port_id {
                Some(id) => Ok::<u8, ()>(id),
                None => Err::<u8, ()>(()),
            },
    {
        match self.addressing_port_id {
            Some(port) => Ok(port),
            None => Err(()),
        }
    }

    /// Once a device has its address, no port is being addressed.
    pub fn finish_addressing(&mut self)
        ensures
            final(self).addressing_port_id is None,
    {
        self.addressing_port_id = None;
    }
}

/// What the controller does when a port reports a status change.
#[derive(Clone, Copy, PartialEq, Eq, Structural)]
pub enum PortDecision {
    /// Clear the port's reset change, address it and ask for a slot.
    EnableSlot(u8),
    /// Another port is being addressed: the port waits.
    Wait(u8),
}

/// A port reporting a change is addressed now when it may be, and waits
/// otherwise; addressing it makes it the port being addressed.
pub fn on_port_status_change(manager: &mut Manager, port_id: u8) -> (r: PortDecision)
    ensures
        (match old(manager).addressing_port_id {
            Some(id) => id == port_id,
            None => true,
        }) ==> r == PortDecision::EnableSlot(port_id) && final(manager).addressing_port_id == Some(port_id),
        !(match old(manager).addressing_port_id {
            Some(id) => id == port_id,
            None => true,
        }) ==> r == PortDecision::Wait(port_id) && *final(manager) == *old(manager),
{
    if manager.is_addressing_port(port_id) {
        manager.set_addressing_port(port_id);
        PortDecision::EnableSlot(port_id)
    } else {
        PortDecision::Wait(port_id)
    }
}

/// What a completed command leads to.
#[derive(Clone, Copy, PartialEq, Eq, Structural)]
pub enum Completion {
    /// A slot was enabled: address the device in it.
    AddressDevice,
    /// A device was addressed: reset a waiting port and read the device's
    /// descriptor.
    InitDevice,
    /// Endpoints were configured: set the protocol of each interface.
    ConfigureEndpoint,
    /// Nothing to do.
    Ignore,
}

/// The step after a command completes, by the type of the command's TRB:
/// Enable Slot (9), Address Device (11), Configure Endpoint (12).
pub fn completion_step(trb_type: u8) -> (r: Completion)
    ensures
        r == (if trb_type == 9 {
            Completion::AddressDevice
        } else if trb_type == 11 {
            Completion::InitDevice
        } else if trb_type == 12 {
            Completion::ConfigureEndpoint
        } else {
            Completion::Ignore
        }),
{
    match trb_type {
        9 => Completion::AddressDevice,
        11 => Completion::InitDevice,
        12 => Completion::ConfigureEndpoint,
        _ => Completion::Ignore,
    }
}

} // verus!

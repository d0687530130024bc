//! Endpoint ids and the configuration of an endpoint from its descriptor.
use vstd::prelude::*;
use super::descriptor::EndpointDescriptor;
use super::device::DeviceContextIndex;

verus! {

/// An endpoint id: twice the endpoint number, plus one for the IN
/// direction.
#[derive(Clone, Copy, PartialEq, Eq, Structural)]
pub struct EndpointId(pub usize);

impl EndpointId {
    pub fn from_addr(addr: usize) -> (r: Self)
        ensures
            r.0 == addr,
    {
        Self(addr)
    }

    pub fn from_endpoint_num(ep_num: usize, dir_in: bool) -> (r: Self)
        requires
            2 * ep_num + 1 <= usize::MAX,
        ensures
            r.0 == 2 * ep_num + if dir_in { 1int } else { 0int },
    {
        Self(ep_num * 2 + dir_in as usize)
    }

    /// The default control endpoint: number 0, IN.
    pub fn default() -> (r: Self)
        ensures
            r.0 == 1,
    {
        EndpointId::from_endpoint_num(0, true)
    }

    /// Whether the id is odd, that is, of an IN endpoint.
    pub fn is_control_in(&self) -> (r: bool)
        ensures
            r == (self.0 % 2 == 1),
    {
        proof {
            let v = self.0;
            assert((v & 1usize == 1) == (v % 2 == 1)) by (bit_vector);
        }
        self.0 & 0b1 == 1
    }

    pub fn value(&self) -> (r: usize)
        ensures
            r == self.0,
    {
        self.0
    }
}

/// Endpoint types of an endpoint context.
#[derive(Clone, Copy, PartialEq, Eq, Structural)]
pub enum EndpointType {
    NotValid,
    IsochOut,
    BulkOut,
    InterruptOut,
    Control,
    IsochIn,
    BulkIn,
    InterruptIn,
}

/// The endpoint type a descriptor's transfer type field names; for the
/// interrupt type the direction decides.
pub open spec fn spec_endpoint_type(v: u8, dir_in: bool) -> EndpointType {
    if v == 0 {
        EndpointType::NotValid
    } else if v == 1 {
        EndpointType::IsochOut
    } else if v == 2 {
        EndpointType::BulkOut
    } else if v == 3 {
        if dir_in { EndpointType::InterruptIn } else { EndpointType::InterruptOut }
    } else if v == 4 {
        EndpointType::Control
    } else if v == 5 {
        EndpointType::IsochIn
    } else if v == 6 {
        EndpointType::BulkIn
    } else {
        EndpointType::NotValid
    }
}

fn to_endpoint_type(v: u8, dir_in: bool) -> (r: EndpointType)
    ensures
        r == spec_endpoint_type(v, dir_in),
{
    match v {
        0 => EndpointType::NotValid,
        1 => EndpointType::IsochOut,
        2 => EndpointType::BulkOut,
        3 => if dir_in { EndpointType::InterruptIn } else { EndpointType::InterruptOut },
        4 => EndpointType::Control,
        5 => EndpointType::IsochIn,
        6 => EndpointType::BulkIn,
        _ => EndpointType::NotValid,
    }
}

/// What an endpoint context is set up from.
#[derive(Clone, Copy, PartialEq, Eq, Structural)]
pub struct EndpointConfig {
    pub endpoint_id: EndpointId,
    pub endpoint_type: EndpointType,
    pub max_packet_size: u16,
    pub interval: u8,
}

impl EndpointConfig {
    pub open spec fn spec_new(e: EndpointDescriptor) -> EndpointConfig {
        EndpointConfig {
            endpoint_id: EndpointId((2 * e.endpoint_address.number + if e.endpoint_address.dir_in { 1int } else { 0int }) as usize),
            endpoint_type: spec_endpoint_type(e.attributes.transfer_type, e.endpoint_address.dir_in),
            max_packet_size: e.max_packet_size,
            interval: e.interval,
        }
    }

    /// The configuration a descriptor gives: the id from the endpoint number
    /// and direction, the type from the transfer type.
    pub fn new(endpoint: &EndpointDescriptor) -> (r: Self)
        ensures
            r == Self::spec_new(*endpoint),
    {
        let ep_num = endpoint.endpoint_address().number as usize;
        let dir_in = endpoint.endpoint_address().dir_in;
        let transfer_type = endpoint.attributes().transfer_type;
        Self {
            endpoint_id: EndpointId::from_endpoint_num(ep_num, dir_in),
            endpoint_type: to_endpoint_type(transfer_type, dir_in),
            max_packet_size: endpoint.max_packet_size(),
            interval: endpoint.interval(),
        }
    }

    pub fn endpoint_id(&self) -> (r: EndpointId)
        ensures
            r == self.endpoint_id,
    {
        self.endpoint_id
    }

    pub fn endpoint_type(&self) -> (r: EndpointType)
        ensures
            r == self.endpoint_type,
    {
        self.endpoint_type
    }

    pub fn max_packet_size(&self) -> (r: u16)
        ensures
            r == self.max_packet_size,
    {
        self.max_packet_size
    }

    pub fn interval(&self) -> (r: u8)
        ensures
            r == self.interval,
    {
        self.interval
    }

    /// The device context index of the endpoint: its id.
    pub fn device_context_index(&self) -> (r: DeviceContextIndex)
        ensures
            r.0 == self.endpoint_id.0,
    {
        DeviceContextIndex::from_endpoint(self.endpoint_id)
    }
}

} // verus!

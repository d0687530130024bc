//! USB descriptors as a device reports them, parsed from the bytes of a
//! GET_DESCRIPTOR answer, and the choice of the HID interfaces to drive.
use vstd::prelude::*;
use crate::bytes::le_u16;
use super::endpoint::EndpointConfig;

verus! {

pub const CONFIGURATION_DESCRIPTOR_TYPE: u8 = 2;
pub const INTERFACE_DESCRIPTOR_TYPE: u8 = 4;
pub const ENDPOINT_DESCRIPTOR_TYPE: u8 = 5;
pub const HID_DESCRIPTOR_TYPE: u8 = 33;

/// The byte at `i`, or 0 past the end of the buffer.
pub open spec fn byte_at(bytes: Seq<u8>, i: int) -> u8 {
    if 0 <= i < bytes.len() { bytes[i] } else { 0 }
}

/// The class drivers the kernel has.
#[derive(Clone, Copy, PartialEq, Eq, Structural)]
pub enum DriverType {
    Keyboard,
    Mouse,
    Unknown,
}

#[derive(Clone, Copy, PartialEq, Eq, Structural)]
pub struct ConfigurationDescriptor {
    pub length: u8,
    pub descriptor_type: u8,
    pub total_length: u16,
    pub num_interfaces: u8,
    pub configuration_value: u8,
    pub configuration_id: u8,
    pub attributes: u8,
    pub max_power: u8,
}

#[derive(Clone, Copy, PartialEq, Eq, Structural)]
pub struct DeviceDescriptor {
    pub length: u8,
    pub descriptor_type: u8,
    pub usb_release: u16,
    pub device_class: u8,
    pub device_sub_class: u8,
    pub device_protocol: u8,
    pub max_packet_size: u8,
    pub vendor_id: u16,
    pub product_id: u16,
    pub device_release: u16,
    pub manufacturer: u8,
    pub product: u8,
    pub serial_number: u8,
    pub num_configurations: u8,
}

/// An endpoint's number (bits 0..4) and direction (bit 7).
#[derive(Clone, Copy, PartialEq, Eq, Structural)]
pub struct EndpointAddress {
    pub number: u8,
    pub dir_in: bool,
}

/// An endpoint's transfer type (bits 0..2), synchronisation type (2..4) and
/// usage type (4..6).
#[derive(Clone, Copy, PartialEq, Eq, Structural)]
pub struct Attributes {
    pub transfer_type: u8,
    pub sync_type: u8,
    pub usage_type: u8,
}

#[derive(Clone, Copy, PartialEq, Eq, Structural)]
pub struct EndpointDescriptor {
    pub length: u8,
    pub descriptor_type: u8,
    pub endpoint_address: EndpointAddress,
    pub attributes: Attributes,
    pub max_packet_size: u16,
    pub interval: u8,
}

#[derive(Clone, Copy, PartialEq, Eq, Structural)]
pub struct ClassDescriptor {
    pub descriptor_type: u8,
    pub descriptor_length: u16,
}

#[derive(Clone, Copy, PartialEq, Eq, Structural)]
pub struct HidDescriptor {
    pub length: u8,
    pub descriptor_type: u8,
    pub hid_release: u16,
    pub country_code: u8,
    pub num_descriptors: u8,
    pub class_descriptor: ClassDescriptor,
}

#[derive(Clone, Copy, PartialEq, Eq, Structural)]
pub struct InterfaceDescriptor {
    pub length: u8,
    pub descriptor_type: u8,
    pub interface_number: u8,
    pub alternate_setting: u8,
    pub num_endpoints: u8,
    pub interface_class: u8,
    pub interface_sub_class: u8,
    pub interface_protocol: u8,
    pub interface_id: u8,
}

/// The 16-bit little-endian value at `i`, bytes past the end read as 0.
pub open spec fn word_at(b: Seq<u8>, i: int) -> u16 {
    (byte_at(b, i) + 256 * byte_at(b, i + 1)) as u16
}

pub open spec fn spec_configuration(b: Seq<u8>, i: int) -> ConfigurationDescriptor {
    ConfigurationDescriptor {
        length: byte_at(b, i),
        descriptor_type: byte_at(b, i + 1),
        total_length: word_at(b, i + 2),
        num_interfaces: byte_at(b, i + 4),
        configuration_value: byte_at(b, i + 5),
        configuration_id: byte_at(b, i + 6),
        attributes: byte_at(b, i + 7),
        max_power: byte_at(b, i + 8),
    }
}

pub open spec fn spec_interface(b: Seq<u8>, i: int) -> InterfaceDescriptor {
    InterfaceDescriptor {
        length: byte_at(b, i),
        descriptor_type: byte_at(b, i + 1),
        interface_number: byte_at(b, i + 2),
        alternate_setting: byte_at(b, i + 3),
        num_endpoints: byte_at(b, i + 4),
        interface_class: byte_at(b, i + 5),
        interface_sub_class: byte_at(b, i + 6),
        interface_protocol: byte_at(b, i + 7),
        interface_id: byte_at(b, i + 8),
    }
}

pub open spec fn spec_endpoint(b: Seq<u8>, i: int) -> EndpointDescriptor {
    let addr = byte_at(b, i + 2);
    let attr = byte_at(b, i + 3);
    EndpointDescriptor {
        length: byte_at(b, i),
        descriptor_type: byte_at(b, i + 1),
        endpoint_address: EndpointAddress { number: addr % 16, dir_in: addr >= 128 },
        attributes: Attributes { transfer_type: attr % 4, sync_type: (attr / 4) % 4, usage_type: (attr / 16) % 4 },
        max_packet_size: word_at(b, i + 4),
        interval: byte_at(b, i + 6),
    }
}

pub open spec fn spec_hid(b: Seq<u8>, i: int) -> HidDescriptor {
    HidDescriptor {
        length: byte_at(b, i),
        descriptor_type: byte_at(b, i + 1),
        hid_release: word_at(b, i + 2),
        country_code: byte_at(b, i + 4),
        num_descriptors: byte_at(b, i + 5),
        class_descriptor: ClassDescriptor { descriptor_type: byte_at(b, i + 6), descriptor_length: word_at(b, i + 7) },
    }
}

pub open spec fn spec_device(b: Seq<u8>, i: int) -> DeviceDescriptor {
    DeviceDescriptor {
        length: byte_at(b, i),
        descriptor_type: byte_at(b, i + 1),
        usb_release: word_at(b, i + 2),
        device_class: byte_at(b, i + 4),
        device_sub_class: byte_at(b, i + 5),
        device_protocol: byte_at(b, i + 6),
        max_packet_size: byte_at(b, i + 7),
        vendor_id: word_at(b, i + 8),
        product_id: word_at(b, i + 10),
        device_release: word_at(b, i + 12),
        manufacturer: byte_at(b, i + 14),
        product: byte_at(b, i + 15),
        serial_number: byte_at(b, i + 16),
        num_configurations: byte_at(b, i + 17),
    }
}

fn get_byte(b: &Vec<u8>, i: usize) -> (r: u8)
    ensures
        r == byte_at(b@, i as int),
{
    if i < b.len() { b[i] } else { 0 }
}

fn get_word(b: &Vec<u8>, i: usize) -> (r: u16)
    requires
        i + 1 <= usize::MAX,
    ensures
        r == word_at(b@, i as int),
{
    get_byte(b, i) as u16 + 256 * get_byte(b, i + 1) as u16
}

impl ConfigurationDescriptor {
    /// The descriptor at byte `i`.
    pub fn parse(b: &Vec<u8>, i: usize) -> (r: Self)
        requires
            i + 9 <= usize::MAX,
        ensures
            r == spec_configuration(b@, i as int),
    {
        ConfigurationDescriptor {
            length: get_byte(b, i),
            descriptor_type: get_byte(b, i + 1),
            total_length: get_word(b, i + 2),
            num_interfaces: get_byte(b, i + 4),
            configuration_value: get_byte(b, i + 5),
            configuration_id: get_byte(b, i + 6),
            attributes: get_byte(b, i + 7),
            max_power: get_byte(b, i + 8),
        }
    }
}

impl DeviceDescriptor {
    /// The descriptor at byte `i`.
    pub fn parse(b: &Vec<u8>, i: usize) -> (r: Self)
        requires
            i + 18 <= usize::MAX,
        ensures
            r == spec_device(b@, i as int),
    {
        DeviceDescriptor {
            length: get_byte(b, i),
            descriptor_type: get_byte(b, i + 1),
            usb_release: get_word(b, i + 2),
            device_class: get_byte(b, i + 4),
            device_sub_class: get_byte(b, i + 5),
            device_protocol: get_byte(b, i + 6),
            max_packet_size: get_byte(b, i + 7),
            vendor_id: get_word(b, i + 8),
            product_id: get_word(b, i + 10),
            device_release: get_word(b, i + 12),
            manufacturer: get_byte(b, i + 14),
            product: get_byte(b, i + 15),
            serial_number: get_byte(b, i + 16),
            num_configurations: get_byte(b, i + 17),
        }
    }
}

impl EndpointDescriptor {
    /// The descriptor at byte `i`.
    pub fn parse(b: &Vec<u8>, i: usize) -> (r: Self)
        requires
            i + 9 <= usize::MAX,
        ensures
            r == spec_endpoint(b@, i as int),
    {
        let addr = get_byte(b, i + 2);
        let attr = get_byte(b, i + 3);
        EndpointDescriptor {
            length: get_byte(b, i),
            descriptor_type: get_byte(b, i + 1),
            endpoint_address: EndpointAddress { number: addr % 16, dir_in: addr >= 128 },
            attributes: Attributes { transfer_type: attr % 4, sync_type: (attr / 4) % 4, usage_type: (attr / 16) % 4 },
            max_packet_size: get_word(b, i + 4),
            interval: get_byte(b, i + 6),
        }
    }

    pub fn endpoint_address(&self) -> (r: EndpointAddress)
        ensures
            r == self.endpoint_address,
    {
        self.endpoint_address
    }

    pub fn attributes(&self) -> (r: Attributes)
        ensures
            r == self.attributes,
    {
        self.attributes
    }

    pub fn max_packet_size(&self) -> (r: u16)
        ensures
            r == self.max_packet_size,
    {
        self.max_packet_size
    }

    pub fn interval(&self) -> (r: u8)
        ensures
            r == self.interval,
    {
        self.interval
    }
}

impl HidDescriptor {
    /// The descriptor at byte `i`.
    pub fn parse(b: &Vec<u8>, i: usize) -> (r: Self)
        requires
            i + 9 <= usize::MAX,
        ensures
            r == spec_hid(b@, i as int),
    {
        HidDescriptor {
            length: get_byte(b, i),
            descriptor_type: get_byte(b, i + 1),
            hid_release: get_word(b, i + 2),
            country_code: get_byte(b, i + 4),
            num_descriptors: get_byte(b, i + 5),
            class_descriptor: ClassDescriptor { descriptor_type: get_byte(b, i + 6), descriptor_length: get_word(b, i + 7) },
        }
    }
}

/// The driver for an interface: HID class (3), boot subclass (1), protocol 1
/// for a keyboard and 2 for a mouse.
pub open spec fn spec_driver_type(i: InterfaceDescriptor) -> DriverType {
    if i.interface_class == 3 && i.interface_sub_class == 1 && i.interface_protocol == 1 {
        DriverType::Keyboard
    } else if i.interface_class == 3 && i.interface_sub_class == 1 && i.interface_protocol == 2 {
        DriverType::Mouse
    } else {
        DriverType::Unknown
    }
}

impl InterfaceDescriptor {
    /// The descriptor at byte `i`.
    pub fn parse(b: &Vec<u8>, i: usize) -> (r: Self)
        requires
            i + 9 <= usize::MAX,
        ensures
            r == spec_interface(b@, i as int),
    {
        InterfaceDescriptor {
            length: get_byte(b, i),
            descriptor_type: get_byte(b, i + 1),
            interface_number: get_byte(b, i + 2),
            alternate_setting: get_byte(b, i + 3),
            num_endpoints: get_byte(b, i + 4),
            interface_class: get_byte(b, i + 5),
            interface_sub_class: get_byte(b, i + 6),
            interface_protocol: get_byte(b, i + 7),
            interface_id: get_byte(b, i + 8),
        }
    }

    pub fn is_mouse(&self) -> (r: bool)
        ensures
            r == (self.interface_class == 3 && self.interface_sub_class == 1 && self.interface_protocol == 2),
    {
        self.interface_class == 3 && self.interface_sub_class == 1 && self.interface_protocol == 2
    }

    pub fn is_keyboard(&self) -> (r: bool)
        ensures
            r == (self.interface_class == 3 && self.interface_sub_class == 1 && self.interface_protocol == 1),
    {
        self.interface_class == 3 && self.interface_sub_class == 1 && self.interface_protocol == 1
    }

    pub fn driver_type(&self) -> (r: DriverType)
        ensures
            r == spec_driver_type(*self),
    {
        if self.interface_class == 3 && self.interface_sub_class == 1 && self.interface_protocol == 1 {
            DriverType::Keyboard
        } else if self.interface_class == 3 && self.interface_sub_class == 1 && self.interface_protocol == 2 {
            DriverType::Mouse
        } else {
            DriverType::Unknown
        }
    }
}

/// A descriptor of a configuration answer.
#[derive(Clone, Copy, PartialEq, Eq, Structural)]
pub enum Descriptor {
    Configuration(ConfigurationDescriptor),
    Interface(InterfaceDescriptor),
    Endpoint(EndpointDescriptor),
    Hid(HidDescriptor),
    NotSupport,
}

impl Descriptor {
    pub fn interface(&self) -> (r: Option<InterfaceDescriptor>)
        ensures
            r == (match *self {
                Descriptor::Interface(i) => Some(i),
                _ => None,
            }),
    {
        match self {
            Descriptor::Interface(i) => Some(*i),
            _ => None,
        }
    }
}

/// The descriptor at byte `i` and the bytes it spans: the size of the
/// structure its type names, or 0 for a type the kernel does not read.
pub open spec fn descriptor_at(b: Seq<u8>, i: int) -> (int, Descriptor) {
    let ty = byte_at(b, i + 1);
    if ty == CONFIGURATION_DESCRIPTOR_TYPE {
        (9, Descriptor::Configuration(spec_configuration(b, i)))
    } else if ty == INTERFACE_DESCRIPTOR_TYPE {
        (9, Descriptor::Interface(spec_interface(b, i)))
    } else if ty == ENDPOINT_DESCRIPTOR_TYPE {
        (7, Descriptor::Endpoint(spec_endpoint(b, i)))
    } else if ty == HID_DESCRIPTOR_TYPE {
        (9, Descriptor::Hid(spec_hid(b, i)))
    } else {
        (0, Descriptor::NotSupport)
    }
}

/// Walks the descriptors of the first `len` bytes of a buffer.
pub struct DescriptorIterator {
    pub bytes: Vec<u8>,
    pub index: usize,
    pub len: usize,
}

impl DescriptorIterator {
    pub fn new(bytes: Vec<u8>, len: usize) -> (r: Self)
        ensures
            r.bytes@ == bytes@,
            r.index == 0,
            r.len == len,
    {
        Self { bytes, index: 0, len }
    }

    /// The descriptor at the current position, moving past it; `None` at the
    /// end. A descriptor of a type the kernel does not read is reported as
    /// `NotSupport` and not stepped over.
    pub fn next(&mut self) -> (r: Option<Descriptor>)
        requires
            old(self).len + 18 <= usize::MAX,
        ensures
            final(self).bytes@ == old(self).bytes@,
            final(self).len == old(self).len,
            old(self).len <= old(self).index ==> r is None && final(self).index == old(self).index,
            old(self).len > old(self).index ==> ({
                let (size, d) = descriptor_at(old(self).bytes@, old(self).index as int);
                r == Some(d) && final(self).index == old(self).index + size
            }),
    {
        if self.len <= self.index {
            return None;
        }
        let i = self.index;
        let ty = get_byte(&self.bytes, i + 1);
        let (size, descriptor): (usize, Descriptor) = if ty == CONFIGURATION_DESCRIPTOR_TYPE {
            (9, Descriptor::Configuration(ConfigurationDescriptor::parse(&self.bytes, i)))
        } else if ty == INTERFACE_DESCRIPTOR_TYPE {
            (9, Descriptor::Interface(InterfaceDescriptor::parse(&self.bytes, i)))
        } else if ty == ENDPOINT_DESCRIPTOR_TYPE {
            (7, Descriptor::Endpoint(EndpointDescriptor::parse(&self.bytes, i)))
        } else if ty == HID_DESCRIPTOR_TYPE {
            (9, Descriptor::Hid(HidDescriptor::parse(&self.bytes, i)))
        } else {
            (0, Descriptor::NotSupport)
        };
        self.index = self.index + size;
        Some(descriptor)
    }
}

/// Every descriptor from byte `i` on, up to `len`, has a type the kernel
/// reads, so that the walk ends.
pub open spec fn all_known(b: Seq<u8>, i: int, len: int) -> bool
    decreases if i < len { len - i } else { 0 },
{
    if i >= len {
        true
    } else {
        let (size, d) = descriptor_at(b, i);
        size > 0 && all_known(b, i + size, len)
    }
}

/// The descriptors from byte `i` on, up to `len`.
pub open spec fn descriptors_from(b: Seq<u8>, i: int, len: int) -> Seq<Descriptor>
    decreases if i < len { len - i } else { 0 },
{
    if i >= len {
        Seq::empty()
    } else {
        let (size, d) = descriptor_at(b, i);
        if size > 0 { seq![d] + descriptors_from(b, i + size, len) } else { seq![d] }
    }
}

/// All the descriptors of the first `len` bytes.
pub fn collect_descriptors(bytes: Vec<u8>, len: usize) -> (r: Vec<Descriptor>)
    requires
        len + 18 <= usize::MAX,
        all_known(bytes@, 0, len as int),
    ensures
        r@ == descriptors_from(bytes@, 0, len as int),
{
    let ghost b = bytes@;
    let mut it = DescriptorIterator::new(bytes, len);
    let mut r: Vec<Descriptor> = Vec::new();
    loop
        invariant
            it.bytes@ == b,
            b == bytes@,
            it.len == len,
            len + 18 <= usize::MAX,
            all_known(b, it.index as int, len as int),
            r@ + descriptors_from(b, it.index as int, len as int) == descriptors_from(b, 0, len as int),
        decreases len - it.index,
    {
        let ghost before = it.index;
        match it.next() {
            Some(d) => {
                proof {
                    let (size, dd) = descriptor_at(b, before as int);
                    assert(seq![d] + descriptors_from(b, it.index as int, len as int) == descriptors_from(b, before as int, len as int));
                    assert(r@.push(d) + descriptors_from(b, it.index as int, len as int)
                        =~= r@ + (seq![d] + descriptors_from(b, it.index as int, len as int)));
                }
                r.push(d);
                if it.index >= len {
                    proof {
                        assert(r@ =~= r@ + descriptors_from(b, it.index as int, len as int));
                    }
                    return r;
                }
            },
            None => {
                proof {
                    assert(it.index >= len);
                    assert(descriptors_from(b, it.index as int, len as int) =~= Seq::<Descriptor>::empty());
                    assert(r@ =~= r@ + descriptors_from(b, it.index as int, len as int));
                }
                return r;
            },
        }
    }
}

/// An interface the kernel drives and its endpoint.
#[derive(Clone, Copy, PartialEq, Eq, Structural)]
pub struct HidDeviceDescriptors {
    pub interface: InterfaceDescriptor,
    pub endpoint: EndpointDescriptor,
}

impl HidDeviceDescriptors {
    pub fn new(interface: InterfaceDescriptor, endpoint: EndpointDescriptor) -> (r: Self)
        ensures
            r.interface == interface,
            r.endpoint == endpoint,
    {
        Self { interface, endpoint }
    }

    /// The first driver, among drivers of the given types, for this
    /// interface.
    pub fn class_driver(&self, drivers: &Vec<DriverType>) -> (r: Option<usize>)
        ensures
            match r {
                Some(k) => k < drivers@.len() && drivers@[k as int] == spec_driver_type(self.interface)
                    && forall|j: int| 0 <= j < k ==> drivers@[j] != spec_driver_type(self.interface),
                None => forall|j: int| 0 <= j < drivers@.len() ==> drivers@[j] != spec_driver_type(self.interface),
            },
    {
        let driver_type = self.interface.driver_type();
        let mut k: usize = 0;
        while k < drivers.len()
            invariant
                k <= drivers@.len(),
                driver_type == spec_driver_type(self.interface),
                forall|j: int| 0 <= j < k ==> drivers@[j] != driver_type,
            decreases drivers@.len() - k,
        {
            if drivers[k] == driver_type {
                return Some(k);
            }
            k = k + 1;
        }
        None
    }

    pub fn interface(&self) -> (r: InterfaceDescriptor)
        ensures
            r == self.interface,
    {
        self.interface
    }

    pub fn endpoint_config(&self) -> (r: EndpointConfig)
        ensures
            r == EndpointConfig::spec_new(self.endpoint),
    {
        EndpointConfig::new(&self.endpoint)
    }
}

/// The first endpoint descriptor at or after position `k`.
pub open spec fn first_endpoint_from(ds: Seq<Descriptor>, k: int) -> Option<EndpointDescriptor>
    decreases ds.len() - k,
{
    if k >= ds.len() || k < 0 {
        None
    } else {
        match ds[k] {
            Descriptor::Endpoint(e) => Some(e),
            _ => first_endpoint_from(ds, k + 1),
        }
    }
}

/// The interfaces among the first `n` descriptors that a driver type
/// matches and that have an endpoint descriptor past the descriptor right
/// after them, each with the first such endpoint.
pub open spec fn hid_list(ds: Seq<Descriptor>, n: int) -> Seq<HidDeviceDescriptors>
    decreases n,
{
    if n <= 0 {
        Seq::empty()
    } else {
        let rest = hid_list(ds, n - 1);
        match ds[n - 1] {
            Descriptor::Interface(i) =>
                if spec_driver_type(i) != DriverType::Unknown && first_endpoint_from(ds, n + 1) is Some {
                    rest.push(HidDeviceDescriptors { interface: i, endpoint: first_endpoint_from(ds, n + 1).unwrap() })
                } else {
                    rest
                },
            _ => rest,
        }
    }
}

fn find_endpoint(descriptors: &Vec<Descriptor>, from: usize) -> (r: Option<EndpointDescriptor>)
    ensures
        r == first_endpoint_from(descriptors@, from as int),
    decreases descriptors@.len() - from,
{
    if from >= descriptors.len() {
        return None;
    }
    match descriptors[from] {
        Descriptor::Endpoint(e) => Some(e),
        _ => find_endpoint(descriptors, from + 1),
    }
}

/// The interfaces the kernel can drive, each with its endpoint: an interface
/// of a known driver type, and the first endpoint descriptor after the
/// descriptor that follows it.
pub fn hid_device_descriptors(descriptors: &Vec<Descriptor>) -> (r: Vec<HidDeviceDescriptors>)
    ensures
        r@ == hid_list(descriptors@, descriptors@.len() as int),
{
    let mut r: Vec<HidDeviceDescriptors> = Vec::new();
    let mut index: usize = 0;
    while index < descriptors.len()
        invariant
            index <= descriptors@.len(),
            r@ == hid_list(descriptors@, index as int),
        decreases descriptors@.len() - index,
    {
        if let Some(interface) = descriptors[index].interface() {
            if interface.driver_type() != DriverType::Unknown {
                if index + 1 < descriptors.len() {
                    if let Some(endpoint) = find_endpoint(descriptors, index + 2) {
                        r.push(HidDeviceDescriptors::new(interface, endpoint));
                    }
                }
            }
        }
        index = index + 1;
    }
    r
}

} // verus!

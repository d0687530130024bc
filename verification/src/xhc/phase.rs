//! The steps that bring a device from addressed to configured: read the
//! configuration descriptor, choose the HID interfaces and set the
//! configuration, enable their endpoints, then start their transfers.
use vstd::prelude::*;
use super::descriptor::{
    all_known, collect_descriptors, descriptors_from, hid_device_descriptors, hid_list, spec_configuration,
    spec_driver_type, ConfigurationDescriptor, DriverType, HidDeviceDescriptors,
};
use super::driver::InterruptIn;
use super::endpoint::EndpointConfig;
use super::pipe::{Request, RequestType, SetupPacket, TransferKind, TRB_LENGTH_LIMIT};
use super::ring::{lo32, hi32, push_spec, writes_view, Doorbell, TransferRing, TrbWrite};
use crate::util::copy_vec;

verus! {

/// Bytes of a device's data buffer.
pub const DATA_BUFF_SIZE: usize = 256;

/// The descriptor type of a configuration descriptor, as a request value.
pub const CONFIGURATION_TYPE: u16 = 2;

/// Whether a step left the device ready for its drivers.
#[derive(Clone, Copy, PartialEq, Eq, Structural)]
pub struct InitState(pub bool);

impl InitState {
    pub fn new(is_initialized: bool) -> (r: Self)
        ensures
            r.0 == is_initialized,
    {
        Self(is_initialized)
    }

    pub fn initialized() -> (r: Self)
        ensures
            r.0,
    {
        Self::new(true)
    }

    pub fn not_initialized() -> (r: Self)
        ensures
            !r.0,
    {
        Self::new(false)
    }

    pub fn is_initialized(&self) -> (r: bool)
        ensures
            r == self.0,
    {
        self.0
    }
}

/// The first step: ask for the configuration descriptor, as many bytes as
/// the data buffer holds.
pub fn configuration_request(data_buff_len: usize) -> (r: Request)
    requires
        data_buff_len <= u16::MAX,
    ensures
        r == Request::GetDescriptor(SetupPacket {
            request_type: 128,
            request: 6,
            value: 512,
            index: 0,
            length: data_buff_len as u16,
            interrupt_on_completion: false,
            transfer_type: TransferKind::No,
        }),
{
    proof {
        assert((2u16 << 8u16) | 0u16 == 512u16) by (bit_vector);
    }
    Request::get_descriptor(CONFIGURATION_TYPE, 0, data_buff_len as u16)
}

/// The second step, from the configuration answer: the configuration value
/// to set and the interfaces to drive.
pub fn configuration_plan(bytes: Vec<u8>, len: usize) -> (r: (u8, Vec<HidDeviceDescriptors>))
    requires
        len + 18 <= usize::MAX,
        all_known(bytes@, 0, len as int),
    ensures
        r.0 == spec_configuration(bytes@, 0).configuration_value,
        r.1@ == hid_list(descriptors_from(bytes@, 0, len as int), descriptors_from(bytes@, 0, len as int).len() as int),
{
    let conf_desc = ConfigurationDescriptor::parse(&bytes, 0);
    let descriptors = collect_descriptors(bytes, len);
    let hid = hid_device_descriptors(&descriptors);
    (conf_desc.configuration_value, hid)
}

/// The first driver among the first `n` of the given types.
pub open spec fn first_driver(drivers: Seq<DriverType>, t: DriverType, n: int) -> Option<int>
    decreases n,
{
    if n <= 0 {
        None
    } else {
        match first_driver(drivers, t, n - 1) {
            Some(k) => Some(k),
            None => if drivers[n - 1] == t { Some(n - 1) } else { None },
        }
    }
}

/// `first_driver` is the first position holding the type, or none.
proof fn lemma_first_driver(drivers: Seq<DriverType>, t: DriverType, n: int)
    requires
        0 <= n <= drivers.len(),
    ensures
        match first_driver(drivers, t, n) {
            Some(k) => 0 <= k < n && drivers[k] == t && forall|j: int| 0 <= j < k ==> drivers[j] != t,
            None => forall|j: int| 0 <= j < n ==> drivers[j] != t,
        },
    decreases n,
{
    if n > 0 {
        lemma_first_driver(drivers, t, n - 1);
    }
}

/// The interfaces among the first `n` that a driver serves, in order, each
/// with the position of its driver.
pub open spec fn driver_plan_spec(hids: Seq<HidDeviceDescriptors>, drivers: Seq<DriverType>, n: int) -> Seq<(usize, usize)>
    decreases n,
{
    if n <= 0 {
        Seq::empty()
    } else {
        let prev = driver_plan_spec(hids, drivers, n - 1);
        match first_driver(drivers, spec_driver_type(hids[n - 1].interface), drivers.len() as int) {
            Some(k) => prev.push(((n - 1) as usize, k as usize)),
            None => prev,
        }
    }
}

/// The first phase of configuring a device, once its device descriptor has
/// been read.
pub struct Phase1 {
    pub drivers: Vec<DriverType>,
}

/// The second phase: the configuration descriptor has been asked for.
pub struct Phase2 {
    pub drivers: Vec<DriverType>,
}

/// The third phase: the configuration is set and the interfaces to drive
/// are known.
pub struct Phase3 {
    pub drivers: Vec<DriverType>,
    pub hid_device_descriptor_vec: Vec<HidDeviceDescriptors>,
}

impl Phase1 {
    pub fn new(drivers: Vec<DriverType>) -> (r: Self)
        ensures
            r.drivers@ == drivers@,
    {
        Phase1 { drivers }
    }

    /// Asks for the configuration descriptor, as many bytes as the data
    /// buffer holds; the device is not ready yet and the second phase
    /// follows.
    pub fn on_transfer_event_received(&self, data_buff_len: usize) -> (r: (InitState, Request, Phase2))
        requires
            data_buff_len <= u16::MAX,
        ensures
            !r.0.0,
            r.1 == Request::GetDescriptor(SetupPacket {
                request_type: 128,
                request: 6,
                value: 512,
                index: 0,
                length: data_buff_len as u16,
                interrupt_on_completion: false,
                transfer_type: TransferKind::No,
            }),
            r.2.drivers@ == self.drivers@,
    {
        let request = configuration_request(data_buff_len);
        (InitState::not_initialized(), request, Phase2 { drivers: copy_vec(&self.drivers) })
    }
}

impl Phase2 {
    /// From the configuration answer, `requested` bytes asked of which
    /// `remaining` did not come: the configuration value, its
    /// SET_CONFIGURATION request, and the third phase with the interfaces to
    /// drive. The device is not ready yet.
    pub fn on_transfer_event_received(&self, bytes: Vec<u8>, requested: u32, remaining: u32) -> (r: (InitState, u8, Request, Phase3))
        requires
            remaining <= requested,
            requested - remaining + 18 <= usize::MAX,
            all_known(bytes@, 0, requested - remaining),
        ensures
            ({
                let len = requested - remaining;
                let ds = descriptors_from(bytes@, 0, len);
                &&& !r.0.0
                &&& r.1 == spec_configuration(bytes@, 0).configuration_value
                &&& r.2 == Request::Configuration(SetupPacket {
                    request_type: 0,
                    request: 9,
                    value: r.1 as u16,
                    index: 0,
                    length: 0,
                    interrupt_on_completion: false,
                    transfer_type: TransferKind::No,
                })
                &&& r.3.drivers@ == self.drivers@
                &&& r.3.hid_device_descriptor_vec@ == hid_list(ds, ds.len() as int)
            }),
    {
        let len = (requested - remaining) as usize;
        let (config_value, hids) = configuration_plan(bytes, len);
        let request = Request::configuration(config_value as u16);
        (InitState::not_initialized(), config_value, request, Phase3 { drivers: copy_vec(&self.drivers), hid_device_descriptor_vec: hids })
    }
}

impl Phase3 {
    /// The interfaces a driver serves, each with the position of its first
    /// driver, in order.
    pub fn driver_plan(&self) -> (r: Vec<(usize, usize)>)
        ensures
            r@ == driver_plan_spec(self.hid_device_descriptor_vec@, self.drivers@, self.hid_device_descriptor_vec@.len() as int),
    {
        let hids = &self.hid_device_descriptor_vec;
        let mut plan: Vec<(usize, usize)> = Vec::new();
        let mut i: usize = 0;
        while i < hids.len()
            invariant
                i <= hids@.len(),
                plan@ == driver_plan_spec(hids@, self.drivers@, i as int),
            decreases hids@.len() - i,
        {
            let found = hids[i].class_driver(&self.drivers);
            proof {
                lemma_first_driver(self.drivers@, spec_driver_type(hids@[i as int].interface), self.drivers@.len() as int);
            }
            match found {
                Some(k) => {
                    proof {
                        let t = spec_driver_type(hids@[i as int].interface);
                        let f = first_driver(self.drivers@, t, self.drivers@.len() as int);
                        if f != Some(k as int) {
                            if let Some(k2) = f {
                                assert(k2 < k || k < k2);
                            }
                        }
                    }
                    plan.push((i, k));
                },
                None => {},
            }
            i = i + 1;
        }
        plan
    }
}

/// The interrupt IN endpoints of the first `n` planned interfaces whose
/// transfer ring could be had: each with its interface's endpoint, the ring,
/// and its driver's data buffer.
pub open spec fn interrupter_list(slot_id: u8, hids: Seq<HidDeviceDescriptors>, plan: Seq<(usize, usize)>,
    rings: Seq<Option<TransferRing>>, buffers: Seq<(u64, u32)>, n: int) -> Seq<InterruptIn>
    decreases n,
{
    if n <= 0 {
        Seq::empty()
    } else {
        let prev = interrupter_list(slot_id, hids, plan, rings, buffers, n - 1);
        match rings[n - 1] {
            Some(ring) => {
                let hid = hids[plan[n - 1].0 as int];
                let buffer = buffers[plan[n - 1].1 as int];
                prev.push(InterruptIn {
                    slot_id,
                    endpoint_config: EndpointConfig::spec_new(hid.endpoint),
                    transfer_ring: ring,
                    interface: hid.interface,
                    data_buff_addr: buffer.0,
                    data_buff_len: buffer.1,
                })
            },
            None => prev,
        }
    }
}

impl Phase3 {
    /// The interrupt IN endpoints of the planned interfaces whose transfer
    /// ring could be had (`rings` holds what each allocation gave), each
    /// with its driver's data buffer.
    pub fn interrupters(&self, slot_id: u8, plan: &Vec<(usize, usize)>, rings: &Vec<Option<TransferRing>>,
        buffers: &Vec<(u64, u32)>) -> (r: Vec<InterruptIn>)
        requires
            rings@.len() == plan@.len(),
            forall|i: int| 0 <= i < plan@.len() ==> (#[trigger] plan@[i]).0 < self.hid_device_descriptor_vec@.len()
                && plan@[i].1 < buffers@.len(),
        ensures
            r@ == interrupter_list(slot_id, self.hid_device_descriptor_vec@, plan@, rings@, buffers@, plan@.len() as int),
    {
        let mut r: Vec<InterruptIn> = Vec::new();
        let mut i: usize = 0;
        while i < plan.len()
            invariant
                i <= plan@.len(),
                rings@.len() == plan@.len(),
                forall|j: int| 0 <= j < plan@.len() ==> (#[trigger] plan@[j]).0 < self.hid_device_descriptor_vec@.len()
                    && plan@[j].1 < buffers@.len(),
                r@ == interrupter_list(slot_id, self.hid_device_descriptor_vec@, plan@, rings@, buffers@, i as int),
            decreases plan@.len() - i,
        {
            let (h, d) = plan[i];
            match rings[i] {
                Some(ring) => {
                    let hid = self.hid_device_descriptor_vec[h];
                    let (addr, len) = buffers[d];
                    let config = hid.endpoint_config();
                    r.push(InterruptIn::new(slot_id, &config, ring, hid.interface(), addr, len));
                },
                None => {},
            }
            i = i + 1;
        }
        r
    }

    /// The device is ready: each endpoint to enable in the input context,
    /// by its device context index, with its configuration and its ring;
    /// the fourth phase follows with the endpoints.
    pub fn on_transfer_event_received(&self, interrupters: Vec<InterruptIn>) -> (r: (InitState, Vec<(usize, EndpointConfig, u64)>, Phase4))
        requires
            forall|i: int| 0 <= i < interrupters@.len() ==> (#[trigger] interrupters@[i]).wf(),
        ensures
            r.0.0,
            r.1@.len() == interrupters@.len(),
            forall|i: int| 0 <= i < interrupters@.len() ==> #[trigger] r.1@[i] == (
                interrupters@[i].endpoint_config.endpoint_id.0,
                interrupters@[i].endpoint_config,
                interrupters@[i].transfer_ring.ring_base_addr,
            ),
            r.2.interrupters@ == interrupters@,
            r.2.wf(),
    {
        let mut enables: Vec<(usize, EndpointConfig, u64)> = Vec::new();
        let mut i: usize = 0;
        while i < interrupters.len()
            invariant
                i <= interrupters@.len(),
                enables@.len() == i,
                forall|j: int| 0 <= j < i ==> #[trigger] enables@[j] == (
                    interrupters@[j].endpoint_config.endpoint_id.0,
                    interrupters@[j].endpoint_config,
                    interrupters@[j].transfer_ring.ring_base_addr,
                ),
            decreases interrupters@.len() - i,
        {
            let config = interrupters[i].endpoint_config();
            let dci = super::device::DeviceContextIndex::from_endpoint(config.endpoint_id());
            enables.push((dci.value(), config, interrupters[i].transfer_ring_addr()));
            i = i + 1;
        }
        (InitState::initialized(), enables, Phase4 { interrupters })
    }
}

/// The fourth phase: the endpoints are configured and report through their
/// rings.
pub struct Phase4 {
    pub interrupters: Vec<InterruptIn>,
}

/// The TRB an interrupt IN endpoint queues for its next report.
pub open spec fn report_trb(i: InterruptIn) -> Seq<u32> {
    seq![lo32(i.data_buff_addr), hi32(i.data_buff_addr), i.data_buff_len, (1 * 1024 + 4 + 32) as u32]
}

impl Phase4 {
    pub open spec fn wf(&self) -> bool {
        forall|i: int| 0 <= i < self.interrupters@.len() ==> (#[trigger] self.interrupters@[i]).wf()
    }

    /// Each endpoint queues a Normal TRB for its next report: the TRBs to
    /// store and the doorbell to ring, endpoint by endpoint. The device stays
    /// in this phase.
    pub fn on_transfer_event_received(&mut self) -> (r: Vec<(Vec<TrbWrite>, Doorbell)>)
        requires
            old(self).wf(),
        ensures
            final(self).wf(),
            final(self).interrupters@.len() == old(self).interrupters@.len(),
            r@.len() == old(self).interrupters@.len(),
            forall|i: int| 0 <= i < r@.len() ==> {
                let before = #[trigger] old(self).interrupters@[i];
                let after = final(self).interrupters@[i];
                &&& (after.transfer_ring, writes_view(r@[i].0@)) == push_spec(before.transfer_ring, report_trb(before))
                &&& r@[i].1 == (Doorbell { slot: before.slot_id as usize, target: (before.endpoint_config.endpoint_id.0 % 256) as u8, stream: 0 })
                &&& after.slot_id == before.slot_id
                &&& after.endpoint_config == before.endpoint_config
                &&& after.interface == before.interface
                &&& after.data_buff_addr == before.data_buff_addr
                &&& after.data_buff_len == before.data_buff_len
            },
    {
        let ghost before = self.interrupters@;
        let mut r: Vec<(Vec<TrbWrite>, Doorbell)> = Vec::new();
        let mut i: usize = 0;
        while i < self.interrupters.len()
            invariant
                i <= self.interrupters@.len(),
                self.interrupters@.len() == before.len(),
                before == old(self).interrupters@,
                r@.len() == i,
                forall|j: int| 0 <= j < self.interrupters@.len() ==> (#[trigger] self.interrupters@[j]).wf(),
                forall|j: int| i <= j < self.interrupters@.len() ==> #[trigger] self.interrupters@[j] == before[j],
                forall|j: int| 0 <= j < i ==> {
                    let b = #[trigger] before[j];
                    let a = self.interrupters@[j];
                    &&& (a.transfer_ring, writes_view(r@[j].0@)) == push_spec(b.transfer_ring, report_trb(b))
                    &&& r@[j].1 == (Doorbell { slot: b.slot_id as usize, target: (b.endpoint_config.endpoint_id.0 % 256) as u8, stream: 0 })
                    &&& a.slot_id == b.slot_id
                    &&& a.endpoint_config == b.endpoint_config
                    &&& a.interface == b.interface
                    &&& a.data_buff_addr == b.data_buff_addr
                    &&& a.data_buff_len == b.data_buff_len
                },
            decreases before.len() - i,
        {
            let ghost current = self.interrupters@;
            let ghost r_before = r@;
            let mut interrupter = self.interrupters.remove(i);
            let step = interrupter.interrupt_in();
            self.interrupters.insert(i, interrupter);
            r.push(step);
            proof {
                assert(self.interrupters@ =~= current.update(i as int, interrupter));
                assert forall|j: int| 0 <= j < i implies #[trigger] r@[j] == r_before[j] by {}
            }
            i = i + 1;
        }
        r
    }

    /// The interface number of each endpoint's interface.
    pub fn interface_nums(&self) -> (r: Vec<u8>)
        ensures
            r@.len() == self.interrupters@.len(),
            forall|i: int| 0 <= i < r@.len() ==> r@[i] == (#[trigger] self.interrupters@[i]).interface.interface_id,
    {
        let mut r: Vec<u8> = Vec::new();
        let mut i: usize = 0;
        while i < self.interrupters.len()
            invariant
                i <= self.interrupters@.len(),
                r@.len() == i,
                forall|j: int| 0 <= j < i ==> r@[j] == (#[trigger] self.interrupters@[j]).interface.interface_id,
            decreases self.interrupters@.len() - i,
        {
            r.push(self.interrupters[i].interface_ref().interface_id);
            i = i + 1;
        }
        r
    }
}

/// Once the endpoints are configured: a SET_PROTOCOL request, class type to
/// the interface, for each interface number.
pub fn protocol_requests(interface_nums: &Vec<u8>) -> (r: Vec<Request>)
    ensures
        r@.len() == interface_nums@.len(),
        forall|i: int| 0 <= i < r@.len() ==> r@[i] == Request::SetProtocol(SetupPacket {
            request_type: 33,
            request: 11,
            value: 0,
            index: #[trigger] interface_nums@[i] as u16,
            length: 0,
            interrupt_on_completion: true,
            transfer_type: TransferKind::No,
        }),
{
    let mut r: Vec<Request> = Vec::new();
    let mut i: usize = 0;
    while i < interface_nums.len()
        invariant
            i <= interface_nums@.len(),
            r@.len() == i,
            forall|j: int| 0 <= j < i ==> r@[j] == Request::SetProtocol(SetupPacket {
                request_type: 33,
                request: 11,
                value: 0,
                index: #[trigger] interface_nums@[j] as u16,
                length: 0,
                interrupt_on_completion: true,
                transfer_type: TransferKind::No,
            }),
        decreases interface_nums@.len() - i,
    {
        let request_type = RequestType::new().with_ty(1).with_recipient(1);
        r.push(Request::set_protocol(request_type, interface_nums[i] as u16));
        i = i + 1;
    }
    r
}

} // verus!

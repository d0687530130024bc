//! Device context indices and what identifies a device being addressed.
use vstd::prelude::*;
use super::allocator::{alloc_start, alignment_ok, align_up, XhcAllocator};
use super::context::{configure_endpoints, configured_endpoints, enable_ok, enabled_flags, new_device_input_context,
    DeviceContext, EndpointContext, InputContext, SlotContext, default_control_context, NUM_OF_ENDPOINT_CONTEXTS};
use super::descriptor::{all_known, descriptors_from, hid_list, spec_configuration, DriverType};
use super::driver::InterruptIn;
use super::endpoint::EndpointId;
use super::phase::{protocol_requests, InitState, Phase1, Phase2, Phase3, Phase4, DATA_BUFF_SIZE};
use super::pipe::{ControlPipe, ControlPipeTransfer, Request, TRB_LENGTH_LIMIT};
use super::ring::{Doorbell, TransferRing, TrbWrite, TRB_SIZE};

verus! {

/// An index into a device context: 1 for the default control endpoint, the
/// endpoint id for the others.
#[derive(Clone, Copy, PartialEq, Eq, Structural)]
pub struct DeviceContextIndex(pub usize);

impl DeviceContextIndex {
    /// The index of the default control endpoint.
    pub fn default() -> (r: Self)
        ensures
            r.0 == 1,
    {
        Self(1)
    }

    pub fn from_endpoint(endpoint_id: EndpointId) -> (r: Self)
        ensures
            r.0 == endpoint_id.0,
    {
        Self(endpoint_id.value())
    }

    pub fn from_dci(dci: usize) -> (r: Self)
        ensures
            r.0 == dci,
    {
        Self(dci)
    }

    /// The index of endpoint `endpoint_num`: twice the number, plus one for
    /// endpoint 0 or an IN endpoint.
    pub fn new(endpoint_num: usize, is_control_in: bool) -> (r: Self)
        requires
            2 * endpoint_num + 1 <= usize::MAX,
        ensures
            r.0 == 2 * endpoint_num + if endpoint_num == 0 || is_control_in { 1int } else { 0int },
    {
        Self(2 * endpoint_num + (endpoint_num == 0 || is_control_in) as usize)
    }

    pub fn value(&self) -> (r: usize)
        ensures
            r == self.0,
    {
        self.0
    }

    /// The index as a byte, truncated.
    pub fn as_u8(&self) -> (r: u8)
        ensures
            r == self.0 % 256,
    {
        proof {
            let v = self.0;
            assert(v as u8 == v % 256) by (bit_vector);
        }
        self.0 as u8
    }
}

/// The port a device hangs off and its speed, with the slot the host gave
/// it.
#[derive(Clone, Copy, PartialEq, Eq, Structural)]
pub struct DeviceConfig {
    pub parent_hub_slot_id: u8,
    pub port_speed: u8,
    pub slot_id: u8,
}

impl DeviceConfig {
    pub fn new(parent_hub_slot_id: u8, port_speed: u8, slot_id: u8) -> (r: Self)
        ensures
            r == (DeviceConfig { parent_hub_slot_id, port_speed, slot_id }),
    {
        Self { parent_hub_slot_id, port_speed, slot_id }
    }

    pub fn parent_hub_slot_id(&self) -> (r: u8)
        ensures
            r == self.parent_hub_slot_id,
    {
        self.parent_hub_slot_id
    }

    pub fn port_speed(&self) -> (r: u8)
        ensures
            r == self.port_speed,
    {
        self.port_speed
    }

    pub fn slot_id(&self) -> (r: u8)
        ensures
            r == self.slot_id,
    {
        self.slot_id
    }
}

/// The packet size of the default control endpoint for a port speed: 64
/// bytes at high speed (3), 512 at super speed (4), 8 otherwise.
pub fn max_packet_size(port_speed: u8) -> (r: u16)
    ensures
        r == (if port_speed == 3 { 64u16 } else if port_speed == 4 { 512u16 } else { 8u16 }),
{
    match port_speed {
        3 => 64,
        4 => 512,
        _ => 8,
    }
}

/// Entries in a device's default control transfer ring.
pub const RING_LENGTH: usize = 32;

/// An allocation of the pool at 64-byte alignment within a 4096-byte page
/// starts on a multiple of 64.
proof fn lemma_start_aligned(current: int, size: int)
    requires
        0 <= current,
    ensures
        alloc_start(current, size, 64, 4096) % 64 == 0,
{
    let a = align_up(current, 64);
    let b = align_up(a, 4096);
    vstd::arithmetic::div_mod::lemma_fundamental_div_mod(current, 64);
    vstd::arithmetic::div_mod::lemma_fundamental_div_mod(a, 4096);
    assert(a % 64 == 0) by {
        let r = current % 64;
        if r == 0 {
            vstd::arithmetic::div_mod::lemma_small_mod(0, 64);
        } else {
            vstd::arithmetic::div_mod::lemma_small_mod((64 - r) as nat, 64);
            assert(a == 64 * (current / 64) + 64);
            vstd::arithmetic::div_mod::lemma_mod_multiples_basic(current / 64 + 1, 64);
        }
    }
    assert(b % 64 == 0) by {
        let r = a % 4096;
        if r == 0 {
            vstd::arithmetic::div_mod::lemma_small_mod(0, 4096);
            assert(b == a);
        } else {
            vstd::arithmetic::div_mod::lemma_small_mod((4096 - r) as nat, 4096);
            assert(b == 4096 * (a / 4096) + 4096);
            vstd::arithmetic::div_mod::lemma_mod_multiples_basic(64 * (a / 4096) + 64, 64);
        }
    }
}

/// What the controller keeps of a device slot: its default control pipe,
/// the input context it is addressed and configured with, and its device
/// context.
pub struct DeviceSlot {
    pub slot_id: u8,
    pub default_control_pipe: ControlPipe,
    pub input_context: InputContext,
    pub device_context: DeviceContext,
}

impl DeviceSlot {
    /// The slot's control pipe gets a transfer ring of `RING_LENGTH`
    /// entries from the pool, 64-byte aligned within a 4096-byte page;
    /// `Err` when it does not fit. The contexts start empty.
    pub fn new(slot_id: u8, allocator: &mut XhcAllocator) -> (r: Result<Self, ()>)
        requires
            old(allocator).current_addr + 64 + 4096 + TRB_SIZE * (RING_LENGTH + 1) <= u64::MAX,
        ensures
            ({
                let start = alloc_start(old(allocator).current_addr as int, TRB_SIZE * RING_LENGTH, 64, 4096);
                &&& r is Ok <==> start + TRB_SIZE * RING_LENGTH <= old(allocator).end_addr
                &&& r matches Ok(s) ==> {
                    &&& s.slot_id == slot_id
                    &&& s.default_control_pipe.transfer_ring == TransferRing::new_spec(start as u64, RING_LENGTH, true)
                    &&& s.default_control_pipe.control_in.slot_id == slot_id
                    &&& s.default_control_pipe.control_in.device_context_index.0 == 1
                    &&& s.default_control_pipe.control_out.slot_id == slot_id
                    &&& s.default_control_pipe.control_out.device_context_index.0 == 1
                    &&& start % 64 == 0
                    &&& s.input_context.wf()
                    &&& s.input_context.add_context_flags == 0
                    &&& s.device_context.slot == SlotContext::spec_empty()
                }
            }),
    {
        let ring = Self::try_alloc_transfer_ring(allocator, RING_LENGTH)?;
        let pipe = ControlPipe::new(slot_id, DeviceContextIndex::default(), ring);
        Ok(DeviceSlot {
            slot_id,
            default_control_pipe: pipe,
            input_context: InputContext::new(),
            device_context: DeviceContext::new(),
        })
    }

    /// A transfer ring of `ring_size` entries over `RING_LENGTH` entries
    /// taken from the pool; `Err` when they do not fit.
    pub fn try_alloc_transfer_ring(allocator: &mut XhcAllocator, ring_size: usize) -> (r: Result<TransferRing, ()>)
        requires
            1 <= ring_size <= RING_LENGTH,
            old(allocator).current_addr + 64 + 4096 + TRB_SIZE * (RING_LENGTH + 1) <= u64::MAX,
        ensures
            ({
                let start = alloc_start(old(allocator).current_addr as int, TRB_SIZE * RING_LENGTH, 64, 4096);
                &&& start % 64 == 0
                &&& r is Ok <==> start + TRB_SIZE * RING_LENGTH <= old(allocator).end_addr
                &&& r matches Ok(ring) ==> ring == TransferRing::new_spec(start as u64, ring_size, true) && ring.wf()
                &&& r is Ok ==> final(allocator).current_addr == start + TRB_SIZE * RING_LENGTH
            }),
    {
        proof {
            assert(64u64 & 63u64 == 0) by (bit_vector);
            assert(4096u64 & 4095u64 == 0) by (bit_vector);
            lemma_start_aligned(old(allocator).current_addr as int, TRB_SIZE * RING_LENGTH);
        }
        let addr = match allocator.allocate(TRB_SIZE * RING_LENGTH as u64, 64, 4096) {
            Some(a) => a,
            None => return Err(()),
        };
        Ok(TransferRing::new(addr, ring_size, true))
    }

    /// Copies the device context's slot context into the input context.
    pub fn copy_device_context_to_input(&mut self)
        ensures
            final(self).input_context.slot == old(self).device_context.slot,
            final(self).input_context.endpoints@ == old(self).input_context.endpoints@,
            final(self).input_context.add_context_flags == old(self).input_context.add_context_flags,
            final(self).slot_id == old(self).slot_id,
    {
        let slot = self.device_context.slot();
        self.input_context.copy_from_device_context(&slot);
    }
}

/// The phase of configuration a device is in.
pub enum DevicePhase {
    First(Phase1),
    Second(Phase2),
    Third(Phase3),
    Fourth(Phase4),
}

/// What the phase a device is in takes from a transfer event: the data
/// buffer the configuration descriptor is read into (first phase), the
/// configuration descriptor's bytes with the length asked and the length
/// that did not come (second), the interrupt IN endpoints set up for the
/// drivers (third), or a report (fourth).
pub enum PhaseInput {
    DataBuffer(u64, u32),
    Configuration(Vec<u8>, u32, u32),
    Interrupters(Vec<InterruptIn>),
    Report,
}

/// An endpoint the third phase enables: its device context index, its
/// configuration and its ring.
pub open spec fn endpoint_enable(i: InterruptIn) -> (usize, super::endpoint::EndpointConfig, u64) {
    (i.endpoint_config.endpoint_id.0, i.endpoint_config, i.transfer_ring.ring_base_addr)
}

/// The input can be taken: a data buffer whose length fits a request and a
/// transfer, a configuration descriptor that parses, endpoints whose rings
/// and contexts can be set up.
pub open spec fn input_fits(input: PhaseInput) -> bool {
    match input {
        PhaseInput::DataBuffer(_, len) => len <= u16::MAX && len < TRB_LENGTH_LIMIT,
        PhaseInput::Configuration(bytes, requested, remaining) => {
            &&& remaining <= requested
            &&& requested - remaining + 18 <= usize::MAX
            &&& all_known(bytes@, 0, requested - remaining)
        },
        PhaseInput::Interrupters(v) => forall|i: int| 0 <= i < v@.len() ==> {
            &&& (#[trigger] v@[i]).wf()
            &&& enable_ok(endpoint_enable(v@[i]))
        },
        PhaseInput::Report => true,
    }
}

/// The input is the one the phase takes.
pub open spec fn input_matches(phase: DevicePhase, input: PhaseInput) -> bool {
    match (phase, input) {
        (DevicePhase::First(_), PhaseInput::DataBuffer(_, _)) => true,
        (DevicePhase::Second(_), PhaseInput::Configuration(_, _, _)) => true,
        (DevicePhase::Third(_), PhaseInput::Interrupters(_)) => true,
        (DevicePhase::Fourth(_), PhaseInput::Report) => true,
        _ => false,
    }
}

/// A device being brought up: its slot and the phase of its configuration.
pub struct Device {
    pub slot_id: u8,
    pub phase: DevicePhase,
    pub slot: DeviceSlot,
}

impl Device {
    /// A device on a new slot whose input context addresses it: the slot
    /// and default control endpoint flags, the slot context of its port and
    /// speed, and the default control endpoint over the slot's ring. `Err`
    /// when the ring does not fit in the pool.
    pub fn new_with_init_default_control_pipe(config: DeviceConfig, allocator: &mut XhcAllocator, drivers: Vec<DriverType>)
        -> (r: Result<Self, ()>)
        requires
            config.port_speed <= 15,
            old(allocator).current_addr + 64 + 4096 + TRB_SIZE * (RING_LENGTH + 1) <= u64::MAX,
        ensures
            ({
                let start = alloc_start(old(allocator).current_addr as int, TRB_SIZE * RING_LENGTH, 64, 4096);
                &&& r is Ok <==> start + TRB_SIZE * RING_LENGTH <= old(allocator).end_addr
                &&& r matches Ok(d) ==> {
                    let input = d.slot.input_context;
                    &&& d.slot_id == config.slot_id
                    &&& d.slot.slot_id == config.slot_id
                    &&& d.phase matches DevicePhase::First(p) && p.drivers@ == drivers@
                    &&& d.slot.default_control_pipe.transfer_ring == TransferRing::new_spec(start as u64, RING_LENGTH, true)
                    &&& input.wf()
                    &&& input.add_context_flags == 3
                    &&& input.slot == (SlotContext {
                        root_hub_port_number: config.parent_hub_slot_id,
                        route_string: 0,
                        context_entries: 1,
                        speed: config.port_speed,
                    })
                    &&& input.endpoints@[0] == default_control_context(EndpointContext::spec_empty(), config.port_speed, start as u64)
                    &&& forall|i: int| 1 <= i < NUM_OF_ENDPOINT_CONTEXTS ==> input.endpoints@[i] == EndpointContext::spec_empty()
                }
            }),
    {
        let mut slot = DeviceSlot::new(config.slot_id(), allocator)?;
        let tr_dequeue_addr = slot.default_control_pipe.transfer_ring_base_addr();
        slot.input_context = new_device_input_context(config, tr_dequeue_addr);
        Ok(Device { slot_id: config.slot_id(), phase: DevicePhase::First(Phase1::new(drivers)), slot })
    }

    /// Asks for the device descriptor (type 1, index 0) into the data
    /// buffer at `data_buff_addr` over the default control pipe: the TRBs
    /// written and the doorbell rung.
    pub fn initialize(&mut self, data_buff_addr: u64) -> (r: (Vec<TrbWrite>, Doorbell))
        requires
            old(self).slot.default_control_pipe.transfer_ring.wf(),
            old(self).slot.default_control_pipe.transfer_ring.ring_base_addr % 16 == 0,
        ensures
            final(self).slot.default_control_pipe.transfer_ring.wf(),
            r.1 == old(self).slot.default_control_pipe.control_in.doorbell(),
    {
        let request = Request::get_descriptor(1, 0, DATA_BUFF_SIZE as u16);
        let control_in = self.slot.default_control_pipe.control_in;
        control_in.with_data(&mut self.slot.default_control_pipe.transfer_ring, request, data_buff_addr, DATA_BUFF_SIZE as u32)
    }

    /// Takes a transfer event in the phase the device is in. The first
    /// phase asks for the configuration descriptor into the data buffer;
    /// the second sets the configuration value in the input context and
    /// sends SET_CONFIGURATION; the third prepares the input context that
    /// configures the endpoints, and the device is then initialized; the
    /// fourth queues a report request on each endpoint. Each moves to the
    /// next phase, the fourth staying. An input for another phase is
    /// refused and changes nothing.
    pub fn on_transfer_event_received(&mut self, input: PhaseInput) -> (r: Result<(InitState, Vec<(Vec<TrbWrite>, Doorbell)>), ()>)
        requires
            old(self).slot.default_control_pipe.transfer_ring.wf(),
            old(self).slot.default_control_pipe.transfer_ring.ring_base_addr % 16 == 0,
            old(self).slot.input_context.wf(),
            old(self).phase matches DevicePhase::Fourth(p) ==> p.wf(),
            input_fits(input),
        ensures
            r is Ok <==> input_matches(old(self).phase, input),
            r is Err ==> *final(self) == *old(self),
            final(self).slot_id == old(self).slot_id,
            final(self).slot.default_control_pipe.transfer_ring.wf(),
            final(self).slot.input_context.wf(),
            final(self).phase matches DevicePhase::Fourth(p) ==> p.wf(),
            r matches Ok((state, steps)) ==> match (old(self).phase, input) {
                (DevicePhase::First(p), PhaseInput::DataBuffer(_, _)) => {
                    &&& !state.0
                    &&& steps@.len() == 1
                    &&& steps@[0].1 == old(self).slot.default_control_pipe.control_in.doorbell()
                    &&& final(self).phase matches DevicePhase::Second(q) && q.drivers@ == p.drivers@
                },
                (DevicePhase::Second(p), PhaseInput::Configuration(bytes, requested, remaining)) => {
                    let ds = descriptors_from(bytes@, 0, requested - remaining);
                    &&& !state.0
                    &&& steps@.len() == 1
                    &&& steps@[0].1 == old(self).slot.default_control_pipe.control_out.doorbell()
                    &&& final(self).slot.input_context.configuration_value == spec_configuration(bytes@, 0).configuration_value
                    &&& final(self).phase matches DevicePhase::Third(q) && q.drivers@ == p.drivers@
                        && q.hid_device_descriptor_vec@ == hid_list(ds, ds.len() as int)
                },
                (DevicePhase::Third(_), PhaseInput::Interrupters(v)) => {
                    let enables = v@.map_values(|i: InterruptIn| endpoint_enable(i));
                    &&& state.0
                    &&& steps@.len() == 0
                    &&& final(self).slot.input_context.add_context_flags == enabled_flags(enables, enables.len() as int)
                    &&& final(self).slot.input_context.slot
                        == (SlotContext { context_entries: 31, ..old(self).slot.device_context.slot })
                    &&& final(self).slot.input_context.endpoints@
                        == configured_endpoints(old(self).slot.input_context.endpoints@, enables, enables.len() as int)
                    &&& final(self).phase matches DevicePhase::Fourth(q) && q.interrupters@ == v@
                },
                (DevicePhase::Fourth(p), PhaseInput::Report) => {
                    &&& state.0
                    &&& steps@.len() == p.interrupters@.len()
                    &&& final(self).phase matches DevicePhase::Fourth(q) && q.interrupters@.len() == p.interrupters@.len()
                },
                _ => false,
            },
    {
        let ghost before = *self;
        let mut phase = DevicePhase::Fourth(Phase4 { interrupters: Vec::new() });
        core::mem::swap(&mut self.phase, &mut phase);
        match (phase, input) {
            (DevicePhase::First(p), PhaseInput::DataBuffer(addr, len)) => {
                let (state, request, next) = p.on_transfer_event_received(len as usize);
                let control_in = self.slot.default_control_pipe.control_in;
                let step = control_in.with_data(&mut self.slot.default_control_pipe.transfer_ring, request, addr, len);
                self.phase = DevicePhase::Second(next);
                Ok((state, vec![step]))
            },
            (DevicePhase::Second(p), PhaseInput::Configuration(bytes, requested, remaining)) => {
                let (state, config_value, request, next) = p.on_transfer_event_received(bytes, requested, remaining);
                self.slot.input_context.set_config(config_value);
                let control_out = self.slot.default_control_pipe.control_out;
                let step = control_out.no_data(&mut self.slot.default_control_pipe.transfer_ring, request);
                self.phase = DevicePhase::Third(next);
                Ok((state, vec![step]))
            },
            (DevicePhase::Third(p), PhaseInput::Interrupters(v)) => {
                let ghost vs = v@;
                let (state, enables, next) = p.on_transfer_event_received(v);
                proof {
                    assert(enables@ =~= vs.map_values(|i: InterruptIn| endpoint_enable(i)));
                }
                let device_slot = self.slot.device_context.slot();
                configure_endpoints(&mut self.slot.input_context, &device_slot, &enables);
                self.phase = DevicePhase::Fourth(next);
                Ok((state, Vec::new()))
            },
            (DevicePhase::Fourth(p), PhaseInput::Report) => {
                let mut p = p;
                let steps = p.on_transfer_event_received();
                self.phase = DevicePhase::Fourth(p);
                Ok((InitState::initialized(), steps))
            },
            (phase, _) => {
                self.phase = phase;
                proof {
                    assert(*self == before);
                }
                Err(())
            },
        }
    }

    /// Once the endpoints are configured: a SET_PROTOCOL request over the
    /// default control pipe for each interface, in order.
    pub fn on_endpoints_configured(&mut self, interface_nums: &Vec<u8>) -> (r: Vec<(Vec<TrbWrite>, Doorbell)>)
        requires
            old(self).slot.default_control_pipe.transfer_ring.wf(),
            old(self).slot.default_control_pipe.transfer_ring.ring_base_addr % 16 == 0,
        ensures
            final(self).slot.default_control_pipe.transfer_ring.wf(),
            r@.len() == interface_nums@.len(),
            forall|i: int| 0 <= i < r@.len() ==> (#[trigger] r@[i]).1 == old(self).slot.default_control_pipe.control_out.doorbell(),
    {
        let requests = protocol_requests(interface_nums);
        let control_out = self.slot.default_control_pipe.control_out;
        let mut out: Vec<(Vec<TrbWrite>, Doorbell)> = Vec::new();
        let mut i: usize = 0;
        while i < requests.len()
            invariant
                i <= requests@.len(),
                requests@.len() == interface_nums@.len(),
                out@.len() == i,
                control_out == old(self).slot.default_control_pipe.control_out,
                self.slot.default_control_pipe.transfer_ring.wf(),
                self.slot.default_control_pipe.transfer_ring.ring_base_addr
                    == old(self).slot.default_control_pipe.transfer_ring.ring_base_addr,
                old(self).slot.default_control_pipe.transfer_ring.ring_base_addr % 16 == 0,
                forall|j: int| 0 <= j < i ==> (#[trigger] out@[j]).1 == control_out.doorbell(),
            decreases requests@.len() - i,
        {
            let step = control_out.no_data(&mut self.slot.default_control_pipe.transfer_ring, requests[i]);
            out.push(step);
            i = i + 1;
        }
        out
    }
}

/// The devices being brought up, by slot id.
pub struct DeviceMap {
    pub devices: Vec<Device>,
}

impl DeviceMap {
    /// The slot ids of the devices, in the order they were set.
    pub open spec fn ids(&self) -> Seq<u8> {
        self.devices@.map_values(|d: Device| d.slot_id)
    }

    pub fn new() -> (r: Self)
        ensures
            r.devices@.len() == 0,
    {
        DeviceMap { devices: Vec::new() }
    }

    /// Where the device of `slot_id` is, if there is one.
    pub fn position(&self, slot_id: u8) -> (r: Option<usize>)
        ensures
            r matches Some(i) ==> i < self.devices@.len() && self.devices@[i as int].slot_id == slot_id
                && forall|j: int| 0 <= j < i ==> self.devices@[j].slot_id != slot_id,
            r is None ==> forall|j: int| 0 <= j < self.devices@.len() ==> self.devices@[j].slot_id != slot_id,
    {
        let mut i: usize = 0;
        while i < self.devices.len()
            invariant
                i <= self.devices@.len(),
                forall|j: int| 0 <= j < i ==> self.devices@[j].slot_id != slot_id,
            decreases self.devices@.len() - i,
        {
            if self.devices[i].slot_id == slot_id {
                return Some(i);
            }
            i = i + 1;
        }
        None
    }

    /// Sets up a device on the slot the configuration names, replacing one
    /// already there; `Err` when its ring does not fit in the pool, the
    /// map then unchanged.
    pub fn new_set(&mut self, config: DeviceConfig, allocator: &mut XhcAllocator, drivers: Vec<DriverType>) -> (r: Result<(), ()>)
        requires
            config.port_speed <= 15,
            old(allocator).current_addr + 64 + 4096 + TRB_SIZE * (RING_LENGTH + 1) <= u64::MAX,
        ensures
            ({
                let start = alloc_start(old(allocator).current_addr as int, TRB_SIZE * RING_LENGTH, 64, 4096);
                r is Ok <==> start + TRB_SIZE * RING_LENGTH <= old(allocator).end_addr
            }),
            r is Err ==> final(self).devices@ == old(self).devices@,
            r is Ok ==> exists|i: int| 0 <= i < final(self).devices@.len() && final(self).devices@[i].slot_id == config.slot_id
                && (final(self).devices@[i].phase matches DevicePhase::First(p) && p.drivers@ == drivers@),
            r is Ok ==> final(self).devices@.len() == old(self).devices@.len()
                + if (exists|j: int| 0 <= j < old(self).devices@.len() && old(self).devices@[j].slot_id == config.slot_id) { 0int } else { 1int },
    {
        let device = Device::new_with_init_default_control_pipe(config, allocator, drivers)?;
        match self.position(config.slot_id()) {
            Some(i) => {
                self.devices.set(i, device);
                assert(self.devices@[i as int].slot_id == config.slot_id);
            },
            None => {
                self.devices.push(device);
                assert(self.devices@[self.devices@.len() - 1].slot_id == config.slot_id);
            },
        }
        Ok(())
    }
}

} // verus!

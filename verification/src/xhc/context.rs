//! Input and device contexts as the driver fills them: the fields it sets,
//! held as plain values.
use vstd::prelude::*;
use super::device::{max_packet_size, DeviceConfig, DeviceContextIndex};
use super::endpoint::{EndpointConfig, EndpointType};

verus! {

/// Endpoint contexts in a device context: device context indices 1 to 31.
pub const NUM_OF_ENDPOINT_CONTEXTS: usize = 31;

/// The fields of a slot context.
#[derive(Clone, Copy, Debug, PartialEq, Eq, Structural)]
pub struct SlotContext {
    pub root_hub_port_number: u8,
    pub route_string: u32,
    pub context_entries: u8,
    pub speed: u8,
}

impl SlotContext {
    pub open spec fn spec_empty() -> SlotContext {
        SlotContext { root_hub_port_number: 0, route_string: 0, context_entries: 0, speed: 0 }
    }

    /// A slot context with every field zero.
    pub fn empty() -> (r: Self)
        ensures
            r == Self::spec_empty(),
    {
        SlotContext { root_hub_port_number: 0, route_string: 0, context_entries: 0, speed: 0 }
    }
}

/// The fields of an endpoint context.
#[derive(Clone, Copy, PartialEq, Eq, Structural)]
pub struct EndpointContext {
    pub endpoint_type: EndpointType,
    pub max_packet_size: u16,
    pub max_burst_size: u8,
    pub tr_dequeue_pointer: u64,
    pub dequeue_cycle_state: bool,
    pub interval: u8,
    pub max_primary_streams: u8,
    pub mult: u8,
    pub error_count: u8,
    pub average_trb_length: u16,
}

impl EndpointContext {
    pub open spec fn spec_empty() -> EndpointContext {
        EndpointContext {
            endpoint_type: EndpointType::NotValid,
            max_packet_size: 0,
            max_burst_size: 0,
            tr_dequeue_pointer: 0,
            dequeue_cycle_state: false,
            interval: 0,
            max_primary_streams: 0,
            mult: 0,
            error_count: 0,
            average_trb_length: 0,
        }
    }

    /// An endpoint context with every field zero.
    pub fn empty() -> (r: Self)
        ensures
            r == Self::spec_empty(),
    {
        EndpointContext {
            endpoint_type: EndpointType::NotValid,
            max_packet_size: 0,
            max_burst_size: 0,
            tr_dequeue_pointer: 0,
            dequeue_cycle_state: false,
            interval: 0,
            max_primary_streams: 0,
            mult: 0,
            error_count: 0,
            average_trb_length: 0,
        }
    }
}

/// `NUM_OF_ENDPOINT_CONTEXTS` empty endpoint contexts.
fn empty_endpoints() -> (r: Vec<EndpointContext>)
    ensures
        r@.len() == NUM_OF_ENDPOINT_CONTEXTS,
        forall|i: int| 0 <= i < NUM_OF_ENDPOINT_CONTEXTS ==> r@[i] == EndpointContext::spec_empty(),
{
    let mut v: Vec<EndpointContext> = Vec::new();
    while v.len() < NUM_OF_ENDPOINT_CONTEXTS
        invariant
            v@.len() <= NUM_OF_ENDPOINT_CONTEXTS,
            forall|i: int| 0 <= i < v@.len() ==> v@[i] == EndpointContext::spec_empty(),
        decreases NUM_OF_ENDPOINT_CONTEXTS - v@.len(),
    {
        v.push(EndpointContext::empty());
    }
    v
}

/// An input context: the control fields (add and drop context flags and
/// the configuration value), the slot context, and the endpoint context of
/// each device context index from 1, at index `dci - 1`.
pub struct InputContext {
    pub drop_context_flags: u32,
    pub add_context_flags: u32,
    pub configuration_value: u8,
    pub slot: SlotContext,
    pub endpoints: Vec<EndpointContext>,
}

impl InputContext {
    pub open spec fn wf(&self) -> bool {
        self.endpoints@.len() == NUM_OF_ENDPOINT_CONTEXTS
    }

    /// An input context with every field zero.
    pub fn new() -> (r: Self)
        ensures
            r.wf(),
            r.drop_context_flags == 0 && r.add_context_flags == 0 && r.configuration_value == 0,
            r.slot == SlotContext::spec_empty(),
            forall|i: int| 0 <= i < NUM_OF_ENDPOINT_CONTEXTS ==> r.endpoints@[i] == EndpointContext::spec_empty(),
    {
        InputContext {
            drop_context_flags: 0,
            add_context_flags: 0,
            configuration_value: 0,
            slot: SlotContext::empty(),
            endpoints: empty_endpoints(),
        }
    }

    /// Zeroes the control fields.
    pub fn clear_control(&mut self)
        ensures
            final(self).drop_context_flags == 0 && final(self).add_context_flags == 0,
            final(self).configuration_value == 0,
            final(self).slot == old(self).slot,
            final(self).endpoints@ == old(self).endpoints@,
    {
        self.drop_context_flags = 0;
        self.add_context_flags = 0;
        self.configuration_value = 0;
    }

    /// Sets the configuration value.
    pub fn set_config(&mut self, config_value: u8)
        ensures
            *final(self) == (InputContext { configuration_value: config_value, ..*old(self) }),
    {
        self.configuration_value = config_value;
    }

    /// Copies a device's slot context into the input context.
    pub fn copy_from_device_context(&mut self, device_context_slot: &SlotContext)
        ensures
            *final(self) == (InputContext { slot: *device_context_slot, ..*old(self) }),
    {
        self.slot = *device_context_slot;
    }

    /// Sets add context flag 0, for the slot context.
    pub fn set_enable_slot_context(&mut self)
        ensures
            *final(self) == (InputContext { add_context_flags: old(self).add_context_flags | 1u32, ..*old(self) }),
    {
        self.add_context_flags = self.add_context_flags | 1u32;
    }

    /// Sets the add context flag of an endpoint's device context index.
    pub fn set_enable_endpoint(&mut self, device_context_index: DeviceContextIndex)
        requires
            device_context_index.0 <= 31,
        ensures
            *final(self) == (InputContext {
                add_context_flags: old(self).add_context_flags | (1u32 << (device_context_index.0 as u32)),
                ..*old(self)
            }),
    {
        self.add_context_flags = self.add_context_flags | (1u32 << (device_context_index.value() as u32));
    }

    /// The endpoint context of device context index `dci`.
    pub fn endpoint_at(&self, dci: usize) -> (r: EndpointContext)
        requires
            self.wf(),
            1 <= dci <= NUM_OF_ENDPOINT_CONTEXTS,
        ensures
            r == self.endpoints@[dci - 1],
    {
        self.endpoints[dci - 1]
    }

    /// Replaces the endpoint context of device context index `dci`.
    pub fn set_endpoint_at(&mut self, dci: usize, context: EndpointContext)
        requires
            old(self).wf(),
            1 <= dci <= NUM_OF_ENDPOINT_CONTEXTS,
        ensures
            final(self).wf(),
            final(self).endpoints@ == old(self).endpoints@.update(dci - 1, context),
            final(self).slot == old(self).slot,
            final(self).add_context_flags == old(self).add_context_flags,
            final(self).drop_context_flags == old(self).drop_context_flags,
            final(self).configuration_value == old(self).configuration_value,
    {
        self.endpoints.set(dci - 1, context);
    }
}

/// A device context: the slot context and the endpoint contexts.
pub struct DeviceContext {
    pub slot: SlotContext,
    pub endpoints: Vec<EndpointContext>,
}

impl DeviceContext {
    /// A device context with every field zero.
    pub fn new() -> (r: Self)
        ensures
            r.slot == SlotContext::spec_empty(),
            r.endpoints@.len() == NUM_OF_ENDPOINT_CONTEXTS,
            forall|i: int| 0 <= i < NUM_OF_ENDPOINT_CONTEXTS ==> r.endpoints@[i] == EndpointContext::spec_empty(),
    {
        DeviceContext { slot: SlotContext::empty(), endpoints: empty_endpoints() }
    }

    pub fn slot(&self) -> (r: SlotContext)
        ensures
            r == self.slot,
    {
        self.slot
    }
}

/// The slot context of a device on a root hub port: the port, route string
/// 0, one context entry, and the port's speed.
pub fn init_slot_context(input: &mut InputContext, root_port_hub_id: u8, port_speed: u8)
    requires
        port_speed <= 15,
    ensures
        *final(input) == (InputContext {
            slot: SlotContext { root_hub_port_number: root_port_hub_id, route_string: 0, context_entries: 1, speed: port_speed },
            ..*old(input)
        }),
{
    input.slot.root_hub_port_number = root_port_hub_id;
    input.slot.route_string = 0;
    input.slot.context_entries = 1;
    input.slot.speed = port_speed;
}

/// The context of the default control endpoint: a control endpoint with
/// the packet size of the port speed, its transfer ring at
/// `tr_dequeue_addr` with the dequeue cycle state set, and an error count
/// of 3.
pub open spec fn default_control_context(old_context: EndpointContext, port_speed: u8, tr_dequeue_addr: u64) -> EndpointContext {
    EndpointContext {
        endpoint_type: EndpointType::Control,
        max_packet_size: if port_speed == 3 { 64u16 } else if port_speed == 4 { 512u16 } else { 8u16 },
        max_burst_size: 0,
        tr_dequeue_pointer: tr_dequeue_addr,
        dequeue_cycle_state: true,
        interval: 0,
        max_primary_streams: 0,
        mult: 0,
        error_count: 3,
        ..old_context
    }
}

/// Sets up the default control endpoint's context (device context index
/// 1).
pub fn init_default_control_pipe(input: &mut InputContext, port_speed: u8, tr_dequeue_addr: u64)
    requires
        old(input).wf(),
        tr_dequeue_addr % 64 == 0,
    ensures
        final(input).wf(),
        final(input).endpoints@ == old(input).endpoints@.update(0,
            default_control_context(old(input).endpoints@[0], port_speed, tr_dequeue_addr)),
        final(input).slot == old(input).slot,
        final(input).add_context_flags == old(input).add_context_flags,
        final(input).drop_context_flags == old(input).drop_context_flags,
        final(input).configuration_value == old(input).configuration_value,
{
    let dci = DeviceContextIndex::default().value();
    let mut pipe = input.endpoint_at(dci);
    pipe.endpoint_type = EndpointType::Control;
    pipe.max_packet_size = max_packet_size(port_speed);
    pipe.max_burst_size = 0;
    pipe.tr_dequeue_pointer = tr_dequeue_addr;
    pipe.dequeue_cycle_state = true;
    pipe.interval = 0;
    pipe.max_primary_streams = 0;
    pipe.mult = 0;
    pipe.error_count = 3;
    input.set_endpoint_at(dci, pipe);
}

/// The input context a new device is addressed with: add context flags 0
/// and 1 (the slot and the default control endpoint), the slot context of
/// its port and speed, and the default control endpoint's context with its
/// transfer ring at `tr_dequeue_addr`.
pub fn new_device_input_context(config: DeviceConfig, tr_dequeue_addr: u64) -> (r: InputContext)
    requires
        config.port_speed <= 15,
        tr_dequeue_addr % 64 == 0,
    ensures
        r.wf(),
        r.add_context_flags == 3,
        r.drop_context_flags == 0,
        r.configuration_value == 0,
        r.slot == (SlotContext {
            root_hub_port_number: config.parent_hub_slot_id,
            route_string: 0,
            context_entries: 1,
            speed: config.port_speed,
        }),
        r.endpoints@[0] == default_control_context(EndpointContext::spec_empty(), config.port_speed, tr_dequeue_addr),
        forall|i: int| 1 <= i < NUM_OF_ENDPOINT_CONTEXTS ==> r.endpoints@[i] == EndpointContext::spec_empty(),
{
    let mut input = InputContext::new();
    input.set_enable_slot_context();
    input.set_enable_endpoint(DeviceContextIndex::default());
    proof {
        assert((0u32 | 1u32) | (1u32 << 1u32) == 3u32) by (bit_vector);
    }
    init_slot_context(&mut input, config.parent_hub_slot_id(), config.port_speed());
    init_default_control_pipe(&mut input, config.port_speed(), tr_dequeue_addr);
    input
}

/// An endpoint context filled for an interrupt IN endpoint of `config`
/// whose transfer ring is at `tr_buff_addr`; the other fields as in
/// `before`.
pub open spec fn endpoint_written(config: EndpointConfig, tr_buff_addr: u64, before: EndpointContext) -> EndpointContext {
    EndpointContext {
        endpoint_type: EndpointType::InterruptIn,
        tr_dequeue_pointer: tr_buff_addr,
        max_packet_size: config.max_packet_size,
        interval: (config.interval - 1) as u8,
        average_trb_length: 1,
        error_count: 3,
        mult: 0,
        max_primary_streams: 0,
        dequeue_cycle_state: true,
        ..before
    }
}

impl EndpointConfig {
    /// Fills an endpoint context for an interrupt IN endpoint: its transfer
    /// ring at `tr_buff_addr` with the dequeue cycle state set, the packet
    /// size, the interval less one, an average TRB length of 1 and an error
    /// count of 3.
    pub fn write_endpoint_context(&self, tr_buff_addr: u64, endpoint_ctx: &mut EndpointContext)
        requires
            self.interval >= 1,
            tr_buff_addr % 64 == 0,
        ensures
            *final(endpoint_ctx) == endpoint_written(*self, tr_buff_addr, *old(endpoint_ctx)),
    {
        endpoint_ctx.endpoint_type = EndpointType::InterruptIn;
        endpoint_ctx.tr_dequeue_pointer = tr_buff_addr;
        endpoint_ctx.max_packet_size = self.max_packet_size;
        endpoint_ctx.interval = self.interval - 1;
        endpoint_ctx.average_trb_length = 1;
        endpoint_ctx.error_count = 3;
        endpoint_ctx.mult = 0;
        endpoint_ctx.max_primary_streams = 0;
        endpoint_ctx.dequeue_cycle_state = true;
    }
}

/// An endpoint to enable: its device context index, its configuration and
/// the address of its transfer ring.
pub open spec fn enable_ok(e: (usize, EndpointConfig, u64)) -> bool {
    &&& 1 <= e.0 <= NUM_OF_ENDPOINT_CONTEXTS
    &&& e.1.interval >= 1
    &&& e.2 % 64 == 0
}

/// The add context flags after the slot's and the first `n` endpoints'.
pub open spec fn enabled_flags(enables: Seq<(usize, EndpointConfig, u64)>, n: int) -> u32
    decreases n,
{
    if n <= 0 { 1u32 } else { enabled_flags(enables, n - 1) | (1u32 << (enables[n - 1].0 as u32)) }
}

/// The endpoint contexts after the first `n` endpoints are written, each
/// at its device context index.
pub open spec fn configured_endpoints(eps: Seq<EndpointContext>, enables: Seq<(usize, EndpointConfig, u64)>, n: int)
    -> Seq<EndpointContext>
    decreases n,
{
    if n <= 0 {
        eps
    } else {
        let before = configured_endpoints(eps, enables, n - 1);
        let e = enables[n - 1];
        before.update(e.0 - 1, endpoint_written(e.1, e.2, before[e.0 - 1]))
    }
}

/// Prepares the input context that configures a device's endpoints: the
/// control fields cleared, the device's slot context copied with 31
/// context entries and the slot flag set, then for each endpoint its add
/// context flag and its endpoint context.
pub fn configure_endpoints(input: &mut InputContext, device_slot: &SlotContext, enables: &Vec<(usize, EndpointConfig, u64)>)
    requires
        old(input).wf(),
        forall|i: int| 0 <= i < enables@.len() ==> enable_ok(#[trigger] enables@[i]),
    ensures
        final(input).wf(),
        final(input).drop_context_flags == 0,
        final(input).configuration_value == 0,
        final(input).add_context_flags == enabled_flags(enables@, enables@.len() as int),
        final(input).slot == (SlotContext { context_entries: 31, ..*device_slot }),
        final(input).endpoints@ == configured_endpoints(old(input).endpoints@, enables@, enables@.len() as int),
{
    input.clear_control();
    input.copy_from_device_context(device_slot);
    input.set_enable_slot_context();
    proof {
        assert(0u32 | 1u32 == 1u32) by (bit_vector);
    }
    input.slot.context_entries = 31;
    let mut i: usize = 0;
    while i < enables.len()
        invariant
            input.wf(),
            i <= enables@.len(),
            forall|k: int| 0 <= k < enables@.len() ==> enable_ok(#[trigger] enables@[k]),
            input.drop_context_flags == 0,
            input.configuration_value == 0,
            input.add_context_flags == enabled_flags(enables@, i as int),
            input.slot == (SlotContext { context_entries: 31, ..*device_slot }),
            input.endpoints@ == configured_endpoints(old(input).endpoints@, enables@, i as int),
        decreases enables@.len() - i,
    {
        let (dci, config, ring) = enables[i];
        proof {
            assert(enable_ok(enables@[i as int]));
        }
        input.set_enable_endpoint(DeviceContextIndex::from_dci(dci));
        let mut endpoint = input.endpoint_at(dci);
        config.write_endpoint_context(ring, &mut endpoint);
        input.set_endpoint_at(dci, endpoint);
        i = i + 1;
    }
}

} // verus!

use kernel::xhc::allocator::{make_event_ring, InterrupterWrite, XhcAllocator};
use kernel::xhc::context::{configure_endpoints, new_device_input_context, DeviceContext, EndpointContext, InputContext, SlotContext};
use kernel::xhc::manager::{completion_step, on_port_status_change, Completion, Manager, PortDecision};
use kernel::xhc::descriptor::{
    collect_descriptors, hid_device_descriptors, Descriptor, DescriptorIterator, DriverType, EndpointDescriptor,
    InterfaceDescriptor,
};
use kernel::xhc::device::{max_packet_size, Device, DeviceConfig, DeviceContextIndex, DeviceMap, DevicePhase, DeviceSlot, PhaseInput};
use kernel::xhc::driver::InterruptIn;
use kernel::xhc::endpoint::{EndpointConfig, EndpointId, EndpointType};
use kernel::xhc::phase::{
    configuration_plan, configuration_request, protocol_requests, InitState, Phase1, DATA_BUFF_SIZE,
};
use kernel::xhc::pipe::{ControlPipe, ControlPipeTransfer, Request, RequestType, SetupPacket, TransferKind};
use kernel::xhc::ring::{
    command_ring_base, CommandRing, Doorbell, EventRing, EventRingSegmentTableEntry, EventTrb, TargetEvent,
    TransferRing, TrbWrite,
};
use kernel::xhc::trb::{TrbRaw, TrbTemplate};

fn check(w: &TrbWrite, addr: u64, words: [u32; 4]) {
    assert_eq!(w.addr, addr, "address");
    assert_eq!(w.words, words, "words at {:#x}", addr);
}

#[test]
fn command_ring_commands_and_wrap() {
    let mut ring = CommandRing::new(0x1000, 2);
    let (w, d) = ring.push_no_op();
    assert_eq!(w.len(), 1);
    check(&w[0], 0x1000, [0, 0, 0, 23 << 10 | 1]);
    assert!(d == Doorbell { slot: 0, target: 0, stream: 0 });

    // the second slot is the last: a Link TRB back to the base follows
    let (w, _) = ring.push_enable_slot();
    assert_eq!(w.len(), 2);
    check(&w[0], 0x1010, [0, 0, 0, 9 << 10 | 1]);
    check(&w[1], 0x1020, [0x1000, 0, 0, 6 << 10 | 2 | 1]);
    assert_eq!(ring.transfer_ring.ring_ptr_addr, 0x1000);
    assert!(!ring.transfer_ring.cycle_bit());

    let (w, _) = ring.push_reset_endpoint(3, 5);
    check(&w[0], 0x1000, [0, 0, 0, 3 << 24 | 5 << 16 | 14 << 10]);

    let (w, _) = ring.push_configure_endpoint(0x1234_5678_9ABC_DEF0, 7);
    check(&w[0], 0x1010, [0x9ABC_DEF0, 0x1234_5678, 0, 7 << 24 | 12 << 10]);
    check(&w[1], 0x1020, [0x1000, 0, 0, 6 << 10 | 2]);
    assert!(ring.transfer_ring.cycle_bit());

    let (w, _) = ring.push_address_command(0x2000, 1);
    check(&w[0], 0x1000, [0x2000, 0, 0, 1 << 24 | 11 << 10 | 1]);
}

#[test]
fn ring_wraps_after_size_pushes() {
    let mut ring = TransferRing::new(0x4000, 3, true);
    for _ in 0..3 {
        ring.push([0, 0, 0, 1 << 10]);
    }
    assert_eq!(ring.ring_ptr_addr, 0x4000);
    assert!(!ring.cycle_bit());
    assert_eq!(ring.base_address(), 0x4000);
    assert!(ring.is_end_event_address(0x4030));
    assert!(!ring.is_end_event_address(0x4020));
    assert_eq!(ring.read(), Some(0x4000));
    assert_eq!(ring.read_trb(0), None);
}

#[test]
fn command_ring_base_clears_low_bits() {
    assert_eq!(command_ring_base(0x12345), 0x12340);
    assert_eq!(command_ring_base(0x1000), 0x1000);
}

#[test]
fn control_transfers() {
    let ring = TransferRing::new(0x3000, 8, true);
    let mut pipe = ControlPipe::new(1, DeviceContextIndex::default(), ring);
    assert_eq!(pipe.transfer_ring_base_addr(), 0x3000);

    let control_in = pipe.control_in();
    let (w, d) = control_in.with_data(&mut pipe.transfer_ring, Request::get_descriptor(2, 0, 256), 0x5000, 256);
    assert_eq!(w.len(), 3);
    check(&w[0], 0x3000, [0x0200_0680, 0x0100_0000, 8, 3 << 16 | 2 << 10 | 64 | 1]);
    check(&w[1], 0x3010, [0x5000, 0, 256, 1 << 16 | 3 << 10 | 32 | 4 | 1]);
    check(&w[2], 0x3020, [0, 0, 0, 4 << 10 | 1]);
    assert!(d == Doorbell { slot: 1, target: 1, stream: 0 });

    let control_out = pipe.control_out();
    let (w, _) = control_out.no_data(&mut pipe.transfer_ring, Request::configuration(1));
    check(&w[0], 0x3030, [0x0001_0900, 0, 8, 2 << 10 | 64 | 1]);
    check(&w[1], 0x3040, [0, 0, 0, 1 << 16 | 4 << 10 | 32 | 1]);

    let (w, _) = control_out.with_data(&mut pipe.transfer_ring, Request::configuration(2), 0x6000, 4);
    check(&w[0], 0x3050, [0x0002_0900, 0, 8, 2 << 16 | 2 << 10 | 64 | 1]);
    check(&w[1], 0x3060, [0x6000, 0, 4, 3 << 10 | 32 | 4 | 1]);
    check(&w[2], 0x3070, [0, 0, 0, 1 << 16 | 4 << 10 | 1]);
    // the eighth slot was the last one
    check(&w[3], 0x3080, [0x3000, 0, 0, 6 << 10 | 2 | 1]);
}

#[test]
fn requests() {
    let rt = RequestType::new().with_direction(true).with_ty(1).with_recipient(1);
    assert_eq!(rt.raw(), 161);
    assert_eq!(RequestType::new().raw(), 0);
    let s = Request::set_protocol(RequestType::new().with_ty(1).with_recipient(1), 2).setup_stage();
    assert_eq!((s.request_type, s.request, s.value, s.index, s.length), (33, 11, 0, 2, 0));
    assert!(s.interrupt_on_completion);
    let g = Request::get_report(3, 4).setup_stage();
    assert_eq!((g.request_type, g.request, g.value, g.index, g.length), (161, 1, 0x100, 4, 0));
    assert!(g.transfer_type == TransferKind::In);
    let d = Request::get_descriptor(1, 0, 18).setup_stage();
    assert_eq!((d.request_type, d.request, d.value, d.length), (128, 6, 0x100, 18));
    let expected = SetupPacket {
        request_type: 128,
        request: 6,
        value: 0x200,
        index: 0,
        length: DATA_BUFF_SIZE as u16,
        interrupt_on_completion: false,
        transfer_type: TransferKind::No,
    };
    assert!(configuration_request(DATA_BUFF_SIZE) == Request::GetDescriptor(expected));
}

#[test]
fn indices_and_ids() {
    assert_eq!(DeviceContextIndex::default().value(), 1);
    assert_eq!(DeviceContextIndex::new(0, false).value(), 1);
    assert_eq!(DeviceContextIndex::new(2, true).value(), 5);
    assert_eq!(DeviceContextIndex::new(2, false).value(), 4);
    assert_eq!(DeviceContextIndex::from_dci(300).as_u8(), 44);
    assert_eq!(DeviceContextIndex::from_endpoint(EndpointId::from_addr(7)).value(), 7);
    assert_eq!(EndpointId::default().value(), 1);
    assert_eq!(EndpointId::from_endpoint_num(1, true).value(), 3);
    assert!(EndpointId::from_endpoint_num(1, true).is_control_in());
    assert!(!EndpointId::from_endpoint_num(2, false).is_control_in());
    assert_eq!(max_packet_size(3), 64);
    assert_eq!(max_packet_size(4), 512);
    assert_eq!(max_packet_size(1), 8);
    let c = DeviceConfig::new(0, 3, 9);
    assert_eq!((c.parent_hub_slot_id(), c.port_speed(), c.slot_id()), (0, 3, 9));
    assert!(InitState::initialized().is_initialized());
    assert!(!InitState::not_initialized().is_initialized());
}

fn keyboard_configuration() -> Vec<u8> {
    let mut b = vec![9u8, 2, 34, 0, 1, 1, 0, 0xA0, 50];
    b.extend_from_slice(&[9, 4, 0, 0, 1, 3, 1, 1, 0]);
    b.extend_from_slice(&[9, 0x21, 0x11, 0x01, 0, 1, 0x22, 63, 0]);
    b.extend_from_slice(&[7, 5, 0x81, 3, 8, 0, 10]);
    b
}

#[test]
fn descriptors_of_a_keyboard() {
    let bytes = keyboard_configuration();
    let ds = collect_descriptors(bytes.clone(), bytes.len());
    assert_eq!(ds.len(), 4);
    assert!(matches!(ds[0], Descriptor::Configuration(c) if c.configuration_value == 1 && c.total_length == 34));
    assert!(matches!(ds[1], Descriptor::Interface(i) if i.driver_type() == DriverType::Keyboard));
    assert!(matches!(ds[2], Descriptor::Hid(h) if h.hid_release == 0x0111 && h.class_descriptor.descriptor_length == 63));
    let e = match ds[3] {
        Descriptor::Endpoint(e) => e,
        _ => panic!("not an endpoint"),
    };
    assert_eq!(e.endpoint_address().number, 1);
    assert!(e.endpoint_address().dir_in);
    assert_eq!(e.attributes().transfer_type, 3);
    assert_eq!(e.max_packet_size(), 8);
    assert_eq!(e.interval(), 10);

    let hid = hid_device_descriptors(&ds);
    assert_eq!(hid.len(), 1);
    assert!(hid[0].interface().is_keyboard());
    assert_eq!(hid[0].class_driver(&vec![DriverType::Mouse, DriverType::Keyboard]), Some(1));
    assert_eq!(hid[0].class_driver(&vec![DriverType::Mouse]), None);
    let cfg = hid[0].endpoint_config();
    assert_eq!(cfg.endpoint_id().value(), 3);
    assert!(cfg.endpoint_type() == EndpointType::InterruptIn);
    assert_eq!(cfg.device_context_index().value(), 3);

    let (value, plan) = configuration_plan(bytes.clone(), bytes.len());
    assert_eq!(value, 1);
    assert_eq!(plan.len(), 1);
}

#[test]
fn unknown_descriptor_is_not_stepped_over() {
    let mut it = DescriptorIterator::new(vec![3, 0x99, 0, 0], 4);
    assert!(matches!(it.next(), Some(Descriptor::NotSupport)));
    assert_eq!(it.index, 0);
    let mut done = DescriptorIterator::new(vec![], 0);
    assert!(done.next().is_none());
    assert!(Descriptor::NotSupport.interface().is_none());
}

#[test]
fn endpoint_types_from_descriptors() {
    let mk = |addr: u8, attr: u8| {
        EndpointDescriptor::parse(&vec![7, 5, addr, attr, 0x40, 0, 1], 0)
    };
    assert!(EndpointConfig::new(&mk(0x02, 2)).endpoint_type() == EndpointType::BulkOut);
    assert!(EndpointConfig::new(&mk(0x02, 3)).endpoint_type() == EndpointType::InterruptOut);
    // only the low two bits name the transfer type; bulk maps to BulkOut in
    // either direction
    assert!(EndpointConfig::new(&mk(0x82, 6)).endpoint_type() == EndpointType::BulkOut);
    assert!(EndpointConfig::new(&mk(0x82, 7)).endpoint_type() == EndpointType::InterruptIn);
    assert!(EndpointConfig::new(&mk(0x80, 0)).endpoint_type() == EndpointType::NotValid);
    assert!(EndpointConfig::new(&mk(0x01, 1)).endpoint_type() == EndpointType::IsochOut);
    assert_eq!(EndpointConfig::new(&mk(0x82, 1)).endpoint_id().value(), 5);
    assert_eq!(EndpointConfig::new(&mk(0x02, 1)).max_packet_size(), 0x40);
    let i = InterfaceDescriptor::parse(&vec![9, 4, 1, 0, 1, 3, 1, 2, 0], 0);
    assert!(i.is_mouse());
    assert!(i.driver_type() == DriverType::Mouse);
}

#[test]
fn interrupt_in_transfers() {
    let e = EndpointDescriptor::parse(&vec![7, 5, 0x81, 3, 8, 0, 10], 0);
    let cfg = EndpointConfig::new(&e);
    let iface = InterfaceDescriptor::parse(&vec![9, 4, 0, 0, 1, 3, 1, 1, 0], 0);
    let mut ep = InterruptIn::new(2, &cfg, TransferRing::new(0x9000, 4, true), iface, 0x7000, 8);
    assert_eq!(ep.transfer_ring_addr(), 0x9000);
    assert_eq!(ep.data_buff_addr(), 0x7000);
    let (w, d) = ep.interrupt_in();
    check(&w[0], 0x9000, [0x7000, 0, 8, 1 << 10 | 32 | 4 | 1]);
    assert!(d == Doorbell { slot: 2, target: 3, stream: 0 });

    let mut pipe = ControlPipe::new(2, DeviceContextIndex::default(), TransferRing::new(0xA000, 8, true));
    let (w, d) = ep.get_report(&mut pipe);
    check(&w[0], 0xA000, [0x0100_01A1, 0, 8, 3 << 16 | 2 << 10 | 64 | 1]);
    check(&w[1], 0xA010, [0x7000, 0, 8, 1 << 16 | 3 << 10 | 32 | 4 | 1]);
    assert!(d == Doorbell { slot: 2, target: 1, stream: 0 });
}

#[test]
fn trb_words() {
    let t = TrbRaw::from_array([1, 2, 3, 4]);
    assert_eq!(t.raw(), 4u128 << 96 | 3u128 << 64 | 2u128 << 32 | 1);
    assert_eq!(t.as_array(), [1, 2, 3, 4]);
    assert_eq!(TrbRaw::new_unchecked(t.raw()).as_array(), [1, 2, 3, 4]);
    let tt = t.template();
    assert!(tt == TrbTemplate {
        parameter: 0x2_0000_0001,
        status: 3,
        cycle_bit: false,
        evaluate_next_trb: false,
        reserved: 1,
        trb_type: 0,
        control: 0,
    });
    let u = TrbTemplate::from_words([0, 0, 0, 0xABCD_0000 | 33 << 10 | 3]);
    assert!(u.cycle_bit && u.evaluate_next_trb);
    assert_eq!(u.trb_type(), 33);
    assert_eq!(u.control, 0xABCD);
}

fn raw(w: [u32; 4]) -> TrbRaw {
    TrbRaw::from_array(w)
}

#[test]
fn events_are_recognised() {
    let zero = raw([0; 4]);
    let normal = raw([0x7000, 0, 8, 1 << 10 | 32 | 4 | 1]);
    let transfer = raw([0x9000, 0, 1 << 24, 1 << 16 | 32 << 10 | 1]);
    assert_eq!(EventTrb::target_address(&transfer), Some(0x9000));
    assert_eq!(EventTrb::target_address(&normal), None);
    match EventTrb::new(transfer, true, normal) {
        Some(EventTrb::Transfer { transfer_event, target_event: TargetEvent::Normal(n) }) => {
            assert_eq!(transfer_event[0], 0x9000);
            assert_eq!(n[0], 0x7000);
        },
        _ => panic!("a transfer event on a Normal TRB"),
    }
    // the other cycle state is no event yet
    assert!(EventTrb::new(transfer, false, normal).is_none());
    // a reserved bit set in the event
    assert!(EventTrb::new(raw([0x9000, 0, 0, 32 << 10 | 2 | 1]), true, normal).is_none());
    // the target is of no kind a transfer reports on
    assert!(EventTrb::new(transfer, true, raw([0, 0, 0, 6 << 10])).is_none());
    let data = raw([0x5000, 0, 256, 1 << 16 | 3 << 10 | 32 | 4 | 1]);
    assert!(matches!(EventTrb::new(transfer, true, data),
        Some(EventTrb::Transfer { target_event: TargetEvent::Data(_), .. })));
    let status = raw([0, 0, 0, 4 << 10 | 1]);
    assert!(matches!(EventTrb::new(transfer, true, status),
        Some(EventTrb::Transfer { target_event: TargetEvent::Status(_), .. })));

    let completion = raw([0x1000, 0, 1 << 24, 1 << 24 | 33 << 10 | 1]);
    assert!(matches!(EventTrb::new(completion, true, zero), Some(EventTrb::CommandCompletion(_))));
    assert_eq!(EventTrb::new(completion, true, zero).unwrap().circle_bit(), Some(true));
    assert!(EventTrb::new(raw([0x1001, 0, 0, 33 << 10 | 1]), true, zero).is_none());

    let port = raw([3 << 24, 0, 1 << 24, 34 << 10 | 1]);
    assert!(matches!(EventTrb::new(port, true, zero), Some(EventTrb::PortStatusChange(_))));
    assert!(EventTrb::new(raw([3 << 24, 1, 0, 34 << 10 | 1]), true, zero).is_none());

    let other = raw([0, 0, 0, 37 << 10 | 1]);
    assert!(matches!(EventTrb::new(other, true, zero), Some(EventTrb::NotSupport { trb_type: 37 })));
    assert_eq!(EventTrb::new(other, true, zero).unwrap().circle_bit(), None);
}

#[test]
fn event_ring_dequeue() {
    let entry = EventRingSegmentTableEntry::new(0x1234_5678, 70000);
    assert_eq!(entry.ring_segment_base_address, 0x1234_5640);
    assert_eq!(entry.ring_segment_size, 4464);

    let mut ring = EventRing::new(0x8000, 4, 0x8000);
    let completion = raw([0x1000, 0, 1 << 24, 1 << 24 | 33 << 10 | 1]);
    let zero = raw([0; 4]);
    assert!(ring.has_front(completion, zero));
    assert!(!ring.has_front(raw([0, 0, 0, 37 << 10 | 1]), zero));
    assert_eq!(ring.next_dequeue_pointer(0x8000), 0x8010);
    assert!(ring.transfer_ring.cycle_bit());
    assert_eq!(ring.next_dequeue_pointer(0x8030), 0x8000);
    assert!(!ring.transfer_ring.cycle_bit());
    assert!(!ring.has_front(completion, zero));
}

#[test]
fn one_port_is_addressed_at_a_time() {
    let mut m = Manager::new();
    assert!(m.is_addressing_port(3));
    assert!(m.try_addressing_id_port().is_err());
    assert!(on_port_status_change(&mut m, 3) == PortDecision::EnableSlot(3));
    assert!(on_port_status_change(&mut m, 5) == PortDecision::Wait(5));
    assert!(m.is_addressing_port(3) && !m.is_addressing_port(5));
    assert_eq!(m.try_addressing_id_port(), Ok(3));
    m.finish_addressing();
    assert!(on_port_status_change(&mut m, 5) == PortDecision::EnableSlot(5));
}

#[test]
fn completed_commands_lead_on() {
    assert!(completion_step(9) == Completion::AddressDevice);
    assert!(completion_step(11) == Completion::InitDevice);
    assert!(completion_step(12) == Completion::ConfigureEndpoint);
    assert!(completion_step(10) == Completion::Ignore);
}

#[test]
fn a_keyboard_goes_through_the_phases() {
    let bytes = keyboard_configuration();
    let phase1 = Phase1::new(vec![DriverType::Mouse, DriverType::Keyboard]);
    let (state, request, phase2) = phase1.on_transfer_event_received(DATA_BUFF_SIZE);
    assert!(!state.is_initialized());
    assert!(request == configuration_request(DATA_BUFF_SIZE));

    // 256 bytes asked, 34 came
    let (state, value, request, phase3) = phase2.on_transfer_event_received(bytes, 256, 222);
    assert!(!state.is_initialized());
    assert_eq!(value, 1);
    assert!(request == Request::configuration(1));
    assert_eq!(phase3.hid_device_descriptor_vec.len(), 1);

    let plan = phase3.driver_plan();
    assert_eq!(plan, vec![(0, 1)]);
    let ring = TransferRing::new(0x4000, 32, true);
    let buffers = vec![(0x9000u64, 4u32), (0xA000u64, 8u32)];
    // a ring that could not be had leaves the interface out
    assert!(phase3.interrupters(2, &plan, &vec![None], &buffers).is_empty());
    let interrupters = phase3.interrupters(2, &plan, &vec![Some(ring)], &buffers);
    assert_eq!(interrupters.len(), 1);
    assert_eq!((interrupters[0].data_buff_addr, interrupters[0].data_buff_len), (0xA000, 8));
    assert_eq!(interrupters[0].transfer_ring_addr(), 0x4000);

    let (state, enables, mut phase4) = phase3.on_transfer_event_received(interrupters);
    assert!(state.is_initialized());
    assert_eq!(enables.len(), 1);
    assert_eq!((enables[0].0, enables[0].2), (3, 0x4000));
    assert_eq!(phase4.interface_nums(), vec![0]);

    let steps = phase4.on_transfer_event_received();
    assert_eq!(steps.len(), 1);
    check(&steps[0].0[0], 0x4000, [0xA000, 0, 8, 1 << 10 | 4 | 32 | 1]);
    assert!(steps[0].1 == Doorbell { slot: 2, target: 3, stream: 0 });
    let requests = protocol_requests(&phase4.interface_nums());
    assert_eq!(requests.len(), 1);
    assert!(requests[0] == Request::set_protocol(RequestType::new().with_ty(1).with_recipient(1), 0));
}

#[test]
fn pool_allocations_align_and_stay_within_a_page() {
    let mut a = XhcAllocator::new_with_addr(0x10000);
    assert_eq!(a.end_addr, 0x10000 + 131072);
    assert_eq!(a.allocate(100, 64, 4096), Some(0x10000));
    assert_eq!(a.current_addr, 0x10064);
    assert_eq!(a.allocate(512, 64, 4096), Some(0x10080));
    // 4000 bytes from 0x10280 would cross the page at 0x11000
    assert_eq!(a.allocate(4000, 64, 4096), Some(0x11000));
    let mut small = XhcAllocator { current_addr: 0x2000, end_addr: 0x2100 };
    assert_eq!(small.allocate(0x200, 0, 0), None);
    assert_eq!(small.current_addr, 0x2000);
}

#[test]
fn event_ring_set_up_in_the_pool() {
    let mut a = XhcAllocator::new_with_addr(0x10000);
    let (ring, setup) = make_event_ring(&mut a, 1, 32).unwrap();
    assert_eq!(setup.table_addr, 0x10000);
    assert_eq!(setup.entry.ring_segment_base_address, 0x10040);
    assert_eq!(setup.entry.ring_segment_size, 32);
    assert!(setup.writes == vec![
        InterrupterWrite::SegmentTableSize(1),
        InterrupterWrite::DequeuePointer(0x10040),
        InterrupterWrite::StoreSegmentTableEntry,
        InterrupterWrite::SegmentTablePointer(0x10000),
        InterrupterWrite::InterrupterEnable(true),
    ]);
    assert_eq!(ring.segment_base_addr, 0x10040);
    let mut full = XhcAllocator { current_addr: 0x2000, end_addr: 0x2010 };
    assert!(make_event_ring(&mut full, 1, 32).is_err());
}

#[test]
fn input_context_of_a_new_device() {
    let input = new_device_input_context(DeviceConfig::new(2, 4, 1), 0x4000);
    assert_eq!(input.add_context_flags, 3);
    assert_eq!(input.slot, SlotContext { root_hub_port_number: 2, route_string: 0, context_entries: 1, speed: 4 });
    let ep0 = input.endpoint_at(1);
    assert!(ep0.endpoint_type == EndpointType::Control);
    assert_eq!((ep0.max_packet_size, ep0.tr_dequeue_pointer, ep0.dequeue_cycle_state, ep0.error_count), (512, 0x4000, true, 3));
    assert!(input.endpoint_at(2) == EndpointContext::empty());
    let low = new_device_input_context(DeviceConfig::new(1, 2, 1), 0x4000);
    assert_eq!(low.endpoint_at(1).max_packet_size, 8);
}

#[test]
fn input_context_that_configures_endpoints() {
    let mut input = InputContext::new();
    input.set_config(5);
    let mut device = DeviceContext::new();
    device.slot = SlotContext { root_hub_port_number: 3, route_string: 0, context_entries: 1, speed: 3 };
    let config = EndpointConfig {
        endpoint_id: EndpointId(3),
        endpoint_type: EndpointType::InterruptIn,
        max_packet_size: 8,
        interval: 10,
    };
    configure_endpoints(&mut input, &device.slot(), &vec![(3usize, config, 0x8000u64)]);
    assert_eq!((input.add_context_flags, input.configuration_value), (0b1001, 0));
    assert_eq!(input.slot, SlotContext { root_hub_port_number: 3, route_string: 0, context_entries: 31, speed: 3 });
    let ep = input.endpoint_at(3);
    assert!(ep.endpoint_type == EndpointType::InterruptIn);
    assert_eq!((ep.tr_dequeue_pointer, ep.max_packet_size, ep.interval, ep.average_trb_length, ep.error_count), (0x8000, 8, 9, 1, 3));
    assert!(input.endpoint_at(1) == EndpointContext::empty());
}

#[test]
fn devices_get_a_ring_and_an_input_context() {
    let mut alloc = XhcAllocator::new_with_addr(0x10000);
    let mut dev = Device::new_with_init_default_control_pipe(DeviceConfig::new(1, 3, 5), &mut alloc, vec![DriverType::Mouse]).unwrap();
    assert_eq!((dev.slot_id, dev.slot.slot_id), (5, 5));
    assert_eq!(dev.slot.default_control_pipe.transfer_ring_base_addr(), 0x10000);
    assert_eq!(alloc.current_addr, 0x10000 + 32 * 16);
    let input = &dev.slot.input_context;
    assert_eq!(input.add_context_flags, 3);
    assert_eq!(input.slot.root_hub_port_number, 1);
    assert_eq!((input.endpoint_at(1).max_packet_size, input.endpoint_at(1).tr_dequeue_pointer), (64, 0x10000));
    let (writes, bell) = dev.initialize(0x3000);
    assert_eq!(writes.len(), 3);
    assert!(bell == Doorbell { slot: 5, target: 1, stream: 0 });
    let steps = dev.on_endpoints_configured(&vec![0, 1]);
    assert_eq!(steps.len(), 2);
    assert_eq!(steps[0].0.len(), 2);

    let mut small = XhcAllocator { current_addr: 0, end_addr: 100 };
    assert!(DeviceSlot::new(1, &mut small).is_err());
}

#[test]
fn device_map_keeps_one_device_per_slot() {
    let mut alloc = XhcAllocator::new_with_addr(0x20000);
    let mut map = DeviceMap::new();
    assert_eq!(map.new_set(DeviceConfig::new(1, 3, 2), &mut alloc, vec![]), Ok(()));
    assert_eq!(map.new_set(DeviceConfig::new(2, 4, 3), &mut alloc, vec![]), Ok(()));
    assert_eq!(map.new_set(DeviceConfig::new(1, 3, 2), &mut alloc, vec![DriverType::Keyboard]), Ok(()));
    assert_eq!(map.devices.len(), 2);
    assert_eq!(map.position(3), Some(1));
    assert_eq!(map.position(9), None);
    let i = map.position(2).unwrap();
    assert!(matches!(&map.devices[i].phase, DevicePhase::First(p) if p.drivers.len() == 1));
}

#[test]
fn a_keyboard_device_is_configured_phase_by_phase() {
    let mut alloc = XhcAllocator::new_with_addr(0x40000);
    let mut dev = Device::new_with_init_default_control_pipe(DeviceConfig::new(1, 3, 2), &mut alloc, vec![DriverType::Mouse, DriverType::Keyboard]).unwrap();
    // an input for another phase is refused
    assert!(dev.on_transfer_event_received(PhaseInput::Report).is_err());
    assert!(matches!(dev.phase, DevicePhase::First(_)));

    let (state, steps) = dev.on_transfer_event_received(PhaseInput::DataBuffer(0x9000, 256)).unwrap();
    assert!(!state.is_initialized());
    assert_eq!(steps.len(), 1);
    assert_eq!(steps[0].0.len(), 3);
    assert!(steps[0].1 == Doorbell { slot: 2, target: 1, stream: 0 });
    assert!(matches!(dev.phase, DevicePhase::Second(_)));

    let (state, steps) = dev.on_transfer_event_received(PhaseInput::Configuration(keyboard_configuration(), 256, 222)).unwrap();
    assert!(!state.is_initialized());
    assert_eq!(steps.len(), 1);
    assert_eq!(dev.slot.input_context.configuration_value, 1);
    let plan = match &dev.phase {
        DevicePhase::Third(p) => p.driver_plan(),
        _ => panic!("not in the third phase"),
    };
    assert_eq!(plan, vec![(0, 1)]);
    let interrupters = match &dev.phase {
        DevicePhase::Third(p) => p.interrupters(2, &plan, &vec![Some(TransferRing::new(0x4000, 32, true))], &vec![(0x9000u64, 4u32), (0xA000u64, 8u32)]),
        _ => panic!("not in the third phase"),
    };

    let (state, steps) = dev.on_transfer_event_received(PhaseInput::Interrupters(interrupters)).unwrap();
    assert!(state.is_initialized());
    assert!(steps.is_empty());
    assert_eq!(dev.slot.input_context.add_context_flags, 0b1001);
    assert_eq!(dev.slot.input_context.slot.context_entries, 31);
    let ep = dev.slot.input_context.endpoint_at(3);
    assert!(ep.endpoint_type == EndpointType::InterruptIn);
    assert_eq!((ep.tr_dequeue_pointer, ep.max_packet_size, ep.interval), (0x4000, 8, 9));

    let (state, steps) = dev.on_transfer_event_received(PhaseInput::Report).unwrap();
    assert!(state.is_initialized());
    assert_eq!(steps.len(), 1);
    assert!(steps[0].1 == Doorbell { slot: 2, target: 3, stream: 0 });
    assert!(matches!(dev.phase, DevicePhase::Fourth(_)));
}

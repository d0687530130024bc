//! Control transfers on a device's default control pipe: the setup packet
//! of each request, and the Setup, Data and Status Stage TRBs that carry it.
use vstd::prelude::*;
use xhci::ring::trb::transfer::{DataStage, Direction, Normal, SetupStage, StatusStage, TransferType};
use super::device::DeviceContextIndex;
use super::ring::{lo32, hi32, push_all, writes_view, Doorbell, TransferRing, TrbWrite};

verus! {

/// Whether a control transfer has a data stage and in which direction.
#[derive(Clone, Copy, PartialEq, Eq, Structural)]
pub enum TransferKind {
    No,
    Out,
    In,
}

/// The value of the Transfer Type field for a kind.
pub open spec fn transfer_kind_code(t: TransferKind) -> int {
    match t {
        TransferKind::No => 0,
        TransferKind::Out => 2,
        TransferKind::In => 3,
    }
}

/// The largest TRB transfer length the 17-bit field holds, plus one.
pub const TRB_LENGTH_LIMIT: u32 = 0x2_0000;

/// `xhci::ring::trb::transfer::SetupStage`: `new()` sets the type (2), the
/// Immediate Data bit (bit 6 of the last word) and a transfer length of 8;
/// the setters store bmRequestType, bRequest and wValue in the first word,
/// wIndex and wLength in the second, and the transfer type in bits 16..18
/// of the last.
#[verifier::external_body]
fn setup_stage_trb(request_type: u8, request: u8, value: u16, index: u16, length: u16, transfer_type: TransferKind) -> (r: [u32; 4])
    ensures
        r@ == seq![
            (request_type + request * 256 + value * 65536) as u32,
            (index + length * 65536) as u32,
            8u32,
            (2 * 1024 + 64 + transfer_kind_code(transfer_type) * 65536) as u32,
        ],
{
    let mut setup_data = SetupStage::new();
    setup_data.set_request_type(request_type);
    setup_data.set_request(request);
    setup_data.set_value(value);
    setup_data.set_index(index);
    setup_data.set_length(length);
    setup_data.set_transfer_type(match transfer_type {
        TransferKind::No => TransferType::No,
        TransferKind::Out => TransferType::Out,
        TransferKind::In => TransferType::In,
    });
    setup_data.into_raw()
}

/// `xhci::ring::trb::transfer::DataStage`: type 3, the buffer pointer in the
/// first two words, the transfer length in bits 0..17 of the third (the
/// setter panics on a length that does not fit), the
/// Interrupt-on-Short-Packet (bit 2) and Interrupt-On-Completion (bit 5)
/// bits and the direction (bit 16) in the last.
#[verifier::external_body]
fn data_stage_trb(data_buff: u64, length: u32, dir_in: bool) -> (r: [u32; 4])
    requires
        length < TRB_LENGTH_LIMIT,
    ensures
        r@ == seq![lo32(data_buff), hi32(data_buff), length, (3 * 1024 + 4 + 32 + if dir_in { 65536int } else { 0int }) as u32],
{
    let mut data_stage = DataStage::new();
    data_stage.set_data_buffer_pointer(data_buff);
    data_stage.set_trb_transfer_length(length);
    data_stage.set_td_size(0);
    data_stage.set_direction(if dir_in { Direction::In } else { Direction::Out });
    data_stage.set_interrupt_on_completion();
    data_stage.set_interrupt_on_short_packet();
    data_stage.into_raw()
}

/// `xhci::ring::trb::transfer::StatusStage`: type 4, with the direction bit
/// (16) and the Interrupt-On-Completion bit (5) of the last word set as
/// asked.
#[verifier::external_body]
fn status_stage_trb(direction: bool, interrupt_on_completion: bool) -> (r: [u32; 4])
    ensures
        r@ == seq![0u32, 0u32, 0u32,
            (4 * 1024 + (if interrupt_on_completion { 32int } else { 0int }) + (if direction { 65536int } else { 0int })) as u32],
{
    let mut status = StatusStage::new();
    if direction {
        status.set_direction();
    }
    if interrupt_on_completion {
        status.set_interrupt_on_completion();
    }
    status.into_raw()
}

/// `xhci::ring::trb::transfer::Normal`: type 1, the buffer pointer in the
/// first two words, the transfer length in bits 0..17 of the third (the
/// setter panics on a length that does not fit), and the
/// Interrupt-on-Short-Packet (bit 2) and Interrupt-On-Completion (bit 5)
/// bits of the last.
#[verifier::external_body]
pub(crate) fn normal_trb(data_buff: u64, length: u32) -> (r: [u32; 4])
    requires
        length < TRB_LENGTH_LIMIT,
    ensures
        r@ == seq![lo32(data_buff), hi32(data_buff), length, (1 * 1024 + 4 + 32) as u32],
{
    let mut normal = Normal::new();
    normal.set_data_buffer_pointer(data_buff);
    normal.set_trb_transfer_length(length);
    normal.set_interrupt_on_completion();
    normal.set_interrupt_on_short_packet();
    normal.into_raw()
}

/// The bmRequestType byte: recipient in bits 0..5, type in 5..7, direction
/// (device to host) in bit 7.
#[derive(Clone, Copy, PartialEq, Eq, Structural)]
pub struct RequestType {
    pub recipient: u8,
    pub ty: u8,
    pub direction: bool,
}

impl RequestType {
    pub open spec fn wf(&self) -> bool {
        self.recipient < 32 && self.ty < 4
    }

    pub fn new() -> (r: Self)
        ensures
            r == (RequestType { recipient: 0, ty: 0, direction: false }),
    {
        RequestType { recipient: 0, ty: 0, direction: false }
    }

    pub fn with_direction(self, direction: bool) -> (r: Self)
        ensures
            r == (RequestType { direction, ..self }),
    {
        RequestType { direction, ..self }
    }

    pub fn with_ty(self, ty: u8) -> (r: Self)
        requires
            ty < 4,
        ensures
            r == (RequestType { ty, ..self }),
    {
        RequestType { ty, ..self }
    }

    pub fn with_recipient(self, recipient: u8) -> (r: Self)
        requires
            recipient < 32,
        ensures
            r == (RequestType { recipient, ..self }),
    {
        RequestType { recipient, ..self }
    }

    /// The byte.
    pub fn raw(&self) -> (r: u8)
        requires
            self.wf(),
        ensures
            r == self.recipient + 32 * self.ty + if self.direction { 128int } else { 0int },
    {
        self.recipient + 32 * self.ty + if self.direction { 128 } else { 0 }
    }
}

/// The fields of a setup packet.
#[derive(Clone, Copy, PartialEq, Eq, Structural)]
pub struct SetupPacket {
    pub request_type: u8,
    pub request: u8,
    pub value: u16,
    pub index: u16,
    pub length: u16,
    pub interrupt_on_completion: bool,
    pub transfer_type: TransferKind,
}

/// A standard or HID class request.
#[derive(Clone, Copy, PartialEq, Eq, Structural)]
pub enum Request {
    GetDescriptor(SetupPacket),
    Configuration(SetupPacket),
    SetProtocol(SetupPacket),
    GetReport(SetupPacket),
}

impl Request {
    /// GET_DESCRIPTOR (6) of `desc_type` and `desc_index`, device to host.
    pub fn get_descriptor(desc_type: u16, desc_index: u16, len: u16) -> (r: Self)
        ensures
            r == Request::GetDescriptor(SetupPacket {
                request_type: 128,
                request: 6,
                value: (desc_type << 8u16) | desc_index,
                index: 0,
                length: len,
                interrupt_on_completion: false,
                transfer_type: TransferKind::No,
            }),
    {
        let request_type = RequestType::new().with_direction(true).raw();
        Request::GetDescriptor(SetupPacket {
            request_type,
            request: 6,
            value: desc_type << 8 | desc_index,
            index: 0,
            length: len,
            interrupt_on_completion: false,
            transfer_type: TransferKind::No,
        })
    }

    /// GET_REPORT (1) of the input report, class request to the interface,
    /// device to host. The report length is not used: wLength stays 0.
    pub fn get_report(report_len: u16, interface_number: u16) -> (r: Self)
        ensures
            r == Request::GetReport(SetupPacket {
                request_type: 161,
                request: 1,
                value: 0x100,
                index: interface_number,
                length: 0,
                interrupt_on_completion: false,
                transfer_type: TransferKind::In,
            }),
    {
        let request_type = RequestType::new().with_direction(true).with_ty(1).with_recipient(1).raw();
        Request::GetReport(SetupPacket {
            request_type,
            request: 1,
            value: 0x100,
            index: interface_number,
            length: 0,
            interrupt_on_completion: false,
            transfer_type: TransferKind::In,
        })
    }

    pub open spec fn get_report_spec(interface_number: u16) -> Request {
        Request::GetReport(SetupPacket {
            request_type: 161,
            request: 1,
            value: 0x100,
            index: interface_number,
            length: 0,
            interrupt_on_completion: false,
            transfer_type: TransferKind::In,
        })
    }

    /// SET_CONFIGURATION (9) with `config_value`.
    pub fn configuration(config_value: u16) -> (r: Self)
        ensures
            r == Request::Configuration(SetupPacket {
                request_type: 0,
                request: 9,
                value: config_value,
                index: 0,
                length: 0,
                interrupt_on_completion: false,
                transfer_type: TransferKind::No,
            }),
    {
        Request::Configuration(SetupPacket {
            request_type: 0,
            request: 9,
            value: config_value,
            index: 0,
            length: 0,
            interrupt_on_completion: false,
            transfer_type: TransferKind::No,
        })
    }

    /// SET_PROTOCOL (11) for an interface, with an interrupt on completion.
    pub fn set_protocol(request_type: RequestType, interface_num: u16) -> (r: Self)
        requires
            request_type.wf(),
        ensures
            r == Request::SetProtocol(SetupPacket {
                request_type: (request_type.recipient + 32 * request_type.ty + if request_type.direction { 128int } else { 0int }) as u8,
                request: 11,
                value: 0,
                index: interface_num,
                length: 0,
                interrupt_on_completion: true,
                transfer_type: TransferKind::No,
            }),
    {
        Request::SetProtocol(SetupPacket {
            request_type: request_type.raw(),
            request: 11,
            value: 0,
            index: interface_num,
            length: 0,
            interrupt_on_completion: true,
            transfer_type: TransferKind::No,
        })
    }

    pub fn setup_stage(&self) -> (r: SetupPacket)
        ensures
            r == (match *self {
                Request::GetDescriptor(s) => s,
                Request::Configuration(s) => s,
                Request::SetProtocol(s) => s,
                Request::GetReport(s) => s,
            }),
    {
        match self {
            Request::GetDescriptor(s) => *s,
            Request::Configuration(s) => *s,
            Request::SetProtocol(s) => *s,
            Request::GetReport(s) => *s,
        }
    }
}

/// The Setup Stage TRB of a request: its request fields, with the transfer
/// type given for the transfer.
pub open spec fn setup_words(s: SetupPacket, t: TransferKind) -> Seq<u32> {
    seq![
        (s.request_type + s.request * 256 + s.value * 65536) as u32,
        (s.index + s.length * 65536) as u32,
        8u32,
        (2 * 1024 + 64 + transfer_kind_code(t) * 65536) as u32,
    ]
}

pub open spec fn data_words(buff: u64, len: u32, dir_in: bool) -> Seq<u32> {
    seq![lo32(buff), hi32(buff), len, (3 * 1024 + 4 + 32 + if dir_in { 65536int } else { 0int }) as u32]
}

pub open spec fn status_words(direction: bool, ioc: bool) -> Seq<u32> {
    seq![0u32, 0u32, 0u32, (4 * 1024 + (if ioc { 32int } else { 0int }) + (if direction { 65536int } else { 0int })) as u32]
}

fn make_setup(setup_stage: SetupPacket, transfer_type: TransferKind) -> (r: [u32; 4])
    ensures
        r@ == setup_words(setup_stage, transfer_type),
{
    setup_stage_trb(setup_stage.request_type, setup_stage.request, setup_stage.value, setup_stage.index,
        setup_stage.length, transfer_type)
}

/// The TRBs of a control transfer go on the pipe's ring, then the doorbell of
/// the slot is rung for the pipe's endpoint.
pub trait ControlPipeTransfer {
    spec fn doorbell(&self) -> Doorbell;

    /// A transfer without a data stage.
    fn no_data(&self, ring: &mut TransferRing, request: Request) -> (r: (Vec<TrbWrite>, Doorbell))
        requires
            old(ring).wf(),
            old(ring).ring_base_addr % 16 == 0,
        ensures
            final(ring).wf(),
            final(ring).ring_base_addr == old(ring).ring_base_addr,
            r.1 == self.doorbell(),
    ;

    /// A transfer with `len` bytes of data at `data_buff_addr`.
    fn with_data(&self, ring: &mut TransferRing, request: Request, data_buff_addr: u64, len: u32) -> (r: (Vec<TrbWrite>, Doorbell))
        requires
            old(ring).wf(),
            old(ring).ring_base_addr % 16 == 0,
            len < TRB_LENGTH_LIMIT,
        ensures
            final(ring).wf(),
            final(ring).ring_base_addr == old(ring).ring_base_addr,
            r.1 == self.doorbell(),
    ;
}

/// Pushes TRBs in order, collecting the writes.
fn push_trbs(ring: &mut TransferRing, trbs: Vec<[u32; 4]>) -> (r: Vec<TrbWrite>)
    requires
        old(ring).wf(),
        old(ring).ring_base_addr % 16 == 0,
    ensures
        final(ring).wf(),
        final(ring).ring_base_addr == old(ring).ring_base_addr,
        (*final(ring), writes_view(r@)) == push_all(*old(ring), trbs@.map_values(|t: [u32; 4]| t@)),
{
    let ghost all = trbs@.map_values(|t: [u32; 4]| t@);
    let mut writes: Vec<TrbWrite> = Vec::new();
    let mut i: usize = 0;
    while i < trbs.len()
        invariant
            ring.wf(),
            ring.ring_base_addr == old(ring).ring_base_addr,
            old(ring).ring_base_addr % 16 == 0,
            i <= trbs@.len(),
            all == trbs@.map_values(|t: [u32; 4]| t@),
            (*ring, writes_view(writes@)) == push_all(*old(ring), all.subrange(0, i as int)),
        decreases trbs@.len() - i,
    {
        let mut w = ring.push(trbs[i]);
        let ghost before = writes@;
        let ghost pushed = w@;
        writes.append(&mut w);
        proof {
            assert(all.subrange(0, i + 1).drop_last() =~= all.subrange(0, i as int));
            assert(writes_view(writes@) =~= writes_view(before) + writes_view(pushed));
        }
        i = i + 1;
    }
    proof {
        assert(all.subrange(0, i as int) =~= all);
    }
    writes
}

/// The IN side of a control pipe.
#[derive(Clone, Copy, PartialEq, Eq, Structural)]
pub struct ControlIn {
    pub slot_id: u8,
    pub device_context_index: DeviceContextIndex,
}

/// The OUT side of a control pipe.
#[derive(Clone, Copy, PartialEq, Eq, Structural)]
pub struct ControlOut {
    pub slot_id: u8,
    pub device_context_index: DeviceContextIndex,
}

impl ControlIn {
    pub fn new(slot_id: u8, device_context_index: DeviceContextIndex) -> (r: Self)
        ensures
            r == (ControlIn { slot_id, device_context_index }),
    {
        Self { slot_id, device_context_index }
    }

    /// The doorbell that starts the pipe's endpoint.
    pub fn notify(&self) -> (r: Doorbell)
        ensures
            r == (Doorbell { slot: self.slot_id as usize, target: (self.device_context_index.0 % 256) as u8, stream: 0 }),
    {
        Doorbell { slot: self.slot_id as usize, target: self.device_context_index.as_u8(), stream: 0 }
    }
}

impl ControlOut {
    pub fn new(slot_id: u8, device_context_index: DeviceContextIndex) -> (r: Self)
        ensures
            r == (ControlOut { slot_id, device_context_index }),
    {
        Self { slot_id, device_context_index }
    }

    /// The doorbell that starts the pipe's endpoint.
    pub fn notify(&self) -> (r: Doorbell)
        ensures
            r == (Doorbell { slot: self.slot_id as usize, target: (self.device_context_index.0 % 256) as u8, stream: 0 }),
    {
        Doorbell { slot: self.slot_id as usize, target: self.device_context_index.as_u8(), stream: 0 }
    }
}

pub open spec fn request_setup(request: Request) -> SetupPacket {
    match request {
        Request::GetDescriptor(s) => s,
        Request::Configuration(s) => s,
        Request::SetProtocol(s) => s,
        Request::GetReport(s) => s,
    }
}

impl ControlPipeTransfer for ControlIn {
    open spec fn doorbell(&self) -> Doorbell {
        Doorbell { slot: self.slot_id as usize, target: (self.device_context_index.0 % 256) as u8, stream: 0 }
    }

    /// A Setup Stage without data, then a Status Stage towards the host with
    /// an interrupt on completion.
    fn no_data(&self, ring: &mut TransferRing, request: Request) -> (r: (Vec<TrbWrite>, Doorbell))
        ensures
            (*final(ring), writes_view(r.0@)) == push_all(*old(ring),
                seq![setup_words(request_setup(request), TransferKind::No), status_words(true, true)]),
    {
        let setup = make_setup(request.setup_stage(), TransferKind::No);
        let status = status_stage_trb(true, true);
        let trbs = vec![setup, status];
        proof {
            assert(trbs@.map_values(|t: [u32; 4]| t@) =~= seq![setup_words(request_setup(request), TransferKind::No), status_words(true, true)]);
        }
        let writes = push_trbs(ring, trbs);
        (writes, self.notify())
    }

    /// A Setup Stage for an IN transfer, a Data Stage into the buffer, and a
    /// plain Status Stage.
    fn with_data(&self, ring: &mut TransferRing, request: Request, data_buff_addr: u64, len: u32) -> (r: (Vec<TrbWrite>, Doorbell))
        ensures
            (*final(ring), writes_view(r.0@)) == push_all(*old(ring),
                seq![setup_words(request_setup(request), TransferKind::In), data_words(data_buff_addr, len, true), status_words(false, false)]),
    {
        let setup = make_setup(request.setup_stage(), TransferKind::In);
        let data = data_stage_trb(data_buff_addr, len, true);
        let status = status_stage_trb(false, false);
        let trbs = vec![setup, data, status];
        proof {
            assert(trbs@.map_values(|t: [u32; 4]| t@) =~= seq![setup_words(request_setup(request), TransferKind::In),
                data_words(data_buff_addr, len, true), status_words(false, false)]);
        }
        let writes = push_trbs(ring, trbs);
        (writes, self.notify())
    }
}

impl ControlPipeTransfer for ControlOut {
    open spec fn doorbell(&self) -> Doorbell {
        Doorbell { slot: self.slot_id as usize, target: (self.device_context_index.0 % 256) as u8, stream: 0 }
    }

    /// A Setup Stage without data, then a Status Stage towards the host with
    /// an interrupt on completion.
    fn no_data(&self, ring: &mut TransferRing, request: Request) -> (r: (Vec<TrbWrite>, Doorbell))
        ensures
            (*final(ring), writes_view(r.0@)) == push_all(*old(ring),
                seq![setup_words(request_setup(request), TransferKind::No), status_words(true, true)]),
    {
        let setup = make_setup(request.setup_stage(), TransferKind::No);
        let status = status_stage_trb(true, true);
        let trbs = vec![setup, status];
        proof {
            assert(trbs@.map_values(|t: [u32; 4]| t@) =~= seq![setup_words(request_setup(request), TransferKind::No), status_words(true, true)]);
        }
        let writes = push_trbs(ring, trbs);
        (writes, self.notify())
    }

    /// A Setup Stage for an OUT transfer, a Data Stage from the buffer, and a
    /// Status Stage towards the host.
    fn with_data(&self, ring: &mut TransferRing, request: Request, data_buff_addr: u64, len: u32) -> (r: (Vec<TrbWrite>, Doorbell))
        ensures
            (*final(ring), writes_view(r.0@)) == push_all(*old(ring),
                seq![setup_words(request_setup(request), TransferKind::Out), data_words(data_buff_addr, len, false), status_words(true, false)]),
    {
        let setup = make_setup(request.setup_stage(), TransferKind::Out);
        let data = data_stage_trb(data_buff_addr, len, false);
        let status = status_stage_trb(true, false);
        let trbs = vec![setup, data, status];
        proof {
            assert(trbs@.map_values(|t: [u32; 4]| t@) =~= seq![setup_words(request_setup(request), TransferKind::Out),
                data_words(data_buff_addr, len, false), status_words(true, false)]);
        }
        let writes = push_trbs(ring, trbs);
        (writes, self.notify())
    }
}

/// A device's default control pipe: one transfer ring used by both
/// directions.
pub struct ControlPipe {
    pub transfer_ring: TransferRing,
    pub control_in: ControlIn,
    pub control_out: ControlOut,
}

impl ControlPipe {
    pub fn new(slot_id: u8, device_context_index: DeviceContextIndex, transfer_ring: TransferRing) -> (r: Self)
        ensures
            r.transfer_ring == transfer_ring,
            r.control_in == (ControlIn { slot_id, device_context_index }),
            r.control_out == (ControlOut { slot_id, device_context_index }),
    {
        Self {
            transfer_ring,
            control_in: ControlIn::new(slot_id, device_context_index),
            control_out: ControlOut::new(slot_id, device_context_index),
        }
    }

    pub fn control_in(&self) -> (r: ControlIn)
        ensures
            r == self.control_in,
    {
        self.control_in
    }

    pub fn control_out(&self) -> (r: ControlOut)
        ensures
            r == self.control_out,
    {
        self.control_out
    }

    pub fn transfer_ring_base_addr(&self) -> (r: u64)
        ensures
            r == self.transfer_ring.ring_base_addr,
    {
        self.transfer_ring.base_address()
    }
}

} // verus!

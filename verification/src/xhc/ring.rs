//! The rings the host controller reads and writes: transfer rings and the
//! command ring the driver fills, and the event ring it drains. The driver
//! side computes what to store where; the caller does the memory writes.
use vstd::prelude::*;
use xhci::ring::trb::command::{AddressDevice, ConfigureEndpoint, EnableSlot, Noop, ResetEndpoint};
use xhci::ring::trb::event::{CommandCompletion, PortStatusChange, TransferEvent};
use xhci::ring::trb::transfer::{DataStage, Normal, StatusStage};
use xhci::ring::trb::Link;
use super::trb::{trb_type_of, TrbRaw};

verus! {

/// Bytes in a TRB.
pub const TRB_SIZE: u64 = 16;

/// The words of a pointer, low half first.
pub open spec fn lo32(p: u64) -> u32 {
    (p % 0x1_0000_0000) as u32
}

pub open spec fn hi32(p: u64) -> u32 {
    (p / 0x1_0000_0000) as u32
}

/// A Link TRB back to `base` that toggles the cycle state.
pub open spec fn link_words(base: u64) -> Seq<u32> {
    seq![lo32(base), hi32(base), 0u32, (6 * 1024 + 2) as u32]
}

/// `xhci::ring::trb::Link`: `Link::new()` is all zero but for the type field
/// (6); `set_toggle_cycle` sets bit 1 of the last word;
/// `set_ring_segment_pointer(base)` stores the pointer in the first two words
/// and panics when it is not 16-byte aligned.
#[verifier::external_body]
fn link_trb(base: u64) -> (r: [u32; 4])
    requires
        base % 16 == 0,
    ensures
        r@ == link_words(base),
{
    let mut link = Link::new();
    link.set_toggle_cycle();
    link.set_ring_segment_pointer(base);
    link.into_raw()
}

/// `xhci::ring::trb::command::Noop::new()`: all zero but for the type
/// field, 23.
#[verifier::external_body]
fn noop_trb() -> (r: [u32; 4])
    ensures
        r@ == seq![0u32, 0u32, 0u32, (23 * 1024) as u32],
{
    Noop::new().into_raw()
}

/// `xhci::ring::trb::command::EnableSlot::new()`: all zero but for the type
/// field, 9.
#[verifier::external_body]
fn enable_slot_trb() -> (r: [u32; 4])
    ensures
        r@ == seq![0u32, 0u32, 0u32, (9 * 1024) as u32],
{
    EnableSlot::new().into_raw()
}

/// `xhci::ring::trb::command::ResetEndpoint`: type 14, the endpoint id in
/// bits 16..21 and the slot id in bits 24..32 of the last word;
/// `set_endpoint_id` panics on a value that does not fit in five bits.
#[verifier::external_body]
fn reset_endpoint_trb(slot_id: u8, endpoint_id: u8) -> (r: [u32; 4])
    requires
        endpoint_id < 32,
    ensures
        r@ == seq![0u32, 0u32, 0u32, (14 * 1024 + endpoint_id * 65536 + slot_id * 16777216) as u32],
{
    let mut reset_endpoint = ResetEndpoint::new();
    reset_endpoint.set_endpoint_id(endpoint_id);
    reset_endpoint.set_slot_id(slot_id);
    reset_endpoint.into_raw()
}

/// `xhci::ring::trb::command::ConfigureEndpoint`: the input context pointer
/// in the first two words, type 12 and the slot id in bits 24..32 of the
/// last word; `set_input_context_pointer` panics on a pointer that is not
/// 16-byte aligned.
#[verifier::external_body]
fn configure_endpoint_trb(input_context_addr: u64, slot_id: u8) -> (r: [u32; 4])
    requires
        input_context_addr % 16 == 0,
    ensures
        r@ == seq![lo32(input_context_addr), hi32(input_context_addr), 0u32, (12 * 1024 + slot_id * 16777216) as u32],
{
    let mut configure_endpoint_trb = ConfigureEndpoint::new();
    configure_endpoint_trb.set_slot_id(slot_id);
    configure_endpoint_trb.set_input_context_pointer(input_context_addr);
    configure_endpoint_trb.into_raw()
}

/// `xhci::ring::trb::command::AddressDevice`: as the Configure Endpoint TRB,
/// with type 11.
#[verifier::external_body]
fn address_device_trb(input_context_addr: u64, slot_id: u8) -> (r: [u32; 4])
    requires
        input_context_addr % 16 == 0,
    ensures
        r@ == seq![lo32(input_context_addr), hi32(input_context_addr), 0u32, (11 * 1024 + slot_id * 16777216) as u32],
{
    let mut address_command = AddressDevice::new();
    address_command.set_input_context_pointer(input_context_addr);
    address_command.set_slot_id(slot_id);
    address_command.into_raw()
}

/// The shapes the crate's `TryFrom<[u32; 4]>` impls accept: the reserved
/// bits clear and the type field right.
pub open spec fn transfer_event_shape(w: Seq<u32>) -> bool {
    w[3] & 0x00E0_03FA == 0 && trb_type_of(w[3]) == 32
}

pub open spec fn command_completion_shape(w: Seq<u32>) -> bool {
    w[0] & 0xF == 0 && w[3] & 0x3FE == 0 && trb_type_of(w[3]) == 33
}

pub open spec fn port_status_change_shape(w: Seq<u32>) -> bool {
    w[0] & 0x00FF_FFFF == 0 && w[1] == 0 && w[2] & 0x00FF_FFFF == 0 && w[3] & 0xFFFF_03FE == 0
        && trb_type_of(w[3]) == 34
}

pub open spec fn normal_shape(w: Seq<u32>) -> bool {
    w[3] & 0xFFFF_0180 == 0 && trb_type_of(w[3]) == 1
}

pub open spec fn data_stage_shape(w: Seq<u32>) -> bool {
    w[3] & 0xFFFE_0380 == 0 && trb_type_of(w[3]) == 3
}

pub open spec fn status_stage_shape(w: Seq<u32>) -> bool {
    w[0] == 0 && w[1] == 0 && w[2] & 0x003F_FFFF == 0 && w[3] & 0xFFFE_03CC == 0 && trb_type_of(w[3]) == 4
}

/// `TransferEvent::try_from`: accepts the words when bits 1, 3..10 and
/// 21..24 of the last word are clear and its type field is 32.
#[verifier::external_body]
fn is_transfer_event(raw: [u32; 4]) -> (r: bool)
    ensures
        r == transfer_event_shape(raw@),
{
    TransferEvent::try_from(raw).is_ok()
}

/// `CommandCompletion::try_from`: bits 0..4 of the first word and 1..10 of
/// the last clear, type 33.
#[verifier::external_body]
fn is_command_completion(raw: [u32; 4]) -> (r: bool)
    ensures
        r == command_completion_shape(raw@),
{
    CommandCompletion::try_from(raw).is_ok()
}

/// `PortStatusChange::try_from`: bits 0..24 of the first and third words,
/// the whole second word, and bits 1..10 and 16..32 of the last clear, type
/// 34.
#[verifier::external_body]
fn is_port_status_change(raw: [u32; 4]) -> (r: bool)
    ensures
        r == port_status_change_shape(raw@),
{
    PortStatusChange::try_from(raw).is_ok()
}

/// `Normal::try_from`: bits 7..9 and 16..32 of the last word clear, type 1.
#[verifier::external_body]
fn is_normal(raw: [u32; 4]) -> (r: bool)
    ensures
        r == normal_shape(raw@),
{
    Normal::try_from(raw).is_ok()
}

/// `DataStage::try_from`: bits 7..10 and 17..32 of the last word clear,
/// type 3.
#[verifier::external_body]
fn is_data_stage(raw: [u32; 4]) -> (r: bool)
    ensures
        r == data_stage_shape(raw@),
{
    DataStage::try_from(raw).is_ok()
}

/// `StatusStage::try_from`: the first two words and bits 0..22 of the third
/// clear, bits 2..4, 6..10 and 17..32 of the last clear, type 4.
#[verifier::external_body]
fn is_status_stage(raw: [u32; 4]) -> (r: bool)
    ensures
        r == status_stage_shape(raw@),
{
    StatusStage::try_from(raw).is_ok()
}

/// The words of a TRB with its cycle bit replaced.
pub open spec fn stamped(w: Seq<u32>, cycle: bool) -> Seq<u32> {
    seq![w[0], w[1], w[2], ((w[3] / 2) * 2 + if cycle { 1int } else { 0int }) as u32]
}

proof fn lemma_stamp(w: u32, c: bool)
    ensures
        (w & !1u32) | (c as u32) == ((w / 2) * 2 + if c { 1int } else { 0int }) as u32,
{
    let cc = c as u32;
    assert(cc <= 1 ==> (w & !1u32) | cc == ((w / 2) * 2 + cc) as u32) by (bit_vector);
}

/// A TRB to store at an address.
#[derive(Clone, Copy)]
pub struct TrbWrite {
    pub addr: u64,
    pub words: [u32; 4],
}

/// A ring of `ring_size` TRB slots from `ring_base_addr`; the producer writes
/// at `ring_ptr_addr` with its cycle state.
#[derive(Clone, Copy)]
pub struct TransferRing {
    pub ring_base_addr: u64,
    pub ring_ptr_addr: u64,
    pub ring_end_addr: u64,
    pub ring_size: usize,
    pub cycle_bit: bool,
}

impl TransferRing {
    pub open spec fn wf(&self) -> bool {
        &&& self.ring_size >= 1
        &&& self.ring_end_addr == self.ring_base_addr + TRB_SIZE * (self.ring_size - 1)
        &&& self.ring_base_addr <= self.ring_ptr_addr < self.ring_end_addr + TRB_SIZE
        &&& (self.ring_ptr_addr - self.ring_base_addr) % 16 == 0
        &&& self.ring_end_addr + 2 * TRB_SIZE <= u64::MAX
    }

    /// An empty ring: the producer starts at the base.
    pub fn new(ring_base_addr: u64, ring_size: usize, cycle_bit: bool) -> (r: Self)
        requires
            ring_size >= 1,
            ring_base_addr + TRB_SIZE * (ring_size + 1) <= u64::MAX,
        ensures
            r.wf(),
            r.ring_base_addr == ring_base_addr,
            r.ring_ptr_addr == ring_base_addr,
            r.ring_end_addr == ring_base_addr + TRB_SIZE * (ring_size - 1),
            r.ring_size == ring_size,
            r.cycle_bit == cycle_bit,
    {
        proof {
            assert(TRB_SIZE * (ring_size - 1) + 2 * TRB_SIZE == TRB_SIZE * (ring_size + 1)) by (nonlinear_arith);
        }
        Self {
            ring_base_addr,
            ring_ptr_addr: ring_base_addr,
            ring_end_addr: ring_base_addr + (TRB_SIZE * (ring_size as u64 - 1)),
            ring_size,
            cycle_bit,
        }
    }

    /// Stores `trb` at the producer position with the ring's cycle bit and
    /// moves on; past the last slot a Link TRB back to the base is stored
    /// after it, the producer returns to the base and the cycle state flips.
    pub fn push(&mut self, trb: [u32; 4]) -> (r: Vec<TrbWrite>)
        requires
            old(self).wf(),
            old(self).ring_base_addr % 16 == 0,
        ensures
            final(self).wf(),
            (*final(self), writes_view(r@)) == push_spec(*old(self), trb@),
    {
        let mut writes: Vec<TrbWrite> = Vec::new();
        writes.push(self.write(trb));
        self.ring_ptr_addr = self.ring_ptr_addr + TRB_SIZE;
        if self.is_end_event_address(self.ring_ptr_addr) {
            let link = self.rollback();
            writes.push(link);
        }
        proof {
            assert(writes_view(writes@) =~= push_spec(*old(self), trb@).1);
        }
        writes
    }

    /// The address the next TRB is read from, unless it is 0.
    pub fn read(&self) -> (r: Option<u64>)
        ensures
            r == (if self.ring_ptr_addr == 0 { None } else { Some(self.ring_ptr_addr) }),
    {
        self.read_trb(self.ring_ptr_addr)
    }

    /// `trb_addr`, unless it is the null address.
    pub fn read_trb(&self, trb_addr: u64) -> (r: Option<u64>)
        ensures
            r == (if trb_addr == 0 { None } else { Some(trb_addr) }),
    {
        if trb_addr == 0 {
            return None;
        }
        Some(trb_addr)
    }

    fn rollback(&mut self) -> (r: TrbWrite)
        requires
            old(self).ring_base_addr % 16 == 0,
        ensures
            r.addr == old(self).ring_ptr_addr,
            r.words@ == stamped(link_words(old(self).ring_base_addr), old(self).cycle_bit),
            *final(self) == (TransferRing { ring_ptr_addr: old(self).ring_base_addr, cycle_bit: !old(self).cycle_bit, ..*old(self) }),
    {
        let link = link_trb(self.ring_base_addr);
        let w = self.write(link);
        self.ring_ptr_addr = self.ring_base_addr;
        self.toggle_cycle_bit();
        w
    }

    /// The TRB stamped with the ring's cycle bit, at the producer position.
    fn write(&self, src_buff: [u32; 4]) -> (r: TrbWrite)
        ensures
            r.addr == self.ring_ptr_addr,
            r.words@ == stamped(src_buff@, self.cycle_bit),
    {
        proof {
            lemma_stamp(src_buff[3], self.cycle_bit);
        }
        let buff = [src_buff[0], src_buff[1], src_buff[2], (src_buff[3] & !0b1) | self.cycle_bit as u32];
        assert(buff@ =~= stamped(src_buff@, self.cycle_bit));
        TrbWrite { addr: self.ring_ptr_addr, words: buff }
    }

    pub fn base_address(&self) -> (r: u64)
        ensures
            r == self.ring_base_addr,
    {
        self.ring_base_addr
    }

    pub fn toggle_cycle_bit(&mut self)
        ensures
            *final(self) == (TransferRing { cycle_bit: !old(self).cycle_bit, ..*old(self) }),
    {
        self.cycle_bit = !self.cycle_bit;
    }

    pub fn cycle_bit(&self) -> (r: bool)
        ensures
            r == self.cycle_bit,
    {
        self.cycle_bit
    }

    /// Whether `addr` lies past the last slot.
    pub fn is_end_event_address(&self, addr: u64) -> (r: bool)
        requires
            self.ring_end_addr + TRB_SIZE <= u64::MAX,
        ensures
            r == (addr >= self.ring_end_addr + TRB_SIZE),
    {
        addr >= self.ring_end_addr + TRB_SIZE
    }
}

/// The doorbell to ring once TRBs are on a ring: doorbell register
/// `slot`, with the target and stream id.
#[derive(Clone, Copy, PartialEq, Eq, Structural)]
pub struct Doorbell {
    pub slot: usize,
    pub target: u8,
    pub stream: u16,
}

/// The command ring. Each command is put on the ring and the host
/// controller's doorbell (register 0, target 0) is rung.
pub struct CommandRing {
    pub transfer_ring: TransferRing,
}

/// The command ring's doorbell.
pub open spec fn host_doorbell() -> Doorbell {
    Doorbell { slot: 0, target: 0, stream: 0 }
}

impl CommandRing {
    pub open spec fn wf(&self) -> bool {
        self.transfer_ring.wf() && self.transfer_ring.ring_base_addr % 16 == 0
    }

    pub fn new(ring_ptr_addr: u64, ring_size: usize) -> (r: Self)
        requires
            ring_size >= 1,
            ring_ptr_addr + TRB_SIZE * (ring_size + 1) <= u64::MAX,
        ensures
            r.transfer_ring == TransferRing::new_spec(ring_ptr_addr, ring_size, true),
            r.transfer_ring.wf(),
    {
        Self { transfer_ring: TransferRing::new(ring_ptr_addr, ring_size, true) }
    }

    fn push_command(&mut self, trb: [u32; 4]) -> (r: (Vec<TrbWrite>, Doorbell))
        requires
            old(self).wf(),
        ensures
            final(self).wf(),
            r.1 == host_doorbell(),
            (final(self).transfer_ring, writes_view(r.0@)) == push_spec(old(self).transfer_ring, trb@),
    {
        let writes = self.transfer_ring.push(trb);
        (writes, Doorbell { slot: 0, target: 0, stream: 0 })
    }

    pub fn push_no_op(&mut self) -> (r: (Vec<TrbWrite>, Doorbell))
        requires
            old(self).wf(),
        ensures
            final(self).wf(),
            r.1 == host_doorbell(),
            (final(self).transfer_ring, writes_view(r.0@))
                == push_spec(old(self).transfer_ring, seq![0u32, 0u32, 0u32, (23 * 1024) as u32]),
    {
        let trb = noop_trb();
        self.push_command(trb)
    }

    pub fn push_reset_endpoint(&mut self, slot_id: u8, endpoint_id: u8) -> (r: (Vec<TrbWrite>, Doorbell))
        requires
            old(self).wf(),
            endpoint_id < 32,
        ensures
            final(self).wf(),
            r.1 == host_doorbell(),
            (final(self).transfer_ring, writes_view(r.0@)) == push_spec(old(self).transfer_ring,
                seq![0u32, 0u32, 0u32, (14 * 1024 + endpoint_id * 65536 + slot_id * 16777216) as u32]),
    {
        let trb = reset_endpoint_trb(slot_id, endpoint_id);
        self.push_command(trb)
    }

    pub fn push_configure_endpoint(&mut self, input_context_addr: u64, slot_id: u8) -> (r: (Vec<TrbWrite>, Doorbell))
        requires
            old(self).wf(),
            input_context_addr % 16 == 0,
        ensures
            final(self).wf(),
            r.1 == host_doorbell(),
            (final(self).transfer_ring, writes_view(r.0@)) == push_spec(old(self).transfer_ring,
                seq![lo32(input_context_addr), hi32(input_context_addr), 0u32, (12 * 1024 + slot_id * 16777216) as u32]),
    {
        let trb = configure_endpoint_trb(input_context_addr, slot_id);
        self.push_command(trb)
    }

    pub fn push_address_command(&mut self, input_context_addr: u64, slot_id: u8) -> (r: (Vec<TrbWrite>, Doorbell))
        requires
            old(self).wf(),
            input_context_addr % 16 == 0,
        ensures
            final(self).wf(),
            r.1 == host_doorbell(),
            (final(self).transfer_ring, writes_view(r.0@)) == push_spec(old(self).transfer_ring,
                seq![lo32(input_context_addr), hi32(input_context_addr), 0u32, (11 * 1024 + slot_id * 16777216) as u32]),
    {
        let trb = address_device_trb(input_context_addr, slot_id);
        self.push_command(trb)
    }

    pub fn push_enable_slot(&mut self) -> (r: (Vec<TrbWrite>, Doorbell))
        requires
            old(self).wf(),
        ensures
            final(self).wf(),
            r.1 == host_doorbell(),
            (final(self).transfer_ring, writes_view(r.0@))
                == push_spec(old(self).transfer_ring, seq![0u32, 0u32, 0u32, (9 * 1024) as u32]),
    {
        let trb = enable_slot_trb();
        self.push_command(trb)
    }
}

impl TransferRing {
    pub open spec fn new_spec(ring_base_addr: u64, ring_size: usize, cycle_bit: bool) -> TransferRing {
        TransferRing {
            ring_base_addr,
            ring_ptr_addr: ring_base_addr,
            ring_end_addr: (ring_base_addr + TRB_SIZE * (ring_size - 1)) as u64,
            ring_size,
            cycle_bit,
        }
    }
}

/// The writes a list of TRBs takes, as address and words.
pub open spec fn writes_view(v: Seq<TrbWrite>) -> Seq<(u64, Seq<u32>)> {
    v.map_values(|w: TrbWrite| (w.addr, w.words@))
}

/// Pushing one TRB: it goes to the producer position with the ring's cycle
/// bit and the producer moves one slot on; past the last slot a Link TRB back
/// to the base follows it, the producer returns to the base and the cycle
/// state flips.
pub open spec fn push_spec(ring: TransferRing, trb: Seq<u32>) -> (TransferRing, Seq<(u64, Seq<u32>)>) {
    let first = (ring.ring_ptr_addr, stamped(trb, ring.cycle_bit));
    let next = ring.ring_ptr_addr + TRB_SIZE;
    if next >= ring.ring_end_addr + TRB_SIZE {
        (TransferRing { ring_ptr_addr: ring.ring_base_addr, cycle_bit: !ring.cycle_bit, ..ring },
            seq![first, (next as u64, stamped(link_words(ring.ring_base_addr), ring.cycle_bit))])
    } else {
        (TransferRing { ring_ptr_addr: next as u64, ..ring }, seq![first])
    }
}

/// Pushing TRBs one after the other.
pub open spec fn push_all(ring: TransferRing, trbs: Seq<Seq<u32>>) -> (TransferRing, Seq<(u64, Seq<u32>)>)
    decreases trbs.len(),
{
    if trbs.len() == 0 {
        (ring, Seq::empty())
    } else {
        let (r1, w1) = push_all(ring, trbs.drop_last());
        let (r2, w2) = push_spec(r1, trbs.last());
        (r2, w1 + w2)
    }
}

/// The base of the command ring for an allocation: the address with its low
/// six bits cleared.
pub fn command_ring_base(command_ring_addr: u64) -> (r: u64)
    ensures
        r == command_ring_addr - command_ring_addr % 64,
{
    proof {
        assert(command_ring_addr & !0b00111111u64 == command_ring_addr - command_ring_addr % 64) by (bit_vector);
    }
    command_ring_addr & !0b00111111
}

/// The TRB a transfer event reports on.
#[derive(Clone, Copy)]
pub enum TargetEvent {
    Normal([u32; 4]),
    Data([u32; 4]),
    Status([u32; 4]),
}

/// An event the host controller posted.
#[derive(Clone, Copy)]
pub enum EventTrb {
    Transfer { transfer_event: [u32; 4], target_event: TargetEvent },
    PortStatusChange([u32; 4]),
    CommandCompletion([u32; 4]),
    NotSupport { trb_type: u8 },
}

/// The words of a target TRB, by its kind.
pub enum TargetView {
    Normal(Seq<u32>),
    Data(Seq<u32>),
    Status(Seq<u32>),
}

/// The words of an event, by its kind.
pub enum EventView {
    Transfer(Seq<u32>, TargetView),
    PortStatusChange(Seq<u32>),
    CommandCompletion(Seq<u32>),
    NotSupport(u8),
}

impl TargetEvent {
    pub open spec fn view(&self) -> TargetView {
        match *self {
            TargetEvent::Normal(w) => TargetView::Normal(w@),
            TargetEvent::Data(w) => TargetView::Data(w@),
            TargetEvent::Status(w) => TargetView::Status(w@),
        }
    }
}

impl EventTrb {
    pub open spec fn view(&self) -> EventView {
        match *self {
            EventTrb::Transfer { transfer_event, target_event } => EventView::Transfer(transfer_event@, target_event@),
            EventTrb::PortStatusChange(w) => EventView::PortStatusChange(w@),
            EventTrb::CommandCompletion(w) => EventView::CommandCompletion(w@),
            EventTrb::NotSupport { trb_type } => EventView::NotSupport(trb_type),
        }
    }
}

pub open spec fn event_view(r: Option<EventTrb>) -> Option<EventView> {
    match r {
        Some(e) => Some(e@),
        None => None,
    }
}

/// The kind of the TRB a transfer event points at: a Normal, Data Stage or
/// Status Stage TRB of the right shape.
pub open spec fn target_of(t: Seq<u32>) -> Option<TargetView> {
    let ty = trb_type_of(t[3]);
    if ty == 1 && normal_shape(t) {
        Some(TargetView::Normal(t))
    } else if ty == 3 && data_stage_shape(t) {
        Some(TargetView::Data(t))
    } else if ty == 4 && status_stage_shape(t) {
        Some(TargetView::Status(t))
    } else {
        None
    }
}

/// The event in these words, with the ring's cycle state: a transfer event
/// (type 32) whose target is a Normal, Data or Status Stage TRB, a command
/// completion (33), a port status change (34), or another type; `None` for a
/// TRB of the other cycle state or of a recognised type in the wrong shape.
pub open spec fn event_of(w: Seq<u32>, cycle_bit: bool, target: Seq<u32>) -> Option<EventView> {
    let ty = trb_type_of(w[3]);
    if (w[3] % 2 == 1) != cycle_bit {
        None
    } else if ty == 32 {
        if transfer_event_shape(w) && target_of(target) is Some {
            Some(EventView::Transfer(w, target_of(target).unwrap()))
        } else {
            None
        }
    } else if ty == 33 {
        if command_completion_shape(w) { Some(EventView::CommandCompletion(w)) } else { None }
    } else if ty == 34 {
        if port_status_change_shape(w) { Some(EventView::PortStatusChange(w)) } else { None }
    } else {
        Some(EventView::NotSupport(ty))
    }
}

/// The pointer words 0 and 1 of a transfer event hold.
pub open spec fn event_trb_pointer(w: Seq<u32>) -> u64 {
    (w[0] + w[1] * 0x1_0000_0000) as u64
}

impl EventTrb {
    /// Where the TRB a transfer event reports on lies: `Some` only for an
    /// event of type 32.
    pub fn target_address(trb: &TrbRaw) -> (r: Option<u64>)
        ensures
            trb_type_of(trb.as_words()[3]) == 32 ==> r == Some(event_trb_pointer(trb.as_words())),
            trb_type_of(trb.as_words()[3]) != 32 ==> r is None,
    {
        let t = trb.template();
        if t.trb_type() == 32 {
            Some(t.parameter)
        } else {
            None
        }
    }

    /// Recognises an event TRB; `target` is the TRB at the address
    /// `target_address` gives, for a transfer event.
    pub fn new(trb: TrbRaw, cycle_bit: bool, target: TrbRaw) -> (r: Option<Self>)
        ensures
            event_view(r) == event_of(trb.as_words(), cycle_bit, target.as_words()),
    {
        let trb_buff = trb.as_array();
        let template = trb.template();
        if template.cycle_bit != cycle_bit {
            return None;
        }
        let ty = template.trb_type();
        if ty == 32 {
            if !is_transfer_event(trb_buff) {
                return None;
            }
            let target_buff = target.as_array();
            let tt = target.template().trb_type();
            let target_event = if tt == 1 && is_normal(target_buff) {
                TargetEvent::Normal(target_buff)
            } else if tt == 3 && is_data_stage(target_buff) {
                TargetEvent::Data(target_buff)
            } else if tt == 4 && is_status_stage(target_buff) {
                TargetEvent::Status(target_buff)
            } else {
                return None;
            };
            Some(EventTrb::Transfer { transfer_event: trb_buff, target_event })
        } else if ty == 33 {
            if is_command_completion(trb_buff) { Some(EventTrb::CommandCompletion(trb_buff)) } else { None }
        } else if ty == 34 {
            if is_port_status_change(trb_buff) { Some(EventTrb::PortStatusChange(trb_buff)) } else { None }
        } else {
            Some(EventTrb::NotSupport { trb_type: ty })
        }
    }

    /// The cycle bit of a recognised event.
    pub fn circle_bit(&self) -> (r: Option<bool>)
        ensures
            match *self {
                EventTrb::Transfer { transfer_event, .. } => r == Some(transfer_event@[3] % 2 == 1),
                EventTrb::PortStatusChange(w) => r == Some(w@[3] % 2 == 1),
                EventTrb::CommandCompletion(w) => r == Some(w@[3] % 2 == 1),
                EventTrb::NotSupport { .. } => r is None,
            },
    {
        match self {
            EventTrb::Transfer { transfer_event, .. } => Some(cycle_of(transfer_event)),
            EventTrb::PortStatusChange(w) => Some(cycle_of(w)),
            EventTrb::CommandCompletion(w) => Some(cycle_of(w)),
            EventTrb::NotSupport { .. } => None,
        }
    }
}

fn cycle_of(w: &[u32; 4]) -> (r: bool)
    ensures
        r == (w@[3] % 2 == 1),
{
    let w3 = w[3];
    proof {
        assert((w3 & 1u32 != 0) == (w3 % 2 == 1)) by (bit_vector);
    }
    w3 & 1 != 0
}

/// The one entry of the event ring segment table: the segment's base, 64-byte
/// aligned, and its size in TRBs.
#[derive(Clone, Copy, PartialEq, Eq, Structural)]
pub struct EventRingSegmentTableEntry {
    pub ring_segment_base_address: u64,
    pub ring_segment_size: u16,
}

impl EventRingSegmentTableEntry {
    /// The entry for a segment at `segment_addr` of `segment_size` TRBs: the
    /// address with its low six bits cleared, the size truncated to 16 bits.
    pub fn new(segment_addr: u64, segment_size: usize) -> (r: Self)
        ensures
            r.ring_segment_base_address == segment_addr - segment_addr % 64,
            r.ring_segment_size == segment_size % 65536,
    {
        proof {
            assert(segment_addr & !0b0011_1111u64 == segment_addr - segment_addr % 64) by (bit_vector);
            assert(segment_size as u16 == segment_size % 65536) by (bit_vector);
        }
        EventRingSegmentTableEntry {
            ring_segment_base_address: segment_addr & !0b0011_1111u64,
            ring_segment_size: segment_size as u16,
        }
    }
}

/// The event ring: the host controller produces, the driver consumes from
/// the dequeue pointer it keeps in the interrupter registers.
pub struct EventRing {
    pub transfer_ring: TransferRing,
    pub segment_base_addr: u64,
}

impl EventRing {
    pub open spec fn wf(&self) -> bool {
        self.transfer_ring.wf()
    }

    /// The ring of one segment at `segment_base_addr`; `dequeue_pointer` is
    /// what the interrupter's dequeue register holds.
    pub fn new(segment_base_addr: u64, ring_size: usize, dequeue_pointer: u64) -> (r: Self)
        requires
            ring_size >= 1,
            dequeue_pointer + TRB_SIZE * (ring_size + 1) <= u64::MAX,
        ensures
            r.wf(),
            r.transfer_ring == TransferRing::new_spec(dequeue_pointer, ring_size, true),
            r.segment_base_addr == segment_base_addr,
    {
        Self { transfer_ring: TransferRing::new(dequeue_pointer, ring_size, true), segment_base_addr }
    }

    /// Whether the TRB at the dequeue pointer is a recognised event of the
    /// ring's cycle state.
    pub fn has_front(&self, trb: TrbRaw, target: TrbRaw) -> (r: bool)
        ensures
            r == (match event_of(trb.as_words(), self.transfer_ring.cycle_bit, target.as_words()) {
                Some(e) => !(e is NotSupport),
                None => false,
            }),
    {
        match EventTrb::new(trb, self.transfer_ring.cycle_bit(), target) {
            Some(e) => match e.circle_bit() {
                Some(c) => c == self.transfer_ring.cycle_bit(),
                None => false,
            },
            None => false,
        }
    }

    /// The dequeue pointer after consuming the event at `dequeue`: the next
    /// slot, or past the end the segment base with the cycle state flipped.
    pub fn next_dequeue_pointer(&mut self, dequeue: u64) -> (r: u64)
        requires
            old(self).wf(),
            dequeue + TRB_SIZE <= u64::MAX,
        ensures
            final(self).wf(),
            final(self).segment_base_addr == old(self).segment_base_addr,
            dequeue + TRB_SIZE >= old(self).transfer_ring.ring_end_addr + TRB_SIZE ==> {
                &&& r == old(self).segment_base_addr
                &&& final(self).transfer_ring == (TransferRing { cycle_bit: !old(self).transfer_ring.cycle_bit, ..old(self).transfer_ring })
            },
            dequeue + TRB_SIZE < old(self).transfer_ring.ring_end_addr + TRB_SIZE ==> {
                &&& r == dequeue + TRB_SIZE
                &&& final(self).transfer_ring == old(self).transfer_ring
            },
    {
        let next_addr = dequeue + TRB_SIZE;
        if self.transfer_ring.is_end_event_address(next_addr) {
            self.transfer_ring.toggle_cycle_bit();
            self.segment_base_addr
        } else {
            next_addr
        }
    }
}


/// Each of the first `k` pushes onto a ring starting at its base moves the
/// producer one slot on without wrapping, while `k` is below the ring size.
proof fn lemma_push_prefix(ring: TransferRing, trbs: Seq<Seq<u32>>, k: int)
    requires
        ring.wf(),
        ring.ring_ptr_addr == ring.ring_base_addr,
        0 <= k < ring.ring_size,
        k <= trbs.len(),
    ensures
        push_all(ring, trbs.subrange(0, k)).0 == (TransferRing { ring_ptr_addr: (ring.ring_base_addr + TRB_SIZE * k) as u64, ..ring }),
    decreases k,
{
    if k > 0 {
        lemma_push_prefix(ring, trbs, k - 1);
        assert(trbs.subrange(0, k).drop_last() =~= trbs.subrange(0, k - 1));
    } else {
        assert(trbs.subrange(0, 0) =~= Seq::<Seq<u32>>::empty());
    }
}

/// A ring filled from its base with as many TRBs as it has slots is back at
/// its base with the cycle state flipped.
pub proof fn law_ring_wraps_after_size_pushes(ring: TransferRing, trbs: Seq<Seq<u32>>)
    requires
        ring.wf(),
        ring.ring_ptr_addr == ring.ring_base_addr,
        trbs.len() == ring.ring_size,
    ensures
        push_all(ring, trbs).0 == (TransferRing { cycle_bit: !ring.cycle_bit, ..ring }),
{
    let n = ring.ring_size as int;
    lemma_push_prefix(ring, trbs, n - 1);
    assert(trbs.drop_last() =~= trbs.subrange(0, n - 1));
}

} // verus!

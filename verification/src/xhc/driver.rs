//! Interrupt IN endpoints of HID devices: each report the device sends
//! lands in its driver's buffer through a Normal TRB.
use vstd::prelude::*;
use super::descriptor::InterfaceDescriptor;
use super::endpoint::EndpointConfig;
use super::pipe::{normal_trb, ControlPipe, ControlPipeTransfer, Request, TRB_LENGTH_LIMIT, data_words, setup_words,
    status_words, request_setup, TransferKind};
use super::ring::{lo32, hi32, push_spec, push_all, writes_view, Doorbell, TransferRing, TrbWrite};

verus! {

/// An interrupt IN endpoint bound to a driver's data buffer.
pub struct InterruptIn {
    pub slot_id: u8,
    pub endpoint_config: EndpointConfig,
    pub transfer_ring: TransferRing,
    pub interface: InterfaceDescriptor,
    pub data_buff_addr: u64,
    pub data_buff_len: u32,
}

impl InterruptIn {
    pub open spec fn wf(&self) -> bool {
        &&& self.transfer_ring.wf()
        &&& self.transfer_ring.ring_base_addr % 16 == 0
        &&& self.data_buff_len < TRB_LENGTH_LIMIT
    }

    pub fn new(
        slot_id: u8,
        endpoint_config: &EndpointConfig,
        transfer_ring: TransferRing,
        interface: InterfaceDescriptor,
        data_buff_addr: u64,
        data_buff_len: u32,
    ) -> (r: Self)
        ensures
            r == (InterruptIn { slot_id, endpoint_config: *endpoint_config, transfer_ring, interface, data_buff_addr, data_buff_len }),
    {
        Self { slot_id, endpoint_config: *endpoint_config, transfer_ring, interface, data_buff_addr, data_buff_len }
    }

    /// Asks the device for its input report on the default control pipe,
    /// into the driver's buffer.
    pub fn get_report(&self, default_control_pipe: &mut ControlPipe) -> (r: (Vec<TrbWrite>, Doorbell))
        requires
            self.wf(),
            old(default_control_pipe).transfer_ring.wf(),
            old(default_control_pipe).transfer_ring.ring_base_addr % 16 == 0,
        ensures
            final(default_control_pipe).transfer_ring.wf(),
            final(default_control_pipe).control_in == old(default_control_pipe).control_in,
            final(default_control_pipe).control_out == old(default_control_pipe).control_out,
            (final(default_control_pipe).transfer_ring, writes_view(r.0@)) == push_all(old(default_control_pipe).transfer_ring,
                seq![setup_words(request_setup(Request::get_report_spec(0)), TransferKind::In),
                    data_words(self.data_buff_addr, self.data_buff_len, true), status_words(false, false)]),
            r.1 == (Doorbell {
                slot: old(default_control_pipe).control_in.slot_id as usize,
                target: (old(default_control_pipe).control_in.device_context_index.0 % 256) as u8,
                stream: 0,
            }),
    {
        let request = Request::get_report(3, 0);
        let control_in = default_control_pipe.control_in();
        control_in.with_data(&mut default_control_pipe.transfer_ring, request, self.data_buff_addr, self.data_buff_len)
    }

    /// Queues a Normal TRB for the next report and rings the endpoint's
    /// doorbell.
    pub fn interrupt_in(&mut self) -> (r: (Vec<TrbWrite>, Doorbell))
        requires
            old(self).wf(),
        ensures
            final(self).wf(),
            final(self).slot_id == old(self).slot_id,
            final(self).endpoint_config == old(self).endpoint_config,
            final(self).data_buff_addr == old(self).data_buff_addr,
            final(self).data_buff_len == old(self).data_buff_len,
            final(self).interface == old(self).interface,
            (final(self).transfer_ring, writes_view(r.0@)) == push_spec(old(self).transfer_ring,
                seq![lo32(old(self).data_buff_addr), hi32(old(self).data_buff_addr), old(self).data_buff_len, (1 * 1024 + 4 + 32) as u32]),
            r.1 == (Doorbell { slot: old(self).slot_id as usize, target: (old(self).endpoint_config.endpoint_id.0 % 256) as u8, stream: 0 }),
    {
        let trb = normal_trb(self.data_buff_addr, self.data_buff_len);
        let writes = self.transfer_ring.push(trb);
        (writes, self.notify())
    }

    pub fn endpoint_config(&self) -> (r: EndpointConfig)
        ensures
            r == self.endpoint_config,
    {
        self.endpoint_config
    }

    pub fn interface_ref(&self) -> (r: InterfaceDescriptor)
        ensures
            r == self.interface,
    {
        self.interface
    }

    pub fn transfer_ring_addr(&self) -> (r: u64)
        ensures
            r == self.transfer_ring.ring_base_addr,
    {
        self.transfer_ring.base_address()
    }

    pub fn data_buff_addr(&self) -> (r: u64)
        ensures
            r == self.data_buff_addr,
    {
        self.data_buff_addr
    }

    fn notify(&self) -> (r: Doorbell)
        ensures
            r == (Doorbell { slot: self.slot_id as usize, target: (self.endpoint_config.endpoint_id.0 % 256) as u8, stream: 0 }),
    {
        let endpoint_id = self.endpoint_config.endpoint_id().value();
        proof {
            assert(endpoint_id as u8 == endpoint_id % 256) by (bit_vector);
        }
        Doorbell { slot: self.slot_id as usize, target: endpoint_id as u8, stream: 0 }
    }
}

} // verus!

//! The xHCI USB host controller: rings of transfer request blocks, the
//! descriptors devices report, and the steps that configure a device.
pub mod trb;
pub mod ring;
pub mod descriptor;
pub mod endpoint;
pub mod device;
pub mod pipe;
pub mod driver;
pub mod phase;
pub mod manager;
pub mod allocator;
pub mod context;

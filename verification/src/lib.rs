//! Verified core of a small x86_64 hobby kernel: boot information, memory
//! allocators, collections, block devices and the FAT32 file system, input
//! drivers, PCI configuration and the xHCI transfer rings.

pub mod bytes;
pub mod boot;
pub mod collections;
pub mod device;
pub mod util;
pub mod cache;
pub mod allocator;
pub mod graphic;
pub mod font;
pub mod console;
pub mod xhc;
pub mod fs;
pub mod acpi;
pub mod elf;
pub mod ap;
pub mod gdt;

use kernel::boot::{boot_layout, FrameBufferConfig, MemoryMap, MemoryType, PixelFormat, RSDP};
use kernel::bytes::{read_u16_le, read_u32_le, read_u64_le, sum};

#[test]
fn little_endian_reads() {
    let b = [0x01u8, 0x02, 0x03, 0x04, 0x05, 0x06, 0x07, 0x08, 0x09];
    assert_eq!(read_u16_le(&b, 0), 0x0201);
    assert_eq!(read_u16_le(&b, 7), 0x0908);
    assert_eq!(read_u32_le(&b, 1), 0x05040302);
    assert_eq!(read_u64_le(&b, 0), 0x0807060504030201);
    assert_eq!(read_u64_le(&b, 1), 0x0908070605040302);
}

#[test]
fn checksum_wraps() {
    let b = [0xF0u8, 0x20, 0x01, 0x77];
    assert_eq!(sum(&b, 0), 0);
    assert_eq!(sum(&b, 2), 0x10);
    assert_eq!(sum(&b, 3), 0x11);
    assert_eq!(sum(&b, 4), 0x88);
}

#[test]
fn frame_buffer_geometry() {
    let c = FrameBufferConfig::new(600, 800, 832, 0x8000_0000, PixelFormat::BGRReserved8);
    assert_eq!(c.resolution(), (600, 800));
    assert_eq!(c.address(), 0x8000_0000);
    assert_eq!(c.stride(), 832);
    assert_eq!(c.pixel_format(), PixelFormat::BGRReserved8);
    assert_eq!(c.size(), 600 * 832 * 4);
}

#[test]
fn memory_type_codes() {
    assert_eq!(MemoryType::from_code(0), Some(MemoryType::ReservedMemoryType));
    assert_eq!(MemoryType::from_code(7), Some(MemoryType::ConventionalMemory));
    assert_eq!(MemoryType::from_code(14), Some(MemoryType::PersistentMemory));
    assert_eq!(MemoryType::from_code(15), None);
    assert_eq!(MemoryType::from_code(0xFFFF_FFFF), None);
}

fn put_u32(buf: &mut Vec<u8>, off: usize, v: u32) {
    buf[off..off + 4].copy_from_slice(&v.to_le_bytes());
}

fn put_u64(buf: &mut Vec<u8>, off: usize, v: u64) {
    buf[off..off + 8].copy_from_slice(&v.to_le_bytes());
}

fn sample_map() -> MemoryMap {
    // three descriptors of 48 bytes each; the third has an invalid type code
    let mut buffer = vec![0u8; 48 * 3];
    put_u32(&mut buffer, 0, 7);
    put_u64(&mut buffer, 8, 0x1000);
    put_u64(&mut buffer, 24, 4);
    put_u32(&mut buffer, 48, 3);
    put_u64(&mut buffer, 48 + 8, 0x10_0000);
    put_u64(&mut buffer, 48 + 16, 0x20_0000);
    put_u64(&mut buffer, 48 + 24, 16);
    put_u64(&mut buffer, 48 + 32, 0xF);
    put_u32(&mut buffer, 96, 99);
    MemoryMap { buffer_size: 48 * 3, buffer, map_size: 48 * 3, descriptor_size: 48 }
}

#[test]
fn memory_map_get() {
    let map = sample_map();
    let d0 = map.get(0).unwrap();
    assert_eq!(d0.type_, MemoryType::ConventionalMemory);
    assert_eq!(d0.physical_start, 0x1000);
    assert_eq!(d0.number_of_pages, 4);
    let d1 = map.get(1).unwrap();
    assert_eq!(d1.type_, MemoryType::BootServicesCode);
    assert_eq!(d1.physical_start, 0x10_0000);
    assert_eq!(d1.virtual_start, 0x20_0000);
    assert_eq!(d1.number_of_pages, 16);
    assert_eq!(d1.attribute, 0xF);
    assert!(map.get(2).is_none());
    assert!(map.get(3).is_none());
}

#[test]
fn memory_map_iteration_stops_at_first_refusal() {
    let map = sample_map();
    let mut it = map.entries();
    assert!(it.next().is_some());
    assert!(it.next().is_some());
    assert!(it.next().is_none());
    assert_eq!(it.index, 2);
    assert!(it.next().is_none());
}

fn valid_rsdp() -> Vec<u8> {
    let mut raw = vec![0u8; 36];
    raw[..8].copy_from_slice(b"RSD PTR ");
    raw[15] = 2;
    put_u64(&mut raw, 24, 0xDEAD_BEEF_0000);
    // fix the first checksum with byte 8, the extended one with byte 32
    let s20: u8 = raw[..20].iter().fold(0u8, |a, b| a.wrapping_add(*b));
    raw[8] = 0u8.wrapping_sub(s20);
    let s36: u8 = raw[..36].iter().fold(0u8, |a, b| a.wrapping_add(*b));
    raw[32] = 0u8.wrapping_sub(s36);
    raw
}

#[test]
fn rsdp_validity() {
    let r = RSDP::from_bytes(valid_rsdp());
    assert_eq!(r.xsdt_address, 0xDEAD_BEEF_0000);
    assert!(r.is_valid());

    let mut bad_sig = valid_rsdp();
    bad_sig[0] = b'X';
    assert!(!RSDP::from_bytes(bad_sig).is_valid());

    let mut bad_rev = valid_rsdp();
    bad_rev[15] = 1;
    bad_rev[9] = bad_rev[9].wrapping_add(1);
    assert!(!RSDP::from_bytes(bad_rev).is_valid());

    let mut bad_sum = valid_rsdp();
    bad_sum[33] = bad_sum[33].wrapping_add(1);
    assert!(!RSDP::from_bytes(bad_sum).is_valid());
}

#[test]
fn boot_layout_places_stacks_on_mib_boundaries() {
    let l = boot_layout(0x100000, 0x123456);
    assert_eq!(l.kernel_pages, 36);
    assert_eq!(l.stack_start, 0x200000);
    assert_eq!(l.stack_end, 0x300000);
    assert_eq!(l.ist_start, 0x300000);
    assert_eq!(l.ist_end, 0x400000);

    let aligned = boot_layout(0x100000, 0x200000);
    assert_eq!(aligned.kernel_pages, 0x100);
    assert_eq!(aligned.stack_start, 0x200000);
    assert_eq!(aligned.ist_start, 0x300000);
}

use kernel::allocator::dump::DumpAllocator;
use kernel::allocator::frame::{is_available, Bitmap, FrameBitmapManager};
use kernel::allocator::slab::{BlockList, Slab, SlabAllocator};
use kernel::allocator::{align, null_frame, Allocator, FrameID};
use kernel::boot::{MemoryDescriptor, MemoryMap, MemoryType};

#[test]
fn align_moves_to_the_next_multiple() {
    assert_eq!(align(0, 8), 8);
    assert_eq!(align(5, 8), 8);
    // an aligned base still moves a whole step
    assert_eq!(align(8, 8), 16);
    assert_eq!(align(4095, 4096), 4096);
    assert_eq!(align(7, 0), 7);
}

#[test]
fn frame_ids() {
    assert_eq!(FrameID::new(3).id(), 3);
    assert_eq!(FrameID::new(3).frame(), 3 * 4096);
    assert_eq!(null_frame().id(), u64::MAX);
}

#[test]
fn bitmap_set_then_get() {
    let mut b = Bitmap::new();
    assert_eq!(Bitmap::bits(), 8);
    assert_eq!(b.get(3), Ok(false));
    assert_eq!(b.set(3, true), Ok(()));
    assert_eq!(b.get(3), Ok(true));
    assert_eq!(b.0, 0b1000);
    assert_eq!(b.set(7, true), Ok(()));
    assert_eq!(b.set(3, false), Ok(()));
    assert_eq!(b.0, 0b1000_0000);
    assert_eq!(b.get(8), Err(()));
    assert_eq!(b.set(8, true), Err(()));
    assert_eq!(b.0, 0b1000_0000);
}

#[test]
fn available_memory_types() {
    let d = |t| MemoryDescriptor { type_: t, physical_start: 0, virtual_start: 0, number_of_pages: 1, attribute: 0 };
    assert!(is_available(&d(MemoryType::ConventionalMemory)));
    assert!(is_available(&d(MemoryType::BootServicesCode)));
    assert!(is_available(&d(MemoryType::BootServicesData)));
    assert!(!is_available(&d(MemoryType::LoaderData)));
    assert!(!is_available(&d(MemoryType::ACPIReclaimMemory)));
}

fn put(buf: &mut Vec<u8>, off: usize, bytes: &[u8]) {
    buf[off..off + bytes.len()].copy_from_slice(bytes);
}

#[test]
fn frame_manager_scan_marks_holes_and_used_regions() {
    let mut buffer = vec![0u8; 40 * 3];
    // conventional memory at 0x1000, 4 pages
    put(&mut buffer, 0, &7u32.to_le_bytes());
    put(&mut buffer, 8, &0x1000u64.to_le_bytes());
    put(&mut buffer, 24, &4u64.to_le_bytes());
    // boot services code at 1 MiB, 16 pages: the hole before it is used
    put(&mut buffer, 40, &3u32.to_le_bytes());
    put(&mut buffer, 48, &0x10_0000u64.to_le_bytes());
    put(&mut buffer, 64, &16u64.to_le_bytes());
    // an entry with an unknown type ends the walk
    put(&mut buffer, 80, &77u32.to_le_bytes());
    let map = MemoryMap { buffer_size: 120, buffer, map_size: 120, descriptor_size: 40 };

    let mut m = FrameBitmapManager::new();
    m.scan(&map);
    assert_eq!(m.range_begin, FrameID(1));
    assert_eq!(m.range_end, FrameID(0x11_0000 / 4096));
    assert_eq!(m.bitmap[0].0, 0b0001_1111);
    assert_eq!(m.bitmap[1].0, 0);
}

#[test]
fn frame_manager_allocate_and_free() {
    let mut m = FrameBitmapManager::new();
    m.set_range(FrameID(1), FrameID(100));
    m.mark_alloc(FrameID(4), 2);
    assert_eq!(m.bitmap[0].0, 0b0000_1111);
    // the search runs over marked frames from the start of the range
    assert_eq!(m.allocate(3), Ok(FrameID(1)));
    assert_eq!(m.free(FrameID(0), 4), Ok(()));
    assert_eq!(m.bitmap[0].0, 0);
    // with nothing marked, every run breaks at once and none is found
    m.set_range(FrameID(1), FrameID(20));
    assert_eq!(m.allocate(2), Err(()));
}

#[test]
fn dump_allocator_bumps_and_refuses() {
    let mut a = DumpAllocator::new(0x1000, 0x100);
    assert_eq!(a.allocate(16, 16), Ok(0x1010));
    assert_eq!(a.ptr, 0x1030);
    assert_eq!(a.allocate(0x100, 1), Err(()));
    assert_eq!(a.ptr, 0x1030);
    a.free(0x1010, 16, 16);
    assert_eq!(a.ptr, 0x1030);
}

#[test]
fn block_lists_and_slabs() {
    let l = BlockList::new(0x100, 0x10, 3);
    assert_eq!(l.len(), 3);
    let mut s = Slab::new(0x1000, 0x40, 0x10);
    assert_eq!(s.block_size(), 0x10);
    assert_eq!(s.allocate(8, 8), Ok(0x1000));
    assert_eq!(s.allocate(8, 8), Ok(0x1010));
    s.free(0x1000);
    assert_eq!(s.allocate(8, 8), Ok(0x1000));
    assert_eq!(s.allocate(8, 8), Ok(0x1020));
    assert_eq!(s.allocate(8, 8), Ok(0x1030));
    assert_eq!(s.allocate(8, 8), Err(()));
    s.grow(0x2000, 0x20);
    assert_eq!(s.allocate(8, 8), Ok(0x2010));
    assert_eq!(s.allocate(8, 8), Ok(0x2000));
    assert!(s.free_block.is_empty());
}

#[test]
fn slab_allocator_picks_the_smallest_slab() {
    let base = 0x10_0000usize;
    let mut a = SlabAllocator::new(base, 8 * 8192);
    assert_eq!(a.get_size(64, 64), Some(0));
    assert_eq!(a.get_size(65, 1), Some(1));
    assert_eq!(a.get_size(1, 128), Some(1));
    assert_eq!(a.get_size(4096, 8), Some(6));
    assert_eq!(a.get_size(4097, 1), None);
    assert_eq!(a.allocate(10, 8), Ok(base));
    assert_eq!(a.allocate(10, 8), Ok(base + 64));
    assert_eq!(a.allocate(100, 8), Ok(base + 8192));
    // the third slab starts past a region that no slab uses
    assert_eq!(a.allocate(200, 8), Ok(base + 3 * 8192));
    // too large for every slab: the bump allocator past the slabs
    assert_eq!(a.allocate(5000, 8), Ok(base + 8 * 8192 + 8));
    assert_eq!(a.allocate(5000, 8), Err(()));
}

#[test]
fn slab_allocator_free_then_allocate_gives_the_block_back() {
    let base = 0x10_0000usize;
    let mut a = SlabAllocator::new(base, 8 * 8192);
    let p = a.allocate(32, 8).unwrap();
    let _q = a.allocate(32, 8).unwrap();
    a.free(p, 32, 8);
    assert_eq!(a.allocate(32, 8), Ok(p));
    a.grow(0x9000_0000, 128, Some(1));
    assert_eq!(a.allocate(100, 1), Ok(0x9000_0000));
}

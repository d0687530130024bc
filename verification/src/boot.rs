//! What the boot loader hands the kernel: the frame buffer, the UEFI memory
//! map and the ACPI root pointer.
use vstd::prelude::*;
use crate::bytes::{le_u32, le_u64, read_u32_le, read_u64_le, checksum, sum};

verus! {

/// Pixel layout of the frame buffer.
#[derive(Clone, Copy, Debug, PartialEq, Eq, Structural)]
pub enum PixelFormat {
    RGBReserved8,
    BGRReserved8,
    Bitmask,
    BltOnly,
}

/// Geometry and location of the linear frame buffer.
#[derive(Clone, Copy)]
pub struct FrameBufferConfig {
    pub height: usize,
    pub width: usize,
    pub pixel_per_scanline: usize,
    pub buffer_addr: u64,
    pub pixel_format: PixelFormat,
}

impl FrameBufferConfig {
    pub fn new(
        height: usize,
        width: usize,
        pixel_per_scanline: usize,
        buffer_addr: u64,
        pixel_format: PixelFormat,
    ) -> (r: Self)
        ensures
            r.height == height,
            r.width == width,
            r.pixel_per_scanline == pixel_per_scanline,
            r.buffer_addr == buffer_addr,
            r.pixel_format == pixel_format,
    {
        Self { height, width, pixel_per_scanline, buffer_addr, pixel_format }
    }

    /// `(height, width)`, in that order.
    pub fn resolution(&self) -> (r: (usize, usize))
        ensures
            r == (self.height, self.width),
    {
        (self.height, self.width)
    }

    pub fn address(&self) -> (r: u64)
        ensures
            r == self.buffer_addr,
    {
        self.buffer_addr
    }

    pub fn stride(&self) -> (r: usize)
        ensures
            r == self.pixel_per_scanline,
    {
        self.pixel_per_scanline
    }

    pub fn pixel_format(&self) -> (r: PixelFormat)
        ensures
            r == self.pixel_format,
    {
        self.pixel_format
    }

    /// Size of the frame buffer in bytes: four bytes per pixel, `stride`
    /// pixels per line, `height` lines.
    pub fn size(&self) -> (r: usize)
        requires
            self.height * self.pixel_per_scanline * 4 <= usize::MAX,
        ensures
            r == self.height * self.pixel_per_scanline * 4,
    {
        proof {
            vstd::arithmetic::mul::lemma_mul_nonnegative(self.height as int, self.pixel_per_scanline as int);
            assert(self.height * self.pixel_per_scanline <= self.height * self.pixel_per_scanline * 4);
        }
        self.height * self.pixel_per_scanline * 4
    }
}

/// UEFI memory types, in the order of their numeric codes.
#[derive(Clone, Copy, Debug, PartialEq, Eq, Structural)]
pub enum MemoryType {
    ReservedMemoryType,
    LoaderCode,
    LoaderData,
    BootServicesCode,
    BootServicesData,
    RuntimeServicesCode,
    RuntimeServicesData,
    ConventionalMemory,
    UnusableMemory,
    ACPIReclaimMemory,
    ACPIMemoryNVS,
    MemoryMappedIO,
    MemoryMappedIOPortSpace,
    PalCode,
    PersistentMemory,
    MaxMemoryType,
}

/// Numeric code of a memory type.
pub open spec fn memory_type_code(t: MemoryType) -> int {
    match t {
        MemoryType::ReservedMemoryType => 0,
        MemoryType::LoaderCode => 1,
        MemoryType::LoaderData => 2,
        MemoryType::BootServicesCode => 3,
        MemoryType::BootServicesData => 4,
        MemoryType::RuntimeServicesCode => 5,
        MemoryType::RuntimeServicesData => 6,
        MemoryType::ConventionalMemory => 7,
        MemoryType::UnusableMemory => 8,
        MemoryType::ACPIReclaimMemory => 9,
        MemoryType::ACPIMemoryNVS => 10,
        MemoryType::MemoryMappedIO => 11,
        MemoryType::MemoryMappedIOPortSpace => 12,
        MemoryType::PalCode => 13,
        MemoryType::PersistentMemory => 14,
        MemoryType::MaxMemoryType => 15,
    }
}

impl MemoryType {
    /// The memory type with code `code`, for codes below `MaxMemoryType`.
    pub fn from_code(code: u32) -> (r: Option<MemoryType>)
        ensures
            code < 15 <==> r is Some,
            r matches Some(t) ==> memory_type_code(t) == code,
    {
        match code {
            0 => Some(MemoryType::ReservedMemoryType),
            1 => Some(MemoryType::LoaderCode),
            2 => Some(MemoryType::LoaderData),
            3 => Some(MemoryType::BootServicesCode),
            4 => Some(MemoryType::BootServicesData),
            5 => Some(MemoryType::RuntimeServicesCode),
            6 => Some(MemoryType::RuntimeServicesData),
            7 => Some(MemoryType::ConventionalMemory),
            8 => Some(MemoryType::UnusableMemory),
            9 => Some(MemoryType::ACPIReclaimMemory),
            10 => Some(MemoryType::ACPIMemoryNVS),
            11 => Some(MemoryType::MemoryMappedIO),
            12 => Some(MemoryType::MemoryMappedIOPortSpace),
            13 => Some(MemoryType::PalCode),
            14 => Some(MemoryType::PersistentMemory),
            _ => None,
        }
    }
}

/// One entry of the UEFI memory map.
#[derive(Clone, Copy)]
pub struct MemoryDescriptor {
    pub type_: MemoryType,
    pub physical_start: u64,
    pub virtual_start: u64,
    pub number_of_pages: u64,
    pub attribute: u64,
}

/// Bytes that one descriptor occupies in its C layout.
pub const MEMORY_DESCRIPTOR_BYTES: usize = 40;

/// Most descriptors the kernel ever looks at.
pub const MEMORY_MAP_MAX_ENTRIES: usize = 110;

/// The descriptor whose C layout starts at `off`, when its type code is valid.
pub open spec fn descriptor_at(s: Seq<u8>, off: int) -> Option<MemoryDescriptor> {
    let code = le_u32(s, off);
    if code < 15 {
        Some(MemoryDescriptor {
            type_: choose|t: MemoryType| memory_type_code(t) == code,
            physical_start: le_u64(s, off + 8) as u64,
            virtual_start: le_u64(s, off + 16) as u64,
            number_of_pages: le_u64(s, off + 24) as u64,
            attribute: le_u64(s, off + 32) as u64,
        })
    } else {
        None
    }
}

/// The UEFI memory map, with the bytes of its descriptor array.
#[derive(Clone)]
pub struct MemoryMap {
    pub buffer_size: u64,
    pub buffer: Vec<u8>,
    pub map_size: u64,
    pub descriptor_size: u64,
}

impl MemoryMap {
    /// The map's bytes hold every descriptor that `map_size` announces, and
    /// each descriptor is at least as large as its C layout.
    pub open spec fn wf(&self) -> bool {
        &&& self.descriptor_size >= MEMORY_DESCRIPTOR_BYTES
        &&& self.map_size <= self.buffer@.len()
    }

    /// Number of descriptors the map announces.
    pub open spec fn spec_len(&self) -> int {
        self.map_size as int / self.descriptor_size as int
    }

    /// The descriptor at `index`, as `get` returns it.
    pub open spec fn spec_get(&self, index: int) -> Option<MemoryDescriptor> {
        if index >= self.spec_len() || index >= MEMORY_MAP_MAX_ENTRIES {
            None
        } else {
            descriptor_at(self.buffer@, self.descriptor_size * index)
        }
    }

    fn len(&self) -> (r: usize)
        requires
            self.wf(),
        ensures
            r == self.spec_len(),
    {
        let _n = self.buffer.len();
        proof {
            let m = self.map_size as int;
            let d = self.descriptor_size as int;
            assert(m / d <= m) by (nonlinear_arith)
                requires
                    m >= 0,
                    d >= 1,
            ;
        }
        (self.map_size / self.descriptor_size) as usize
    }

    proof fn lemma_entry_in_buffer(&self, index: int)
        requires
            self.wf(),
            0 <= index < self.spec_len(),
        ensures
            self.descriptor_size * index + self.descriptor_size <= self.map_size,
            self.descriptor_size * index + MEMORY_DESCRIPTOR_BYTES <= self.buffer@.len(),
    {
        let d = self.descriptor_size as int;
        let m = self.map_size as int;
        vstd::arithmetic::div_mod::lemma_fundamental_div_mod(m, d);
        vstd::arithmetic::mul::lemma_mul_inequality(index + 1, m / d, d);
        assert(d * (index + 1) == d * index + d) by (nonlinear_arith);
        assert((index + 1) * d == d * (index + 1)) by (nonlinear_arith);
        assert(d * (m / d) == (m / d) * d) by (nonlinear_arith);
    }

    /// The descriptor at `index`; `None` past the end of the map, past the
    /// first `MEMORY_MAP_MAX_ENTRIES` descriptors, or where the type code is
    /// not a memory type.
    pub fn get(&self, index: usize) -> (r: Option<MemoryDescriptor>)
        requires
            self.wf(),
        ensures
            r == self.spec_get(index as int),
    {
        if index >= self.len() || index >= MEMORY_MAP_MAX_ENTRIES {
            return None;
        }
        proof {
            self.lemma_entry_in_buffer(index as int);
        }
        let _n = self.buffer.len();
        let off = (self.descriptor_size as usize) * index;
        let code = read_u32_le(self.buffer.as_slice(), off);
        match MemoryType::from_code(code) {
            None => None,
            Some(type_) => {
                let d = MemoryDescriptor {
                    type_,
                    physical_start: read_u64_le(self.buffer.as_slice(), off + 8),
                    virtual_start: read_u64_le(self.buffer.as_slice(), off + 16),
                    number_of_pages: read_u64_le(self.buffer.as_slice(), off + 24),
                    attribute: read_u64_le(self.buffer.as_slice(), off + 32),
                };
                proof {
                    let t = choose|t: MemoryType| memory_type_code(t) == code;
                    assert(memory_type_code(type_) == code);
                    assert(memory_type_code(t) == code);
                    assert(t == type_);
                }
                Some(d)
            },
        }
    }

    /// An iterator over the descriptors, from the first one.
    pub fn entries(&self) -> (r: MemoryMapIter<'_>)
        ensures
            r.memory_map == self,
            r.index == 0,
    {
        MemoryMapIter { memory_map: self, index: 0 }
    }
}

/// Walks the memory map from `index` on, and stops at the first index that
/// `get` refuses.
pub struct MemoryMapIter<'a> {
    pub memory_map: &'a MemoryMap,
    pub index: usize,
}

impl<'a> MemoryMapIter<'a> {
    /// The next descriptor; the index moves on only where there is one.
    pub fn next(&mut self) -> (r: Option<MemoryDescriptor>)
        requires
            old(self).memory_map.wf(),
        ensures
            r == old(self).memory_map.spec_get(old(self).index as int),
            final(self).memory_map == old(self).memory_map,
            r is Some ==> final(self).index == old(self).index + 1,
            r is None ==> final(self).index == old(self).index,
    {
        let d = self.memory_map.get(self.index);
        if d.is_some() {
            proof {
                assert(self.index < MEMORY_MAP_MAX_ENTRIES);
            }
            self.index = self.index + 1;
        }
        d
    }
}

/// The ACPI root system description pointer, with the bytes it was read from.
#[derive(Clone)]
pub struct RSDP {
    pub raw: Vec<u8>,
    pub xsdt_address: u64,
}

/// Bytes of the ACPI 2.0 root system description pointer.
pub const RSDP_BYTES: usize = 36;

/// The RSDP signature, `"RSD PTR "`.
pub open spec fn rsdp_signature() -> Seq<u8> {
    seq![0x52u8, 0x53, 0x44, 0x20, 0x50, 0x54, 0x52, 0x20]
}

impl RSDP {
    /// Reads the pointer from its first `RSDP_BYTES` bytes.
    pub fn from_bytes(raw: Vec<u8>) -> (r: Self)
        requires
            raw@.len() >= RSDP_BYTES,
        ensures
            r.raw@ == raw@,
            r.xsdt_address == le_u64(raw@, 24),
    {
        let xsdt_address = read_u64_le(raw.as_slice(), 24);
        RSDP { raw, xsdt_address }
    }

    /// Whether the pointer is a valid ACPI 2.0 one.
    pub open spec fn spec_is_valid(&self) -> bool {
        &&& self.raw@.subrange(0, 8) == rsdp_signature()
        &&& self.raw@[15] == 2
        &&& checksum(self.raw@, 20) == 0
        &&& checksum(self.raw@, 36) == 0
    }

    /// Checks the signature, the revision (2) and both checksums.
    pub fn is_valid(&self) -> (r: bool)
        requires
            self.raw@.len() >= RSDP_BYTES,
        ensures
            r == self.spec_is_valid(),
    {
        let expected: [u8; 8] = [0x52u8, 0x53, 0x44, 0x20, 0x50, 0x54, 0x52, 0x20];
        let mut i: usize = 0;
        while i < 8
            invariant
                i <= 8,
                self.raw@.len() >= RSDP_BYTES,
                expected@ == rsdp_signature(),
                forall|j: int| 0 <= j < i ==> self.raw@[j] == rsdp_signature()[j],
            decreases 8 - i,
        {
            if self.raw[i] != expected[i] {
                proof {
                    assert(self.raw@.subrange(0, 8)[i as int] != rsdp_signature()[i as int]);
                }
                return false;
            }
            i = i + 1;
        }
        proof {
            assert(self.raw@.subrange(0, 8) =~= rsdp_signature());
        }
        if self.raw[15] != 2 {
            false
        } else if sum(self.raw.as_slice(), 20) != 0 {
            false
        } else if sum(self.raw.as_slice(), 36) != 0 {
            false
        } else {
            true
        }
    }
}

/// Everything the boot loader passes to the kernel entry point.
#[derive(Clone)]
pub struct BootInfo {
    pub frame_config: FrameBufferConfig,
    pub memory_map: MemoryMap,
    pub rsdp: RSDP,
}


/// Bytes of the kernel stack and of the interrupt stacks.
pub const STACK_SIZE: u64 = 0x10_0000;

/// Where the boot loader puts the kernel, its stack and the interrupt
/// stacks.
#[derive(Clone, Copy, PartialEq, Eq, Structural)]
pub struct BootLayout {
    pub kernel_pages: u64,
    pub stack_start: u64,
    pub stack_end: u64,
    pub ist_start: u64,
    pub ist_end: u64,
}

/// The address rounded up to a multiple of 1 MiB.
pub open spec fn round_up_mib(x: int) -> int {
    (x + 0xF_FFFF) - (x + 0xF_FFFF) % 0x10_0000
}

/// The layout for a kernel that spans `kernel_first..kernel_last`: the 4 KiB
/// pages it takes, then a 1 MiB stack from the next 1 MiB boundary, then
/// 1 MiB of interrupt stacks from the boundary after that.
pub fn boot_layout(kernel_first: u64, kernel_last: u64) -> (r: BootLayout)
    requires
        kernel_first <= kernel_last,
        kernel_last + 4 * STACK_SIZE <= u64::MAX,
    ensures
        r.kernel_pages == (kernel_last - kernel_first + 0xFFF) / 0x1000,
        r.stack_start == round_up_mib(kernel_last as int),
        r.stack_end == r.stack_start + STACK_SIZE,
        r.ist_start == round_up_mib(r.stack_end as int),
        r.ist_end == r.ist_start + STACK_SIZE,
{
    let kernel_pages = (kernel_last - kernel_first + 0x0FFF) / 0x1000;
    let a = kernel_last + 0xF_FFFF;
    proof {
        assert(a & !0xF_FFFFu64 == a - a % 0x10_0000) by (bit_vector);
    }
    let stack_start = a & !0xF_FFFF;
    let stack_end = stack_start + STACK_SIZE;
    let b = stack_end + 0xF_FFFF;
    proof {
        assert(b & !0xF_FFFFu64 == b - b % 0x10_0000) by (bit_vector);
    }
    let ist_start = b & !0xF_FFFF;
    BootLayout { kernel_pages, stack_start, stack_end, ist_start, ist_end: ist_start + STACK_SIZE }
}

} // verus!

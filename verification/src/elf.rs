//! ELF64 images: the file header, the program headers, and the layout of the
//! loadable segments the boot loader copies into place.
use vstd::prelude::*;
use crate::bytes::{le_u16, le_u32, le_u64, read_u16_le, read_u32_le, read_u64_le};

verus! {

pub const PT_LOAD: u32 = 0x01;

/// Bytes of the file header.
pub const ELF64_HEADER_SIZE: usize = 64;

/// Bytes of a program header.
pub const ELF64_PHEADER_SIZE: usize = 56;

/// The file header.
#[derive(Clone, Copy, PartialEq, Eq, Structural)]
pub struct Elf64Header {
    pub e_type: u16,
    pub e_machine: u16,
    pub e_version: u32,
    pub e_entry: u64,
    pub e_phoff: u64,
    pub e_shoff: u64,
    pub e_flags: u32,
    pub e_ehsize: u16,
    pub e_phentsize: u16,
    pub e_phnum: u16,
    pub e_shentsize: u16,
    pub e_shnum: u16,
    pub e_shstrndx: u16,
}

/// A program header.
#[derive(Clone, Copy, PartialEq, Eq, Structural)]
pub struct Elf64PHeader {
    pub p_type: u32,
    pub p_flags: u32,
    pub p_offset: u64,
    pub p_vaddr: u64,
    pub p_paddr: u64,
    pub p_filesz: u64,
    pub p_memsz: u64,
    pub p_align: u64,
}

pub open spec fn spec_header(b: Seq<u8>) -> Elf64Header {
    Elf64Header {
        e_type: le_u16(b, 16) as u16,
        e_machine: le_u16(b, 18) as u16,
        e_version: le_u32(b, 20) as u32,
        e_entry: le_u64(b, 24) as u64,
        e_phoff: le_u64(b, 32) as u64,
        e_shoff: le_u64(b, 40) as u64,
        e_flags: le_u32(b, 48) as u32,
        e_ehsize: le_u16(b, 52) as u16,
        e_phentsize: le_u16(b, 54) as u16,
        e_phnum: le_u16(b, 56) as u16,
        e_shentsize: le_u16(b, 58) as u16,
        e_shnum: le_u16(b, 60) as u16,
        e_shstrndx: le_u16(b, 62) as u16,
    }
}

pub open spec fn spec_pheader(b: Seq<u8>, o: int) -> Elf64PHeader {
    Elf64PHeader {
        p_type: le_u32(b, o) as u32,
        p_flags: le_u32(b, o + 4) as u32,
        p_offset: le_u64(b, o + 8) as u64,
        p_vaddr: le_u64(b, o + 16) as u64,
        p_paddr: le_u64(b, o + 24) as u64,
        p_filesz: le_u64(b, o + 32) as u64,
        p_memsz: le_u64(b, o + 40) as u64,
        p_align: le_u64(b, o + 48) as u64,
    }
}

impl Elf64Header {
    /// The header at the start of an image.
    pub fn parse(b: &[u8]) -> (r: Self)
        requires
            b@.len() >= ELF64_HEADER_SIZE,
        ensures
            r == spec_header(b@),
    {
        Elf64Header {
            e_type: read_u16_le(b, 16),
            e_machine: read_u16_le(b, 18),
            e_version: read_u32_le(b, 20),
            e_entry: read_u64_le(b, 24),
            e_phoff: read_u64_le(b, 32),
            e_shoff: read_u64_le(b, 40),
            e_flags: read_u32_le(b, 48),
            e_ehsize: read_u16_le(b, 52),
            e_phentsize: read_u16_le(b, 54),
            e_phnum: read_u16_le(b, 56),
            e_shentsize: read_u16_le(b, 58),
            e_shnum: read_u16_le(b, 60),
            e_shstrndx: read_u16_le(b, 62),
        }
    }
}

impl Elf64PHeader {
    /// The program header at byte `o`.
    pub fn parse(b: &[u8], o: usize) -> (r: Self)
        requires
            o + ELF64_PHEADER_SIZE <= b@.len(),
        ensures
            r == spec_pheader(b@, o as int),
    {
        let _n = b.len();
        Elf64PHeader {
            p_type: read_u32_le(b, o),
            p_flags: read_u32_le(b, o + 4),
            p_offset: read_u64_le(b, o + 8),
            p_vaddr: read_u64_le(b, o + 16),
            p_paddr: read_u64_le(b, o + 24),
            p_filesz: read_u64_le(b, o + 32),
            p_memsz: read_u64_le(b, o + 40),
            p_align: read_u64_le(b, o + 48),
        }
    }
}

/// An image loaded at `start_address`.
#[derive(Clone, Copy, PartialEq, Eq, Structural)]
pub struct Elf64 {
    pub start_address: u64,
}

/// The program headers `e_phnum` names, from `e_phoff` on.
pub open spec fn spec_pheaders(b: Seq<u8>) -> Seq<Elf64PHeader> {
    let h = spec_header(b);
    Seq::new(h.e_phnum as nat, |i: int| spec_pheader(b, h.e_phoff + ELF64_PHEADER_SIZE * i))
}

impl Elf64 {
    pub fn new(start_address: u64) -> (r: Self)
        ensures
            r.start_address == start_address,
    {
        Self { start_address }
    }

    /// The file header of the image, whose bytes are given.
    pub fn get_header(&self, image: &[u8]) -> (r: Elf64Header)
        requires
            image@.len() >= ELF64_HEADER_SIZE,
        ensures
            r == spec_header(image@),
    {
        Elf64Header::parse(image)
    }

    /// The program headers of the image, whose bytes are given.
    pub fn get_pheader_iter(&self, image: &[u8]) -> (r: Vec<Elf64PHeader>)
        requires
            image@.len() >= ELF64_HEADER_SIZE,
            spec_header(image@).e_phoff + ELF64_PHEADER_SIZE * spec_header(image@).e_phnum <= image@.len(),
        ensures
            r@ == spec_pheaders(image@),
    {
        let header = Elf64Header::parse(image);
        let _len = image.len();
        let n = header.e_phnum as usize;
        let off = header.e_phoff as usize;
        let mut r: Vec<Elf64PHeader> = Vec::new();
        let mut i: usize = 0;
        while i < n
            invariant
                i <= n,
                n == header.e_phnum,
                off == header.e_phoff,
                header == spec_header(image@),
                off + ELF64_PHEADER_SIZE * n <= image@.len(),
                image@.len() <= usize::MAX,
                r@.len() == i,
                forall|k: int| 0 <= k < i ==> r@[k] == spec_pheader(image@, off + ELF64_PHEADER_SIZE * k),
            decreases n - i,
        {
            proof {
                assert(ELF64_PHEADER_SIZE * i + ELF64_PHEADER_SIZE <= ELF64_PHEADER_SIZE * n) by (nonlinear_arith)
                    requires
                        i < n,
                ;
            }
            r.push(Elf64PHeader::parse(image, off + ELF64_PHEADER_SIZE * i));
            i = i + 1;
        }
        proof {
            assert(r@ =~= spec_pheaders(image@));
        }
        r
    }
}

/// The lowest start and the highest end of the loadable segments among the
/// first `n` program headers; `(u64::MAX, 0)` when there are none.
pub open spec fn load_range(ps: Seq<Elf64PHeader>, n: int) -> (u64, u64)
    decreases n,
{
    if n <= 0 {
        (u64::MAX, 0)
    } else {
        let (s, e) = load_range(ps, n - 1);
        let p = ps[n - 1];
        if p.p_type != PT_LOAD {
            (s, e)
        } else {
            (
                if p.p_vaddr < s { p.p_vaddr } else { s },
                if p.p_vaddr + p.p_memsz > e { (p.p_vaddr + p.p_memsz) as u64 } else { e },
            )
        }
    }
}

/// The memory the loadable segments span.
pub fn calculate_address(pheaders: &Vec<Elf64PHeader>) -> (r: (u64, u64))
    requires
        forall|i: int| 0 <= i < pheaders@.len() && (#[trigger] pheaders@[i]).p_type == PT_LOAD
            ==> pheaders@[i].p_vaddr + pheaders@[i].p_memsz <= u64::MAX,
    ensures
        r == load_range(pheaders@, pheaders@.len() as int),
{
    let mut start: u64 = u64::MAX;
    let mut end: u64 = 0;
    let mut i: usize = 0;
    while i < pheaders.len()
        invariant
            i <= pheaders@.len(),
            forall|k: int| 0 <= k < pheaders@.len() && (#[trigger] pheaders@[k]).p_type == PT_LOAD
                ==> pheaders@[k].p_vaddr + pheaders@[k].p_memsz <= u64::MAX,
            (start, end) == load_range(pheaders@, i as int),
        decreases pheaders@.len() - i,
    {
        let p = pheaders[i];
        if p.p_type == PT_LOAD {
            if p.p_vaddr < start {
                start = p.p_vaddr;
            }
            if p.p_vaddr + p.p_memsz > end {
                end = p.p_vaddr + p.p_memsz;
            }
        }
        i = i + 1;
    }
    (start, end)
}

/// How one loadable segment is put in place: `filesz` bytes copied from
/// `src` to `dst`, then `zero_len` bytes cleared at `zero_dst`.
#[derive(Clone, Copy, PartialEq, Eq, Structural)]
pub struct SegmentCopy {
    pub src: u64,
    pub dst: u64,
    pub filesz: u64,
    pub zero_dst: u64,
    pub zero_len: u64,
}

/// The copies of the loadable segments among the first `n` headers, in
/// order.
pub open spec fn load_plan(start_address: u64, ps: Seq<Elf64PHeader>, n: int) -> Seq<SegmentCopy>
    decreases n,
{
    if n <= 0 {
        Seq::empty()
    } else {
        let rest = load_plan(start_address, ps, n - 1);
        let p = ps[n - 1];
        if p.p_type != PT_LOAD {
            rest
        } else {
            rest.push(SegmentCopy {
                src: (start_address + p.p_offset) as u64,
                dst: p.p_vaddr,
                filesz: p.p_filesz,
                zero_dst: (p.p_vaddr + p.p_filesz) as u64,
                zero_len: (p.p_memsz - p.p_filesz) as u64,
            })
        }
    }
}

/// The copies that load an image's segments: each from its offset in the
/// image to its virtual address, the rest of its memory size cleared.
pub fn copy_load_segment(elf_file: &Elf64, pheaders: &Vec<Elf64PHeader>) -> (r: Vec<SegmentCopy>)
    requires
        forall|i: int| 0 <= i < pheaders@.len() && (#[trigger] pheaders@[i]).p_type == PT_LOAD ==> {
            &&& elf_file.start_address + pheaders@[i].p_offset <= u64::MAX
            &&& pheaders@[i].p_vaddr + pheaders@[i].p_filesz <= u64::MAX
            &&& pheaders@[i].p_filesz <= pheaders@[i].p_memsz
        },
    ensures
        r@ == load_plan(elf_file.start_address, pheaders@, pheaders@.len() as int),
{
    let mut r: Vec<SegmentCopy> = Vec::new();
    let mut i: usize = 0;
    while i < pheaders.len()
        invariant
            i <= pheaders@.len(),
            forall|k: int| 0 <= k < pheaders@.len() && (#[trigger] pheaders@[k]).p_type == PT_LOAD ==> {
                &&& elf_file.start_address + pheaders@[k].p_offset <= u64::MAX
                &&& pheaders@[k].p_vaddr + pheaders@[k].p_filesz <= u64::MAX
                &&& pheaders@[k].p_filesz <= pheaders@[k].p_memsz
            },
            r@ == load_plan(elf_file.start_address, pheaders@, i as int),
        decreases pheaders@.len() - i,
    {
        let p = pheaders[i];
        if p.p_type == PT_LOAD {
            r.push(SegmentCopy {
                src: elf_file.start_address + p.p_offset,
                dst: p.p_vaddr,
                filesz: p.p_filesz,
                zero_dst: p.p_vaddr + p.p_filesz,
                zero_len: p.p_memsz - p.p_filesz,
            });
        }
        i = i + 1;
    }
    r
}

} // verus!

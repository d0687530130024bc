//! ACPI tables as the firmware lays them out: the description header every
//! table starts with, the XSDT's table pointers, the FADT's fields and the
//! MADT's interrupt controller entries, each read from the table's bytes.
use vstd::prelude::*;
use crate::bytes::{checksum, le_u16, le_u32, le_u64, read_u16_le, read_u32_le, read_u64_le, sum};

verus! {

/// Bytes of a description header.
pub const DESCRIPTION_HEADER_SIZE: usize = 36;

/// Bytes of the MADT before its entries: the header, the local APIC address
/// and the flags.
pub const MADT_HEADER_SIZE: usize = 44;

/// The header of an ACPI table.
pub struct DescriptionHeader {
    pub bytes: Vec<u8>,
}

impl DescriptionHeader {
    /// The table length, at byte 4.
    pub open spec fn spec_length(&self) -> int {
        le_u32(self.bytes@, 4)
    }

    /// The table's signature is the expected one and its bytes add up to 0
    /// modulo 256.
    pub open spec fn spec_is_valid(&self, expect_signature: Seq<u8>) -> bool {
        &&& self.bytes@.subrange(0, 4) == expect_signature.subrange(0, 4)
        &&& checksum(self.bytes@, self.spec_length() as nat) == 0
    }

    pub fn length(&self) -> (r: u32)
        requires
            self.bytes@.len() >= DESCRIPTION_HEADER_SIZE,
        ensures
            r == self.spec_length(),
    {
        read_u32_le(self.bytes.as_slice(), 4)
    }

    /// Checks the four signature bytes and the checksum over the table's
    /// length.
    pub fn is_valid(&self, expect_signature: &[u8]) -> (r: bool)
        requires
            self.bytes@.len() >= DESCRIPTION_HEADER_SIZE,
            expect_signature@.len() >= 4,
            self.spec_length() <= self.bytes@.len(),
        ensures
            r == self.spec_is_valid(expect_signature@),
    {
        let mut i: usize = 0;
        while i < 4
            invariant
                i <= 4,
                self.bytes@.len() >= DESCRIPTION_HEADER_SIZE,
                expect_signature@.len() >= 4,
                forall|j: int| 0 <= j < i ==> self.bytes@[j] == expect_signature@[j],
            decreases 4 - i,
        {
            if self.bytes[i] != expect_signature[i] {
                proof {
                    assert(self.bytes@.subrange(0, 4)[i as int] != expect_signature@.subrange(0, 4)[i as int]);
                }
                return false;
            }
            i = i + 1;
        }
        proof {
            assert(self.bytes@.subrange(0, 4) =~= expect_signature@.subrange(0, 4));
        }
        let length = self.length() as usize;
        sum(self.bytes.as_slice(), length) == 0
    }
}

/// The plain sum of the first `n` bytes of `s`.
pub open spec fn bytes_total(s: Seq<u8>, n: int) -> int
    decreases n,
{
    if n <= 0 { 0 } else { bytes_total(s, n - 1) + s[n - 1] as int }
}

/// The ACPI checksum is the plain sum modulo 256.
proof fn lemma_checksum_total(s: Seq<u8>, n: nat)
    ensures
        checksum(s, n) == bytes_total(s, n as int) % 256,
    decreases n,
{
    if n > 0 {
        lemma_checksum_total(s, (n - 1) as nat);
        let t = bytes_total(s, n - 1);
        let b = s[n - 1] as int;
        vstd::arithmetic::div_mod::lemma_add_mod_noop(t, b, 256);
        vstd::arithmetic::div_mod::lemma_mod_twice(t, 256);
        vstd::arithmetic::div_mod::lemma_small_mod(b as nat, 256);
        vstd::arithmetic::div_mod::lemma_add_mod_noop(t % 256, b, 256);
    }
}

/// Two byte strings that differ only at `j` add up alike before `j`, and
/// after it by the difference at `j`.
proof fn lemma_total_diff(a: Seq<u8>, b: Seq<u8>, j: int, n: int)
    requires
        a.len() == b.len(),
        0 <= j,
        n <= a.len(),
        forall|i: int| 0 <= i < a.len() && i != j ==> a[i] == b[i],
    ensures
        bytes_total(b, n) - bytes_total(a, n) == if j < n { b[j] as int - a[j] as int } else { 0 },
    decreases n,
{
    if n > 0 {
        lemma_total_diff(a, b, j, n - 1);
    }
}

/// Law: a table is valid exactly when its signature is the expected one and
/// all of its bytes, as many as its length field gives, header and body
/// alike, add up to a multiple of 256.
pub proof fn law_valid_sums_whole_table(h: DescriptionHeader, sig: Seq<u8>)
    ensures
        h.spec_is_valid(sig) <==> (h.bytes@.subrange(0, 4) == sig.subrange(0, 4)
            && bytes_total(h.bytes@, le_u32(h.bytes@, 4)) % 256 == 0),
{
    assert(h.spec_length() >= 0);
    lemma_checksum_total(h.bytes@, h.spec_length() as nat);
}

/// Law: every byte of a table counts. Two tables that differ in a single
/// byte past the length field and within the table are never both valid.
pub proof fn law_every_table_byte_counts(a: DescriptionHeader, b: DescriptionHeader, sig: Seq<u8>, j: int)
    requires
        a.bytes@.len() == b.bytes@.len(),
        8 <= j < a.spec_length() <= a.bytes@.len(),
        a.bytes@[j] != b.bytes@[j],
        forall|i: int| 0 <= i < a.bytes@.len() && i != j ==> a.bytes@[i] == b.bytes@[i],
    ensures
        !(a.spec_is_valid(sig) && b.spec_is_valid(sig)),
{
    assert(b.spec_length() == a.spec_length());
    let n = a.spec_length();
    lemma_total_diff(a.bytes@, b.bytes@, j, n);
    law_valid_sums_whole_table(a, sig);
    law_valid_sums_whole_table(b, sig);
    let x = bytes_total(a.bytes@, n);
    let y = bytes_total(b.bytes@, n);
    if x % 256 == 0 && y % 256 == 0 {
        vstd::arithmetic::div_mod::lemma_fundamental_div_mod(x, 256);
        vstd::arithmetic::div_mod::lemma_fundamental_div_mod(y, 256);
        let d = y - x;
        assert(d == 256 * (y / 256 - x / 256));
        assert(-256 < d < 256 && d != 0);
        assert(false) by (nonlinear_arith)
            requires d == 256 * (y / 256 - x / 256), -256 < d < 256, d != 0;
    }
}

/// The table pointers an XSDT lists.
pub struct XSDTIter {
    pub entries: Vec<u64>,
    pub index: usize,
}

/// The pointers after the header of an XSDT: as many as whole 8-byte words
/// fit in the table's length.
pub open spec fn xsdt_entries(bytes: Seq<u8>) -> Seq<u64> {
    let n = (le_u32(bytes, 4) - DESCRIPTION_HEADER_SIZE) / 8;
    Seq::new(n as nat, |i: int| le_u64(bytes, DESCRIPTION_HEADER_SIZE + 8 * i) as u64)
}

/// The XSDT's pointers, from the table's bytes.
pub fn xsdt_entries_of(bytes: &[u8]) -> (r: XSDTIter)
    requires
        bytes@.len() >= DESCRIPTION_HEADER_SIZE,
        le_u32(bytes@, 4) >= DESCRIPTION_HEADER_SIZE,
        le_u32(bytes@, 4) <= bytes@.len(),
    ensures
        r.entries@ == xsdt_entries(bytes@),
        r.index == 0,
{
    let length = read_u32_le(bytes, 4) as usize;
    let size = (length - DESCRIPTION_HEADER_SIZE) / 8;
    let mut entries: Vec<u64> = Vec::new();
    let mut i: usize = 0;
    while i < size
        invariant
            i <= size,
            size == (le_u32(bytes@, 4) - DESCRIPTION_HEADER_SIZE) / 8,
            le_u32(bytes@, 4) <= bytes@.len(),
            entries@.len() == i,
            forall|k: int| 0 <= k < i ==> entries@[k] == le_u64(bytes@, DESCRIPTION_HEADER_SIZE + 8 * k),
        decreases size - i,
    {
        entries.push(read_u64_le(bytes, DESCRIPTION_HEADER_SIZE + 8 * i));
        i = i + 1;
    }
    proof {
        assert(entries@ =~= xsdt_entries(bytes@));
    }
    XSDTIter { entries, index: 0 }
}

impl XSDTIter {
    /// The next table pointer.
    pub fn next(&mut self) -> (r: Option<u64>)
        ensures
            final(self).entries == old(self).entries,
            old(self).index < old(self).entries@.len() ==> r == Some(old(self).entries@[old(self).index as int])
                && final(self).index == old(self).index + 1,
            old(self).index >= old(self).entries@.len() ==> r is None && final(self).index == old(self).index,
    {
        if self.index >= self.entries.len() {
            return None;
        }
        let e = self.entries[self.index];
        self.index = self.index + 1;
        Some(e)
    }
}

/// The fields of the FADT the kernel reads.
pub struct FADT {
    pub bytes: Vec<u8>,
}

impl FADT {
    /// The PM timer block port, at byte 76.
    pub fn timer(&self) -> (r: u32)
        requires
            self.bytes@.len() >= 116,
        ensures
            r == le_u32(self.bytes@, 76),
    {
        read_u32_le(self.bytes.as_slice(), 76)
    }

    /// The flags, at byte 112.
    pub fn flags(&self) -> (r: u32)
        requires
            self.bytes@.len() >= 116,
        ensures
            r == le_u32(self.bytes@, 112),
    {
        read_u32_le(self.bytes.as_slice(), 112)
    }
}

/// The type and length every MADT entry starts with.
#[derive(Clone, Copy, PartialEq, Eq, Structural)]
pub struct MADTHeader {
    pub type_: u8,
    pub length: u8,
}

/// The MADT: its header and the entries after it.
pub struct MADT {
    pub bytes: Vec<u8>,
}

impl MADT {
    /// A walk over the entries, which start after the 44 header bytes and
    /// are bounded by the table's length.
    pub fn entries(&self) -> (r: MADTIter)
        requires
            self.bytes@.len() >= MADT_HEADER_SIZE,
        ensures
            r.entries@ == self.bytes@.subrange(MADT_HEADER_SIZE as int, self.bytes@.len() as int),
            r.idx == 0,
            r.length == le_u32(self.bytes@, 4),
    {
        let mut entries: Vec<u8> = Vec::new();
        let mut i: usize = MADT_HEADER_SIZE;
        while i < self.bytes.len()
            invariant
                MADT_HEADER_SIZE <= i <= self.bytes@.len(),
                entries@ == self.bytes@.subrange(MADT_HEADER_SIZE as int, i as int),
            decreases self.bytes@.len() - i,
        {
            entries.push(self.bytes[i]);
            i = i + 1;
            proof {
                assert(entries@ =~= self.bytes@.subrange(MADT_HEADER_SIZE as int, i as int));
            }
        }
        MADTIter { entries, idx: 0, length: read_u32_le(self.bytes.as_slice(), 4) }
    }
}

/// A walk over MADT entries.
pub struct MADTIter {
    pub entries: Vec<u8>,
    pub idx: u32,
    pub length: u32,
}

impl MADTIter {
    /// The entry at the current position. The walk ends when the next
    /// position would reach the table's length, or when an entry has length
    /// 0; the entry at the last position is not returned.
    pub fn next(&mut self) -> (r: Option<MADTHeader>)
        requires
            old(self).idx + 2 <= old(self).entries@.len(),
        ensures
            final(self).entries == old(self).entries,
            final(self).length == old(self).length,
            ({
                let i = old(self).idx as int;
                let header = MADTHeader { type_: old(self).entries@[i], length: old(self).entries@[i + 1] };
                let endpoint = i + header.length;
                if endpoint >= old(self).length || endpoint == i {
                    r is None && final(self).idx == old(self).idx
                } else {
                    r == Some(header) && final(self).idx == endpoint
                }
            }),
    {
        let i = self.idx as usize;
        let _n = self.entries.len();
        let header = MADTHeader { type_: self.entries[i], length: self.entries[i + 1] };
        let endpoint = self.idx as u64 + header.length as u64;
        if endpoint >= self.length as u64 || endpoint == self.idx as u64 {
            return None;
        }
        self.idx = endpoint as u32;
        Some(header)
    }
}

/// A processor's local APIC.
#[derive(Clone, Copy, PartialEq, Eq, Structural)]
pub struct LocalAPICEntry {
    pub header: MADTHeader,
    pub uid: u8,
    pub id: u8,
    pub flags: u32,
}

/// An I/O APIC.
#[derive(Clone, Copy, PartialEq, Eq, Structural)]
pub struct IOAPICEntry {
    pub header: MADTHeader,
    pub id: u8,
    pub address: u32,
    pub global_addr: u32,
}

/// An interrupt source override.
#[derive(Clone, Copy, PartialEq, Eq, Structural)]
pub struct IntOverrideEntry {
    pub header: MADTHeader,
    pub bus: u8,
    pub source: u8,
    pub global_int: u32,
    pub flags: u16,
}

/// A non-maskable interrupt source.
#[derive(Clone, Copy, PartialEq, Eq, Structural)]
pub struct IntNMIOverrideEntry {
    pub header: MADTHeader,
    pub flags: u16,
    pub global_int: u32,
}

/// A local APIC address override.
#[derive(Clone, Copy, PartialEq, Eq, Structural)]
pub struct LocalOverrideEntry {
    pub header: MADTHeader,
    pub address: u64,
}

/// A local APIC non-maskable interrupt.
#[derive(Clone, Copy, PartialEq, Eq, Structural)]
pub struct LocalNMIOverideEntry {
    pub header: MADTHeader,
    pub uid: u8,
    pub flags: u16,
    pub int: u8,
}

impl LocalAPICEntry {
    /// The entry at byte `o` of the entries.
    pub fn parse(b: &[u8], o: usize) -> (r: Self)
        requires
            o + 8 <= b@.len(),
        ensures
            r == (LocalAPICEntry {
                header: MADTHeader { type_: b@[o as int], length: b@[o + 1] },
                uid: b@[o + 2],
                id: b@[o + 3],
                flags: le_u32(b@, o + 4) as u32,
            }),
    {
        LocalAPICEntry {
            header: MADTHeader { type_: b[o], length: b[o + 1] },
            uid: b[o + 2],
            id: b[o + 3],
            flags: read_u32_le(b, o + 4),
        }
    }
}

impl IOAPICEntry {
    /// The entry at byte `o` of the entries.
    pub fn parse(b: &[u8], o: usize) -> (r: Self)
        requires
            o + 12 <= b@.len(),
        ensures
            r == (IOAPICEntry {
                header: MADTHeader { type_: b@[o as int], length: b@[o + 1] },
                id: b@[o + 2],
                address: le_u32(b@, o + 4) as u32,
                global_addr: le_u32(b@, o + 8) as u32,
            }),
    {
        IOAPICEntry {
            header: MADTHeader { type_: b[o], length: b[o + 1] },
            id: b[o + 2],
            address: read_u32_le(b, o + 4),
            global_addr: read_u32_le(b, o + 8),
        }
    }
}

impl IntOverrideEntry {
    /// The entry at byte `o` of the entries.
    pub fn parse(b: &[u8], o: usize) -> (r: Self)
        requires
            o + 10 <= b@.len(),
        ensures
            r == (IntOverrideEntry {
                header: MADTHeader { type_: b@[o as int], length: b@[o + 1] },
                bus: b@[o + 2],
                source: b@[o + 3],
                global_int: le_u32(b@, o + 4) as u32,
                flags: le_u16(b@, o + 8) as u16,
            }),
    {
        IntOverrideEntry {
            header: MADTHeader { type_: b[o], length: b[o + 1] },
            bus: b[o + 2],
            source: b[o + 3],
            global_int: read_u32_le(b, o + 4),
            flags: read_u16_le(b, o + 8),
        }
    }
}

impl IntNMIOverrideEntry {
    /// The entry at byte `o` of the entries.
    pub fn parse(b: &[u8], o: usize) -> (r: Self)
        requires
            o + 8 <= b@.len(),
        ensures
            r == (IntNMIOverrideEntry {
                header: MADTHeader { type_: b@[o as int], length: b@[o + 1] },
                flags: le_u16(b@, o + 2) as u16,
                global_int: le_u32(b@, o + 4) as u32,
            }),
    {
        IntNMIOverrideEntry {
            header: MADTHeader { type_: b[o], length: b[o + 1] },
            flags: read_u16_le(b, o + 2),
            global_int: read_u32_le(b, o + 4),
        }
    }
}

impl LocalOverrideEntry {
    /// The entry at byte `o` of the entries.
    pub fn parse(b: &[u8], o: usize) -> (r: Self)
        requires
            o + 12 <= b@.len(),
        ensures
            r == (LocalOverrideEntry {
                header: MADTHeader { type_: b@[o as int], length: b@[o + 1] },
                address: le_u64(b@, o + 4) as u64,
            }),
    {
        LocalOverrideEntry {
            header: MADTHeader { type_: b[o], length: b[o + 1] },
            address: read_u64_le(b, o + 4),
        }
    }
}

impl LocalNMIOverideEntry {
    /// The entry at byte `o` of the entries.
    pub fn parse(b: &[u8], o: usize) -> (r: Self)
        requires
            o + 6 <= b@.len(),
        ensures
            r == (LocalNMIOverideEntry {
                header: MADTHeader { type_: b@[o as int], length: b@[o + 1] },
                uid: b@[o + 2],
                flags: le_u16(b@, o + 3) as u16,
                int: b@[o + 5],
            }),
    {
        LocalNMIOverideEntry {
            header: MADTHeader { type_: b[o], length: b[o + 1] },
            uid: b[o + 2],
            flags: read_u16_le(b, o + 3),
            int: b[o + 5],
        }
    }
}

/// The first of the listed tables whose header is valid for the signature.
pub fn find_table(headers: &Vec<DescriptionHeader>, signature: &[u8]) -> (r: Option<usize>)
    requires
        signature@.len() >= 4,
        forall|i: int| 0 <= i < headers@.len() ==> (#[trigger] headers@[i]).bytes@.len() >= DESCRIPTION_HEADER_SIZE
            && headers@[i].spec_length() <= headers@[i].bytes@.len(),
    ensures
        match r {
            Some(k) => k < headers@.len() && headers@[k as int].spec_is_valid(signature@)
                && forall|j: int| 0 <= j < k ==> !headers@[j].spec_is_valid(signature@),
            None => forall|j: int| 0 <= j < headers@.len() ==> !headers@[j].spec_is_valid(signature@),
        },
{
    let mut k: usize = 0;
    while k < headers.len()
        invariant
            k <= headers@.len(),
            signature@.len() >= 4,
            forall|i: int| 0 <= i < headers@.len() ==> (#[trigger] headers@[i]).bytes@.len() >= DESCRIPTION_HEADER_SIZE
                && headers@[i].spec_length() <= headers@[i].bytes@.len(),
            forall|j: int| 0 <= j < k ==> !headers@[j].spec_is_valid(signature@),
        decreases headers@.len() - k,
    {
        if headers[k].is_valid(signature) {
            return Some(k);
        }
        k = k + 1;
    }
    None
}

} // verus!

//! Transfer request blocks: 16 bytes, four little-endian words, with the
//! cycle bit in bit 0 and the type in bits 10..16 of the last word.
use vstd::prelude::*;

verus! {

/// Word `k` of a 128-bit TRB.
pub open spec fn trb_word(v: u128, k: int) -> u32 {
    ((v as int / pow2_32(k)) % 0x1_0000_0000) as u32
}

pub open spec fn pow2_32(k: int) -> int {
    if k <= 0 { 1 } else if k == 1 { 0x1_0000_0000 } else if k == 2 { 0x1_0000_0000_0000_0000 } else { 0x1_0000_0000_0000_0000_0000_0000 }
}

/// The 128-bit TRB made of four words, the first in the low bits.
pub open spec fn trb_of_words(w: Seq<u32>) -> u128 {
    (w[0] + w[1] * 0x1_0000_0000 + w[2] * 0x1_0000_0000_0000_0000 + w[3] * 0x1_0000_0000_0000_0000_0000_0000) as u128
}

/// The type field of the last word.
pub open spec fn trb_type_of(w3: u32) -> u8 {
    ((w3 / 1024) % 64) as u8
}

proof fn lemma_split(v: u128)
    ensures
        v as u32 == trb_word(v, 0),
        (v >> 32u128) as u32 == trb_word(v, 1),
        (v >> 64u128) as u32 == trb_word(v, 2),
        (v >> 96u128) as u32 == trb_word(v, 3),
{
    assert(v as u32 == (v % 0x1_0000_0000) as u32
        && (v >> 32u128) as u32 == ((v / 0x1_0000_0000) % 0x1_0000_0000) as u32
        && (v >> 64u128) as u32 == ((v / 0x1_0000_0000_0000_0000) % 0x1_0000_0000) as u32
        && (v >> 96u128) as u32 == ((v / 0x1_0000_0000_0000_0000_0000_0000) % 0x1_0000_0000) as u32) by (bit_vector);
}

proof fn lemma_join(a: u32, b: u32, c: u32, d: u32)
    ensures
        (a as u128) | (b as u128) << 32u128 | (c as u128) << 64u128 | (d as u128) << 96u128
            == trb_of_words(seq![a, b, c, d]),
{
    let (a1, b1, c1, d1) = (a as u128, b as u128, c as u128, d as u128);
    assert(a1 < 0x1_0000_0000 && b1 < 0x1_0000_0000 && c1 < 0x1_0000_0000 && d1 < 0x1_0000_0000 ==>
        a1 | b1 << 32u128 | c1 << 64u128 | d1 << 96u128
            == a1 + b1 * 0x1_0000_0000 + c1 * 0x1_0000_0000_0000_0000 + d1 * 0x1_0000_0000_0000_0000_0000_0000) by (bit_vector);
}

proof fn lemma_fields(w3: u32)
    ensures
        ((w3 >> 10u32) & 0x3Fu32) as u8 == trb_type_of(w3),
        (w3 & 1u32 != 0) == (w3 % 2 == 1),
        (w3 & 2u32 != 0) == ((w3 / 2) % 2 == 1),
        ((w3 >> 2u32) & 0xFFu32) as u8 == (w3 / 4) % 256,
        (w3 >> 16u32) as u16 == w3 / 65536,
{
    assert(((w3 >> 10u32) & 0x3Fu32) as u8 == ((w3 / 1024) % 64) as u8
        && (w3 & 1u32 != 0) == (w3 % 2 == 1)
        && (w3 & 2u32 != 0) == ((w3 / 2) % 2 == 1)
        && ((w3 >> 2u32) & 0xFFu32) as u8 == (w3 / 4) % 256
        && (w3 >> 16u32) as u16 == w3 / 65536) by (bit_vector);
}

/// A TRB as one 128-bit value.
#[derive(Clone, Copy, PartialEq, Eq, Structural)]
pub struct TrbRaw(pub u128);

impl TrbRaw {
    pub fn new_unchecked(raw: u128) -> (r: Self)
        ensures
            r.0 == raw,
    {
        Self(raw)
    }

    pub fn raw(&self) -> (r: u128)
        ensures
            r == self.0,
    {
        self.0
    }

    /// The four words, the low one first.
    pub fn as_array(&self) -> (r: [u32; 4])
        ensures
            r@ == seq![trb_word(self.0, 0), trb_word(self.0, 1), trb_word(self.0, 2), trb_word(self.0, 3)],
    {
        let value = self.0;
        proof {
            lemma_split(value);
        }
        let r = [value as u32, (value >> 32) as u32, (value >> 64) as u32, (value >> 96) as u32];
        assert(r@ =~= seq![trb_word(self.0, 0), trb_word(self.0, 1), trb_word(self.0, 2), trb_word(self.0, 3)]);
        r
    }

    /// The TRB made of four words, the first in the low bits.
    pub fn from_array(value: [u32; 4]) -> (r: Self)
        ensures
            r.0 == trb_of_words(value@),
    {
        proof {
            lemma_join(value[0], value[1], value[2], value[3]);
            assert(value@ =~= seq![value[0], value[1], value[2], value[3]]);
        }
        Self((value[0] as u128) | (value[1] as u128) << 32 | (value[2] as u128) << 64 | (value[3] as u128) << 96)
    }

    /// The fields every TRB has.
    pub fn template(&self) -> (r: TrbTemplate)
        ensures
            r == template_of(self.as_words()),
    {
        let w = self.as_array();
        TrbTemplate::from_words(w)
    }

    pub open spec fn as_words(&self) -> Seq<u32> {
        seq![trb_word(self.0, 0), trb_word(self.0, 1), trb_word(self.0, 2), trb_word(self.0, 3)]
    }
}

/// The common layout of a TRB: a 64-bit parameter, a 32-bit status, and in
/// the last word the cycle bit, the evaluate-next bit, eight reserved bits,
/// the type and a 16-bit control field.
#[derive(Clone, Copy, PartialEq, Eq, Structural)]
pub struct TrbTemplate {
    pub parameter: u64,
    pub status: u32,
    pub cycle_bit: bool,
    pub evaluate_next_trb: bool,
    pub reserved: u8,
    pub trb_type: u8,
    pub control: u16,
}

pub open spec fn template_of(w: Seq<u32>) -> TrbTemplate {
    TrbTemplate {
        parameter: (w[0] + w[1] * 0x1_0000_0000) as u64,
        status: w[2],
        cycle_bit: w[3] % 2 == 1,
        evaluate_next_trb: (w[3] / 2) % 2 == 1,
        reserved: ((w[3] / 4) % 256) as u8,
        trb_type: trb_type_of(w[3]),
        control: (w[3] / 65536) as u16,
    }
}

impl TrbTemplate {
    /// The fields of the TRB in these words.
    pub fn from_words(w: [u32; 4]) -> (r: Self)
        ensures
            r == template_of(w@),
    {
        let w3 = w[3];
        proof {
            lemma_fields(w3);
        }
        TrbTemplate {
            parameter: w[0] as u64 + (w[1] as u64) * 0x1_0000_0000,
            status: w[2],
            cycle_bit: w3 & 1 != 0,
            evaluate_next_trb: w3 & 2 != 0,
            reserved: ((w3 >> 2) & 0xFF) as u8,
            trb_type: ((w3 >> 10) & 0x3F) as u8,
            control: (w3 >> 16) as u16,
        }
    }

    pub fn trb_type(&self) -> (r: u8)
        ensures
            r == self.trb_type,
    {
        self.trb_type
    }
}

/// Splitting a TRB into words and joining them gives it back.
pub proof fn law_trb_words_round_trip(v: u128)
    ensures
        trb_of_words(seq![trb_word(v, 0), trb_word(v, 1), trb_word(v, 2), trb_word(v, 3)]) == v,
{
    lemma_split(v);
    let (a, b, c, d) = ((v as u32), (v >> 32u128) as u32, (v >> 64u128) as u32, (v >> 96u128) as u32);
    lemma_join(a, b, c, d);
    assert((a as u128) | (b as u128) << 32u128 | (c as u128) << 64u128 | (d as u128) << 96u128 == v) by (bit_vector)
        requires
            a == v as u32,
            b == (v >> 32u128) as u32,
            c == (v >> 64u128) as u32,
            d == (v >> 96u128) as u32,
    ;
}

} // verus!

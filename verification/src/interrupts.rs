//! Bit-level codecs of the descriptor tables: segment descriptors of the
//! global descriptor table and gate descriptors of the interrupt descriptor
//! table, with the registers that locate both tables.

use vstd::prelude::*;
use crate::utils::bits::{
    lemma_u64_bit_keeps_field, lemma_u64_bit_set, lemma_u64_field_fits, lemma_u64_field_keeps_bit,
    lemma_u64_field_keeps_field, lemma_u64_field_read_back, lemma_u64_small_fits,
    lemma_u8_bit_keeps_field, lemma_u8_bit_set, lemma_u8_field_fits, lemma_u8_field_keeps_bit,
    lemma_u8_field_read_back, lemma_u8_small_fits, GetBit, SetBit,
};

verus! {

/// The powers of two that bound the fields of the descriptors.
pub proof fn lemma_field_masks()
    by (bit_vector)
    ensures
        (1u8 << 2u8) == 4u8,
        (1u64 << 2u64) == 4u64,
        (1u64 << 3u64) == 8u64,
        (1u64 << 4u64) == 16u64,
        (1u64 << 8u64) == 0x100u64,
        (1u64 << 16u64) == 0x1_0000u64,
        (1u64 << 24u64) == 0x100_0000u64,
        (1u64 << 32u64) == 0x1_0000_0000u64,
{
}

/// Descriptor privilege level: the ring that may use a descriptor.
#[derive(Clone, Copy, Debug, PartialEq, Eq, Structural)]
pub enum Dpl {
    Ring0,
    Ring1,
    Ring2,
    Ring3,
}

impl Dpl {
    /// The ring's number.
    pub open spec fn level(self) -> u8 {
        match self {
            Dpl::Ring0 => 0,
            Dpl::Ring1 => 1,
            Dpl::Ring2 => 2,
            Dpl::Ring3 => 3,
        }
    }

    /// Returns the ring's number.
    pub fn to_u8(self) -> (v: u8)
        ensures
            v == self.level(),
    {
        match self {
            Dpl::Ring0 => 0,
            Dpl::Ring1 => 1,
            Dpl::Ring2 => 2,
            Dpl::Ring3 => 3,
        }
    }

    /// The ring of a number from 0 to 3; other numbers name no ring.
    pub fn try_from(value: u8) -> (r: Result<Dpl, &'static str>)
        ensures
            match r {
                Ok(dpl) => value <= 3 && dpl.level() == value,
                Err(reason) => value > 3 && reason@
                    == "Totally unreachable unless GetBit is not implemented correctly."@,
            },
    {
        match value {
            0 => Ok(Dpl::Ring0),
            1 => Ok(Dpl::Ring1),
            2 => Ok(Dpl::Ring2),
            3 => Ok(Dpl::Ring3),
            _ => Err("Totally unreachable unless GetBit is not implemented correctly."),
        }
    }
}

/// The two kinds of gates.
#[derive(Clone, Copy, Debug, PartialEq, Eq, Structural)]
pub enum GateType {
    Interrupt,
    Trap,
}

impl GateType {
    /// The four bits that stand for the kind in a gate descriptor.
    pub open spec fn code(self) -> u8 {
        match self {
            GateType::Interrupt => 0x0E,
            GateType::Trap => 0x0F,
        }
    }

    /// Returns the four bits that stand for the kind.
    pub fn to_u8(self) -> (v: u8)
        ensures
            v == self.code(),
    {
        match self {
            GateType::Interrupt => 0x0E,
            GateType::Trap => 0x0F,
        }
    }

    /// The kind that four bits stand for, if any.
    pub fn try_from(value: u8) -> (r: Result<GateType, &'static str>)
        ensures
            match r {
                Ok(gate) => gate.code() == value,
                Err(reason) => value != 0x0E && value != 0x0F && reason@
                    == "Invalid value for a GateType."@,
            },
    {
        match value {
            0x0E => Ok(GateType::Interrupt),
            0x0F => Ok(GateType::Trap),
            _ => Err("Invalid value for a GateType."),
        }
    }
}

/// Flags of a segment descriptor, in the high bits of a byte.
///
/// |7|6 |5|
/// |G|DB|L|
#[derive(Clone, Copy, Debug, PartialEq, Eq, Structural)]
pub struct Flags(pub u8);

impl Flags {
    /// Every flag but the one at `idx` reads the same in both bytes.
    pub open spec fn agree_except(x: u8, y: u8, idx: nat) -> bool {
        &&& idx != 7 ==> y.bit(7) == x.bit(7)
        &&& idx != 6 ==> y.bit(6) == x.bit(6)
        &&& idx != 5 ==> y.bit(5) == x.bit(5)
    }

    proof fn lemma_flag_written(x: u8, idx: nat, value: bool)
        requires
            5 <= idx <= 7,
        ensures
            x.with_bit(idx, value).bit(idx) == value,
            Self::agree_except(x, x.with_bit(idx, value), idx),
    {
        lemma_u8_bit_set(x, idx, value, 7);
        lemma_u8_bit_set(x, idx, value, 6);
        lemma_u8_bit_set(x, idx, value, 5);
    }

    /// Granularity: the limit counts pages, not bytes.
    pub fn g(&self) -> (b: bool)
        ensures
            b == self.0.bit(7),
    {
        self.0.get_bit(7)
    }

    pub fn set_g(&mut self, value: bool)
        ensures
            final(self).0 == old(self).0.with_bit(7, value),
            final(self).0.bit(7) == value,
            Self::agree_except(old(self).0, final(self).0, 7),
    {
        proof {
            Self::lemma_flag_written(self.0, 7, value);
        }
        self.0.set_bit(7, value);
    }

    /// Size: the segment is a 32-bit one.
    pub fn db(&self) -> (b: bool)
        ensures
            b == self.0.bit(6),
    {
        self.0.get_bit(6)
    }

    pub fn set_db(&mut self, value: bool)
        ensures
            final(self).0 == old(self).0.with_bit(6, value),
            final(self).0.bit(6) == value,
            Self::agree_except(old(self).0, final(self).0, 6),
    {
        proof {
            Self::lemma_flag_written(self.0, 6, value);
        }
        self.0.set_bit(6, value);
    }

    /// Long mode: the segment holds 64-bit code.
    pub fn l(&self) -> (b: bool)
        ensures
            b == self.0.bit(5),
    {
        self.0.get_bit(5)
    }

    pub fn set_l(&mut self, value: bool)
        ensures
            final(self).0 == old(self).0.with_bit(5, value),
            final(self).0.bit(5) == value,
            Self::agree_except(old(self).0, final(self).0, 5),
    {
        proof {
            Self::lemma_flag_written(self.0, 5, value);
        }
        self.0.set_bit(5, value);
    }
}

/// Access byte of a segment descriptor.
///
/// |7|6 5|4|3|2 |1 |0|
/// |P|DPL|S|E|DC|RW|A|
#[derive(Clone, Copy, Debug, PartialEq, Eq, Structural)]
pub struct AccessByte(pub u8);

impl AccessByte {
    /// Every field but the one whose highest bit is `idx` reads the same in
    /// both bytes.
    pub open spec fn agree_except(x: u8, y: u8, idx: nat) -> bool {
        &&& idx != 7 ==> y.bit(7) == x.bit(7)
        &&& idx != 6 ==> y.bits(6, 2) == x.bits(6, 2)
        &&& idx != 4 ==> y.bit(4) == x.bit(4)
        &&& idx != 3 ==> y.bit(3) == x.bit(3)
        &&& idx != 2 ==> y.bit(2) == x.bit(2)
        &&& idx != 1 ==> y.bit(1) == x.bit(1)
        &&& idx != 0 ==> y.bit(0) == x.bit(0)
    }

    proof fn lemma_bit_written(x: u8, idx: nat, value: bool)
        requires
            idx <= 4 || idx == 7,
        ensures
            x.with_bit(idx, value).bit(idx) == value,
            Self::agree_except(x, x.with_bit(idx, value), idx),
    {
        lemma_u8_bit_set(x, idx, value, 7);
        lemma_u8_bit_set(x, idx, value, 4);
        lemma_u8_bit_set(x, idx, value, 3);
        lemma_u8_bit_set(x, idx, value, 2);
        lemma_u8_bit_set(x, idx, value, 1);
        lemma_u8_bit_set(x, idx, value, 0);
        lemma_u8_bit_keeps_field(x, idx, value, 6, 2);
    }

    /// Present: the segment is valid.
    pub fn p(&self) -> (b: bool)
        ensures
            b == self.0.bit(7),
    {
        self.0.get_bit(7)
    }

    pub fn set_p(&mut self, value: bool)
        ensures
            final(self).0 == old(self).0.with_bit(7, value),
            final(self).0.bit(7) == value,
            Self::agree_except(old(self).0, final(self).0, 7),
    {
        proof {
            Self::lemma_bit_written(self.0, 7, value);
        }
        self.0.set_bit(7, value);
    }

    /// The ring that may use the segment.
    pub fn dpl(&self) -> (dpl: Dpl)
        ensures
            dpl.level() == self.0.bits(6, 2),
    {
        proof {
            lemma_field_masks();
            lemma_u8_field_fits(self.0, 6, 2);
        }
        Dpl::try_from(self.0.get_bits(6, 2)).unwrap()
    }

    pub fn set_dpl(&mut self, value: Dpl)
        ensures
            final(self).0 == old(self).0.with_bits(6, 2, value.level()),
            final(self).0.bits(6, 2) == value.level(),
            Self::agree_except(old(self).0, final(self).0, 6),
    {
        let level: u8 = value.to_u8();
        proof {
            let x = self.0;
            lemma_field_masks();
            lemma_u8_small_fits(level, 2);
            lemma_u8_field_read_back(x, 6, 2, level);
            lemma_u8_field_keeps_bit(x, 6, 2, level, 7);
            lemma_u8_field_keeps_bit(x, 6, 2, level, 4);
            lemma_u8_field_keeps_bit(x, 6, 2, level, 3);
            lemma_u8_field_keeps_bit(x, 6, 2, level, 2);
            lemma_u8_field_keeps_bit(x, 6, 2, level, 1);
            lemma_u8_field_keeps_bit(x, 6, 2, level, 0);
        }
        self.0.set_bits(6, 2, level)
    }

    /// Descriptor type: a code or data segment, not a system one.
    pub fn s(&self) -> (b: bool)
        ensures
            b == self.0.bit(4),
    {
        self.0.get_bit(4)
    }

    pub fn set_s(&mut self, value: bool)
        ensures
            final(self).0 == old(self).0.with_bit(4, value),
            final(self).0.bit(4) == value,
            Self::agree_except(old(self).0, final(self).0, 4),
    {
        proof {
            Self::lemma_bit_written(self.0, 4, value);
        }
        self.0.set_bit(4, value);
    }

    /// Executable: a code segment.
    pub fn e(&self) -> (b: bool)
        ensures
            b == self.0.bit(3),
    {
        self.0.get_bit(3)
    }

    pub fn set_e(&mut self, value: bool)
        ensures
            final(self).0 == old(self).0.with_bit(3, value),
            final(self).0.bit(3) == value,
            Self::agree_except(old(self).0, final(self).0, 3),
    {
        proof {
            Self::lemma_bit_written(self.0, 3, value);
        }
        self.0.set_bit(3, value);
    }

    /// Direction of a data segment, or conformance of a code segment.
    pub fn dc(&self) -> (b: bool)
        ensures
            b == self.0.bit(2),
    {
        self.0.get_bit(2)
    }

    /// Readable code segment, or writable data segment.
    pub fn rw(&self) -> (b: bool)
        ensures
            b == self.0.bit(1),
    {
        self.0.get_bit(1)
    }

    pub fn set_rw(&mut self, value: bool)
        ensures
            final(self).0 == old(self).0.with_bit(1, value),
            final(self).0.bit(1) == value,
            Self::agree_except(old(self).0, final(self).0, 1),
    {
        proof {
            Self::lemma_bit_written(self.0, 1, value);
        }
        self.0.set_bit(1, value);
    }

    /// Accessed: the processor has used the segment.
    pub fn a(&self) -> (b: bool)
        ensures
            b == self.0.bit(0),
    {
        self.0.get_bit(0)
    }
}

/// Segment descriptor: an entry of the global descriptor table.
///
/// |63                56|55           52|51          48|47                 40|
/// | Base (8 of 32bits) | Flags (4bits) | Limit(4bits) | Access Byte (8bits) |
/// |39                 16|15                    0|
/// | Base(24 of 32 bits) | Limit (16 of 20 bits) |
#[derive(Clone, Copy, Debug, PartialEq, Eq, Structural)]
pub struct SegmentDescriptor(pub u64);

impl SegmentDescriptor {
    /// The base address: its high byte above its low three.
    pub open spec fn base_value(&self) -> u64 {
        (self.0.bits(63, 8) << 24) | self.0.bits(39, 24)
    }

    /// The limit: its high four bits above its low sixteen.
    pub open spec fn limit_value(&self) -> u64 {
        (self.0.bits(51, 4) << 16) | self.0.bits(15, 16)
    }

    /// The four flag bits, as the low bits of a byte. The accessors of
    /// `Flags` read bits 7 to 5: in the value returned here the flags stand
    /// four bits lower.
    pub fn flags(&self) -> (f: Flags)
        ensures
            f.0 == self.0.bits(55, 4),
    {
        let value: u64 = self.0.get_bits(55, 4);
        proof {
            lemma_field_masks();
            lemma_u64_field_fits(self.0, 55, 4);
        }
        Flags(value as u8)
    }

    /// The access byte.
    pub fn access_byte(&self) -> (a: AccessByte)
        ensures
            a.0 == (self.0 >> 40) & 0xff,
    {
        let shifted: u64 = self.0 >> 40;
        assert((shifted & 0xff) == (shifted as u8)) by (bit_vector);
        AccessByte(#[verifier::truncate] (shifted as u8))
    }

    /// The base address of the segment.
    pub fn base(&self) -> (b: u32)
        ensures
            b == self.base_value(),
    {
        let upper: u64 = self.0.get_bits(63, 8);
        let rest: u64 = self.0.get_bits(39, 24);
        proof {
            lemma_field_masks();
            lemma_u64_field_fits(self.0, 63, 8);
            lemma_u64_field_fits(self.0, 39, 24);
            assert(((upper << 24) | rest) <= 0xffff_ffff) by (bit_vector)
                requires
                    upper < 0x100,
                    rest < 0x100_0000,
            ;
        }
        ((upper << 24) | rest) as u32
    }

    /// The size of the segment, less one, in bytes or pages.
    pub fn limit(&self) -> (l: u32)
        ensures
            l == self.limit_value(),
    {
        let upper: u64 = self.0.get_bits(51, 4);
        let rest: u64 = self.0.get_bits(15, 16);
        proof {
            lemma_field_masks();
            lemma_u64_field_fits(self.0, 51, 4);
            lemma_u64_field_fits(self.0, 15, 16);
            assert(((upper << 16) | rest) <= 0xffff_ffff) by (bit_vector)
                requires
                    upper < 16,
                    rest < 0x1_0000,
            ;
        }
        ((upper << 16) | rest) as u32
    }

    /// The code segment of the kernel: present, ring 0, executable and
    /// readable, in long mode, with page granularity.
    pub fn kernel_mode_code_segment() -> (d: SegmentDescriptor)
        ensures
            d.0 == 0x00A0_9A00_0000_0000,
    {
        SegmentDescriptor(0x00A09A0000000000)
    }

    /// The data segment of the kernel: present, ring 0, writable, with page
    /// granularity.
    pub fn kernel_mode_data_segment() -> (d: SegmentDescriptor)
        ensures
            d.0 == 0x00C0_9200_0000_0000,
    {
        SegmentDescriptor(0x00C0920000000000)
    }
}

/// What the processor's register holds of the global descriptor table: the
/// table's size in bytes, less one, and its address.
#[derive(Clone, Copy, Debug, PartialEq, Eq, Structural)]
pub struct Gdtr {
    pub limit: u16,
    pub base: u64,
}

impl Gdtr {
    /// Number of the table's entries, of eight bytes each.
    pub fn entries(&self) -> (n: u16)
        requires
            self.limit < u16::MAX,
        ensures
            n == (self.limit + 1) / 8,
    {
        (self.limit + 1) / 8
    }
}

/// What the processor's register holds of the interrupt descriptor table:
/// the table's size in bytes, less one, and its address.
#[derive(Clone, Copy, Debug, PartialEq, Eq, Structural)]
pub struct Idtr {
    pub limit: u16,
    pub base: u64,
}

impl Idtr {
    /// Number of the table's entries, of sixteen bytes each.
    pub fn entries(&self) -> (n: u16)
        requires
            self.limit < u16::MAX,
        ensures
            n == (self.limit + 1) / 16,
    {
        (self.limit + 1) / 16
    }
}

/// Gate descriptor: an entry of the interrupt descriptor table, which names
/// the function to run on an interrupt.
///
/// Second word:
/// |127            96|95                 64|
/// |Reserved (32bits)|Offset (32 of 64bits)|
///
/// First word:
/// |63                 48|47|46       45|44|43             40|39            35|34       32|
/// |Offset (16 of 64bits)|P |DPL (2bits)|0 |Gate Type (4bits)|Reserved (5bits)|IST (3bits)|
/// |31                     16|15                  0|
/// |Segment Selector (16bits)|Offset (16 of 64bits)|
#[derive(Clone, Copy, Debug, PartialEq, Eq, Structural)]
pub struct GateDescriptor(pub u64, pub u64);

impl Default for GateDescriptor {
    /// The descriptor of all zeros: a gate that is not present.
    fn default() -> (d: GateDescriptor)
        ensures
            d.0 == 0,
            d.1 == 0,
    {
        GateDescriptor(0, 0)
    }
}

impl GateDescriptor {
    /// Every field of the first word but the one whose highest bit is
    /// `first_idx` reads the same in both words.
    pub open spec fn agree_except(x: u64, y: u64, first_idx: nat) -> bool {
        &&& first_idx != 63 ==> y.bits(63, 16) == x.bits(63, 16)
        &&& first_idx != 47 ==> y.bit(47) == x.bit(47)
        &&& first_idx != 46 ==> y.bits(46, 2) == x.bits(46, 2)
        &&& first_idx != 43 ==> y.bits(43, 4) == x.bits(43, 4)
        &&& first_idx != 34 ==> y.bits(34, 3) == x.bits(34, 3)
        &&& first_idx != 31 ==> y.bits(31, 16) == x.bits(31, 16)
        &&& first_idx != 15 ==> y.bits(15, 16) == x.bits(15, 16)
    }

    /// `(first_idx, len)` is a field of the first word.
    pub open spec fn is_field(first_idx: nat, len: nat) -> bool {
        ||| (first_idx == 63 && len == 16)
        ||| (first_idx == 46 && len == 2)
        ||| (first_idx == 43 && len == 4)
        ||| (first_idx == 34 && len == 3)
        ||| (first_idx == 31 && len == 16)
        ||| (first_idx == 15 && len == 16)
    }

    /// The address of the function to run.
    pub open spec fn offset_value(&self) -> u64 {
        (self.1.bits(31, 32) << 32) | (self.0.bits(63, 16) << 16) | self.0.bits(15, 16)
    }

    /// The type field holds the code of an interrupt or of a trap.
    pub open spec fn has_gate_type(&self) -> bool {
        self.0.bits(43, 4) == 0x0E || self.0.bits(43, 4) == 0x0F
    }

    proof fn lemma_field_written(x: u64, first_idx: nat, len: nat, value: u64)
        requires
            Self::is_field(first_idx, len),
            value < (1u64 << (len as u64)),
        ensures
            x.with_bits(first_idx, len, value).bits(first_idx, len) == value,
            Self::agree_except(x, x.with_bits(first_idx, len, value), first_idx),
    {
        lemma_u64_small_fits(value, len);
        lemma_u64_field_read_back(x, first_idx, len, value);
        lemma_u64_field_keeps_bit(x, first_idx, len, value, 47);
        if first_idx != 63 {
            lemma_u64_field_keeps_field(x, first_idx, len, value, 63, 16);
        }
        if first_idx != 46 {
            lemma_u64_field_keeps_field(x, first_idx, len, value, 46, 2);
        }
        if first_idx != 43 {
            lemma_u64_field_keeps_field(x, first_idx, len, value, 43, 4);
        }
        if first_idx != 34 {
            lemma_u64_field_keeps_field(x, first_idx, len, value, 34, 3);
        }
        if first_idx != 31 {
            lemma_u64_field_keeps_field(x, first_idx, len, value, 31, 16);
        }
        if first_idx != 15 {
            lemma_u64_field_keeps_field(x, first_idx, len, value, 15, 16);
        }
    }

    /// The first word of a present gate with an unused stack table index.
    pub open spec fn first_word(fn_ptr: u64, selector: u16, dpl: Dpl, gtype: GateType) -> u64 {
        (fn_ptr & 0xffff) | ((selector as u64) << 16) | ((gtype.code() as u64) << 40) | ((
        dpl.level() as u64) << 45) | (1u64 << 47) | (((fn_ptr >> 16) & 0xffff) << 48)
    }

    /// A present gate to the function at `fn_ptr`, of the given kind, for
    /// the given ring, in the code segment that `selector` names.
    pub fn new(fn_ptr: u64, selector: u16, dpl: Dpl, gtype: GateType) -> (d: GateDescriptor)
        ensures
            d.0 == Self::first_word(fn_ptr, selector, dpl, gtype),
            d.1 == fn_ptr >> 32,
            d.offset_value() == fn_ptr,
            d.0.bits(31, 16) == selector,
            d.0.bits(46, 2) == dpl.level(),
            d.0.bits(43, 4) == gtype.code(),
            d.0.bits(34, 3) == 0,
            d.0.bit(47),
    {
        let mut descriptor = GateDescriptor(0, 0);
        descriptor.set_offset(fn_ptr);
        let ghost w1 = descriptor.0;
        descriptor.set_selector(selector);
        let ghost w2 = descriptor.0;
        descriptor.set_dpl(dpl);
        let ghost w3 = descriptor.0;
        descriptor.set_gate_type(gtype);
        let ghost w4 = descriptor.0;
        descriptor.set_p(true);
        proof {
            let w5 = descriptor.0;
            let high = descriptor.1;
            let upper = fn_ptr >> 32;
            let middle = fn_ptr.bits(31, 16);
            let lower = fn_ptr.bits(15, 16);
            let w0 = 0u64.with_bits(63, 16, middle);
            let sel = selector as u64;
            let level = dpl.level() as u64;
            let code = gtype.code() as u64;
            lemma_field_masks();
            assert(w5 == (fn_ptr & 0xffff) | (sel << 16) | (code << 40) | (level << 45) | (1u64
                << 47) | (((fn_ptr >> 16) & 0xffff) << 48) && high == upper && ((w3 >> 32) & 7)
                == 0) by (bit_vector)
                requires
                    middle == (fn_ptr >> 16) & 0xffff,
                    lower == (fn_ptr >> 0) & 0xffff,
                    high == (0u64 & !((0xffff_ffff_ffff_ffffu64 >> 32) << 0)) | (upper << 0),
                    upper == fn_ptr >> 32,
                    w0 == (0u64 & !((0xffff_ffff_ffff_ffffu64 >> 48) << 48)) | (middle << 48),
                    w1 == (w0 & !((0xffff_ffff_ffff_ffffu64 >> 48) << 0)) | (lower << 0),
                    w2 == (w1 & !((0xffff_ffff_ffff_ffffu64 >> 48) << 16)) | (sel << 16),
                    w3 == (w2 & !((0xffff_ffff_ffff_ffffu64 >> 62) << 45)) | (level << 45),
                    w4 == (w3 & !((0xffff_ffff_ffff_ffffu64 >> 60) << 40)) | (code << 40),
                    w5 == (w4 & !(1u64 << 47)) | (1u64 << 47),
                    sel <= 0xffff,
                    level <= 3,
                    code <= 15,
            ;
        }
        descriptor
    }

    /// The address of the function to run.
    pub fn offset(&self) -> (o: u64)
        ensures
            o == self.offset_value(),
    {
        let lower_first: u64 = self.0.get_bits(63, 16);
        let lower_rest: u64 = self.0.get_bits(15, 16);
        let upper: u64 = self.1.get_bits(31, 32);
        (upper << 32) | (lower_first << 16) | lower_rest
    }

    pub fn set_offset(&mut self, offset: u64)
        ensures
            final(self).offset_value() == offset,
            final(self).1 == old(self).1.with_bits(31, 32, offset >> 32),
            final(self).0 == old(self).0.with_bits(63, 16, offset.bits(31, 16)).with_bits(
                15,
                16,
                offset.bits(15, 16),
            ),
            final(self).0.bit(47) == old(self).0.bit(47),
            final(self).0.bits(46, 2) == old(self).0.bits(46, 2),
            final(self).0.bits(43, 4) == old(self).0.bits(43, 4),
            final(self).0.bits(34, 3) == old(self).0.bits(34, 3),
            final(self).0.bits(31, 16) == old(self).0.bits(31, 16),
    {
        let upper: u64 = offset >> 32;
        let middle: u64 = offset.get_bits(31, 16);
        let lower: u64 = offset.get_bits(15, 16);
        proof {
            lemma_field_masks();
            lemma_u64_field_fits(offset, 31, 16);
            lemma_u64_field_fits(offset, 15, 16);
            assert(upper >> 32 == 0 && ((upper << 32) | (middle << 16) | lower) == offset)
                by (bit_vector)
                requires
                    upper == offset >> 32,
                    middle == (offset >> 16) & 0xffff,
                    lower == (offset >> 0) & 0xffff,
            ;
            lemma_u64_field_read_back(self.1, 31, 32, upper);
            let x = self.0;
            let y = x.with_bits(63, 16, middle);
            Self::lemma_field_written(x, 63, 16, middle);
            Self::lemma_field_written(y, 15, 16, lower);
        }
        self.1.set_bits(31, 32, upper);
        self.0.set_bits(63, 16, middle);
        self.0.set_bits(15, 16, lower);
    }

    /// Present: the descriptor is valid.
    pub fn p(&self) -> (b: bool)
        ensures
            b == self.0.bit(47),
    {
        self.0.get_bit(47)
    }

    pub fn set_p(&mut self, value: bool)
        ensures
            final(self).0 == old(self).0.with_bit(47, value),
            final(self).1 == old(self).1,
            final(self).0.bit(47) == value,
            Self::agree_except(old(self).0, final(self).0, 47),
    {
        proof {
            let x = self.0;
            lemma_u64_bit_set(x, 47, value, 47);
            lemma_u64_bit_keeps_field(x, 47, value, 63, 16);
            lemma_u64_bit_keeps_field(x, 47, value, 46, 2);
            lemma_u64_bit_keeps_field(x, 47, value, 43, 4);
            lemma_u64_bit_keeps_field(x, 47, value, 34, 3);
            lemma_u64_bit_keeps_field(x, 47, value, 31, 16);
            lemma_u64_bit_keeps_field(x, 47, value, 15, 16);
        }
        self.0.set_bit(47, value);
    }

    /// The ring that may call through the descriptor.
    pub fn dpl(&self) -> (dpl: Dpl)
        ensures
            dpl.level() == self.0.bits(46, 2),
    {
        let value: u64 = self.0.get_bits(46, 2);
        proof {
            lemma_field_masks();
            lemma_u64_field_fits(self.0, 46, 2);
        }
        Dpl::try_from(value as u8).unwrap()
    }

    pub fn set_dpl(&mut self, dpl: Dpl)
        ensures
            final(self).0 == old(self).0.with_bits(46, 2, dpl.level() as u64),
            final(self).1 == old(self).1,
            final(self).0.bits(46, 2) == dpl.level(),
            Self::agree_except(old(self).0, final(self).0, 46),
    {
        let level: u64 = dpl.to_u8() as u64;
        proof {
            lemma_field_masks();
            Self::lemma_field_written(self.0, 46, 2, level);
        }
        self.0.set_bits(46, 2, level);
    }

    /// Interrupt or trap.
    pub fn gate_type(&self) -> (gate: GateType)
        requires
            self.has_gate_type(),
        ensures
            gate.code() == self.0.bits(43, 4),
    {
        let value: u64 = self.0.get_bits(43, 4);
        GateType::try_from(value as u8).unwrap()
    }

    pub fn set_gate_type(&mut self, gtype: GateType)
        ensures
            final(self).0 == old(self).0.with_bits(43, 4, gtype.code() as u64),
            final(self).1 == old(self).1,
            final(self).0.bits(43, 4) == gtype.code(),
            final(self).has_gate_type(),
            Self::agree_except(old(self).0, final(self).0, 43),
    {
        let code: u64 = gtype.to_u8() as u64;
        proof {
            lemma_field_masks();
            Self::lemma_field_written(self.0, 43, 4, code);
        }
        self.0.set_bits(43, 4, code);
    }

    /// Index into the interrupt stack table of the task state segment; zero
    /// where the table is not used.
    pub fn ist(&self) -> (i: u8)
        ensures
            i == self.0.bits(34, 3),
    {
        let value: u64 = self.0.get_bits(34, 3);
        proof {
            lemma_field_masks();
            lemma_u64_field_fits(self.0, 34, 3);
        }
        value as u8
    }

    pub fn set_ist(&mut self, value: u8)
        ensures
            final(self).0 == old(self).0.with_bits(34, 3, value as u64),
            final(self).1 == old(self).1,
            value < 8 ==> final(self).0.bits(34, 3) == value && Self::agree_except(
                old(self).0,
                final(self).0,
                34,
            ),
    {
        proof {
            lemma_field_masks();
            if value < 8 {
                Self::lemma_field_written(self.0, 34, 3, value as u64);
            }
        }
        self.0.set_bits(34, 3, value as u64);
    }

    /// The selector of the code segment that holds the function.
    pub fn selector(&self) -> (s: u16)
        ensures
            s == self.0.bits(31, 16),
    {
        let value: u64 = self.0.get_bits(31, 16);
        proof {
            lemma_field_masks();
            lemma_u64_field_fits(self.0, 31, 16);
        }
        value as u16
    }

    pub fn set_selector(&mut self, selector: u16)
        ensures
            final(self).0 == old(self).0.with_bits(31, 16, selector as u64),
            final(self).1 == old(self).1,
            final(self).0.bits(31, 16) == selector,
            Self::agree_except(old(self).0, final(self).0, 31),
    {
        proof {
            lemma_field_masks();
            Self::lemma_field_written(self.0, 31, 16, selector as u64);
        }
        self.0.set_bits(31, 16, selector as u64);
    }
}

} // verus!

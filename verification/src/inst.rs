//! The instruction record and its 32-bit wire format.

use bitvec::field::BitField;
use bitvec::order::Msb0;
use bitvec::view::BitView;
use vstd::prelude::*;

verus! {

/// One assembled instruction, field by field.
///
/// On the wire the fields are packed most significant first:
/// `addr_mode` in 2 bits, `opcode` in 6, `reg_z` and `reg_x` in 4 each and
/// `operand` in 16.
#[derive(Clone, Copy, Debug, PartialEq, Eq, Structural)]
pub struct Inst {
    pub addr_mode: u8,
    pub opcode: u8,
    pub reg_z: u8,
    pub reg_x: u8,
    pub operand: u16,
}

/// The number that four bytes spell when the first is the most significant.
pub open spec fn be_word(bytes: Seq<u8>) -> int
    recommends
        bytes.len() == 4,
{
    bytes[0] * 0x100_0000 + bytes[1] * 0x1_0000 + bytes[2] * 0x100 + bytes[3]
}

/// Reads four bytes as one big-endian word with `bitvec`'s
/// `BitField::load_be` on the `Msb0` bit view of the array.
///
/// Trusted: the result is the first byte times 2^24, plus the second times
/// 2^16, plus the third times 2^8, plus the fourth.
#[verifier::external_body]
fn load_be_word(bytes: &[u8; 4]) -> (word: u32)
    ensures
        word as int == be_word(bytes@),
{
    bytes.view_bits::<Msb0>().load_be::<u32>()
}

impl Inst {
    /// Every field fits the width that the wire format gives it.
    pub open spec fn wf(self) -> bool {
        &&& self.addr_mode < 4
        &&& self.opcode < 64
        &&& self.reg_z < 16
        &&& self.reg_x < 16
    }

    /// The four bytes of the packed instruction. A field wider than its
    /// slot loses its high bits.
    pub open spec fn spec_bytes(self) -> Seq<u8> {
        seq![
            ((self.addr_mode % 4) * 64 + self.opcode % 64) as u8,
            ((self.reg_z % 16) * 16 + self.reg_x % 16) as u8,
            (self.operand / 256) as u8,
            (self.operand % 256) as u8,
        ]
    }

    /// The packed instruction as a number.
    pub open spec fn spec_word(self) -> int {
        (self.addr_mode % 4) * 0x4000_0000 + (self.opcode % 64) * 0x100_0000 + (self.reg_z % 16)
            * 0x10_0000 + (self.reg_x % 16) * 0x1_0000 + self.operand
    }

    /// The fields that a word holds.
    pub open spec fn spec_from_word(word: u32) -> Inst {
        Inst {
            addr_mode: (word / 0x4000_0000) as u8,
            opcode: (word / 0x100_0000 % 64) as u8,
            reg_z: (word / 0x10_0000 % 16) as u8,
            reg_x: (word / 0x1_0000 % 16) as u8,
            operand: (word % 0x1_0000) as u16,
        }
    }

    /// Packs the instruction into its four bytes, most significant first.
    pub fn to_bytes(&self) -> (bytes: [u8; 4])
        ensures
            bytes@ == self.spec_bytes(),
            be_word(bytes@) == self.spec_word(),
    {
        let b0: u8 = (self.addr_mode % 4) * 64 + self.opcode % 64;
        let b1: u8 = (self.reg_z % 16) * 16 + self.reg_x % 16;
        let b2: u8 = (self.operand / 256) as u8;
        let b3: u8 = (self.operand % 256) as u8;
        let bytes: [u8; 4] = [b0, b1, b2, b3];
        assert(bytes@ =~= self.spec_bytes());
        bytes
    }

    /// Packs the instruction into one 32-bit word.
    pub fn to_word(&self) -> (word: u32)
        ensures
            word as int == self.spec_word(),
    {
        let bytes = self.to_bytes();
        load_be_word(&bytes)
    }

    /// Unpacks a 32-bit word into its fields.
    pub fn from_word(word: u32) -> (inst: Inst)
        ensures
            inst == Inst::spec_from_word(word),
            inst.wf(),
            inst.spec_word() == word as int,
    {
        proof {
            lemma_word_fields(word);
        }
        Inst {
            addr_mode: (word / 0x4000_0000) as u8,
            opcode: (word / 0x100_0000 % 64) as u8,
            reg_z: (word / 0x10_0000 % 16) as u8,
            reg_x: (word / 0x1_0000 % 16) as u8,
            operand: (word % 0x1_0000) as u16,
        }
    }
}

/// A word is the sum of its five fields, each at its place.
proof fn lemma_word_fields(word: u32)
    ensures
        word / 0x4000_0000 < 4,
        (word / 0x4000_0000) * 0x4000_0000 + (word / 0x100_0000 % 64) * 0x100_0000 + (word
            / 0x10_0000 % 16) * 0x10_0000 + (word / 0x1_0000 % 16) * 0x1_0000 + word % 0x1_0000
            == word,
{
    assert(word / 0x4000_0000 < 4) by (bit_vector);
    assert((word / 0x4000_0000) * 0x4000_0000 + (word / 0x100_0000 % 64) * 0x100_0000 + (word
        / 0x10_0000 % 16) * 0x10_0000 + (word / 0x1_0000 % 16) * 0x1_0000 + word % 0x1_0000
        == word) by (bit_vector);
}

/// The fields of a well-formed instruction can be read off the sum that
/// packs them.
proof fn lemma_fields_of_sum(a: u32, o: u32, z: u32, x: u32, v: u32)
    requires
        a < 4,
        o < 64,
        z < 16,
        x < 16,
        v < 0x1_0000,
    ensures
        a * 0x4000_0000 + o * 0x100_0000 + z * 0x10_0000 + x * 0x1_0000 + v <= u32::MAX,
        ({
            let w = (a * 0x4000_0000 + o * 0x100_0000 + z * 0x10_0000 + x * 0x1_0000 + v) as u32;
            &&& w / 0x4000_0000 == a
            &&& w / 0x100_0000 % 64 == o
            &&& w / 0x10_0000 % 16 == z
            &&& w / 0x1_0000 % 16 == x
            &&& w % 0x1_0000 == v
        }),
{
    let w = (a * 0x4000_0000 + o * 0x100_0000 + z * 0x10_0000 + x * 0x1_0000 + v) as u32;
    assert(a * 0x4000_0000 + o * 0x100_0000 + z * 0x10_0000 + x * 0x1_0000 + v <= u32::MAX);
    assert(w == (a << 30) | (o << 24) | (z << 20) | (x << 16) | v) by (bit_vector)
        requires
            a < 4,
            o < 64,
            z < 16,
            x < 16,
            v < 0x1_0000,
            w == a * 0x4000_0000 + o * 0x100_0000 + z * 0x10_0000 + x * 0x1_0000 + v,
    ;
    assert(w / 0x4000_0000 == a && w / 0x100_0000 % 64 == o && w / 0x10_0000 % 16 == z && w
        / 0x1_0000 % 16 == x && w % 0x1_0000 == v) by (bit_vector)
        requires
            a < 4,
            o < 64,
            z < 16,
            x < 16,
            v < 0x1_0000,
            w == (a << 30) | (o << 24) | (z << 20) | (x << 16) | v,
    ;
}

/// Unpacking the word of a well-formed instruction gives the instruction
/// back, field for field.
pub proof fn lemma_word_round_trip(inst: Inst)
    requires
        inst.wf(),
    ensures
        0 <= inst.spec_word() <= u32::MAX,
        Inst::spec_from_word(inst.spec_word() as u32) == inst,
{
    let a = inst.addr_mode as u32;
    let o = inst.opcode as u32;
    let z = inst.reg_z as u32;
    let x = inst.reg_x as u32;
    let v = inst.operand as u32;
    lemma_fields_of_sum(a, o, z, x, v);
    assert(inst.addr_mode % 4 == a && inst.opcode % 64 == o && inst.reg_z % 16 == z && inst.reg_x
        % 16 == x);
    let w = (a * 0x4000_0000 + o * 0x100_0000 + z * 0x10_0000 + x * 0x1_0000 + v) as u32;
    assert(inst.spec_word() == w);
    let back = Inst::spec_from_word(w);
    assert(back.addr_mode == inst.addr_mode);
    assert(back.opcode == inst.opcode);
    assert(back.reg_z == inst.reg_z);
    assert(back.reg_x == inst.reg_x);
    assert(back.operand == inst.operand);
}

/// Two well-formed instructions with the same word are the same instruction.
pub proof fn lemma_word_injective(a: Inst, b: Inst)
    requires
        a.wf(),
        b.wf(),
        a.spec_word() == b.spec_word(),
    ensures
        a == b,
{
    lemma_word_round_trip(a);
    lemma_word_round_trip(b);
}

} // verus!

//! Parts of a small CPU: bytes of eight bits, registers, operations and a
//! memory that grows one byte at a time.
use vstd::prelude::*;

use crate::number::Number;

verus! {

/// Eight bits, the lowest first.
#[derive(Debug, Clone, Copy, PartialEq, Eq, Structural)]
pub struct Byte(pub bool, pub bool, pub bool, pub bool, pub bool, pub bool, pub bool, pub bool);

/// The bits of a byte, the lowest first.
pub open spec fn byte_bits(b: Byte) -> Seq<bool> {
    seq![b.0, b.1, b.2, b.3, b.4, b.5, b.6, b.7]
}

impl Byte {
    /// The byte of eight clear bits.
    pub fn zero() -> (r: Byte)
        ensures
            byte_bits(r) == seq![false, false, false, false, false, false, false, false],
    {
        Byte(false, false, false, false, false, false, false, false)
    }

    /// Bit `index`.
    pub fn index(&self, index: usize) -> (r: bool)
        requires
            index < 8,
        ensures
            r == byte_bits(*self)[index as int],
    {
        match index {
            0 => self.0,
            1 => self.1,
            2 => self.2,
            3 => self.3,
            4 => self.4,
            5 => self.5,
            6 => self.6,
            _ => self.7,
        }
    }

    /// The byte that `value` reads as, bit `i` being set where
    /// `value & (1 << i)` equals one: only the lowest bit can be, and is
    /// where `value` is odd.
    pub fn from_u8(value: u8) -> (r: Byte)
        ensures
            byte_bits(r) == seq![value % 2 == 1, false, false, false, false, false, false, false],
    {
        let b0 = value & 1u8 == 1u8;
        let b1 = value & 2u8 == 1u8;
        let b2 = value & 4u8 == 1u8;
        let b3 = value & 8u8 == 1u8;
        let b4 = value & 16u8 == 1u8;
        let b5 = value & 32u8 == 1u8;
        let b6 = value & 64u8 == 1u8;
        let b7 = value & 128u8 == 1u8;
        assert(b0 == (value % 2 == 1)) by (bit_vector)
            requires
                b0 == (value & 1u8 == 1u8),
        ;
        assert(!b1 && !b2 && !b3 && !b4 && !b5 && !b6 && !b7) by (bit_vector)
            requires
                b1 == (value & 2u8 == 1u8),
                b2 == (value & 4u8 == 1u8),
                b3 == (value & 8u8 == 1u8),
                b4 == (value & 16u8 == 1u8),
                b5 == (value & 32u8 == 1u8),
                b6 == (value & 64u8 == 1u8),
                b7 == (value & 128u8 == 1u8),
        ;
        Byte(b0, b1, b2, b3, b4, b5, b6, b7)
    }
}

impl Default for Byte {
    fn default() -> (r: Byte)
        ensures
            byte_bits(r) == seq![false, false, false, false, false, false, false, false],
    {
        Byte::zero()
    }
}

#[derive(Debug, Clone, Copy, PartialEq, Eq, Structural)]
pub enum Register {
    R0,
    R1,
    R2,
    R3,
}

/// The accumulator.
pub struct Assumrator(pub Byte);

pub struct ProgramCounter(pub Number);

pub enum Operation {
    Add(Register, Register),
    Not(Register),
    And(Register),
    Cpy(Register, Register),
    Bck(Register),
    Ldm(Register, Number),
    Srm(Number),
    Jmp(Number),
    Brz(Number),
    Brc(Number),
    Nop(),
    Hlt(),
}

/// Memory: the bytes written so far, and the byte that every other address
/// reads as.
pub struct Memory {
    pub default: Byte,
    pub mem: Vec<Byte>,
}

impl Memory {
    /// The byte at `index`: the default byte, at any address up to the
    /// end of the written bytes.
    pub fn index(&self, index: Number) -> (r: &Byte)
        requires
            index.0 <= self.mem@.len(),
        ensures
            *r == self.default,
    {
        let u = index.0;
        if self.mem.len() < u {
            &self.mem[u]
        } else {
            &self.default
        }
    }

    /// The byte just after the written ones, which this adds as a default
    /// byte for the caller to set; or the last written byte.
    pub fn index_mut(&mut self, index: Number) -> (r: &mut Byte)
        requires
            index.0 == old(self).mem@.len() || index.0 + 1 == old(self).mem@.len(),
        ensures
            final(self).default == old(self).default,
            index.0 == old(self).mem@.len() ==> *r == Byte(false, false, false, false, false, false, false, false)
                && final(self).mem@ == old(self).mem@.push(*final(r)),
            index.0 + 1 == old(self).mem@.len() ==> *r == old(self).mem@[index.0 as int] && final(self).mem@
                == old(self).mem@.update(index.0 as int, *final(r)),
    {
        let u = index.0;
        if self.mem.len() < u {
            &mut self.mem[u]
        } else if u == self.mem.len() {
            self.mem.push(Byte::zero());
            vec_last_mut(&mut self.mem, u)
        } else {
            vec_last_mut(&mut self.mem, u)
        }
    }
}

fn vec_last_mut(v: &mut Vec<Byte>, i: usize) -> (r: &mut Byte)
    requires
        i + 1 == old(v)@.len(),
    ensures
        *r == old(v)@[i as int],
        final(v)@ == old(v)@.update(i as int, *final(r)),
{
    &mut v[i]
}

} // verus!

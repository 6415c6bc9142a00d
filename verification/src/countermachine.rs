//! A register machine with increment and decrement on natural numbers.
use vstd::prelude::*;
use std::collections::HashMap;

use crate::number::decimal_chars;
use crate::text::{chars_of, string_of};

verus! {

#[derive(Debug, Clone, Copy, PartialEq, Eq, Structural)]
pub struct RegisterIndex(pub usize);

/// The content of a register.
#[derive(Debug, Clone, Copy, PartialEq, Eq, Structural)]
pub struct Number(pub usize);

impl Number {
    /// The successor.
    pub fn inc(self) -> (r: Self)
        requires
            self.0 < usize::MAX,
        ensures
            r.0 == self.0 + 1,
    {
        Number(self.0 + 1)
    }

    /// The predecessor, and zero for zero.
    pub fn dec(self) -> (r: Self)
        ensures
            r.0 == if self.0 == 0 {
                0
            } else {
                self.0 - 1
            },
    {
        if self.0 != 0 {
            Number(self.0 - 1)
        } else {
            Number(0)
        }
    }

    /// Zero.
    pub fn clr() -> (r: Self)
        ensures
            r.0 == 0,
    {
        Number(0)
    }
}

#[derive(Debug, Clone, Copy, PartialEq, Eq, Structural)]
pub struct ProgramIndex(pub usize);

impl ProgramIndex {
    /// Moves to the following instruction.
    pub fn next(&mut self)
        requires
            old(self).0 < usize::MAX,
        ensures
            final(self).0 == old(self).0 + 1,
    {
        self.0 = self.0 + 1;
    }
}

#[derive(Debug, Clone, Copy, PartialEq, Eq, Structural)]
pub enum Operation {
    Inc(RegisterIndex),
    Dec(RegisterIndex),
    Clr(RegisterIndex),
    Ifz(RegisterIndex, ProgramIndex),
}

/// How an operation is shown.
pub open spec fn operation_text(op: Operation) -> Seq<char> {
    match op {
        Operation::Inc(r) => "INC register:"@ + crate::number::decimal(r.0 as nat),
        Operation::Dec(r) => "DEC register:"@ + crate::number::decimal(r.0 as nat),
        Operation::Clr(r) => "CLR register:"@ + crate::number::decimal(r.0 as nat),
        Operation::Ifz(r, p) => "IFZ register:"@ + crate::number::decimal(r.0 as nat)
            + " program:"@ + crate::number::decimal(p.0 as nat),
    }
}

fn append_chars(v: &mut Vec<char>, w: Vec<char>)
    ensures
        final(v)@ == old(v)@ + w@,
{
    let mut w = w;
    v.append(&mut w);
}

impl Operation {
    pub fn to_text(&self) -> (s: String)
        ensures
            s@ == operation_text(*self),
    {
        let mut v: Vec<char>;
        match self {
            Operation::Inc(r) => {
                v = chars_of("INC register:");
                append_chars(&mut v, decimal_chars(r.0));
            },
            Operation::Dec(r) => {
                v = chars_of("DEC register:");
                append_chars(&mut v, decimal_chars(r.0));
            },
            Operation::Clr(r) => {
                v = chars_of("CLR register:");
                append_chars(&mut v, decimal_chars(r.0));
            },
            Operation::Ifz(r, p) => {
                v = chars_of("IFZ register:");
                append_chars(&mut v, decimal_chars(r.0));
                append_chars(&mut v, chars_of(" program:"));
                append_chars(&mut v, decimal_chars(p.0));
            },
        }
        string_of(&v)
    }
}

pub struct Code(pub Vec<Operation>);

/// The registers: each holds zero until it is set.
pub struct Registers(pub HashMap<usize, Number>);

impl View for Registers {
    type V = Map<usize, Number>;

    open spec fn view(&self) -> Map<usize, Number> {
        self.0@
    }
}

/// The content of register `index`.
pub open spec fn register_value(regs: Map<usize, Number>, index: RegisterIndex) -> Number {
    if regs.contains_key(index.0) {
        regs[index.0]
    } else {
        Number(0)
    }
}

impl Registers {
    pub fn new() -> (r: Registers)
        ensures
            r@ == Map::<usize, Number>::empty(),
    {
        Registers(HashMap::new())
    }

    pub fn get(&self, index: &RegisterIndex) -> (r: Number)
        ensures
            r == register_value(self@, *index),
    {
        match self.0.get(&index.0) {
            Some(num) => *num,
            None => Number(0),
        }
    }

    pub fn set(&mut self, index: RegisterIndex, num: Number)
        ensures
            final(self)@ == old(self)@.insert(index.0, num),
    {
        self.0.insert(index.0, num);
    }
}

pub struct CounterMachine {
    pub code: Code,
    pub program_counter: ProgramIndex,
    pub registers: Registers,
}

/// Whether the machine has run past its last instruction.
pub open spec fn terminated(code: Seq<Operation>, pc: ProgramIndex) -> bool {
    code.len() <= pc.0
}

/// What a step needs that the machine defines: the instruction to run is
/// an increment that does not overflow, or a decrement.
pub open spec fn step_defined(m: &CounterMachine) -> bool {
    !terminated(m.code.0@, m.program_counter) ==> match m.code.0@[m.program_counter.0 as int] {
        Operation::Inc(index) => register_value(m.registers@, index).0 < usize::MAX
            && m.program_counter.0 < usize::MAX,
        Operation::Dec(_) => m.program_counter.0 < usize::MAX,
        _ => false,
    }
}

impl CounterMachine {
    pub fn is_terminate(&self) -> (b: bool)
        ensures
            b == terminated(self.code.0@, self.program_counter),
    {
        self.code.0.len() <= self.program_counter.0
    }

    /// Runs one instruction, unless the machine has terminated.
    pub fn step(&mut self)
        requires
            step_defined(old(self)),
        ensures
            final(self).code.0@ == old(self).code.0@,
            terminated(old(self).code.0@, old(self).program_counter) ==> {
                &&& final(self).program_counter == old(self).program_counter
                &&& final(self).registers@ == old(self).registers@
            },
            !terminated(old(self).code.0@, old(self).program_counter) ==> {
                let op = old(self).code.0@[old(self).program_counter.0 as int];
                &&& final(self).program_counter.0 == old(self).program_counter.0 + 1
                &&& match op {
                    Operation::Inc(index) => final(self).registers@ == old(self).registers@.insert(
                        index.0,
                        Number((register_value(old(self).registers@, index).0 + 1) as usize),
                    ),
                    Operation::Dec(index) => final(self).registers@ == old(self).registers@.insert(
                        index.0,
                        Number(
                            if register_value(old(self).registers@, index).0 == 0 {
                                0
                            } else {
                                (register_value(old(self).registers@, index).0 - 1) as usize
                            },
                        ),
                    ),
                    _ => false,
                }
            },
    {
        if !self.is_terminate() {
            let operation = self.code.0[self.program_counter.0];
            match operation {
                Operation::Inc(index) => {
                    let num = self.registers.get(&index);
                    self.registers.set(index, num.inc());
                    self.program_counter.next();
                },
                Operation::Dec(index) => {
                    let num = self.registers.get(&index);
                    self.registers.set(index, num.dec());
                    self.program_counter.next();
                },
                _ => {},
            }
        }
    }
}

} // verus!

//! A counter machine with increment, decrement, clearing, copying and a
//! jump on zero.
use vstd::prelude::*;

use crate::countermachine::{register_value, Number, ProgramIndex, RegisterIndex, Registers};
use crate::number::decimal_chars;
use crate::text::{chars_of, string_of};

verus! {

#[derive(Debug, Clone, Copy, PartialEq, Eq, Structural)]
pub enum Operation {
    Inc(RegisterIndex),
    Dec(RegisterIndex),
    Clr(RegisterIndex),
    Copy(RegisterIndex, RegisterIndex),
    Ifz(RegisterIndex, ProgramIndex),
}

/// How an operation is shown.
pub open spec fn operation_text(op: Operation) -> Seq<char> {
    match op {
        Operation::Inc(r) => "INC register:"@ + crate::number::decimal(r.0 as nat),
        Operation::Dec(r) => "DEC register:"@ + crate::number::decimal(r.0 as nat),
        Operation::Clr(r) => "CLR register:"@ + crate::number::decimal(r.0 as nat),
        Operation::Copy(a, b) => "CPY register:"@ + crate::number::decimal(a.0 as nat) + " "@
            + crate::number::decimal(b.0 as nat),
        Operation::Ifz(r, p) => "IFZ register:"@ + crate::number::decimal(r.0 as nat) + " program:"@
            + crate::number::decimal(p.0 as nat),
    }
}

fn append_chars(v: &mut Vec<char>, w: Vec<char>)
    ensures
        final(v)@ == old(v)@ + w@,
{
    let mut w = w;
    v.append(&mut w);
}

impl Operation {
    /// The operation as shown.
    pub fn to_text(&self) -> (s: String)
        ensures
            s@ == operation_text(*self),
    {
        let mut v: Vec<char>;
        match self {
            Operation::Inc(r) => {
                v = chars_of("INC register:");
                append_chars(&mut v, decimal_chars(r.0));
            },
            Operation::Dec(r) => {
                v = chars_of("DEC register:");
                append_chars(&mut v, decimal_chars(r.0));
            },
            Operation::Clr(r) => {
                v = chars_of("CLR register:");
                append_chars(&mut v, decimal_chars(r.0));
            },
            Operation::Copy(a, b) => {
                v = chars_of("CPY register:");
                append_chars(&mut v, decimal_chars(a.0));
                append_chars(&mut v, chars_of(" "));
                append_chars(&mut v, decimal_chars(b.0));
            },
            Operation::Ifz(r, p) => {
                v = chars_of("IFZ register:");
                append_chars(&mut v, decimal_chars(r.0));
                append_chars(&mut v, chars_of(" program:"));
                append_chars(&mut v, decimal_chars(p.0));
            },
        }
        string_of(&v)
    }
}

pub struct Code(pub Vec<Operation>);

pub struct CounterMachine {
    pub code: Code,
    pub program_counter: ProgramIndex,
    pub registers: Registers,
}

/// The state of a counter machine: the program counter and the registers.
pub struct CounterState {
    pub pc: nat,
    pub regs: Map<usize, Number>,
}

/// Whether the machine has run past its last instruction.
pub open spec fn terminated(code: Seq<Operation>, pc: nat) -> bool {
    code.len() <= pc
}

/// One step on `code`: nothing once terminated; else the instruction at
/// the program counter. A copy leaves the program counter where it is.
pub open spec fn counter_step(code: Seq<Operation>, s: CounterState) -> CounterState {
    if terminated(code, s.pc) {
        s
    } else {
        match code[s.pc as int] {
            Operation::Inc(i) => CounterState {
                pc: s.pc + 1,
                regs: s.regs.insert(i.0, Number((register_value(s.regs, i).0 + 1) as usize)),
            },
            Operation::Dec(i) => CounterState {
                pc: s.pc + 1,
                regs: s.regs.insert(
                    i.0,
                    Number(if register_value(s.regs, i).0 == 0 { 0 } else { (register_value(s.regs, i).0 - 1) as usize }),
                ),
            },
            Operation::Clr(i) => CounterState { pc: s.pc + 1, regs: s.regs.insert(i.0, Number(0)) },
            Operation::Copy(a, b) => CounterState { pc: s.pc, regs: s.regs.insert(b.0, register_value(s.regs, a)) },
            Operation::Ifz(r, p) => if register_value(s.regs, r).0 == 0 {
                CounterState { pc: p.0 as nat, regs: s.regs }
            } else {
                CounterState { pc: s.pc + 1, regs: s.regs }
            },
        }
    }
}

/// What one step does, register by register: a terminated machine stays as
/// it is; `inc i` adds one to register `i`, `dec i` takes one from it unless
/// it is zero, `clr i` sets it to zero, each moving to the next
/// instruction; `copy a b` gives register `b` the value of register `a` and
/// stays at the same instruction; `ifz r p` changes no register and goes to
/// `p` where register `r` is zero, else to the next instruction. Every
/// register not named as written keeps its value.
pub proof fn law_counter_step_effects(code: Seq<Operation>, s: CounterState)
    ensures
        terminated(code, s.pc) ==> counter_step(code, s) == s,
        !terminated(code, s.pc) ==> match code[s.pc as int] {
            Operation::Inc(i) => register_value(s.regs, i).0 < usize::MAX ==> {
                &&& counter_step(code, s).pc == s.pc + 1
                &&& register_value(counter_step(code, s).regs, i).0 == register_value(s.regs, i).0 + 1
                &&& forall|j: RegisterIndex| j.0 != i.0 ==> #[trigger] register_value(counter_step(code, s).regs, j)
                    == register_value(s.regs, j)
            },
            Operation::Dec(i) => {
                &&& counter_step(code, s).pc == s.pc + 1
                &&& register_value(counter_step(code, s).regs, i).0 == if register_value(s.regs, i).0 == 0 {
                    0
                } else {
                    register_value(s.regs, i).0 - 1
                }
                &&& forall|j: RegisterIndex| j.0 != i.0 ==> #[trigger] register_value(counter_step(code, s).regs, j)
                    == register_value(s.regs, j)
            },
            Operation::Clr(i) => {
                &&& counter_step(code, s).pc == s.pc + 1
                &&& register_value(counter_step(code, s).regs, i).0 == 0
                &&& forall|j: RegisterIndex| j.0 != i.0 ==> #[trigger] register_value(counter_step(code, s).regs, j)
                    == register_value(s.regs, j)
            },
            Operation::Copy(a, b) => {
                &&& counter_step(code, s).pc == s.pc
                &&& register_value(counter_step(code, s).regs, b) == register_value(s.regs, a)
                &&& forall|j: RegisterIndex| j.0 != b.0 ==> #[trigger] register_value(counter_step(code, s).regs, j)
                    == register_value(s.regs, j)
            },
            Operation::Ifz(r, p) => {
                &&& counter_step(code, s).regs == s.regs
                &&& counter_step(code, s).pc == if register_value(s.regs, r).0 == 0 {
                    p.0 as nat
                } else {
                    s.pc + 1
                }
            },
        },
{
}

pub open spec fn counter_state(m: &CounterMachine) -> CounterState {
    CounterState { pc: m.program_counter.0 as nat, regs: m.registers@ }
}

/// What a step needs that numbers of `usize` give: an increment does not
/// pass `usize::MAX`, nor does the program counter.
pub open spec fn counter_step_fits(m: &CounterMachine) -> bool {
    !terminated(m.code.0@, m.program_counter.0 as nat) ==> {
        &&& m.program_counter.0 < usize::MAX
        &&& (m.code.0@[m.program_counter.0 as int] matches Operation::Inc(i) ==> register_value(
            m.registers@,
            i,
        ).0 < usize::MAX)
    }
}

impl CounterMachine {
    /// The instructions.
    pub fn code_as_vec(&self) -> (v: Vec<Operation>)
        ensures
            v@ == self.code.0@,
    {
        self.code.0.clone()
    }

    pub fn is_terminate(&self) -> (b: bool)
        ensures
            b == terminated(self.code.0@, self.program_counter.0 as nat),
    {
        self.code.0.len() <= self.program_counter.0
    }

    /// Runs one instruction, unless the machine has terminated.
    pub fn step(&mut self)
        requires
            counter_step_fits(old(self)),
        ensures
            final(self).code.0@ == old(self).code.0@,
            counter_state(final(self)) == counter_step(old(self).code.0@, counter_state(old(self))),
    {
        if !self.is_terminate() {
            let operation = self.code.0[self.program_counter.0];
            match operation {
                Operation::Inc(index) => {
                    let num = self.registers.get(&index);
                    self.registers.set(index, num.inc());
                    self.program_counter.next();
                },
                Operation::Dec(index) => {
                    let num = self.registers.get(&index);
                    self.registers.set(index, num.dec());
                    self.program_counter.next();
                },
                Operation::Clr(index) => {
                    self.registers.set(index, Number::clr());
                    self.program_counter.next();
                },
                Operation::Copy(index0, index1) => {
                    let n = self.registers.get(&index0);
                    self.registers.set(index1, n);
                },
                Operation::Ifz(register, index) => {
                    if self.registers.get(&register).0 == 0 {
                        self.program_counter = index;
                    } else {
                        self.program_counter.next();
                    }
                },
            }
        }
    }
}

} // verus!

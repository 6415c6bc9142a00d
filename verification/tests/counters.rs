use models::counter_program::{Code as CpCode, CounterMachine as CpMachine, Operation as CpOp};
use models::coroutine::fmt_offset;
use models::coroutine_parser::parse_offset;
use models::countermachine::{
    Code, CounterMachine, Number as RegNumber, Operation, ProgramIndex, RegisterIndex, Registers,
};
use models::cpu_emulator::{Byte, Memory};
use models::example_counter::{Command, Counter, CounterStep, ExampleCounterCompiler};
use models::number::{decimal_chars, parse_isize, parse_usize, DecimalError, Number};

fn chars(s: &str) -> Vec<char> {
    s.chars().collect()
}

#[test]
fn counter_text_roundtrip() {
    for n in [0usize, 7, 10, 123456, usize::MAX] {
        let c = Counter { count: n };
        let back = Counter::parse(&c.write_text()).unwrap();
        assert_eq!(back, c);
    }
    assert_eq!(Counter::parse("  ").unwrap(), Counter { count: 0 });
    assert_eq!(Counter::parse(" 42\n").unwrap(), Counter { count: 42 });
    assert_eq!(Counter::parse("x").unwrap_err(), "invalid digit found in string");
    assert_eq!(
        Counter::parse("99999999999999999999999").unwrap_err(),
        "number too large to fit in target type"
    );
}

#[test]
fn command_text_roundtrip() {
    for c in [Command::Increment, Command::Decrement] {
        assert_eq!(Command::parse(&c.write_text()).unwrap(), c);
    }
    assert_eq!(Command::parse(" inc ").unwrap(), Command::Increment);
    assert_eq!(Command::parse("add").unwrap_err(), "Invalid command");
}

#[test]
fn counter_steps() {
    let c = Counter::make(Counter { count: 8 }).unwrap();
    match c.step(Command::Increment).unwrap() {
        CounterStep::Continue { next, output } => {
            assert_eq!(next.count, 9);
            assert_eq!(output, "inc");
            match next.step(Command::Increment).unwrap() {
                CounterStep::Halt { snapshot, output } => {
                    assert_eq!(snapshot.count, 10);
                    assert_eq!(output, "End");
                }
                _ => panic!("expected a halt"),
            }
        }
        _ => panic!("expected a step"),
    }
    assert_eq!(
        Counter { count: 0 }.step(Command::Decrement).err().unwrap(),
        "Count cannot be negative"
    );
    assert_eq!(ExampleCounterCompiler::compile(Counter { count: 3 }).unwrap(), Counter { count: 3 });
}

#[test]
fn web_counter_steps() {
    let mut c = models::counter_web::Counter { count: 9 };
    assert_eq!(c.step(Command::Increment).unwrap(), Some("End".to_string()));
    assert_eq!(c.count, 10);
    let mut z = models::counter_web::Counter { count: 0 };
    assert_eq!(z.step(Command::Decrement).err().unwrap(), "Count cannot be negative");
    assert_eq!(z.count, 0);
}

#[test]
fn register_machine_runs() {
    let code = Code(vec![
        Operation::Inc(RegisterIndex(0)),
        Operation::Inc(RegisterIndex(0)),
        Operation::Dec(RegisterIndex(1)),
    ]);
    let mut m = CounterMachine {
        code,
        program_counter: ProgramIndex(0),
        registers: Registers::new(),
    };
    while !m.is_terminate() {
        m.step();
    }
    assert_eq!(m.registers.get(&RegisterIndex(0)), RegNumber(2));
    assert_eq!(m.registers.get(&RegisterIndex(1)), RegNumber(0));
    assert_eq!(Operation::Ifz(RegisterIndex(3), ProgramIndex(12)).to_text(), "IFZ register:3 program:12");
    assert_eq!(RegNumber(5).inc().dec().dec(), RegNumber(4));
    assert_eq!(RegNumber(0).dec(), RegNumber(0));
    assert_eq!(RegNumber::clr(), RegNumber(0));
}

#[test]
fn bytes_and_memory() {
    assert_eq!(Byte::from_u8(3), Byte(true, false, false, false, false, false, false, false));
    assert_eq!(Byte::from_u8(2), Byte::zero());
    let mut mem = Memory { default: Byte::from_u8(1), mem: vec![] };
    *mem.index_mut(Number(0)) = Byte::from_u8(1);
    assert_eq!(mem.mem.len(), 1);
    assert_eq!(*mem.index(Number(1)), Byte::from_u8(1));
    *mem.index_mut(Number(0)) = Byte::zero();
    assert_eq!(mem.mem, vec![Byte::zero()]);
}

#[test]
fn numerals() {
    assert_eq!(parse_usize(&decimal_chars(907)), Ok(907));
    assert_eq!(parse_usize(&chars("+12")), Ok(12));
    assert_eq!(parse_usize(&chars("")), Err(DecimalError::Empty));
    assert_eq!(parse_usize(&chars("-1")), Err(DecimalError::InvalidDigit));
    assert_eq!(parse_isize(&chars("-9223372036854775808")), Ok(isize::MIN));
    assert_eq!(parse_isize(&chars("9223372036854775808")), Err(DecimalError::PosOverflow));
    assert_eq!(parse_isize(&chars("-9223372036854775809")), Err(DecimalError::NegOverflow));
}

#[test]
fn offsets_roundtrip() {
    for o in [0isize, 3, -2, isize::MAX, isize::MIN] {
        let text: Vec<char> = fmt_offset(o).chars().collect();
        assert_eq!(parse_offset(&text).unwrap(), o);
    }
    assert_eq!(fmt_offset(2), "+2");
    assert_eq!(fmt_offset(-2), "-2");
    assert_eq!(parse_offset(&chars("  ")).unwrap_err(), "empty offset");
    assert_eq!(parse_offset(&chars("+x")).unwrap_err(), "invalid offset '+x': invalid digit found in string");
}

#[test]
fn counter_program_copies_and_jumps() {
    let code = CpCode(vec![
        CpOp::Inc(RegisterIndex(0)),
        CpOp::Ifz(RegisterIndex(1), ProgramIndex(3)),
        CpOp::Clr(RegisterIndex(0)),
        CpOp::Copy(RegisterIndex(0), RegisterIndex(2)),
    ]);
    let mut m = CpMachine { code, program_counter: ProgramIndex(0), registers: Registers::new() };
    m.step();
    assert_eq!(m.registers.get(&RegisterIndex(0)).0, 1);
    m.step();
    assert_eq!(m.program_counter, ProgramIndex(3));
    m.step();
    assert_eq!(m.registers.get(&RegisterIndex(2)).0, 1);
    assert_eq!(m.program_counter, ProgramIndex(3));
    assert!(!m.is_terminate());
    assert_eq!(m.code_as_vec().len(), 4);
    assert_eq!(CpOp::Copy(RegisterIndex(0), RegisterIndex(2)).to_text(), "CPY register:0 2");
    assert_eq!(CpOp::Ifz(RegisterIndex(1), ProgramIndex(3)).to_text(), "IFZ register:1 program:3");
}

//! A counter machine that halts once it has counted to ten.
use vstd::prelude::*;

use crate::number::{decimal, decimal_chars, decimal_error_message, decimal_error_text, parse_decimal, parse_usize, DecimalError};
use crate::text::{chars_of, string_of, trim, trim_chars};

verus! {

/// The value at which the counter halts.
pub const LIMIT: usize = 10;

#[derive(Debug, Clone, Copy, PartialEq, Eq, Structural)]
pub struct Counter {
    pub count: usize,
}

#[derive(Debug, Clone, Copy, PartialEq, Eq, Structural)]
pub enum Command {
    Increment,
    Decrement,
}

/// What one step of the counter gives.
#[derive(Debug)]
pub enum CounterStep {
    Continue { next: Counter, output: String },
    Halt { snapshot: Counter, output: String },
}

/// The counter that a text denotes: empty (after trimming) is zero, else a
/// decimal numeral.
pub open spec fn counter_text_value(text: Seq<char>) -> Result<nat, DecimalError> {
    if trim(text).len() == 0 {
        Ok(0)
    } else {
        parse_decimal(trim(text))
    }
}

impl Counter {
    /// Reads a counter from its text.
    pub fn parse(text: &str) -> (r: Result<Counter, String>)
        ensures
            match counter_text_value(text@) {
                Ok(v) => r matches Ok(c) && c.count == v,
                Err(e) => r matches Err(msg) && msg@ == decimal_error_message(e),
            },
    {
        let t = trim_chars(&chars_of(text));
        if t.len() == 0 {
            return Ok(Counter { count: 0 });
        }
        match parse_usize(&t) {
            Ok(v) => Ok(Counter { count: v }),
            Err(e) => Err(decimal_error_text(e)),
        }
    }

    /// The text of a counter: its decimal numeral.
    pub fn write_text(&self) -> (s: String)
        ensures
            s@ == decimal(self.count as nat),
    {
        string_of(&decimal_chars(self.count))
    }

    pub fn make(code: Counter) -> (r: Result<Counter, String>)
        ensures
            r == Ok::<Counter, String>(code),
    {
        Ok(code)
    }

    /// One step: `inc` counts up and halts at ten, `dec` counts down and is
    /// refused at zero.
    pub fn step(self, input: Command) -> (r: Result<CounterStep, String>)
        requires
            input is Increment ==> self.count < usize::MAX,
        ensures
            match input {
                Command::Increment => if self.count + 1 >= LIMIT {
                    r matches Ok(CounterStep::Halt { snapshot, output }) && snapshot.count
                        == self.count + 1 && output@ == "End"@
                } else {
                    r matches Ok(CounterStep::Continue { next, output }) && next.count == self.count
                        + 1 && output@ == "inc"@
                },
                Command::Decrement => if self.count == 0 {
                    r matches Err(msg) && msg@ == "Count cannot be negative"@
                } else {
                    r matches Ok(CounterStep::Continue { next, output }) && next.count == self.count
                        - 1 && output@ == "dec"@
                },
            },
    {
        let mut next = self;
        match input {
            Command::Increment => {
                next.count = next.count + 1;
                if next.count >= LIMIT {
                    let snapshot = next;
                    Ok(CounterStep::Halt { snapshot, output: String::from_str("End") })
                } else {
                    Ok(CounterStep::Continue { next, output: String::from_str("inc") })
                }
            },
            Command::Decrement => {
                if next.count == 0 {
                    Err(String::from_str("Count cannot be negative"))
                } else {
                    next.count = next.count - 1;
                    Ok(CounterStep::Continue { next, output: String::from_str("dec") })
                }
            },
        }
    }

    pub fn current(&self) -> (r: Counter)
        ensures
            r == *self,
    {
        *self
    }
}

/// The command that a text names, after trimming: `inc` or `dec`.
pub open spec fn command_of(text: Seq<char>) -> Option<Command> {
    if trim(text) == "inc"@ {
        Some(Command::Increment)
    } else if trim(text) == "dec"@ {
        Some(Command::Decrement)
    } else {
        None
    }
}

pub open spec fn command_text(c: Command) -> Seq<char> {
    match c {
        Command::Increment => "inc"@,
        Command::Decrement => "dec"@,
    }
}

fn chars_eq(a: &Vec<char>, b: &str) -> (r: bool)
    ensures
        r == (a@ == b@),
{
    let bv = chars_of(b);
    if a.len() != bv.len() {
        return false;
    }
    let mut i: usize = 0;
    while i < a.len()
        invariant
            a.len() == bv.len(),
            bv@ == b@,
            0 <= i <= a.len(),
            forall|j: int| 0 <= j < i ==> a@[j] == bv@[j],
        decreases a.len() - i,
    {
        if a[i] != bv[i] {
            return false;
        }
        i += 1;
    }
    assert(a@ =~= bv@);
    true
}

impl Command {
    pub fn parse(text: &str) -> (r: Result<Command, String>)
        ensures
            match command_of(text@) {
                Some(c) => r == Ok::<Command, String>(c),
                None => r matches Err(msg) && msg@ == "Invalid command"@,
            },
    {
        let t = trim_chars(&chars_of(text));
        if chars_eq(&t, "inc") {
            Ok(Command::Increment)
        } else if chars_eq(&t, "dec") {
            Ok(Command::Decrement)
        } else {
            Err(String::from_str("Invalid command"))
        }
    }

    pub fn write_text(&self) -> (s: String)
        ensures
            s@ == command_text(*self),
    {
        match self {
            Command::Increment => String::from_str("inc"),
            Command::Decrement => String::from_str("dec"),
        }
    }
}

/// The compiler from the counter to itself: every part passes unchanged.
pub struct ExampleCounterCompiler;

impl ExampleCounterCompiler {
    pub fn compile(source: Counter) -> (r: Result<Counter, String>)
        ensures
            r == Ok::<Counter, String>(source),
    {
        Ok(source)
    }

    pub fn encode_ainput(ainput: ()) -> (r: Result<(), String>)
        ensures
            r == Ok::<(), String>(ainput),
    {
        Ok(ainput)
    }

    pub fn encode_rinput(rinput: Command) -> (r: Result<Command, String>)
        ensures
            r == Ok::<Command, String>(rinput),
    {
        Ok(rinput)
    }

    pub fn decode_routput(output: String) -> (r: Result<String, String>)
        ensures
            r matches Ok(s) && s == output,
    {
        Ok(output)
    }

    pub fn decode_foutput(output: String) -> (r: Result<String, String>)
        ensures
            r matches Ok(s) && s == output,
    {
        Ok(output)
    }
}


/// Reading the text of a counter gives the counter back.
pub proof fn law_counter_text_roundtrip(c: Counter)
    ensures
        counter_text_value(decimal(c.count as nat)) == Ok::<nat, DecimalError>(c.count as nat),
{
    crate::number::lemma_decimal_ends(c.count as nat);
    crate::text::lemma_trim_unchanged(decimal(c.count as nat));
    crate::number::law_decimal_roundtrip(c.count as nat);
}

/// Reading the text of a command gives the command back.
pub proof fn law_command_text_roundtrip(c: Command)
    ensures
        command_of(command_text(c)) == Some(c),
{
    reveal_strlit("inc");
    reveal_strlit("dec");
    let t = command_text(c);
    assert(t.len() == 3 && t[0] != ' ' && t[2] != ' ');
    assert(!crate::text::is_space(t[0]) && !crate::text::is_space(t.last()));
    crate::text::lemma_trim_unchanged(t);
    assert("inc"@[0] != "dec"@[0]);
}

} // verus!

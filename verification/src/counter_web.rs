//! The counter machine as the web page runs it: a step changes the counter
//! in place and reports `End` once ten is reached.
use vstd::prelude::*;

use crate::example_counter::{counter_text_value, Command, LIMIT};
use crate::number::{decimal, decimal_error_message};

verus! {

#[derive(Debug, Clone, Copy, PartialEq, Eq, Structural)]
pub struct Counter {
    pub count: usize,
}

impl Counter {
    /// Reads a counter from its text: empty is zero, else a decimal numeral.
    pub fn parse(text: &str) -> (r: Result<Counter, String>)
        ensures
            match counter_text_value(text@) {
                Ok(v) => r matches Ok(c) && c.count == v,
                Err(e) => r matches Err(msg) && msg@ == decimal_error_message(e),
            },
    {
        match crate::example_counter::Counter::parse(text) {
            Ok(c) => Ok(Counter { count: c.count }),
            Err(e) => Err(e),
        }
    }

    pub fn write_text(&self) -> (s: String)
        ensures
            s@ == decimal(self.count as nat),
    {
        crate::example_counter::Counter { count: self.count }.write_text()
    }

    pub fn make(code: Counter) -> (r: Result<Counter, String>)
        ensures
            r == Ok::<Counter, String>(code),
    {
        Ok(code)
    }

    /// One step in place: `inc` counts up and answers `End` from ten on,
    /// `dec` counts down and is refused at zero, leaving the counter as it was.
    pub fn step(&mut self, input: Command) -> (r: Result<Option<String>, String>)
        requires
            input is Increment ==> old(self).count < usize::MAX,
        ensures
            match input {
                Command::Increment => {
                    &&& final(self).count == old(self).count + 1
                    &&& if old(self).count + 1 >= LIMIT {
                        r matches Ok(Some(s)) && s@ == "End"@
                    } else {
                        r matches Ok(None)
                    }
                },
                Command::Decrement => if old(self).count == 0 {
                    &&& *final(self) == *old(self)
                    &&& r matches Err(msg) && msg@ == "Count cannot be negative"@
                } else {
                    &&& final(self).count == old(self).count - 1
                    &&& r matches Ok(None)
                },
            },
    {
        match input {
            Command::Increment => {
                self.count = self.count + 1;
                if self.count >= LIMIT {
                    Ok(Some(String::from_str("End")))
                } else {
                    Ok(None)
                }
            },
            Command::Decrement => {
                if self.count == 0 {
                    Err(String::from_str("Count cannot be negative"))
                } else {
                    self.count = self.count - 1;
                    Ok(None)
                }
            },
        }
    }

    pub fn current(&self) -> (r: Counter)
        ensures
            r == *self,
    {
        *self
    }
}

} // verus!

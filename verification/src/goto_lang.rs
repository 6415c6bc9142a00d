//! A goto language: counters in named variables that a program clears,
//! increments, decrements and copies, with jumps to a line while a counter
//! is not zero.
use vstd::prelude::*;

use crate::circuit_lexer::{lex_at, lex_chars, tok_view, toks_view, TokV, Token};
use crate::coroutine::{push_all, push_str};
use crate::flow_env::numeral;
use crate::flow_parser::{after, error_here, expect_sym, sym_at, word_at, Parser};
use crate::number::{decimal, decimal_chars, decimal_error_text, Number};
use crate::text::{chars_of, string_of};

verus! {

// ---------------------------------------------------------------------
// Environments
// ---------------------------------------------------------------------

/// Named counters; the first entry for a name holds its value.
#[derive(Debug)]
pub struct Environment {
    pub env: Vec<(String, Number)>,
}

pub open spec fn env_view(e: Seq<(String, Number)>) -> Seq<(Seq<char>, nat)> {
    e.map_values(|p: (String, Number)| (p.0@, p.1.value()))
}

/// Where the first entry for `var` stands, from `i` on.
pub open spec fn env_find(e: Seq<(Seq<char>, nat)>, var: Seq<char>, i: int) -> Option<int>
    decreases e.len() - i,
{
    if i < 0 || i >= e.len() {
        None
    } else if e[i].0 == var {
        Some(i)
    } else {
        env_find(e, var, i + 1)
    }
}

/// The value of `var`: zero where it has no entry.
pub open spec fn env_get(e: Seq<(Seq<char>, nat)>, var: Seq<char>) -> nat {
    match env_find(e, var, 0) {
        Some(i) => e[i].1,
        None => 0,
    }
}

/// The entries after `var` is set to `n`: its first entry changes, or a
/// new entry comes last.
pub open spec fn env_write(e: Seq<(Seq<char>, nat)>, var: Seq<char>, n: nat) -> Seq<(Seq<char>, nat)> {
    match env_find(e, var, 0) {
        Some(i) => e.update(i, (var, n)),
        None => e.push((var, n)),
    }
}

proof fn lemma_env_find(e: Seq<(Seq<char>, nat)>, var: Seq<char>, i: int)
    requires
        0 <= i <= e.len(),
    ensures
        env_find(e, var, i) matches Some(k) ==> i <= k < e.len() && e[k].0 == var && forall|j: int|
            i <= j < k ==> e[j].0 != var,
        env_find(e, var, i) is None ==> forall|j: int| i <= j < e.len() ==> e[j].0 != var,
    decreases e.len() - i,
{
    if i < e.len() && e[i].0 != var {
        lemma_env_find(e, var, i + 1);
    }
}

impl Environment {
    pub fn new() -> (r: Environment)
        ensures
            env_view(r.env@) == Seq::<(Seq<char>, nat)>::empty(),
    {
        let r = Environment { env: Vec::new() };
        assert(env_view(r.env@) =~= Seq::<(Seq<char>, nat)>::empty());
        r
    }

    fn find(&self, var: &str) -> (r: Option<usize>)
        ensures
            match env_find(env_view(self.env@), var@, 0) {
                Some(k) => r matches Some(x) && x == k,
                None => r is None,
            },
    {
        let ghost e = env_view(self.env@);
        let key = chars_of(var);
        let mut i: usize = 0;
        while i < self.env.len()
            invariant
                0 <= i <= self.env@.len(),
                e == env_view(self.env@),
                key@ == var@,
                env_find(e, var@, 0) == env_find(e, var@, i as int),
            decreases self.env@.len() - i,
        {
            if crate::text::chars_equal(&chars_of(self.env[i].0.as_str()), &key) {
                return Some(i);
            }
            i += 1;
        }
        None
    }

    /// The value of `var`: zero where it has no entry.
    pub fn get(&self, var: &str) -> (r: Number)
        ensures
            r.value() == env_get(env_view(self.env@), var@),
    {
        proof {
            lemma_env_find(env_view(self.env@), var@, 0);
        }
        match self.find(var) {
            Some(i) => self.env[i].1,
            None => Number(0),
        }
    }

    /// Sets `var` to `num`.
    pub fn write(&mut self, var: &str, num: Number)
        ensures
            env_view(final(self).env@) == env_write(env_view(old(self).env@), var@, num.value()),
    {
        proof {
            lemma_env_find(env_view(self.env@), var@, 0);
        }
        let ghost before = env_view(self.env@);
        match self.find(var) {
            Some(i) => {
                self.env.set(i, (var.to_string(), num));
                assert(env_view(self.env@) =~= before.update(i as int, (var@, num.value())));
            },
            None => {
                self.env.push((var.to_string(), num));
                assert(env_view(self.env@) =~= before.push((var@, num.value())));
            },
        }
    }

    /// Whether every name has the same value in both environments.
    pub fn same_values(&self, other: &Environment) -> (r: bool)
        ensures
            r == forall|v: Seq<char>| env_get(env_view(self.env@), v) == env_get(env_view(other.env@), v),
    {
        let ghost a = env_view(self.env@);
        let ghost b = env_view(other.env@);
        let mut i: usize = 0;
        while i < self.env.len()
            invariant
                0 <= i <= self.env@.len(),
                a == env_view(self.env@),
                b == env_view(other.env@),
                forall|j: int| 0 <= j < i ==> env_get(a, #[trigger] a[j].0) == env_get(b, a[j].0),
            decreases self.env@.len() - i,
        {
            let name = self.env[i].0.as_str();
            if self.get(name).0 != other.get(name).0 {
                return false;
            }
            i += 1;
        }
        let mut k: usize = 0;
        while k < other.env.len()
            invariant
                0 <= k <= other.env@.len(),
                a == env_view(self.env@),
                b == env_view(other.env@),
                forall|j: int| 0 <= j < a.len() ==> env_get(a, #[trigger] a[j].0) == env_get(b, a[j].0),
                forall|j: int| 0 <= j < k ==> env_get(a, #[trigger] b[j].0) == env_get(b, b[j].0),
            decreases other.env@.len() - k,
        {
            let name = other.env[k].0.as_str();
            if self.get(name).0 != other.get(name).0 {
                return false;
            }
            k += 1;
        }
        proof {
            assert forall|v: Seq<char>| env_get(a, v) == env_get(b, v) by {
                lemma_env_find(a, v, 0);
                lemma_env_find(b, v, 0);
                if let Some(x) = env_find(a, v, 0) {
                    assert(env_get(a, a[x].0) == env_get(b, a[x].0));
                } else if let Some(y) = env_find(b, v, 0) {
                    assert(env_get(a, b[y].0) == env_get(b, b[y].0));
                }
            }
        }
        true
    }
}

/// Reading a counter after writing it gives the written value, and leaves
/// every other counter as it was.
pub proof fn law_env_write_read(e: Seq<(Seq<char>, nat)>, var: Seq<char>, n: nat, other: Seq<char>)
    ensures
        env_get(env_write(e, var, n), var) == n,
        other != var ==> env_get(env_write(e, var, n), other) == env_get(e, other),
{
    lemma_env_find(e, var, 0);
    lemma_env_find(e, other, 0);
    let w = env_write(e, var, n);
    lemma_env_find(w, var, 0);
    lemma_env_find(w, other, 0);
    match env_find(e, var, 0) {
        Some(i) => {
            assert(w[i].0 == var);
            if let Some(j) = env_find(w, var, 0) {
                if j < i {
                    assert(w[j] == e[j]);
                }
                if j > i {
                    assert(w[i].0 == var);
                }
            }
            assert(env_find(w, var, 0) == Some(i));
            assert(env_get(w, var) == w[i].1);
            if other != var {
                match env_find(e, other, 0) {
                    Some(a) => {
                        assert(w[a] == e[a]);
                        if let Some(b) = env_find(w, other, 0) {
                            if b < a {
                                assert(w[b].0 == e[b].0 || b == i);
                            }
                            if b > a {
                                assert(w[a].0 == other);
                            }
                        }
                    },
                    None => {
                        if let Some(b) = env_find(w, other, 0) {
                            assert(b == i || w[b] == e[b]);
                        }
                    },
                }
            }
        },
        None => {
            assert(w[e.len() as int].0 == var);
            if let Some(j) = env_find(w, var, 0) {
                if j < e.len() {
                    assert(w[j] == e[j]);
                }
            }
            assert(env_find(w, var, 0) == Some(e.len() as int));
            assert(env_get(w, var) == w[e.len() as int].1);
            if other != var {
                match env_find(e, other, 0) {
                    Some(a) => {
                        assert(w[a] == e[a]);
                        if let Some(b) = env_find(w, other, 0) {
                            if b < a {
                                assert(w[b] == e[b]);
                            }
                            if b > a {
                                assert(w[a].0 == other);
                            }
                        }
                    },
                    None => {
                        if let Some(b) = env_find(w, other, 0) {
                            if b < e.len() {
                                assert(w[b] == e[b]);
                            }
                        }
                    },
                }
            }
        },
    }
}

// ---------------------------------------------------------------------
// Programs
// ---------------------------------------------------------------------

#[derive(Debug)]
pub enum Command {
    Clr(String),
    Inc(String),
    Dec(String),
    Cpy(String, String),
    Ifnz(String, Number),
}

/// A command as a value.
pub enum CommandV {
    Clr(Seq<char>),
    Inc(Seq<char>),
    Dec(Seq<char>),
    Cpy(Seq<char>, Seq<char>),
    Ifnz(Seq<char>, nat),
}

pub open spec fn command_view(c: Command) -> CommandV {
    match c {
        Command::Clr(v) => CommandV::Clr(v@),
        Command::Inc(v) => CommandV::Inc(v@),
        Command::Dec(v) => CommandV::Dec(v@),
        Command::Cpy(d, s) => CommandV::Cpy(d@, s@),
        Command::Ifnz(v, t) => CommandV::Ifnz(v@, t.value()),
    }
}

pub open spec fn commands_view(cs: Seq<Command>) -> Seq<CommandV> {
    cs.map_values(|c: Command| command_view(c))
}

#[derive(Debug)]
pub struct Code(pub Vec<Command>);

/// A program: its commands, the line it is at, and its counters.
#[derive(Debug)]
pub struct Program {
    pub commands: Code,
    pub pc: Number,
    pub env: Environment,
}

/// What a step gives: the next line and counters, or the counters once
/// the line is past the last command.
pub enum GotoOutcome {
    Continue(nat, Seq<(Seq<char>, nat)>),
    Halt(Seq<(Seq<char>, nat)>),
}

/// One step of a program.
pub open spec fn goto_step(cs: Seq<CommandV>, pc: nat, e: Seq<(Seq<char>, nat)>) -> Result<GotoOutcome, Seq<char>> {
    if pc >= cs.len() {
        Ok(GotoOutcome::Halt(e))
    } else {
        match cs[pc as int] {
            CommandV::Clr(v) => Ok(GotoOutcome::Continue(pc + 1, env_write(e, v, 0))),
            CommandV::Inc(v) => if env_get(e, v) + 1 > usize::MAX {
                Err("number too large"@)
            } else {
                Ok(GotoOutcome::Continue(pc + 1, env_write(e, v, env_get(e, v) + 1)))
            },
            CommandV::Dec(v) => Ok(
                GotoOutcome::Continue(
                    pc + 1,
                    env_write(
                        e,
                        v,
                        if env_get(e, v) == 0 {
                            0
                        } else {
                            (env_get(e, v) - 1) as nat
                        },
                    ),
                ),
            ),
            CommandV::Cpy(d, s) => Ok(GotoOutcome::Continue(pc + 1, env_write(e, d, env_get(e, s)))),
            CommandV::Ifnz(v, t) => if env_get(e, v) != 0 {
                Ok(GotoOutcome::Continue(t, e))
            } else {
                Ok(GotoOutcome::Continue(pc + 1, e))
            },
        }
    }
}

/// Reading a counter after a write: the written counter reads the new
/// value, every other counter reads what it did before.
pub proof fn lemma_get_after_write(e: Seq<(Seq<char>, nat)>, v: Seq<char>, n: nat, w: Seq<char>)
    ensures
        env_get(env_write(e, v, n), w) == if w == v {
            n
        } else {
            env_get(e, w)
        },
{
    let e2 = env_write(e, v, n);
    lemma_env_find(e, v, 0);
    lemma_env_find(e, w, 0);
    lemma_env_find(e2, w, 0);
    match env_find(e, v, 0) {
        Some(i) => {
            assert(e2 == e.update(i, (v, n)));
            match env_find(e2, w, 0) {
                Some(k) => {
                    if w == v {
                        if k != i {
                            assert(e2[i].0 == w);
                        }
                    } else {
                        assert(k != i);
                        assert(e[k].0 == w);
                        if let Some(k0) = env_find(e, w, 0) {
                            if k0 < k {
                                assert(e2[k0].0 == w);
                            }
                        }
                    }
                },
                None => {
                    if w == v {
                        assert(e2[i].0 == w);
                    } else if let Some(k0) = env_find(e, w, 0) {
                        assert(e2[k0].0 == w);
                    }
                },
            }
        },
        None => {
            assert(e2 == e.push((v, n)));
            match env_find(e2, w, 0) {
                Some(k) => {
                    if k < e.len() {
                        assert(e[k].0 == w);
                        if let Some(k0) = env_find(e, w, 0) {
                            if k0 < k {
                                assert(e2[k0].0 == w);
                            }
                        }
                    }
                },
                None => {
                    if w == v {
                        assert(e2[e.len() as int].0 == w);
                    } else if let Some(k0) = env_find(e, w, 0) {
                        assert(e2[k0].0 == w);
                    }
                },
            }
        },
    }
}

/// What one step does, counter by counter: past the last command the
/// program halts with its counters; `clr v` sets `v` to zero, `inc v` adds
/// one to it (or fails where that passes `usize::MAX`), `dec v` takes one
/// from it unless it is zero, `cpy d s` gives `d` the value of `s`, each
/// moving to the next line and leaving every other counter as it was;
/// `ifnz v t` changes no counter and goes to line `t` where `v` is not zero,
/// else to the next line.
pub proof fn law_goto_step_effects(cs: Seq<CommandV>, pc: nat, e: Seq<(Seq<char>, nat)>)
    ensures
        pc >= cs.len() ==> goto_step(cs, pc, e) == Ok::<GotoOutcome, Seq<char>>(GotoOutcome::Halt(e)),
        pc < cs.len() ==> match cs[pc as int] {
            CommandV::Clr(v) => goto_step(cs, pc, e) matches Ok(GotoOutcome::Continue(p2, e2)) && p2 == pc + 1
                && forall|w: Seq<char>| #[trigger] env_get(e2, w) == if w == v { 0 } else { env_get(e, w) },
            CommandV::Inc(v) => if env_get(e, v) + 1 > usize::MAX {
                goto_step(cs, pc, e) is Err
            } else {
                goto_step(cs, pc, e) matches Ok(GotoOutcome::Continue(p2, e2)) && p2 == pc + 1 && forall|
                    w: Seq<char>,
                | #[trigger] env_get(e2, w) == if w == v { env_get(e, v) + 1 } else { env_get(e, w) }
            },
            CommandV::Dec(v) => goto_step(cs, pc, e) matches Ok(GotoOutcome::Continue(p2, e2)) && p2 == pc + 1
                && forall|w: Seq<char>| #[trigger]
                    env_get(e2, w) == if w == v {
                        if env_get(e, v) == 0 {
                            0
                        } else {
                            (env_get(e, v) - 1) as nat
                        }
                    } else {
                        env_get(e, w)
                    },
            CommandV::Cpy(d, src) => goto_step(cs, pc, e) matches Ok(GotoOutcome::Continue(p2, e2)) && p2 == pc
                + 1 && forall|w: Seq<char>| #[trigger]
                env_get(e2, w) == if w == d { env_get(e, src) } else { env_get(e, w) },
            CommandV::Ifnz(v, t) => goto_step(cs, pc, e) matches Ok(GotoOutcome::Continue(p2, e2)) && e2 == e
                && p2 == if env_get(e, v) != 0 { t } else { pc + 1 },
        },
{
    if pc < cs.len() {
        match cs[pc as int] {
            CommandV::Clr(v) => {
                assert forall|w: Seq<char>| #[trigger] env_get(env_write(e, v, 0), w) == if w == v { 0 } else { env_get(e, w) } by {
                    lemma_get_after_write(e, v, 0, w);
                }
            },
            CommandV::Inc(v) => {
                let n = env_get(e, v) + 1;
                assert forall|w: Seq<char>| #[trigger] env_get(env_write(e, v, n), w) == if w == v { n } else { env_get(e, w) } by {
                    lemma_get_after_write(e, v, n, w);
                }
            },
            CommandV::Dec(v) => {
                let n: nat = if env_get(e, v) == 0 { 0 } else { (env_get(e, v) - 1) as nat };
                assert forall|w: Seq<char>| #[trigger] env_get(env_write(e, v, n), w) == if w == v { n } else { env_get(e, w) } by {
                    lemma_get_after_write(e, v, n, w);
                }
            },
            CommandV::Cpy(d, src) => {
                let n = env_get(e, src);
                assert forall|w: Seq<char>| #[trigger] env_get(env_write(e, d, n), w) == if w == d { n } else { env_get(e, w) } by {
                    lemma_get_after_write(e, d, n, w);
                }
            },
            CommandV::Ifnz(..) => {},
        }
    }
}

/// What a step of a program gives.
pub enum GotoStep {
    Continue { next: Program },
    Halt { env: Environment },
}

impl Program {
    /// A program at its first line with the counters `ainput`.
    pub fn make(code: Code, ainput: Environment) -> (r: Result<Program, String>)
        ensures
            r matches Ok(p) && commands_view(p.commands.0@) == commands_view(code.0@) && p.pc.value() == 0
                && env_view(p.env.env@) == env_view(ainput.env@),
    {
        Ok(Program { commands: code, pc: Number(0), env: ainput })
    }

    /// One step: past the last command the program halts with its
    /// counters; else it runs the command at its line.
    pub fn step(self, rinput: ()) -> (r: Result<GotoStep, String>)
        ensures
            match goto_step(commands_view(self.commands.0@), self.pc.value(), env_view(self.env.env@)) {
                Err(m) => r matches Err(e) && e@ == m,
                Ok(GotoOutcome::Halt(e)) => r matches Ok(GotoStep::Halt { env }) && env_view(env.env@) == e,
                Ok(GotoOutcome::Continue(pc, e)) => r matches Ok(GotoStep::Continue { next }) && next.pc.value() == pc
                    && env_view(next.env.env@) == e && commands_view(next.commands.0@) == commands_view(
                    self.commands.0@,
                ),
            },
    {
        let mut next = self;
        let pc = next.pc.0;
        if pc >= next.commands.0.len() {
            return Ok(GotoStep::Halt { env: next.env });
        }
        let ghost cv = command_view(next.commands.0@[pc as int]);
        let (kind, a, b, t) = match &next.commands.0[pc] {
            Command::Clr(v) => (0u8, v.clone(), String::new(), 0usize),
            Command::Inc(v) => (1u8, v.clone(), String::new(), 0usize),
            Command::Dec(v) => (2u8, v.clone(), String::new(), 0usize),
            Command::Cpy(d, s) => (3u8, d.clone(), s.clone(), 0usize),
            Command::Ifnz(v, target) => (4u8, v.clone(), String::new(), target.0),
        };
        assert(match cv {
            CommandV::Clr(v) => kind == 0 && a@ == v,
            CommandV::Inc(v) => kind == 1 && a@ == v,
            CommandV::Dec(v) => kind == 2 && a@ == v,
            CommandV::Cpy(d, s) => kind == 3 && a@ == d && b@ == s,
            CommandV::Ifnz(v, target) => kind == 4 && a@ == v && t == target,
        });
        if kind == 0 {
            next.env.write(a.as_str(), Number(0));
            next.pc = Number(pc + 1);
        } else if kind == 1 {
            let val = next.env.get(a.as_str()).0;
            if val == usize::MAX {
                return Err(String::from_str("number too large"));
            }
            next.env.write(a.as_str(), Number(val + 1));
            next.pc = Number(pc + 1);
        } else if kind == 2 {
            let val = next.env.get(a.as_str()).0;
            let dec = if val == 0 {
                0
            } else {
                val - 1
            };
            next.env.write(a.as_str(), Number(dec));
            next.pc = Number(pc + 1);
        } else if kind == 3 {
            let val = next.env.get(b.as_str());
            next.env.write(a.as_str(), val);
            next.pc = Number(pc + 1);
        } else {
            if next.env.get(a.as_str()).0 != 0 {
                next.pc = Number(t);
            } else {
                next.pc = Number(pc + 1);
            }
        }
        Ok(GotoStep::Continue { next })
    }
}


// ---------------------------------------------------------------------
// Text
// ---------------------------------------------------------------------

/// A variable name: a word token.
pub open spec fn g_name(ts: Seq<TokV>, i: int) -> Result<(Seq<char>, int), Seq<char>> {
    if 0 <= i < ts.len() && ts[i] is Ident {
        Ok((ts[i]->Ident_0, i + 1))
    } else {
        Err(error_here(ts, after(ts, i), "expected identifier"@))
    }
}

pub open spec fn g_number(ts: Seq<TokV>, i: int) -> Result<(nat, int), Seq<char>> {
    if 0 <= i < ts.len() && ts[i] is Number {
        match numeral(ts[i]->Number_0) {
            Ok(n) => Ok((n, i + 1)),
            Err(m) => Err(m),
        }
    } else {
        Err(error_here(ts, after(ts, i), "expected number"@))
    }
}

/// A statement from `i`.
pub open spec fn g_stmt(ts: Seq<TokV>, i: int) -> Result<(CommandV, int), Seq<char>> {
    if word_at(ts, i, "inc"@) {
        match g_name(ts, i + 1) {
            Ok((v, j)) => Ok((CommandV::Inc(v), j)),
            Err(m) => Err(m),
        }
    } else if word_at(ts, i, "dec"@) {
        match g_name(ts, i + 1) {
            Ok((v, j)) => Ok((CommandV::Dec(v), j)),
            Err(m) => Err(m),
        }
    } else if word_at(ts, i, "clr"@) {
        match g_name(ts, i + 1) {
            Ok((v, j)) => Ok((CommandV::Clr(v), j)),
            Err(m) => Err(m),
        }
    } else if word_at(ts, i, "cpy"@) {
        match g_name(ts, i + 1) {
            Err(m) => Err(m),
            Ok((d, j)) => match expect_sym(ts, j, '<') {
                Err(m) => Err(m),
                Ok(j1) => match expect_sym(ts, j1, '-') {
                    Err(m) => Err(m),
                    Ok(j2) => match g_name(ts, j2) {
                        Ok((s, k)) => Ok((CommandV::Cpy(d, s), k)),
                        Err(m) => Err(m),
                    },
                },
            },
        }
    } else if word_at(ts, i, "ifnz"@) {
        match g_name(ts, i + 1) {
            Err(m) => Err(m),
            Ok((v, j)) => match expect_sym(ts, j, ':') {
                Err(m) => Err(m),
                Ok(j1) => match g_number(ts, j1) {
                    Ok((n, k)) => Ok((CommandV::Ifnz(v, n), k)),
                    Err(m) => Err(m),
                },
            },
        }
    } else {
        Err(error_here(ts, i, "expected statement"@))
    }
}

/// The statements from `i` to the end, each ended by `;`.
pub open spec fn g_program(ts: Seq<TokV>, i: int, acc: Seq<CommandV>) -> Result<Seq<CommandV>, Seq<char>>
    decreases ts.len() - i,
{
    if i < 0 || i >= ts.len() {
        Ok(acc)
    } else {
        match g_stmt(ts, i) {
            Err(m) => Err(m),
            Ok((c, j)) => match expect_sym(ts, j, ';') {
                Err(m) => Err(m),
                Ok(k) => if k <= i {
                    Err(seq![])
                } else {
                    g_program(ts, k, acc.push(c))
                },
            },
        }
    }
}

/// The entries `name = number` from `i` to the end, each perhaps ended by
/// `;`.
pub open spec fn g_env(ts: Seq<TokV>, i: int, acc: Seq<(Seq<char>, nat)>) -> Result<Seq<(Seq<char>, nat)>, Seq<char>>
    decreases ts.len() - i,
{
    if i < 0 || i >= ts.len() {
        Ok(acc)
    } else {
        match g_name(ts, i) {
            Err(m) => Err(m),
            Ok((n, j)) => match expect_sym(ts, j, '=') {
                Err(m) => Err(m),
                Ok(j1) => match g_number(ts, j1) {
                    Err(m) => Err(m),
                    Ok((v, k)) => if k <= i {
                        Err(seq![])
                    } else if sym_at(ts, k, ';') {
                        g_env(ts, k + 1, acc.push((n, v)))
                    } else {
                        g_env(ts, k, acc.push((n, v)))
                    },
                },
            },
        }
    }
}

/// The commands that a text spells.
pub open spec fn program_text_spec(text: Seq<char>) -> Result<Seq<CommandV>, Seq<char>> {
    match lex_at(text, 0) {
        Err(m) => Err(m),
        Ok(ts) => g_program(ts, 0, seq![]),
    }
}

/// The counters that a text spells.
pub open spec fn env_text_spec(text: Seq<char>) -> Result<Seq<(Seq<char>, nat)>, Seq<char>> {
    match lex_at(text, 0) {
        Err(m) => Err(m),
        Ok(ts) => g_env(ts, 0, seq![]),
    }
}

proof fn lemma_g_progress(ts: Seq<TokV>, i: int)
    requires
        0 <= i <= ts.len(),
    ensures
        g_stmt(ts, i) matches Ok((_, j)) ==> i < j <= ts.len(),
        g_name(ts, i) matches Ok((_, j)) ==> i < j <= ts.len(),
        g_number(ts, i) matches Ok((_, j)) ==> i < j <= ts.len(),
{
}

fn parse_name(p: &Parser, i: usize) -> (r: Result<(String, usize), String>)
    ensures
        match g_name(p.toks(), i as int) {
            Ok((n, j)) => r matches Ok((s, k)) && s@ == n && k == j,
            Err(m) => r matches Err(e) && e@ == m,
        },
{
    if i < p.tokens.len() {
        if let Token::Ident(s) = &p.tokens[i] {
            return Ok((string_of(s), i + 1));
        }
        return Err(p.error_here(i + 1, chars_of("expected identifier")));
    }
    Err(p.error_here(i, chars_of("expected identifier")))
}

fn parse_number(p: &Parser, i: usize) -> (r: Result<(Number, usize), String>)
    ensures
        match g_number(p.toks(), i as int) {
            Ok((n, j)) => r matches Ok((x, k)) && x.value() == n && k == j,
            Err(m) => r matches Err(e) && e@ == m,
        },
{
    if i < p.tokens.len() {
        if let Token::Number(s) = &p.tokens[i] {
            return match crate::number::parse_usize(s) {
                Ok(v) => Ok((Number(v), i + 1)),
                Err(e) => Err(decimal_error_text(e)),
            };
        }
        return Err(p.error_here(i + 1, chars_of("expected number")));
    }
    Err(p.error_here(i, chars_of("expected number")))
}

fn parse_statement(p: &Parser, i: usize) -> (r: Result<(Command, usize), String>)
    requires
        i <= p.tokens.len(),
    ensures
        match g_stmt(p.toks(), i as int) {
            Ok((c, j)) => r matches Ok((x, k)) && command_view(x) == c && k == j,
            Err(m) => r matches Err(e) && e@ == m,
        },
{
    if p.is_word(i, "inc") {
        let (v, j) = parse_name(p, i + 1)?;
        return Ok((Command::Inc(v), j));
    }
    if p.is_word(i, "dec") {
        let (v, j) = parse_name(p, i + 1)?;
        return Ok((Command::Dec(v), j));
    }
    if p.is_word(i, "clr") {
        let (v, j) = parse_name(p, i + 1)?;
        return Ok((Command::Clr(v), j));
    }
    if p.is_word(i, "cpy") {
        let (d, j) = parse_name(p, i + 1)?;
        let j1 = p.expect_sym(j, '<')?;
        let j2 = p.expect_sym(j1, '-')?;
        let (s, k) = parse_name(p, j2)?;
        return Ok((Command::Cpy(d, s), k));
    }
    if p.is_word(i, "ifnz") {
        let (v, j) = parse_name(p, i + 1)?;
        let j1 = p.expect_sym(j, ':')?;
        let (n, k) = parse_number(p, j1)?;
        return Ok((Command::Ifnz(v, n), k));
    }
    Err(p.error_here(i, chars_of("expected statement")))
}

/// Reads commands from their text: statements, each ended by `;`.
pub fn program(code: &str) -> (r: Result<Vec<Command>, String>)
    ensures
        match program_text_spec(code@) {
            Ok(cs) => r matches Ok(v) && commands_view(v@) == cs,
            Err(m) => r matches Err(e) && e@ == m,
        },
{
    let tokens = lex_chars(&chars_of(code))?;
    let p = Parser::new(tokens);
    let ghost ts = p.toks();
    let mut pos: usize = 0;
    let mut out: Vec<Command> = Vec::new();
    assert(commands_view(out@) =~= Seq::<CommandV>::empty());
    while !p.is_eof(pos)
        invariant
            pos <= p.tokens@.len(),
            ts == p.toks(),
            program_text_spec(code@) == g_program(ts, 0, seq![]),
            g_program(ts, 0, seq![]) == g_program(ts, pos as int, commands_view(out@)),
        decreases p.tokens@.len() - pos,
    {
        proof {
            lemma_g_progress(ts, pos as int);
        }
        let (c, j) = parse_statement(&p, pos)?;
        let k = p.expect_sym(j, ';')?;
        let ghost before = commands_view(out@);
        out.push(c);
        assert(commands_view(out@) =~= before.push(command_view(c)));
        pos = k;
    }
    Ok(out)
}

/// Reads commands from their text.
pub fn program_read_to_end(code: &str) -> (r: Result<Vec<Command>, String>)
    ensures
        match program_text_spec(code@) {
            Ok(cs) => r matches Ok(v) && commands_view(v@) == cs,
            Err(m) => r matches Err(e) && e@ == m,
        },
{
    program(code)
}

/// Reads counters from their text: `name = number` entries, each perhaps
/// ended by `;`.
pub fn env_read_to_end(code: &str) -> (r: Result<Vec<(String, Number)>, String>)
    ensures
        match env_text_spec(code@) {
            Ok(e) => r matches Ok(v) && env_view(v@) == e,
            Err(m) => r matches Err(x) && x@ == m,
        },
{
    let tokens = lex_chars(&chars_of(code))?;
    let p = Parser::new(tokens);
    let ghost ts = p.toks();
    let mut pos: usize = 0;
    let mut out: Vec<(String, Number)> = Vec::new();
    assert(env_view(out@) =~= Seq::<(Seq<char>, nat)>::empty());
    while !p.is_eof(pos)
        invariant
            pos <= p.tokens@.len(),
            ts == p.toks(),
            env_text_spec(code@) == g_env(ts, 0, seq![]),
            g_env(ts, 0, seq![]) == g_env(ts, pos as int, env_view(out@)),
        decreases p.tokens@.len() - pos,
    {
        proof {
            lemma_g_progress(ts, pos as int);
        }
        let (n, j) = parse_name(&p, pos)?;
        let j1 = p.expect_sym(j, '=')?;
        let (v, k) = parse_number(&p, j1)?;
        let ghost before = env_view(out@);
        out.push((n, v));
        assert(env_view(out@) =~= before.push((n@, v.value())));
        if p.is_sym(k, ';') {
            pos = k + 1;
        } else {
            pos = k;
        }
    }
    Ok(out)
}

impl Environment {
    /// Reads counters from their text.
    pub fn parse(text: &str) -> (r: Result<Environment, String>)
        ensures
            match env_text_spec(text@) {
                Ok(e) => r matches Ok(env) && env_view(env.env@) == e,
                Err(m) => r matches Err(x) && x@ == m,
            },
    {
        let env = env_read_to_end(text)?;
        Ok(Environment { env })
    }

    /// The text of counters: a `name = number` line per entry.
    pub fn print(&self) -> (s: String)
        ensures
            s@ == env_lines_text(env_view(self.env@), self.env@.len() as nat),
    {
        let ghost e = env_view(self.env@);
        let mut out: Vec<char> = Vec::new();
        let mut i: usize = 0;
        while i < self.env.len()
            invariant
                0 <= i <= self.env@.len(),
                e == env_view(self.env@),
                out@ == env_lines_text(e, i as nat),
            decreases self.env@.len() - i,
        {
            push_str(&mut out, self.env[i].0.as_str());
            push_str(&mut out, " = ");
            push_all(&mut out, &decimal_chars(self.env[i].1.0));
            push_str(&mut out, "\n");
            i += 1;
        }
        string_of(&out)
    }
}

/// The lines of the first `n` entries.
pub open spec fn env_lines_text(e: Seq<(Seq<char>, nat)>, n: nat) -> Seq<char>
    decreases n,
{
    if n == 0 || n > e.len() {
        seq![]
    } else {
        env_lines_text(e, (n - 1) as nat) + e[n - 1].0 + " = "@ + decimal(e[n - 1].1) + "\n"@
    }
}

/// The text of a command.
pub open spec fn command_text(c: CommandV) -> Seq<char> {
    match c {
        CommandV::Clr(v) => "clr "@ + v + "\n"@,
        CommandV::Inc(v) => "inc "@ + v + "\n"@,
        CommandV::Dec(v) => "dec "@ + v + "\n"@,
        CommandV::Cpy(d, s) => "cpy "@ + d + " "@ + s + "\n"@,
        CommandV::Ifnz(v, t) => "ifnz "@ + v + " "@ + decimal(t) + "\n"@,
    }
}

pub open spec fn commands_text(cs: Seq<CommandV>, n: nat) -> Seq<char>
    decreases n,
{
    if n == 0 || n > cs.len() {
        seq![]
    } else {
        commands_text(cs, (n - 1) as nat) + command_text(cs[n - 1])
    }
}

impl Code {
    /// Reads code from its text.
    pub fn parse(text: &str) -> (r: Result<Code, String>)
        ensures
            match program_text_spec(text@) {
                Ok(cs) => r matches Ok(c) && commands_view(c.0@) == cs,
                Err(m) => r matches Err(e) && e@ == m,
            },
    {
        let cs = program_read_to_end(text)?;
        Ok(Code(cs))
    }

    /// The text of code: a line per command.
    pub fn print(&self) -> (s: String)
        ensures
            s@ == commands_text(commands_view(self.0@), self.0@.len() as nat),
    {
        let ghost cs = commands_view(self.0@);
        let mut out: Vec<char> = Vec::new();
        let mut i: usize = 0;
        while i < self.0.len()
            invariant
                0 <= i <= self.0@.len(),
                cs == commands_view(self.0@),
                out@ == commands_text(cs, i as nat),
            decreases self.0@.len() - i,
        {
            match &self.0[i] {
                Command::Clr(v) => {
                    push_str(&mut out, "clr ");
                    push_str(&mut out, v.as_str());
                },
                Command::Inc(v) => {
                    push_str(&mut out, "inc ");
                    push_str(&mut out, v.as_str());
                },
                Command::Dec(v) => {
                    push_str(&mut out, "dec ");
                    push_str(&mut out, v.as_str());
                },
                Command::Cpy(d, s) => {
                    push_str(&mut out, "cpy ");
                    push_str(&mut out, d.as_str());
                    push_str(&mut out, " ");
                    push_str(&mut out, s.as_str());
                },
                Command::Ifnz(v, t) => {
                    push_str(&mut out, "ifnz ");
                    push_str(&mut out, v.as_str());
                    push_str(&mut out, " ");
                    push_all(&mut out, &decimal_chars(t.0));
                },
            }
            push_str(&mut out, "\n");
            i += 1;
        }
        string_of(&out)
    }
}


// ---------------------------------------------------------------------
// Reading back printed counters
// ---------------------------------------------------------------------

/// A name that reads back as one word token.
pub open spec fn word_name(l: Seq<char>) -> bool {
    &&& l.len() > 0
    &&& crate::circuit_lexer::is_word_start(l[0])
    &&& forall|j: int| 0 <= j < l.len() ==> crate::coroutine_parser::is_word_char(#[trigger] l[j])
}

/// Counters whose text reads back as themselves: word names and numbers
/// that fit in `usize`.
pub open spec fn printable_env(e: Seq<(Seq<char>, nat)>) -> bool {
    forall|k: int| 0 <= k < e.len() ==> word_name(#[trigger] e[k].0) && e[k].1 <= usize::MAX
}

pub open spec fn entry_toks(p: (Seq<char>, nat)) -> Seq<TokV> {
    seq![TokV::Ident(p.0), crate::circuit_lexer::single_tok('='), TokV::Number(decimal(p.1))]
}

pub open spec fn env_toks(e: Seq<(Seq<char>, nat)>, n: nat) -> Seq<TokV>
    decreases n,
{
    if n == 0 || n > e.len() {
        seq![]
    } else {
        env_toks(e, (n - 1) as nat) + entry_toks(e[n - 1])
    }
}

#[verifier::spinoff_prover]
#[verifier::rlimit(50)]
proof fn lemma_lex_env(e: Seq<(Seq<char>, nat)>, n: nat)
    requires
        n <= e.len(),
        printable_env(e),
    ensures
        crate::flow_printed::lexes(env_lines_text(e, n), env_toks(e, n)),
        crate::flow_printed::clean(env_lines_text(e, n)),
    decreases n,
{
    if n == 0 {
        assert(lex_at(Seq::<char>::empty(), 0) == Ok::<Seq<TokV>, Seq<char>>(seq![]));
    } else {
        lemma_lex_env(e, (n - 1) as nat);
        let p = e[n - 1];
        assert(word_name(p.0));
        crate::flow_printed::lemma_lex_word(p.0);
        crate::flow_printed::lemma_lit_eq();
        crate::flow_printed::lemma_lit_newline();
        crate::flow_printed::lemma_lex_decimal(p.1);
        let eq = seq![crate::circuit_lexer::single_tok('=')];
        crate::flow_printed::lemma_lex_join(p.0, seq![TokV::Ident(p.0)], " = "@, eq);
        crate::flow_printed::lemma_lex_wrap(
            p.0 + " = "@,
            seq![TokV::Ident(p.0)] + eq,
            decimal(p.1),
            seq![TokV::Number(decimal(p.1))],
            "\n"@,
            Seq::<TokV>::empty(),
        );
        let line = p.0 + " = "@ + decimal(p.1) + "\n"@;
        let tl = seq![TokV::Ident(p.0)] + eq + seq![TokV::Number(decimal(p.1))] + Seq::<TokV>::empty();
        crate::flow_printed::lemma_lex_join(env_lines_text(e, (n - 1) as nat), env_toks(e, (n - 1) as nat), line, tl);
        assert(env_lines_text(e, n) =~= env_lines_text(e, (n - 1) as nat) + line);
        assert(env_toks(e, (n - 1) as nat) + tl =~= env_toks(e, n));
    }
}

proof fn lemma_env_toks_at(e: Seq<(Seq<char>, nat)>, n: nat, k: int)
    requires
        n <= e.len(),
        0 <= k < n,
    ensures
        env_toks(e, n).len() == 3 * n,
        env_toks(e, n)[3 * k] == TokV::Ident(e[k].0),
        env_toks(e, n)[3 * k + 1] == crate::circuit_lexer::single_tok('='),
        env_toks(e, n)[3 * k + 2] == TokV::Number(decimal(e[k].1)),
    decreases n,
{
    if k < n - 1 {
        lemma_env_toks_at(e, (n - 1) as nat, k);
    } else {
        if n > 1 {
            lemma_env_toks_at(e, (n - 1) as nat, 0);
        } else {
            assert(env_toks(e, 0).len() == 0);
        }
    }
}

proof fn lemma_env_toks_len(e: Seq<(Seq<char>, nat)>, n: nat)
    requires
        n <= e.len(),
    ensures
        env_toks(e, n).len() == 3 * n,
    decreases n,
{
    if n > 0 {
        lemma_env_toks_len(e, (n - 1) as nat);
    }
}

/// The entries of printed counters read back one after the other.
proof fn lemma_read_env(e: Seq<(Seq<char>, nat)>, k: nat)
    requires
        printable_env(e),
        k <= e.len(),
    ensures
        g_env(env_toks(e, e.len()), 3 * (k as int), e.take(k as int)) == Ok::<Seq<(Seq<char>, nat)>, Seq<char>>(e),
    decreases e.len() - k,
{
    let ts = env_toks(e, e.len());
    lemma_env_toks_len(e, e.len());
    if k == e.len() {
        assert(e.take(k as int) =~= e);
    } else {
        let i = 3 * k as int;
        lemma_env_toks_at(e, e.len(), k as int);
        let p = e[k as int];
        assert(word_name(p.0));
        crate::number::law_decimal_roundtrip(p.1);
        assert(g_name(ts, i) == Ok::<(Seq<char>, int), Seq<char>>((p.0, i + 1)));
        assert(expect_sym(ts, i + 1, '=') == Ok::<int, Seq<char>>(i + 2));
        assert(g_number(ts, i + 2) == Ok::<(nat, int), Seq<char>>((p.1, i + 3)));
        if k + 1 < e.len() {
            lemma_env_toks_at(e, e.len(), (k + 1) as int);
        }
        assert(!sym_at(ts, i + 3, ';'));
        assert(e.take(k as int).push(p) =~= e.take((k + 1) as int));
        lemma_read_env(e, (k + 1) as nat);
    }
}

/// Reading the text of counters gives the counters back.
pub proof fn law_env_text_roundtrip(e: Seq<(Seq<char>, nat)>)
    requires
        printable_env(e),
    ensures
        env_text_spec(env_lines_text(e, e.len())) == Ok::<Seq<(Seq<char>, nat)>, Seq<char>>(e),
{
    lemma_lex_env(e, e.len());
    assert(e.take(0) =~= Seq::<(Seq<char>, nat)>::empty());
    lemma_read_env(e, 0);
}

} // verus!

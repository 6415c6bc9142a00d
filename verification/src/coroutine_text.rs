//! The text of coroutine code and of global environments.
use vstd::prelude::*;

use crate::coroutine::{push_all, push_str, stmt_chars, stmt_text, CoroutineCode, FnDecl, Stmt};
use crate::coroutine_machine::{EnvState, GlobalEnv};
use crate::coroutine_parser::{invalid_ident_message, lines_from, seqs_view, split_lines, validate_ident};
use crate::number::{decimal, decimal_chars, decimal_error_message, decimal_error_text, parse_decimal, parse_usize, Number};
use crate::table::Table;
use crate::text::{
    chars_of, find, first_occurrence, has_prefix, is_identifier, skip_chars, slice_chars, starts_with, string_of, trim,
    trim_chars,
};

verus! {

// ---------------------------------------------------------------------
// Code
// ---------------------------------------------------------------------

/// The first `n` statements of a body, joined by `; `.
pub open spec fn body_text(ss: Seq<Stmt>, n: nat) -> Seq<char>
    decreases n,
{
    if n == 0 || n > ss.len() {
        seq![]
    } else if n == 1 {
        stmt_text(ss[0])
    } else {
        body_text(ss, (n - 1) as nat) + "; "@ + stmt_text(ss[n - 1])
    }
}

/// The text of a function: its header, its statements on one line, `}`.
pub open spec fn function_text(f: FnDecl) -> Seq<char> {
    "fn "@ + f.name@ + " {\n"@ + (if f.body@.len() == 0 {
        seq![]
    } else {
        "  "@ + body_text(f.body@, f.body@.len()) + "\n"@
    }) + "}\n"@
}

/// The text of the first `n` functions, a blank line between two.
pub open spec fn functions_text(fs: Seq<FnDecl>, n: nat) -> Seq<char>
    decreases n,
{
    if n == 0 || n > fs.len() {
        seq![]
    } else if n == 1 {
        function_text(fs[0])
    } else {
        functions_text(fs, (n - 1) as nat) + "\n"@ + function_text(fs[n - 1])
    }
}

fn write_function(out: &mut Vec<char>, f: &FnDecl)
    ensures
        final(out)@ == old(out)@ + function_text(*f),
{
    let ghost start = out@;
    push_str(out, "fn ");
    push_str(out, f.name.as_str());
    push_str(out, " {\n");
    let ghost head = out@;
    if f.body.len() > 0 {
        push_str(out, "  ");
        let ghost b0 = out@;
        let mut i: usize = 0;
        while i < f.body.len()
            invariant
                0 <= i <= f.body@.len(),
                f.body@.len() > 0,
                out@ == b0 + body_text(f.body@, i as nat),
            decreases f.body@.len() - i,
        {
            if i > 0 {
                push_str(out, "; ");
            }
            push_all(out, &stmt_chars(&f.body[i]));
            i += 1;
        }
        push_str(out, "\n");
    }
    push_str(out, "}\n");
    proof {
        assert(out@ =~= start + function_text(*f));
    }
}

impl CoroutineCode {
    /// The text of the code: its functions, a blank line between two.
    pub fn print(&self) -> (s: String)
        ensures
            s@ == functions_text(self.0.functions@, self.0.functions@.len()),
    {
        let fs = &self.0.functions;
        let mut out: Vec<char> = Vec::new();
        let mut i: usize = 0;
        while i < fs.len()
            invariant
                0 <= i <= fs@.len(),
                fs@ == self.0.functions@,
                out@ == functions_text(fs@, i as nat),
            decreases fs@.len() - i,
        {
            if i > 0 {
                push_str(&mut out, "\n");
            }
            write_function(&mut out, &fs[i]);
            i += 1;
        }
        string_of(&out)
    }
}

// ---------------------------------------------------------------------
// Environments
// ---------------------------------------------------------------------

pub open spec fn ascii_lower(c: char) -> char {
    if 'A' <= c <= 'Z' {
        ((c as u32) + 32) as char
    } else {
        c
    }
}

/// Whether a text is `none` in any case.
pub open spec fn is_none_word(v: Seq<char>) -> bool {
    v.len() == 4 && ascii_lower(v[0]) == 'n' && ascii_lower(v[1]) == 'o' && ascii_lower(v[2]) == 'n' && ascii_lower(
        v[3],
    ) == 'e'
}

/// What one more line adds to an environment, or why it is refused:
/// `name = number` sets a variable, `$name = id` or `$name = none` a task
/// id.
pub open spec fn genv_line(acc: EnvState, raw: Seq<char>) -> Result<EnvState, Seq<char>> {
    let line = trim(raw);
    if line.len() == 0 {
        Ok(acc)
    } else {
        match first_occurrence(line, "="@) {
            None => Err("invalid env line: "@ + line),
            Some(p) => {
                let name = trim(line.take(p));
                let value = trim(line.skip(p + 1));
                if starts_with(name, "$"@) {
                    let id = name.skip(1);
                    if !is_identifier(id) {
                        Err(invalid_ident_message(id))
                    } else if is_none_word(value) {
                        Ok(EnvState { task_ids: acc.task_ids.insert(id, None), ..acc })
                    } else {
                        match parse_decimal(value) {
                            Ok(t) => Ok(EnvState { task_ids: acc.task_ids.insert(id, Some(t as usize)), ..acc }),
                            Err(e) => Err(decimal_error_message(e)),
                        }
                    }
                } else if !is_identifier(name) {
                    Err(invalid_ident_message(name))
                } else {
                    match parse_decimal(value) {
                        Ok(n) => Ok(EnvState { vars: acc.vars.insert(name, Number(n as usize)), ..acc }),
                        Err(e) => Err(decimal_error_message(e)),
                    }
                }
            },
        }
    }
}

/// The environment of the first `n` lines.
pub open spec fn genv_lines(lines: Seq<Seq<char>>, n: nat) -> Result<EnvState, Seq<char>>
    decreases n,
{
    if n == 0 || n > lines.len() {
        Ok(EnvState { vars: Map::empty(), task_ids: Map::empty() })
    } else {
        match genv_lines(lines, (n - 1) as nat) {
            Err(m) => Err(m),
            Ok(acc) => genv_line(acc, lines[n - 1]),
        }
    }
}

/// The environment that a text denotes.
pub open spec fn genv_spec(text: Seq<char>) -> Result<EnvState, Seq<char>> {
    let lines = lines_from(text, 0);
    genv_lines(lines, lines.len())
}

proof fn lemma_genv_lines_err(lines: Seq<Seq<char>>, i: nat, n: nat, m: Seq<char>)
    requires
        0 < i <= n <= lines.len(),
        genv_lines(lines, i) == Err::<EnvState, Seq<char>>(m),
    ensures
        genv_lines(lines, n) == Err::<EnvState, Seq<char>>(m),
    decreases n - i,
{
    if i < n {
        lemma_genv_lines_err(lines, i, (n - 1) as nat, m);
    }
}

fn lower_char(c: char) -> (r: char)
    ensures
        r == ascii_lower(c),
{
    if 'A' <= c && c <= 'Z' {
        let u = (c as u32) + 32;
        assert(0x41 + 32 <= u <= 0x5a + 32);
        if u == 0x61 { 'a' } else if u == 0x62 { 'b' } else if u == 0x63 { 'c' } else if u == 0x64 { 'd' }
        else if u == 0x65 { 'e' } else if u == 0x66 { 'f' } else if u == 0x67 { 'g' } else if u == 0x68 { 'h' }
        else if u == 0x69 { 'i' } else if u == 0x6a { 'j' } else if u == 0x6b { 'k' } else if u == 0x6c { 'l' }
        else if u == 0x6d { 'm' } else if u == 0x6e { 'n' } else if u == 0x6f { 'o' } else if u == 0x70 { 'p' }
        else if u == 0x71 { 'q' } else if u == 0x72 { 'r' } else if u == 0x73 { 's' } else if u == 0x74 { 't' }
        else if u == 0x75 { 'u' } else if u == 0x76 { 'v' } else if u == 0x77 { 'w' } else if u == 0x78 { 'x' }
        else if u == 0x79 { 'y' } else { 'z' }
    } else {
        c
    }
}

fn none_word(v: &Vec<char>) -> (r: bool)
    ensures
        r == is_none_word(v@),
{
    v.len() == 4 && lower_char(v[0]) == 'n' && lower_char(v[1]) == 'o' && lower_char(v[2]) == 'n' && lower_char(v[3])
        == 'e'
}

fn invalid_line(line: &Vec<char>) -> (r: String)
    ensures
        r@ == "invalid env line: "@ + line@,
{
    let mut t = chars_of("invalid env line: ");
    push_all(&mut t, line);
    string_of(&t)
}

impl GlobalEnv {
    /// Reads an environment from its text: one `name = number` or
    /// `$name = id` line per entry, `none` for a task with no id.
    pub fn parse(text: &str) -> (r: Result<GlobalEnv, String>)
        ensures
            match genv_spec(text@) {
                Ok(s) => r matches Ok(env) && env.state() == s,
                Err(m) => r matches Err(e) && e@ == m,
            },
    {
        let lines = split_lines(&chars_of(text));
        let ghost ls = lines_from(text@, 0);
        let mut env = GlobalEnv::new();
        let mut i: usize = 0;
        proof {
            assert(env.state() =~= EnvState { vars: Map::empty(), task_ids: Map::empty() });
        }
        while i < lines.len()
            invariant
                0 <= i <= lines@.len(),
                seqs_view(lines@) == ls,
                ls == lines_from(text@, 0),
                genv_lines(ls, i as nat) == Ok::<EnvState, Seq<char>>(env.state()),
            decreases lines@.len() - i,
        {
            let line = trim_chars(&lines[i]);
            assert(line@ == trim(ls[i as int]));
            if line.len() > 0 {
                let p = match find(&line, &chars_of("=")) {
                    Some(p) => p,
                    None => {
                        proof {
                            lemma_genv_lines_err(ls, (i + 1) as nat, ls.len(), "invalid env line: "@ + line@);
                        }
                        return Err(invalid_line(&line));
                    },
                };
                proof {
                    reveal_strlit("=");
                }
                let name = trim_chars(&slice_chars(&line, 0, p));
                let value = trim_chars(&skip_chars(&line, p + 1));
                assert(line@.subrange(0, p as int) =~= line@.take(p as int));
                let ghost before = env.state();
                proof {
                    reveal_strlit("$");
                }
                if has_prefix(&name, &chars_of("$")) {
                    let id = skip_chars(&name, 1);
                    if let Err(e) = validate_ident(&id) {
                        proof {
                            lemma_genv_lines_err(ls, (i + 1) as nat, ls.len(), e@);
                        }
                        return Err(e);
                    }
                    if none_word(&value) {
                        env.task_ids.insert(string_of(&id), None);
                    } else {
                        match parse_usize(&value) {
                            Ok(t) => {
                                env.task_ids.insert(string_of(&id), Some(t));
                            },
                            Err(e) => {
                                proof {
                                    lemma_genv_lines_err(ls, (i + 1) as nat, ls.len(), decimal_error_message(e));
                                }
                                return Err(decimal_error_text(e));
                            },
                        }
                    }
                } else {
                    if let Err(e) = validate_ident(&name) {
                        proof {
                            lemma_genv_lines_err(ls, (i + 1) as nat, ls.len(), e@);
                        }
                        return Err(e);
                    }
                    match parse_usize(&value) {
                        Ok(n) => {
                            env.vars.insert(string_of(&name), Number(n));
                        },
                        Err(e) => {
                            proof {
                                lemma_genv_lines_err(ls, (i + 1) as nat, ls.len(), decimal_error_message(e));
                            }
                            return Err(decimal_error_text(e));
                        },
                    }
                }
                proof {
                    reveal_strlit("$");
                    assert(env.state() =~= genv_line(before, ls[i as int])->Ok_0);
                }
            }
            i += 1;
        }
        Ok(env)
    }

    /// The text of an environment: the variables, then the task ids, each
    /// in the order of their names.
    pub fn print(&self) -> (s: String)
        ensures
            s@ == vars_text(self.vars.entries_view(), self.vars.entries_view().len()) + task_ids_text(
                self.task_ids.entries_view(),
                self.task_ids.entries_view().len(),
            ),
    {
        let vars = self.vars.entries();
        let mut out: Vec<char> = Vec::new();
        let mut i: usize = 0;
        while i < vars.len()
            invariant
                0 <= i <= vars@.len(),
                vars@ == self.vars.entries_view(),
                out@ == vars_text(vars@, i as nat),
            decreases vars@.len() - i,
        {
            push_str(&mut out, vars[i].0.as_str());
            push_str(&mut out, " = ");
            push_all(&mut out, &decimal_chars(vars[i].1.0));
            push_str(&mut out, "\n");
            i += 1;
        }
        let ghost head = out@;
        let ids = self.task_ids.entries();
        let mut k: usize = 0;
        while k < ids.len()
            invariant
                0 <= k <= ids@.len(),
                ids@ == self.task_ids.entries_view(),
                out@ == head + task_ids_text(ids@, k as nat),
            decreases ids@.len() - k,
        {
            push_str(&mut out, "$");
            push_str(&mut out, ids[k].0.as_str());
            push_str(&mut out, " = ");
            match ids[k].1 {
                Some(t) => push_all(&mut out, &decimal_chars(t)),
                None => push_str(&mut out, "none"),
            }
            push_str(&mut out, "\n");
            k += 1;
        }
        string_of(&out)
    }
}

/// The lines of the first `n` variables.
pub open spec fn vars_text(vs: Seq<(String, Number)>, n: nat) -> Seq<char>
    decreases n,
{
    if n == 0 || n > vs.len() {
        seq![]
    } else {
        vars_text(vs, (n - 1) as nat) + vs[n - 1].0@ + " = "@ + decimal(vs[n - 1].1.value()) + "\n"@
    }
}

/// The lines of the first `n` task ids.
pub open spec fn task_ids_text(ts: Seq<(String, Option<usize>)>, n: nat) -> Seq<char>
    decreases n,
{
    if n == 0 || n > ts.len() {
        seq![]
    } else {
        task_ids_text(ts, (n - 1) as nat) + "$"@ + ts[n - 1].0@ + " = "@ + match ts[n - 1].1 {
            Some(t) => decimal(t as nat),
            None => "none"@,
        } + "\n"@
    }
}

} // verus!

//! Reading lambda terms: `\x y. m` for abstractions (a body reaching as far
//! as it can), juxtaposition for application (to the left), parentheses
//! for grouping. A name refers to the innermost binder of that name; a
//! name that no binder encloses, and each binder, is a new variable.
use vstd::prelude::*;

use crate::circuit_lexer::{lex_circuit, lex_circuit_spec, tok_view, toks_view, DelimKind, TokV, Token};
use crate::coroutine::{push_all, push_str};
use crate::flow_parser::{tok_debug, tok_debug_exec};
use crate::lambda_term::{LambdaTerm, Var};
use crate::text::{chars_of, string_of};

verus! {

/// A term as plain values: each variable by its id and its name.
pub enum TermV {
    Var(usize, Seq<char>),
    Abs(usize, Seq<char>, Box<TermV>),
    App(Box<TermV>, Box<TermV>),
}

pub open spec fn term_view(t: LambdaTerm) -> TermV
    decreases t,
{
    match t {
        LambdaTerm::Var(v) => TermV::Var(v.id, v.name@),
        LambdaTerm::Abs(v, b) => TermV::Abs(v.id, v.name@, Box::new(term_view(*b))),
        LambdaTerm::App(f, a) => TermV::App(Box::new(term_view(*f)), Box::new(term_view(*a))),
    }
}

pub open spec fn env_view(env: Seq<Var>) -> Seq<(usize, Seq<char>)> {
    env.map_values(|v: Var| (v.id, v.name@))
}

/// The innermost of the first `k` binders with the name, if any.
pub open spec fn lookup_name(env: Seq<(usize, Seq<char>)>, name: Seq<char>, k: int) -> Option<(usize, Seq<char>)>
    decreases k,
{
    if k <= 0 || k > env.len() {
        None
    } else if env[k - 1].1 == name {
        Some(env[k - 1])
    } else {
        lookup_name(env, name, k - 1)
    }
}

pub open spec fn is_atom_start(ts: Seq<TokV>, i: int) -> bool {
    0 <= i < ts.len() && (ts[i] is Ident || ts[i] == TokV::Symbol('\\') || ts[i] == TokV::Open(DelimKind::Paren))
}

/// A message about the token at `i`; a closing parenthesis ends a group and
/// counts as the end of the input.
pub open spec fn err_at(ts: Seq<TokV>, i: int, m: Seq<char>) -> Seq<char> {
    if 0 <= i < ts.len() && ts[i] != TokV::Close(DelimKind::Paren) {
        m + " near "@ + tok_debug(ts[i])
    } else {
        m + " at end of input"@
    }
}

pub open spec fn join(acc: Option<TermV>, t: TermV) -> TermV {
    match acc {
        Some(a) => TermV::App(Box::new(a), Box::new(t)),
        None => t,
    }
}

/// `body` under the binders, the first of them outermost.
pub open spec fn lambdas_view(vars: Seq<(usize, Seq<char>)>, body: TermV) -> TermV
    decreases vars.len(),
{
    if vars.len() == 0 {
        body
    } else {
        lambdas_view(vars.drop_last(), TermV::Abs(vars.last().0, vars.last().1, Box::new(body)))
    }
}

/// The binders from `j` on: each name a new variable, its id the next one.
pub open spec fn p_binders(
    ts: Seq<TokV>,
    j: int,
    env: Seq<(usize, Seq<char>)>,
    vars: Seq<(usize, Seq<char>)>,
    next: int,
) -> (int, Seq<(usize, Seq<char>)>, Seq<(usize, Seq<char>)>, int)
    decreases ts.len() - j,
{
    if 0 <= j < ts.len() && ts[j] is Ident {
        let v = (next as usize, ts[j]->Ident_0);
        p_binders(ts, j + 1, env.push(v), vars.push(v), next + 1)
    } else {
        (j, env, vars, next)
    }
}

/// An application from `i`: one atom or more, applied to the left. The
/// result is the term, the position after it and the next free id.
pub open spec fn p_app(ts: Seq<TokV>, i: int, env: Seq<(usize, Seq<char>)>, next: int) -> Result<(TermV, int, int), Seq<char>>
    decreases ts.len() - i, 3nat,
{
    if 0 <= i <= ts.len() && is_atom_start(ts, i) {
        p_atoms(ts, i, env, next, None)
    } else {
        Err(err_at(ts, i, "expected lambda term"@))
    }
}

pub open spec fn p_atoms(
    ts: Seq<TokV>,
    i: int,
    env: Seq<(usize, Seq<char>)>,
    next: int,
    acc: Option<TermV>,
) -> Result<(TermV, int, int), Seq<char>>
    decreases ts.len() - i, 2nat,
{
    if 0 <= i <= ts.len() && is_atom_start(ts, i) {
        match p_atom(ts, i, env, next) {
            Ok((t, j, n)) => if i < j <= ts.len() {
                p_atoms(ts, j, env, n, Some(join(acc, t)))
            } else {
                Err(seq![])
            },
            Err(m) => Err(m),
        }
    } else {
        match acc {
            Some(t) => Ok((t, i, next)),
            None => Err(err_at(ts, i, "expected lambda term"@)),
        }
    }
}

pub open spec fn p_atom(ts: Seq<TokV>, i: int, env: Seq<(usize, Seq<char>)>, next: int) -> Result<(TermV, int, int), Seq<char>>
    decreases ts.len() - i, 1nat,
{
    if !(0 <= i < ts.len()) {
        Err(err_at(ts, i, "expected variable, abstraction, or parenthesized term"@))
    } else if ts[i] == TokV::Symbol('\\') {
        p_abs(ts, i, env, next)
    } else if ts[i] == TokV::Open(DelimKind::Paren) {
        match p_app(ts, i + 1, env, next) {
            Ok((t, j, n)) => if 0 <= j < ts.len() && ts[j] == TokV::Close(DelimKind::Paren) {
                Ok((t, j + 1, n))
            } else {
                Err(err_at(ts, j, "unexpected trailing tokens in paren group"@))
            },
            Err(m) => Err(m),
        }
    } else if ts[i] is Ident {
        let name = ts[i]->Ident_0;
        match lookup_name(env, name, env.len() as int) {
            Some(v) => Ok((TermV::Var(v.0, v.1), i + 1, next)),
            None => Ok((TermV::Var(next as usize, name), i + 1, next + 1)),
        }
    } else {
        Err(err_at(ts, i + 1, "expected variable, abstraction, or parenthesized term"@))
    }
}

pub open spec fn p_abs(ts: Seq<TokV>, i: int, env: Seq<(usize, Seq<char>)>, next: int) -> Result<(TermV, int, int), Seq<char>>
    decreases ts.len() - i, 0nat,
{
    let (k, env2, vars, n2) = p_binders(ts, i + 1, env, seq![], next);
    if vars.len() == 0 {
        Err(err_at(ts, i + 1, "expected binder after '\\'"@))
    } else if i < k < ts.len() && ts[k] == TokV::Symbol('.') {
        match p_app(ts, k + 1, env2, n2) {
            Ok((b, j, n3)) => Ok((lambdas_view(vars, b), j, n3)),
            Err(m) => Err(m),
        }
    } else if 0 <= k < ts.len() && ts[k] != TokV::Close(DelimKind::Paren) {
        Err(err_at(ts, k + 1, "expected '.'"@))
    } else {
        Err(err_at(ts, k, "expected '.'"@))
    }
}

/// The first bracket other than a parenthesis from `i` on.
pub open spec fn bad_delim(ts: Seq<TokV>, i: int) -> Option<DelimKind>
    decreases ts.len() - i,
{
    if i < 0 || i >= ts.len() {
        None
    } else {
        match ts[i] {
            TokV::Open(k) => if k != DelimKind::Paren { Some(k) } else { bad_delim(ts, i + 1) },
            _ => bad_delim(ts, i + 1),
        }
    }
}

pub open spec fn delim_name(k: DelimKind) -> Seq<char> {
    match k {
        DelimKind::Paren => "Paren"@,
        DelimKind::Brace => "Brace"@,
        DelimKind::Bracket => "Bracket"@,
    }
}

/// A lambda term read from the whole text, its new variables numbered from
/// `first`, and the next id left free.
pub open spec fn parse_from_spec(text: Seq<char>, first: int) -> Result<(TermV, int), Seq<char>> {
    match lex_circuit_spec(text) {
        Err(m) => Err(m),
        Ok(ts) => match bad_delim(ts, 0) {
            Some(k) => Err("unexpected delimiter in lambda term: "@ + delim_name(k)),
            None => if first + ts.len() > usize::MAX {
                Err("too many variables"@)
            } else {
                match p_app(ts, 0, seq![], first) {
                    Err(m) => Err(m),
                    Ok((t, j, n)) => if j < ts.len() {
                        Err(err_at(ts, j, "unexpected trailing tokens"@))
                    } else {
                        Ok((t, n))
                    },
                }
            },
        },
    }
}

/// A lambda term read from the whole text, its new variables numbered from 0.
pub open spec fn parse_lambda_spec(text: Seq<char>) -> Result<TermV, Seq<char>> {
    match parse_from_spec(text, 0) {
        Ok((t, _)) => Ok(t),
        Err(m) => Err(m),
    }
}

pub open spec fn opt_view(acc: Option<LambdaTerm>) -> Option<TermV> {
    match acc {
        Some(t) => Some(term_view(t)),
        None => None,
    }
}

fn tok_is(ts: &Vec<Token>, i: usize, want: TokV) -> (r: bool)
    requires
        want is Symbol || want is Open || want is Close,
    ensures
        r == (i < ts.len() && toks_view(ts@)[i as int] == want),
{
    if i >= ts.len() {
        return false;
    }
    assert(toks_view(ts@)[i as int] == tok_view(ts@[i as int]));
    match &ts[i] {
        Token::Symbol(c) => match want {
            TokV::Symbol(d) => *c == d,
            _ => false,
        },
        Token::Open(k) => match want {
            TokV::Open(d) => *k == d,
            _ => false,
        },
        Token::Close(k) => match want {
            TokV::Close(d) => *k == d,
            _ => false,
        },
        _ => false,
    }
}

fn ident_at(ts: &Vec<Token>, i: usize) -> (r: Option<Vec<char>>)
    ensures
        match r {
            Some(s) => i < ts.len() && toks_view(ts@)[i as int] == TokV::Ident(s@),
            None => !(i < ts.len() && toks_view(ts@)[i as int] is Ident),
        },
{
    if i >= ts.len() {
        return None;
    }
    assert(toks_view(ts@)[i as int] == tok_view(ts@[i as int]));
    match &ts[i] {
        Token::Ident(s) => {
            let c = crate::text::slice_chars(s, 0, s.len());
            assert(c@ =~= s@);
            Some(c)
        },
        _ => None,
    }
}

fn is_atom_start_exec(ts: &Vec<Token>, i: usize) -> (r: bool)
    ensures
        r == is_atom_start(toks_view(ts@), i as int),
{
    ident_at(ts, i).is_some() || tok_is(ts, i, TokV::Symbol('\\')) || tok_is(ts, i, TokV::Open(DelimKind::Paren))
}

fn err_at_exec(ts: &Vec<Token>, i: usize, m: &str) -> (r: String)
    ensures
        r@ == err_at(toks_view(ts@), i as int, m@),
{
    let mut t = chars_of(m);
    if i < ts.len() && !tok_is(ts, i, TokV::Close(DelimKind::Paren)) {
        assert(toks_view(ts@)[i as int] == tok_view(ts@[i as int]));
        push_str(&mut t, " near ");
        push_all(&mut t, &tok_debug_exec(&ts[i]));
    } else {
        push_str(&mut t, " at end of input");
    }
    string_of(&t)
}

fn lookup_env(env: &Vec<Var>, name: &Vec<char>) -> (r: Option<Var>)
    ensures
        match lookup_name(env_view(env@), name@, env@.len() as int) {
            Some(v) => r matches Some(w) && w.id == v.0 && w.name@ == v.1,
            None => r is None,
        },
{
    let mut k: usize = env.len();
    while k > 0
        invariant
            k <= env.len(),
            lookup_name(env_view(env@), name@, env@.len() as int) == lookup_name(env_view(env@), name@, k as int),
        decreases k,
    {
        let v = &env[k - 1];
        if crate::text::chars_equal(&chars_of(v.name.as_str()), name) {
            return Some(v.dup());
        }
        k = k - 1;
    }
    None
}

fn push_var(env: &mut Vec<Var>, v: Var)
    ensures
        final(env)@ == old(env)@.push(v),
        env_view(final(env)@) == env_view(old(env)@).push((v.id, v.name@)),
{
    env.push(v);
    assert(env_view(env@) =~= env_view(old(env)@).push((v.id, v.name@)));
}

fn pop_var(env: &mut Vec<Var>) -> (r: Var)
    requires
        old(env)@.len() > 0,
    ensures
        final(env)@ == old(env)@.drop_last(),
        r == old(env)@.last(),
{
    let v = env.pop();
    match v {
        Some(v) => v,
        None => Var::new(0, ""),
    }
}

/// An application from `i`.
fn parse_app(ts: &Vec<Token>, i: usize, env: &mut Vec<Var>, next: &mut usize) -> (r: Result<(LambdaTerm, usize), String>)
    requires
        i <= ts.len(),
        *old(next) + (ts.len() - i) <= usize::MAX,
    ensures
        r is Ok ==> final(env)@ == old(env)@,
        match p_app(toks_view(ts@), i as int, env_view(old(env)@), *old(next) as int) {
            Ok((t, j, n)) => r matches Ok((u, k)) && term_view(u) == t && k == j && *final(next) == n,
            Err(m) => r matches Err(e) && e@ == m,
        },
        r matches Ok((_, k)) ==> i < k <= ts.len() && *old(next) <= *final(next) && *final(next) - *old(next) <= k - i,
    decreases ts.len() - i, 3nat,
{
    let ghost tv = toks_view(ts@);
    let ghost ev = env_view(env@);
    let ghost n0 = *next as int;
    if !is_atom_start_exec(ts, i) {
        return Err(err_at_exec(ts, i, "expected lambda term"));
    }
    let mut acc: Option<LambdaTerm> = None;
    let mut j: usize = i;
    while is_atom_start_exec(ts, j)
        invariant
            i <= j <= ts.len(),
            tv == toks_view(ts@),
            env@ == old(env)@,
            ev == env_view(env@),
            n0 == *old(next),
            n0 <= *next,
            *next - n0 <= j - i,
            n0 + (ts.len() - i) <= usize::MAX,
            acc is Some || j == i,
            p_app(tv, i as int, ev, n0) == p_atoms(tv, j as int, ev, *next as int, opt_view(acc)),
        decreases ts.len() - j,
    {
        let ghost accv = opt_view(acc);
        match parse_atom(ts, j, env, next) {
            Ok((t, k)) => {
                let ghost t_view = term_view(t);
                acc = match acc {
                    Some(a) => Some(LambdaTerm::App(Box::new(a), Box::new(t))),
                    None => Some(t),
                };
                assert(opt_view(acc) == Some(join(accv, t_view)));
                j = k;
            },
            Err(e) => {
                return Err(e);
            },
        }
    }
    match acc {
        Some(t) => Ok((t, j)),
        None => Err(err_at_exec(ts, j, "expected lambda term")),
    }
}

/// An atom at `i`: an abstraction, a group or a name.
fn parse_atom(ts: &Vec<Token>, i: usize, env: &mut Vec<Var>, next: &mut usize) -> (r: Result<(LambdaTerm, usize), String>)
    requires
        i < ts.len(),
        *old(next) + (ts.len() - i) <= usize::MAX,
    ensures
        r is Ok ==> final(env)@ == old(env)@,
        match p_atom(toks_view(ts@), i as int, env_view(old(env)@), *old(next) as int) {
            Ok((t, j, n)) => r matches Ok((u, k)) && term_view(u) == t && k == j && *final(next) == n,
            Err(m) => r matches Err(e) && e@ == m,
        },
        r matches Ok((_, k)) ==> i < k <= ts.len() && *old(next) <= *final(next) && *final(next) - *old(next) <= k - i,
    decreases ts.len() - i, 1nat,
{
    if tok_is(ts, i, TokV::Symbol('\\')) {
        return parse_abs(ts, i, env, next);
    }
    if tok_is(ts, i, TokV::Open(DelimKind::Paren)) {
        let (t, j) = parse_app(ts, i + 1, env, next)?;
        if tok_is(ts, j, TokV::Close(DelimKind::Paren)) {
            return Ok((t, j + 1));
        }
        return Err(err_at_exec(ts, j, "unexpected trailing tokens in paren group"));
    }
    match ident_at(ts, i) {
        Some(name) => {
            match lookup_env(env, &name) {
                Some(v) => Ok((LambdaTerm::Var(v), i + 1)),
                None => {
                    let v = Var { id: *next, name: string_of(&name) };
                    *next = *next + 1;
                    Ok((LambdaTerm::Var(v), i + 1))
                },
            }
        },
        None => Err(err_at_exec(ts, i + 1, "expected variable, abstraction, or parenthesized term")),
    }
}

/// An abstraction at `i`, where `\` stands.
fn parse_abs(ts: &Vec<Token>, i: usize, env: &mut Vec<Var>, next: &mut usize) -> (r: Result<(LambdaTerm, usize), String>)
    requires
        i < ts.len(),
        toks_view(ts@)[i as int] == TokV::Symbol('\\'),
        *old(next) + (ts.len() - i) <= usize::MAX,
    ensures
        r is Ok ==> final(env)@ == old(env)@,
        match p_abs(toks_view(ts@), i as int, env_view(old(env)@), *old(next) as int) {
            Ok((t, j, n)) => r matches Ok((u, k)) && term_view(u) == t && k == j && *final(next) == n,
            Err(m) => r matches Err(e) && e@ == m,
        },
        r matches Ok((_, k)) ==> i < k <= ts.len() && *old(next) <= *final(next) && *final(next) - *old(next) <= k - i,
    decreases ts.len() - i, 0nat,
{
    let ghost tv = toks_view(ts@);
    let ghost env0 = env@;
    let ghost n0 = *next as int;
    let mut vars: Vec<Var> = Vec::new();
    let mut j: usize = i + 1;
    assert(env_view(vars@) =~= Seq::<(usize, Seq<char>)>::empty());
    loop
        invariant
            i < j <= ts.len(),
            tv == toks_view(ts@),
            env@ == env0 + vars@,
            vars@.len() == j - i - 1,
            *next == n0 + (j - i - 1),
            n0 + (ts.len() - i) <= usize::MAX,
            p_binders(tv, i + 1, env_view(env0), seq![], n0) == p_binders(
                tv,
                j as int,
                env_view(env@),
                env_view(vars@),
                *next as int,
            ),
        ensures
            i < j <= ts.len(),
            env@ == env0 + vars@,
            vars@.len() == j - i - 1,
            *next == n0 + (j - i - 1),
            !(j < ts.len() && tv[j as int] is Ident),
            p_binders(tv, i + 1, env_view(env0), seq![], n0) == (
                j as int,
                env_view(env@),
                env_view(vars@),
                *next as int,
            ),
        decreases ts.len() - j,
    {
        match ident_at(ts, j) {
            Some(name) => {
                let v = Var { id: *next, name: string_of(&name) };
                push_var(env, v.dup());
                push_var(&mut vars, v);
                assert(env@ =~= env0 + vars@);
                *next = *next + 1;
                j = j + 1;
            },
            None => {
                break;
            },
        }
    }
    if vars.len() == 0 {
        return Err(err_at_exec(ts, i + 1, "expected binder after '\\'"));
    }
    if !tok_is(ts, j, TokV::Symbol('.')) {
        if j < ts.len() && !tok_is(ts, j, TokV::Close(DelimKind::Paren)) {
            return Err(err_at_exec(ts, j + 1, "expected '.'"));
        }
        return Err(err_at_exec(ts, j, "expected '.'"));
    }
    let (b, end) = parse_app(ts, j + 1, env, next)?;
    assert(vars@.take(vars@.len() as int) =~= vars@);
    let mut k: usize = 0;
    while k < vars.len()
        invariant
            k <= vars.len(),
            env@ == env0 + vars@.take(vars@.len() - k),
        decreases vars.len() - k,
    {
        pop_var(env);
        assert(env@ =~= env0 + vars@.take(vars@.len() - (k + 1)));
        k = k + 1;
    }
    assert(env@ =~= env0);
    let ghost varsv = env_view(vars@);
    let ghost bv = term_view(b);
    let mut term = b;
    while vars.len() > 0
        invariant
            lambdas_view(env_view(vars@), term_view(term)) == lambdas_view(varsv, bv),
        decreases vars.len(),
    {
        let ghost before = vars@;
        let v = pop_var(&mut vars);
        assert(env_view(vars@) =~= env_view(before).drop_last());
        term = LambdaTerm::Abs(v, Box::new(term));
    }
    assert(env_view(vars@) =~= Seq::<(usize, Seq<char>)>::empty());
    Ok((term, end))
}

/// The first bracket other than a parenthesis.
fn find_bad_delim(ts: &Vec<Token>) -> (r: Option<DelimKind>)
    ensures
        r == bad_delim(toks_view(ts@), 0),
{
    let mut i: usize = 0;
    while i < ts.len()
        invariant
            i <= ts.len(),
            bad_delim(toks_view(ts@), 0) == bad_delim(toks_view(ts@), i as int),
        decreases ts.len() - i,
    {
        assert(toks_view(ts@)[i as int] == tok_view(ts@[i as int]));
        if let Token::Open(k) = &ts[i] {
            if *k != DelimKind::Paren {
                return Some(*k);
            }
        }
        i = i + 1;
    }
    None
}

fn delim_name_exec(k: DelimKind) -> (r: &'static str)
    ensures
        r@ == delim_name(k),
{
    match k {
        DelimKind::Paren => "Paren",
        DelimKind::Brace => "Brace",
        DelimKind::Bracket => "Bracket",
    }
}

/// Reads a lambda term from the whole text, the new variables given the ids
/// `first`, `first + 1`, ... in the order in which they are met; also gives
/// the next id left free.
pub fn parse_lambda_from(code: &str, first: usize) -> (r: Result<(LambdaTerm, usize), String>)
    ensures
        match parse_from_spec(code@, first as int) {
            Ok((t, n)) => r matches Ok((u, k)) && term_view(u) == t && k == n,
            Err(m) => r matches Err(e) && e@ == m,
        },
{
    let ts = lex_circuit(code)?;
    if let Some(k) = find_bad_delim(&ts) {
        let mut m = chars_of("unexpected delimiter in lambda term: ");
        push_str(&mut m, delim_name_exec(k));
        return Err(string_of(&m));
    }
    if ts.len() > usize::MAX - first {
        return Err(String::from_str("too many variables"));
    }
    let mut env: Vec<Var> = Vec::new();
    let mut next: usize = first;
    assert(env_view(env@) =~= Seq::<(usize, Seq<char>)>::empty());
    let (t, j) = parse_app(&ts, 0, &mut env, &mut next)?;
    if j < ts.len() {
        return Err(err_at_exec(&ts, j, "unexpected trailing tokens"));
    }
    Ok((t, next))
}

/// Reads a lambda term from the whole text; the new variables get the ids
/// 0, 1, 2, ... in the order in which they are met.
pub fn parse_lambda_read_to_end(code: &str) -> (r: Result<LambdaTerm, String>)
    ensures
        match parse_lambda_spec(code@) {
            Ok(t) => r matches Ok(u) && term_view(u) == t,
            Err(m) => r matches Err(e) && e@ == m,
        },
{
    match parse_lambda_from(code, 0) {
        Ok((t, _)) => Ok(t),
        Err(e) => Err(e),
    }
}

/// Reads a lambda term from the whole text.
pub fn parse_lambda(code: &str) -> (r: Result<LambdaTerm, String>)
    ensures
        match parse_lambda_spec(code@) {
            Ok(t) => r matches Ok(u) && term_view(u) == t,
            Err(m) => r matches Err(e) && e@ == m,
        },
{
    parse_lambda_read_to_end(code)
}

} // verus!

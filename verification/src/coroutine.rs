//! The coroutine language: programs of named functions whose statements
//! assign, jump, call, start tasks and yield; and the text they are shown as.
use vstd::prelude::*;

use crate::number::{decimal, decimal_chars, Number};
use crate::text::{chars_of, string_of};

verus! {

pub struct CoroutineCode(pub Program);

pub struct Program {
    pub functions: Vec<FnDecl>,
}

pub struct FnDecl {
    pub name: String,
    pub body: Vec<Stmt>,
}

pub enum Stmt {
    Assign { var: String, expr: AExp },
    IfGoto { cond: BExp, offset: isize },
    Goto { offset: isize },
    Call { name: String },
    Run { name: String, id_var: String },
    Yield,
}

pub enum AAtom {
    Var(String),
    Imm(Number),
}

#[derive(Debug, Clone, Copy, PartialEq, Eq, Structural)]
pub enum ABinOp {
    Add,
    Sub,
    Mul,
}

pub enum AExp {
    Atom(AAtom),
    Bin { lhs: Box<AExp>, op: ABinOp, rhs: Box<AExp> },
}

#[derive(Debug, Clone, Copy, PartialEq, Eq, Structural)]
pub enum RelOp {
    Eq,
    Ne,
    Lt,
}

pub enum BExp {
    Not(Box<BExp>),
    Rel { lhs: AExp, op: RelOp, rhs: AExp },
    And(Box<BExp>, Box<BExp>),
    Or(Box<BExp>, Box<BExp>),
    Done(String),
}

pub open spec fn binop_text(op: ABinOp) -> Seq<char> {
    match op {
        ABinOp::Add => "+"@,
        ABinOp::Sub => "-"@,
        ABinOp::Mul => "*"@,
    }
}

pub open spec fn relop_text(op: RelOp) -> Seq<char> {
    match op {
        RelOp::Eq => "=="@,
        RelOp::Ne => "!="@,
        RelOp::Lt => "<"@,
    }
}

/// How an arithmetic expression is written: binary operations in parentheses.
pub open spec fn aexp_text(e: AExp) -> Seq<char>
    decreases e,
{
    match e {
        AExp::Atom(AAtom::Var(name)) => name@,
        AExp::Atom(AAtom::Imm(v)) => decimal(v.value()),
        AExp::Bin { lhs, op, rhs } => "("@ + aexp_text(*lhs) + " "@ + binop_text(op) + " "@
            + aexp_text(*rhs) + ")"@,
    }
}

/// How a condition is written.
pub open spec fn bexp_text(e: BExp) -> Seq<char>
    decreases e,
{
    match e {
        BExp::Not(inner) => "!"@ + bexp_text(*inner),
        BExp::Rel { lhs, op, rhs } => aexp_text(lhs) + " "@ + relop_text(op) + " "@ + aexp_text(
            rhs,
        ),
        BExp::And(l, r) => "("@ + bexp_text(*l) + " && "@ + bexp_text(*r) + ")"@,
        BExp::Or(l, r) => "("@ + bexp_text(*l) + " || "@ + bexp_text(*r) + ")"@,
        BExp::Done(id_var) => "done $"@ + id_var@,
    }
}

/// The decimal numeral of an integer, with `-` before a negative one.
pub open spec fn signed_decimal(n: int) -> Seq<char> {
    if n >= 0 {
        decimal(n as nat)
    } else {
        "-"@ + decimal((-n) as nat)
    }
}

/// A jump offset: with an explicit `+` when it is not negative.
pub open spec fn offset_text(offset: int) -> Seq<char> {
    if offset >= 0 {
        "+"@ + decimal(offset as nat)
    } else {
        signed_decimal(offset)
    }
}

/// How a statement is written.
pub open spec fn stmt_text(s: Stmt) -> Seq<char> {
    match s {
        Stmt::Assign { var, expr } => var@ + " <- "@ + aexp_text(expr),
        Stmt::IfGoto { cond, offset } => "if "@ + bexp_text(cond) + " goto "@ + offset_text(
            offset as int,
        ),
        Stmt::Goto { offset } => "goto "@ + offset_text(offset as int),
        Stmt::Call { name } => "call "@ + name@,
        Stmt::Run { name, id_var } => "run "@ + name@ + " -> $"@ + id_var@,
        Stmt::Yield => "yield"@,
    }
}

pub fn push_all(v: &mut Vec<char>, w: &Vec<char>)
    ensures
        final(v)@ == old(v)@ + w@,
{
    let mut i: usize = 0;
    let ghost v0 = v@;
    while i < w.len()
        invariant
            0 <= i <= w.len(),
            v@ == v0 + w@.subrange(0, i as int),
        decreases w.len() - i,
    {
        v.push(w[i]);
        i += 1;
    }
    assert(w@.subrange(0, w.len() as int) =~= w@);
}

pub fn push_str(v: &mut Vec<char>, s: &str)
    ensures
        final(v)@ == old(v)@ + s@,
{
    push_all(v, &chars_of(s));
}

/// The decimal numeral of a signed integer.
pub fn signed_decimal_chars(n: isize) -> (v: Vec<char>)
    ensures
        v@ == signed_decimal(n as int),
{
    if n >= 0 {
        decimal_chars(n as usize)
    } else {
        let m: usize = if n == isize::MIN {
            (isize::MAX as usize) + 1
        } else {
            (-n) as usize
        };
        let mut v = chars_of("-");
        let d = decimal_chars(m);
        push_all(&mut v, &d);
        v
    }
}

/// The text of a jump offset, as `fmt_offset` writes it.
pub fn fmt_offset(offset: isize) -> (s: String)
    ensures
        s@ == offset_text(offset as int),
{
    string_of(&offset_chars(offset))
}

pub fn offset_chars(offset: isize) -> (v: Vec<char>)
    ensures
        v@ == offset_text(offset as int),
{
    if offset >= 0 {
        let mut v = chars_of("+");
        let d = decimal_chars(offset as usize);
        push_all(&mut v, &d);
        v
    } else {
        signed_decimal_chars(offset)
    }
}

pub fn aexp_chars(e: &AExp) -> (v: Vec<char>)
    ensures
        v@ == aexp_text(*e),
    decreases e,
{
    match e {
        AExp::Atom(AAtom::Var(name)) => chars_of(name.as_str()),
        AExp::Atom(AAtom::Imm(value)) => value.to_decimal(),
        AExp::Bin { lhs, op, rhs } => {
            let mut v = chars_of("(");
            push_all(&mut v, &aexp_chars(lhs));
            push_str(&mut v, " ");
            match op {
                ABinOp::Add => push_str(&mut v, "+"),
                ABinOp::Sub => push_str(&mut v, "-"),
                ABinOp::Mul => push_str(&mut v, "*"),
            }
            push_str(&mut v, " ");
            push_all(&mut v, &aexp_chars(rhs));
            push_str(&mut v, ")");
            v
        },
    }
}

pub fn bexp_chars(e: &BExp) -> (v: Vec<char>)
    ensures
        v@ == bexp_text(*e),
    decreases e,
{
    match e {
        BExp::Not(inner) => {
            let mut v = chars_of("!");
            push_all(&mut v, &bexp_chars(inner));
            v
        },
        BExp::Rel { lhs, op, rhs } => {
            let mut v = aexp_chars(lhs);
            push_str(&mut v, " ");
            match op {
                RelOp::Eq => push_str(&mut v, "=="),
                RelOp::Ne => push_str(&mut v, "!="),
                RelOp::Lt => push_str(&mut v, "<"),
            }
            push_str(&mut v, " ");
            push_all(&mut v, &aexp_chars(rhs));
            v
        },
        BExp::And(l, r) => {
            let mut v = chars_of("(");
            push_all(&mut v, &bexp_chars(l));
            push_str(&mut v, " && ");
            push_all(&mut v, &bexp_chars(r));
            push_str(&mut v, ")");
            v
        },
        BExp::Or(l, r) => {
            let mut v = chars_of("(");
            push_all(&mut v, &bexp_chars(l));
            push_str(&mut v, " || ");
            push_all(&mut v, &bexp_chars(r));
            push_str(&mut v, ")");
            v
        },
        BExp::Done(id_var) => {
            let mut v = chars_of("done $");
            push_str(&mut v, id_var.as_str());
            v
        },
    }
}

pub fn stmt_chars(s: &Stmt) -> (v: Vec<char>)
    ensures
        v@ == stmt_text(*s),
{
    match s {
        Stmt::Assign { var, expr } => {
            let mut v = chars_of(var.as_str());
            push_str(&mut v, " <- ");
            push_all(&mut v, &aexp_chars(expr));
            v
        },
        Stmt::IfGoto { cond, offset } => {
            let mut v = chars_of("if ");
            push_all(&mut v, &bexp_chars(cond));
            push_str(&mut v, " goto ");
            push_all(&mut v, &offset_chars(*offset));
            v
        },
        Stmt::Goto { offset } => {
            let mut v = chars_of("goto ");
            push_all(&mut v, &offset_chars(*offset));
            v
        },
        Stmt::Call { name } => {
            let mut v = chars_of("call ");
            push_str(&mut v, name.as_str());
            v
        },
        Stmt::Run { name, id_var } => {
            let mut v = chars_of("run ");
            push_str(&mut v, name.as_str());
            push_str(&mut v, " -> $");
            push_str(&mut v, id_var.as_str());
            v
        },
        Stmt::Yield => chars_of("yield"),
    }
}

/// The text of a statement.
pub fn stmt_to_text(s: &Stmt) -> (r: String)
    ensures
        r@ == stmt_text(*s),
{
    string_of(&stmt_chars(s))
}

/// The text of an arithmetic expression.
pub fn aexp_to_text(e: &AExp) -> (r: String)
    ensures
        r@ == aexp_text(*e),
{
    string_of(&aexp_chars(e))
}

/// The text of a condition.
pub fn bexp_to_text(e: &BExp) -> (r: String)
    ensures
        r@ == bexp_text(*e),
{
    string_of(&bexp_chars(e))
}

} // verus!

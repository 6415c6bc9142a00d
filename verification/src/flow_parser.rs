//! Reading flow IR code: the grammar over the tokens of the text, and the
//! parser that follows it.
use vstd::prelude::*;

use crate::circuit_lexer::{lex_at, lex_chars, tok_view, toks_view, DelimKind, TokV, Token};
use crate::flow_ir::{
    BinOp, Block, Cond, Cont, FlowIrCode, JumpIf, PlaceExpr, Program, Region, StaticDef, Stmt, ValueExpr,
};
use crate::flow_text::{
    BlockV, CondV, ContV, PExprV, ProgramV, RegionV, StmtV, VExprV, block_view, blocks_view, cond_view, cont_view,
    jump_view, jumps_view, pexpr_view, program_view, region_view, static_view, stmt_view, stmts_view, vexpr_view,
};
use crate::number::{decimal_error_message, decimal_error_text, parse_decimal, Number};
use crate::coroutine::{push_all, push_str};
use crate::text::{chars_of, string_of};

verus! {

// ---------------------------------------------------------------------
// Tokens
// ---------------------------------------------------------------------

/// The character of a symbol or bracket token.
pub open spec fn tok_sym(t: TokV) -> Option<char> {
    match t {
        TokV::Symbol(c) => Some(c),
        TokV::Open(DelimKind::Paren) => Some('('),
        TokV::Open(DelimKind::Brace) => Some('{'),
        TokV::Open(DelimKind::Bracket) => Some('['),
        TokV::Close(DelimKind::Paren) => Some(')'),
        TokV::Close(DelimKind::Brace) => Some('}'),
        TokV::Close(DelimKind::Bracket) => Some(']'),
        _ => None,
    }
}

pub open spec fn sym_at(ts: Seq<TokV>, i: int, c: char) -> bool {
    0 <= i < ts.len() && tok_sym(ts[i]) == Some(c)
}

pub open spec fn word_at(ts: Seq<TokV>, i: int, w: Seq<char>) -> bool {
    0 <= i < ts.len() && ts[i] == TokV::Ident(w)
}

/// How a token is shown in a message.
pub open spec fn tok_debug(t: TokV) -> Seq<char> {
    match t {
        TokV::Ident(s) => "Ident(\""@ + s + "\")"@,
        TokV::Number(s) => "Number(\""@ + s + "\")"@,
        _ => "Symbol('"@ + seq![tok_sym(t)->0] + "')"@,
    }
}

/// A message about the token at `i`, or about the end of the input.
pub open spec fn error_here(ts: Seq<TokV>, i: int, m: Seq<char>) -> Seq<char> {
    if 0 <= i < ts.len() {
        m + " near "@ + tok_debug(ts[i])
    } else {
        m + " at end of input"@
    }
}

/// The position after taking the token at `i`, if there is one.
pub open spec fn after(ts: Seq<TokV>, i: int) -> int {
    if i < ts.len() {
        i + 1
    } else {
        i
    }
}

pub open spec fn expect_sym(ts: Seq<TokV>, i: int, c: char) -> Result<int, Seq<char>> {
    if sym_at(ts, i, c) {
        Ok(i + 1)
    } else {
        Err(error_here(ts, i, "expected symbol '"@ + seq![c] + "'"@))
    }
}

pub open spec fn expect_word(ts: Seq<TokV>, i: int, w: Seq<char>) -> Result<int, Seq<char>> {
    if word_at(ts, i, w) {
        Ok(i + 1)
    } else {
        Err(error_here(ts, i, "expected keyword '"@ + w + "'"@))
    }
}

/// A name: a word or a number.
pub open spec fn p_name(ts: Seq<TokV>, i: int, kind: Seq<char>) -> Result<(Seq<char>, int), Seq<char>> {
    if 0 <= i < ts.len() && ts[i] is Ident {
        Ok((ts[i]->Ident_0, i + 1))
    } else if 0 <= i < ts.len() && ts[i] is Number {
        Ok((ts[i]->Number_0, i + 1))
    } else {
        Err(error_here(ts, after(ts, i), "expected "@ + kind))
    }
}

pub open spec fn p_number(ts: Seq<TokV>, i: int) -> Result<(nat, int), Seq<char>> {
    if 0 <= i < ts.len() && ts[i] is Number {
        match parse_decimal(ts[i]->Number_0) {
            Ok(n) => Ok((n, i + 1)),
            Err(e) => Err(decimal_error_message(e)),
        }
    } else {
        Err(error_here(ts, after(ts, i), "expected number literal"@))
    }
}

pub open spec fn p_vreg(ts: Seq<TokV>, i: int) -> Result<(Seq<char>, int), Seq<char>> {
    match expect_sym(ts, i, '%') {
        Ok(j) => p_name(ts, j, "virtual register"@),
        Err(m) => Err(m),
    }
}

// ---------------------------------------------------------------------
// Grammar
// ---------------------------------------------------------------------

/// A value expression from `i`.
pub open spec fn p_value(ts: Seq<TokV>, i: int) -> Result<(VExprV, int), Seq<char>>
    decreases ts.len() - i,
{
    if word_at(ts, i, "ref"@) {
        match p_place(ts, i + 1) {
            Ok((p, j)) => Ok((VExprV::Ref(Box::new(p)), j)),
            Err(m) => Err(m),
        }
    } else if sym_at(ts, i, '%') {
        match p_vreg(ts, i) {
            Ok((x, j)) => Ok((VExprV::VReg(x), j)),
            Err(m) => Err(m),
        }
    } else if sym_at(ts, i, ':') {
        match p_name(ts, i + 1, "code label"@) {
            Ok((l, j)) => Ok((VExprV::CodeLabel(l), j)),
            Err(m) => Err(m),
        }
    } else if sym_at(ts, i, '#') {
        match p_number(ts, i + 1) {
            Ok((n, j)) => Ok((VExprV::Imm(n), j)),
            Err(m) => Err(m),
        }
    } else if 0 <= i < ts.len() && ts[i] is Number {
        match p_number(ts, i) {
            Ok((n, j)) => Ok((VExprV::Imm(n), j)),
            Err(m) => Err(m),
        }
    } else {
        Err(error_here(ts, i, "expected value expression"@))
    }
}

/// A place expression from `i`.
pub open spec fn p_place(ts: Seq<TokV>, i: int) -> Result<(PExprV, int), Seq<char>>
    decreases ts.len() - i,
{
    if sym_at(ts, i, '@') {
        match p_name(ts, i + 1, "data label"@) {
            Ok((l, j)) => Ok((PExprV::Label(l), j)),
            Err(m) => Err(m),
        }
    } else if word_at(ts, i, "deref"@) {
        match p_vreg(ts, i + 1) {
            Ok((x, j)) => Ok((PExprV::Deref(x), j)),
            Err(m) => Err(m),
        }
    } else if word_at(ts, i, "sacc"@) {
        match p_value(ts, i + 1) {
            Ok((v, j)) => Ok((PExprV::SAcc(Box::new(v)), j)),
            Err(m) => Err(m),
        }
    } else if word_at(ts, i, "hacc"@) {
        match expect_sym(ts, i + 1, '(') {
            Err(m) => Err(m),
            Ok(j1) => match p_value(ts, j1) {
                Err(m) => Err(m),
                Ok((h, j)) => if j <= i {
                    Err(seq![])
                } else {
                    match expect_sym(ts, j, ')') {
                        Err(m) => Err(m),
                        Ok(j3) => match expect_sym(ts, j3, '[') {
                            Err(m) => Err(m),
                            Ok(j4) => match p_value(ts, j4) {
                                Err(m) => Err(m),
                                Ok((x, k)) => match expect_sym(ts, k, ']') {
                                    Err(m) => Err(m),
                                    Ok(k2) => Ok((PExprV::HAcc(Box::new(h), Box::new(x)), k2)),
                                },
                            },
                        },
                    }
                },
            },
        }
    } else {
        Err(error_here(ts, i, "expected place expression"@))
    }
}

pub proof fn lemma_value_progress(ts: Seq<TokV>, i: int)
    requires
        0 <= i <= ts.len(),
    ensures
        p_value(ts, i) matches Ok((_, j)) ==> i < j <= ts.len(),
        p_place(ts, i) matches Ok((_, j)) ==> i < j <= ts.len(),
    decreases ts.len() - i,
{
    if word_at(ts, i, "ref"@) {
        lemma_value_progress(ts, i + 1);
    }
    if word_at(ts, i, "sacc"@) {
        lemma_value_progress(ts, i + 1);
    }
    if word_at(ts, i, "hacc"@) && sym_at(ts, i + 1, '(') {
        lemma_value_progress(ts, i + 2);
        if let Ok((_, j)) = p_value(ts, i + 2) {
            if sym_at(ts, j, ')') && sym_at(ts, j + 1, '[') {
                lemma_value_progress(ts, j + 2);
            }
        }
    }
}

/// A comparison between two value expressions.
pub open spec fn p_cond(ts: Seq<TokV>, i: int) -> Result<(CondV, int), Seq<char>> {
    match p_value(ts, i) {
        Err(m) => Err(m),
        Ok((l, j)) => if sym_at(ts, j, '<') {
            match p_value(ts, j + 1) {
                Ok((r, k)) => Ok((CondV::Lt(l, r), k)),
                Err(m) => Err(m),
            }
        } else if sym_at(ts, j, '=') {
            match p_value(ts, j + 1) {
                Ok((r, k)) => Ok((CondV::Eq(l, r), k)),
                Err(m) => Err(m),
            }
        } else if sym_at(ts, j, '>') {
            match p_value(ts, j + 1) {
                Ok((r, k)) => Ok((CondV::Gt(l, r), k)),
                Err(m) => Err(m),
            }
        } else {
            Err(error_here(ts, j, "expected relation operator"@))
        },
    }
}

/// A statement that ends with `;` at `j`.
pub open spec fn end_stmt(ts: Seq<TokV>, s: StmtV, j: int) -> Result<(StmtV, int), Seq<char>> {
    match expect_sym(ts, j, ';') {
        Ok(k) => Ok((s, k)),
        Err(m) => Err(m),
    }
}

/// `%dst := ...` after the register, from `j` (the `:`).
pub open spec fn p_reg_stmt(ts: Seq<TokV>, dst: Seq<char>, j: int) -> Result<(StmtV, int), Seq<char>> {
    match expect_sym(ts, j, ':') {
        Err(m) => Err(m),
        Ok(j1) => match expect_sym(ts, j1, '=') {
            Err(m) => Err(m),
            Ok(j2) => if word_at(ts, j2, "ld"@) {
                match p_place(ts, j2 + 1) {
                    Ok((p, k)) => end_stmt(ts, StmtV::Load(dst, p), k),
                    Err(m) => Err(m),
                }
            } else {
                p_assign_tail(ts, dst, j2)
            },
        },
    }
}

/// `lhs`, `lhs + rhs` or `lhs - rhs`, then `;`, from `j`.
pub open spec fn p_assign_tail(ts: Seq<TokV>, dst: Seq<char>, j: int) -> Result<(StmtV, int), Seq<char>> {
    match p_value(ts, j) {
        Err(m) => Err(m),
        Ok((l, k)) => if sym_at(ts, k, '+') {
            match p_value(ts, k + 1) {
                Ok((r, k2)) => end_stmt(ts, StmtV::BinOp(dst, l, BinOp::Add, r), k2),
                Err(m) => Err(m),
            }
        } else if sym_at(ts, k, '-') {
            match p_value(ts, k + 1) {
                Ok((r, k2)) => end_stmt(ts, StmtV::BinOp(dst, l, BinOp::Sub, r), k2),
                Err(m) => Err(m),
            }
        } else {
            end_stmt(ts, StmtV::Assign(dst, l), k)
        },
    }
}

/// `place := st value;` from `i`.
pub open spec fn p_store(ts: Seq<TokV>, i: int) -> Result<(StmtV, int), Seq<char>> {
    match p_place(ts, i) {
        Err(m) => Err(m),
        Ok((p, j)) => match expect_sym(ts, j, ':') {
            Err(m) => Err(m),
            Ok(j1) => match expect_sym(ts, j1, '=') {
                Err(m) => Err(m),
                Ok(j2) => match expect_word(ts, j2, "st"@) {
                    Err(m) => Err(m),
                    Ok(j3) => match p_value(ts, j3) {
                        Ok((v, k)) => end_stmt(ts, StmtV::Store(p, v), k),
                        Err(m) => Err(m),
                    },
                },
            },
        },
    }
}

/// `halloc(size) %dst;` after the keyword, from `i`.
pub open spec fn p_halloc(ts: Seq<TokV>, i: int) -> Result<(StmtV, int), Seq<char>> {
    match expect_sym(ts, i, '(') {
        Err(m) => Err(m),
        Ok(j1) => match p_value(ts, j1) {
            Err(m) => Err(m),
            Ok((v, j)) => match expect_sym(ts, j, ')') {
                Err(m) => Err(m),
                Ok(j2) => match p_vreg(ts, j2) {
                    Ok((x, k)) => end_stmt(ts, StmtV::HAlloc(v, x), k),
                    Err(m) => Err(m),
                },
            },
        },
    }
}

/// A statement from `i`.
#[verifier::opaque]
pub open spec fn p_stmt(ts: Seq<TokV>, i: int) -> Result<(StmtV, int), Seq<char>> {
    if word_at(ts, i, "nop"@) {
        end_stmt(ts, StmtV::Nop, i + 1)
    } else if word_at(ts, i, "pop"@) {
        match p_vreg(ts, i + 1) {
            Ok((x, j)) => end_stmt(ts, StmtV::Pop(x), j),
            Err(m) => Err(m),
        }
    } else if word_at(ts, i, "push"@) {
        match p_value(ts, i + 1) {
            Ok((v, j)) => end_stmt(ts, StmtV::Push(v), j),
            Err(m) => Err(m),
        }
    } else if word_at(ts, i, "lget"@) {
        match p_vreg(ts, i + 1) {
            Ok((x, j)) => end_stmt(ts, StmtV::LGet(x), j),
            Err(m) => Err(m),
        }
    } else if word_at(ts, i, "halloc"@) {
        p_halloc(ts, i + 1)
    } else if word_at(ts, i, "hfree"@) {
        match p_value(ts, i + 1) {
            Ok((v, j)) => end_stmt(ts, StmtV::HFree(v), j),
            Err(m) => Err(m),
        }
    } else if word_at(ts, i, "print"@) {
        match p_vreg(ts, i + 1) {
            Ok((x, j)) => end_stmt(ts, StmtV::Print(x), j),
            Err(m) => Err(m),
        }
    } else if word_at(ts, i, "input"@) {
        match p_place(ts, i + 1) {
            Ok((p, j)) => end_stmt(ts, StmtV::Input(p), j),
            Err(m) => Err(m),
        }
    } else if sym_at(ts, i, '%') {
        match p_vreg(ts, i) {
            Ok((x, j)) => p_reg_stmt(ts, x, j),
            Err(m) => Err(m),
        }
    } else {
        p_store(ts, i)
    }
}

/// `if cond then target;` from `i`.
#[verifier::opaque]
pub open spec fn p_jump_if(ts: Seq<TokV>, i: int) -> Result<((CondV, VExprV), int), Seq<char>> {
    match expect_word(ts, i, "if"@) {
        Err(m) => Err(m),
        Ok(i1) => match p_cond(ts, i1) {
            Err(m) => Err(m),
            Ok((c, j)) => match expect_word(ts, j, "then"@) {
                Err(m) => Err(m),
                Ok(j1) => match p_value(ts, j1) {
                    Err(m) => Err(m),
                    Ok((t, k)) => match expect_sym(ts, k, ';') {
                        Err(m) => Err(m),
                        Ok(k2) => Ok(((c, t), k2)),
                    },
                },
            },
        },
    }
}

pub open spec fn cont_start(ts: Seq<TokV>, i: int) -> bool {
    word_at(ts, i, "goto"@) || word_at(ts, i, "enter"@) || word_at(ts, i, "halt"@)
}

/// A block ending from `i`, with the conditional jumps read so far.
#[verifier::opaque]
pub open spec fn p_cont(ts: Seq<TokV>, i: int, ifs: Seq<(CondV, VExprV)>) -> Result<(ContV, int), Seq<char>> {
    if word_at(ts, i, "goto"@) {
        match p_value(ts, i + 1) {
            Err(m) => Err(m),
            Ok((t, j)) => match expect_sym(ts, j, ';') {
                Ok(k) => Ok((ContV::Go(ifs, t), k)),
                Err(m) => Err(m),
            },
        }
    } else if word_at(ts, i, "enter"@) {
        match p_value(ts, i + 1) {
            Err(m) => Err(m),
            Ok((t, j)) => match expect_sym(ts, j, ';') {
                Ok(k) => Ok((ContV::Enter(ifs, t), k)),
                Err(m) => Err(m),
            },
        }
    } else if word_at(ts, i, "halt"@) {
        match expect_sym(ts, i + 1, ';') {
            Ok(k) => Ok((ContV::Halt(ifs), k)),
            Err(m) => Err(m),
        }
    } else {
        Err(error_here(ts, i, "expected block terminator"@))
    }
}

/// The lines of a block from `i` up to its `}`: statements, conditional
/// jumps and one ending, with what was read so far.
pub open spec fn block_items(
    ts: Seq<TokV>,
    i: int,
    label: Seq<char>,
    stmts: Seq<StmtV>,
    ifs: Seq<(CondV, VExprV)>,
    cont: Option<ContV>,
) -> Result<(Seq<StmtV>, Option<ContV>, int), Seq<char>>
    decreases ts.len() - i,
{
    if i < 0 || i > ts.len() {
        Err(seq![])
    } else if sym_at(ts, i, '}') {
        Ok((stmts, cont, i))
    } else if word_at(ts, i, "if"@) {
        match p_jump_if(ts, i) {
            Err(m) => Err(m),
            Ok((j, k)) => if k <= i || k > ts.len() {
                Err(seq![])
            } else {
                block_items(ts, k, label, stmts, ifs.push(j), cont)
            },
        }
    } else if cont is None && cont_start(ts, i) {
        match p_cont(ts, i, ifs) {
            Err(m) => Err(m),
            Ok((c, k)) => if k <= i || k > ts.len() {
                Err(seq![])
            } else {
                block_items(ts, k, label, stmts, ifs, Some(c))
            },
        }
    } else if cont is Some {
        Err("Line exists after terminator in block :"@ + label)
    } else {
        match p_stmt(ts, i) {
            Err(m) => Err(m),
            Ok((s, k)) => if k <= i || k > ts.len() {
                Err(seq![])
            } else {
                block_items(ts, k, label, stmts.push(s), ifs, cont)
            },
        }
    }
}

/// A block from `i`.
#[verifier::opaque]
pub open spec fn p_block(ts: Seq<TokV>, i: int) -> Result<(BlockV, int), Seq<char>> {
    match expect_sym(ts, i, ':') {
        Err(m) => Err(m),
        Ok(j0) => match p_name(ts, j0, "block label"@) {
            Err(m) => Err(m),
            Ok((label, j)) => match expect_sym(ts, j, '{') {
                Err(m) => Err(m),
                Ok(j2) => block_finish(ts, label, block_items(ts, j2, label, seq![], seq![], None)),
            },
        },
    }
}

/// The block that its lines give, once its `}` is read.
pub open spec fn block_finish(
    ts: Seq<TokV>,
    label: Seq<char>,
    items: Result<(Seq<StmtV>, Option<ContV>, int), Seq<char>>,
) -> Result<(BlockV, int), Seq<char>> {
    match items {
        Err(m) => Err(m),
        Ok((stmts, cont, k)) => match expect_sym(ts, k, '}') {
            Err(m) => Err(m),
            Ok(k2) => match cont {
                None => Err("Missing terminator in block :"@ + label),
                Some(c) => Ok((BlockV { label, stmts, cont: c }, k2)),
            },
        },
    }
}

/// The blocks of a region from `i` up to its `}`.
pub open spec fn region_blocks(ts: Seq<TokV>, i: int, blocks: Seq<BlockV>) -> Result<(Seq<BlockV>, int), Seq<char>>
    decreases ts.len() - i,
{
    if i < 0 || i > ts.len() {
        Err(seq![])
    } else if sym_at(ts, i, '}') {
        Ok((blocks, i))
    } else {
        match p_block(ts, i) {
            Err(m) => Err(m),
            Ok((b, k)) => if k <= i || k > ts.len() {
                Err(seq![])
            } else {
                region_blocks(ts, k, blocks.push(b))
            },
        }
    }
}

/// A region from `i`.
pub open spec fn p_region(ts: Seq<TokV>, i: int) -> Result<(RegionV, int), Seq<char>> {
    match expect_sym(ts, i, ':') {
        Err(m) => Err(m),
        Ok(j0) => match p_name(ts, j0, "region label"@) {
            Err(m) => Err(m),
            Ok((label, j)) => match expect_sym(ts, j, '{') {
                Err(m) => Err(m),
                Ok(j2) => region_finish(ts, label, region_blocks(ts, j2, seq![])),
            },
        },
    }
}

/// The region that its blocks give, once its `}` is read.
pub open spec fn region_finish(
    ts: Seq<TokV>,
    label: Seq<char>,
    blocks: Result<(Seq<BlockV>, int), Seq<char>>,
) -> Result<(RegionV, int), Seq<char>> {
    match blocks {
        Err(m) => Err(m),
        Ok((blocks, k)) => match expect_sym(ts, k, '}') {
            Err(m) => Err(m),
            Ok(k2) => if blocks.len() == 0 {
                Err("Region :"@ + label + " has no blocks"@)
            } else {
                Ok((RegionV { label, blocks }, k2))
            },
        },
    }
}

/// `@label value` from `i`.
pub open spec fn p_static(ts: Seq<TokV>, i: int) -> Result<((Seq<char>, nat), int), Seq<char>> {
    match expect_sym(ts, i, '@') {
        Err(m) => Err(m),
        Ok(j0) => match p_name(ts, j0, "static label"@) {
            Err(m) => Err(m),
            Ok((label, j)) => match p_number(ts, j) {
                Err(m) => Err(m),
                Ok((n, k)) => Ok(((label, n), k)),
            },
        },
    }
}

/// The static definitions and regions from `i` to the end.
pub open spec fn program_items(
    ts: Seq<TokV>,
    i: int,
    statics: Seq<(Seq<char>, nat)>,
    regions: Seq<RegionV>,
) -> Result<ProgramV, Seq<char>>
    decreases ts.len() - i,
{
    if i < 0 || i >= ts.len() {
        Ok(ProgramV { statics, regions })
    } else if sym_at(ts, i, '@') {
        match p_static(ts, i) {
            Err(m) => Err(m),
            Ok((s, k)) => if k <= i {
                Err(seq![])
            } else {
                program_items(ts, k, statics.push(s), regions)
            },
        }
    } else if sym_at(ts, i, ':') {
        match p_region(ts, i) {
            Err(m) => Err(m),
            Ok((r, k)) => if k <= i {
                Err(seq![])
            } else {
                program_items(ts, k, statics, regions.push(r))
            },
        }
    } else {
        Err(error_here(ts, i, "expected static definition or region header"@))
    }
}

/// The program that a text denotes.
pub open spec fn program_spec(text: Seq<char>) -> Result<ProgramV, Seq<char>> {
    match lex_at(text, 0) {
        Err(m) => Err(m),
        Ok(ts) => program_items(ts, 0, seq![], seq![]),
    }
}


pub proof fn lemma_cond_progress(ts: Seq<TokV>, i: int)
    requires
        0 <= i <= ts.len(),
    ensures
        p_cond(ts, i) matches Ok((_, j)) ==> i < j <= ts.len(),
{
    lemma_value_progress(ts, i);
    if let Ok((_, j)) = p_value(ts, i) {
        if j < ts.len() {
            lemma_value_progress(ts, j + 1);
        }
    }
}

pub proof fn lemma_reg_stmt_progress(ts: Seq<TokV>, dst: Seq<char>, j: int)
    requires
        0 <= j <= ts.len(),
    ensures
        p_reg_stmt(ts, dst, j) matches Ok((_, k)) ==> j < k <= ts.len(),
{
    if j + 3 <= ts.len() {
        lemma_value_progress(ts, j + 3);
    }
    if j + 2 <= ts.len() {
        lemma_value_progress(ts, j + 2);
        if let Ok((_, k)) = p_value(ts, j + 2) {
            if k + 1 <= ts.len() {
                lemma_value_progress(ts, k + 1);
            }
        }
    }
}

pub proof fn lemma_stmt_progress(ts: Seq<TokV>, i: int)
    requires
        0 <= i <= ts.len(),
    ensures
        p_stmt(ts, i) matches Ok((_, j)) ==> i < j <= ts.len(),
{
    reveal(p_stmt);
    lemma_value_progress(ts, i);
    if i < ts.len() {
        lemma_value_progress(ts, i + 1);
    }
    if i + 2 <= ts.len() {
        lemma_value_progress(ts, i + 2);
    }
    if let Ok((x, j)) = p_vreg(ts, i) {
        if j <= ts.len() {
            lemma_reg_stmt_progress(ts, x, j);
        }
    }
    if let Ok((_, j)) = p_place(ts, i) {
        if j + 3 <= ts.len() {
            lemma_value_progress(ts, j + 3);
        }
    }
}

pub proof fn lemma_jump_progress(ts: Seq<TokV>, i: int)
    requires
        0 <= i <= ts.len(),
    ensures
        p_jump_if(ts, i) matches Ok((_, j)) ==> i < j <= ts.len(),
        forall|ifs: Seq<(CondV, VExprV)>| #[trigger] p_cont(ts, i, ifs) matches Ok((_, j)) ==> i < j <= ts.len(),
{
    reveal(p_jump_if);
    reveal(p_cont);
    if i < ts.len() {
        lemma_value_progress(ts, i + 1);
        lemma_cond_progress(ts, i + 1);
        if let Ok((_, j)) = p_cond(ts, i + 1) {
            if j + 1 <= ts.len() {
                lemma_value_progress(ts, j + 1);
            }
        }
    }
}

pub proof fn lemma_block_items(
    ts: Seq<TokV>,
    i: int,
    label: Seq<char>,
    stmts: Seq<StmtV>,
    ifs: Seq<(CondV, VExprV)>,
    cont: Option<ContV>,
)
    ensures
        block_items(ts, i, label, stmts, ifs, cont) matches Ok((_, _, k)) ==> i <= k && sym_at(ts, k, '}'),
    decreases ts.len() - i,
{
    if 0 <= i <= ts.len() && !sym_at(ts, i, '}') {
        if word_at(ts, i, "if"@) {
            if let Ok((j, k)) = p_jump_if(ts, i) {
                if i < k <= ts.len() {
                    lemma_block_items(ts, k, label, stmts, ifs.push(j), cont);
                }
            }
        } else if cont is None && cont_start(ts, i) {
            if let Ok((c, k)) = p_cont(ts, i, ifs) {
                if i < k <= ts.len() {
                    lemma_block_items(ts, k, label, stmts, ifs, Some(c));
                }
            }
        } else if cont is None {
            if let Ok((st, k)) = p_stmt(ts, i) {
                if i < k <= ts.len() {
                    lemma_block_items(ts, k, label, stmts.push(st), ifs, cont);
                }
            }
        }
    }
}

pub proof fn lemma_region_blocks(ts: Seq<TokV>, i: int, blocks: Seq<BlockV>)
    ensures
        region_blocks(ts, i, blocks) matches Ok((_, k)) ==> i <= k && sym_at(ts, k, '}'),
    decreases ts.len() - i,
{
    if 0 <= i <= ts.len() && !sym_at(ts, i, '}') {
        if let Ok((b, k)) = p_block(ts, i) {
            if i < k <= ts.len() {
                lemma_region_blocks(ts, k, blocks.push(b));
            }
        }
    }
}

pub proof fn lemma_block_progress(ts: Seq<TokV>, i: int)
    requires
        0 <= i <= ts.len(),
    ensures
        p_block(ts, i) matches Ok((_, j)) ==> i < j <= ts.len(),
        p_region(ts, i) matches Ok((_, j)) ==> i < j <= ts.len(),
        p_static(ts, i) matches Ok((_, j)) ==> i < j <= ts.len(),
{
    reveal(p_block);
    if let Ok(j0) = expect_sym(ts, i, ':') {
        if let Ok((label, j)) = p_name(ts, j0, "block label"@) {
            if let Ok(j2) = expect_sym(ts, j, '{') {
                lemma_block_items(ts, j2, label, seq![], seq![], None);
            }
        }
        if let Ok((label, j)) = p_name(ts, j0, "region label"@) {
            if let Ok(j2) = expect_sym(ts, j, '{') {
                lemma_region_blocks(ts, j2, seq![]);
            }
        }
    }
}


// ---------------------------------------------------------------------
// The parser
// ---------------------------------------------------------------------

fn tok_sym_exec(t: &Token) -> (r: Option<char>)
    ensures
        r == tok_sym(tok_view(*t)),
{
    match t {
        Token::Symbol(c) => Some(*c),
        Token::Open(DelimKind::Paren) => Some('('),
        Token::Open(DelimKind::Brace) => Some('{'),
        Token::Open(DelimKind::Bracket) => Some('['),
        Token::Close(DelimKind::Paren) => Some(')'),
        Token::Close(DelimKind::Brace) => Some('}'),
        Token::Close(DelimKind::Bracket) => Some(']'),
        _ => None,
    }
}

pub(crate) fn tok_debug_exec(t: &Token) -> (r: Vec<char>)
    ensures
        r@ == tok_debug(tok_view(*t)),
{
    match t {
        Token::Ident(s) => {
            let mut r = chars_of("Ident(\"");
            push_all(&mut r, s);
            push_str(&mut r, "\")");
            r
        },
        Token::Number(s) => {
            let mut r = chars_of("Number(\"");
            push_all(&mut r, s);
            push_str(&mut r, "\")");
            r
        },
        _ => {
            let c = match tok_sym_exec(t) {
                Some(c) => c,
                None => ' ',
            };
            let mut r = chars_of("Symbol('");
            r.push(c);
            push_str(&mut r, "')");
            r
        },
    }
}

fn message_of(prefix: &str, rest: &Vec<char>, suffix: &str) -> (r: Vec<char>)
    ensures
        r@ == prefix@ + rest@ + suffix@,
{
    let mut r = chars_of(prefix);
    push_all(&mut r, rest);
    push_str(&mut r, suffix);
    r
}

/// Reads flow IR code from its tokens.
pub struct Parser {
    pub tokens: Vec<Token>,
}

impl Parser {
    pub open spec fn toks(self) -> Seq<TokV> {
        toks_view(self.tokens@)
    }

    pub fn new(tokens: Vec<Token>) -> (p: Parser)
        ensures
            p.tokens@ == tokens@,
    {
        Parser { tokens }
    }

    pub fn is_eof(&self, i: usize) -> (r: bool)
        ensures
            r == (i >= self.toks().len()),
    {
        i >= self.tokens.len()
    }

    pub(crate) fn is_sym(&self, i: usize, c: char) -> (r: bool)
        ensures
            r == sym_at(self.toks(), i as int, c),
            r ==> i < self.tokens@.len(),
    {
        i < self.tokens.len() && tok_sym_exec(&self.tokens[i]) == Some(c)
    }

    pub(crate) fn is_word(&self, i: usize, w: &str) -> (r: bool)
        ensures
            r == word_at(self.toks(), i as int, w@),
            r ==> i < self.tokens@.len(),
    {
        if i < self.tokens.len() {
            match &self.tokens[i] {
                Token::Ident(s) => crate::text::chars_equal(s, &chars_of(w)),
                _ => false,
            }
        } else {
            false
        }
    }

    pub(crate) fn error_here(&self, i: usize, m: Vec<char>) -> (r: String)
        ensures
            r@ == error_here(self.toks(), i as int, m@),
    {
        let mut t = m;
        if i < self.tokens.len() {
            push_str(&mut t, " near ");
            push_all(&mut t, &tok_debug_exec(&self.tokens[i]));
        } else {
            push_str(&mut t, " at end of input");
        }
        string_of(&t)
    }

    pub(crate) fn expect_sym(&self, i: usize, c: char) -> (r: Result<usize, String>)
        ensures
            match expect_sym(self.toks(), i as int, c) {
                Ok(j) => r matches Ok(k) && k == j,
                Err(m) => r matches Err(e) && e@ == m,
            },
    {
        if self.is_sym(i, c) {
            assert(i < self.tokens.len());
            Ok(i + 1)
        } else {
            let mut m = chars_of("expected symbol '");
            m.push(c);
            push_str(&mut m, "'");
            proof {
                assert(m@ =~= "expected symbol '"@ + seq![c] + "'"@);
            }
            Err(self.error_here(i, m))
        }
    }

    fn expect_word(&self, i: usize, w: &str) -> (r: Result<usize, String>)
        ensures
            match expect_word(self.toks(), i as int, w@) {
                Ok(j) => r matches Ok(k) && k == j,
                Err(m) => r matches Err(e) && e@ == m,
            },
    {
        if self.is_word(i, w) {
            assert(i < self.tokens.len());
            Ok(i + 1)
        } else {
            Err(self.error_here(i, message_of("expected keyword '", &chars_of(w), "'")))
        }
    }

    fn parse_name(&self, i: usize, kind: &str) -> (r: Result<(String, usize), String>)
        ensures
            match p_name(self.toks(), i as int, kind@) {
                Ok((n, j)) => r matches Ok((s, k)) && s@ == n && k == j,
                Err(m) => r matches Err(e) && e@ == m,
            },
    {
        proof {
            reveal_strlit("");
        }
        if i < self.tokens.len() {
            match &self.tokens[i] {
                Token::Ident(s) => {
                    return Ok((string_of(s), i + 1));
                },
                Token::Number(s) => {
                    return Ok((string_of(s), i + 1));
                },
                _ => {
                    return Err(self.error_here(i + 1, message_of("expected ", &chars_of(kind), "")));
                },
            }
        }
        Err(self.error_here(i, message_of("expected ", &chars_of(kind), "")))
    }

    fn parse_number(&self, i: usize) -> (r: Result<(Number, usize), String>)
        ensures
            match p_number(self.toks(), i as int) {
                Ok((n, j)) => r matches Ok((x, k)) && x.value() == n && k == j,
                Err(m) => r matches Err(e) && e@ == m,
            },
    {
        if i < self.tokens.len() {
            if let Token::Number(s) = &self.tokens[i] {
                return match Number::parse_chars(s) {
                    Ok(n) => Ok((n, i + 1)),
                    Err(e) => Err(decimal_error_text(e)),
                };
            }
            return Err(self.error_here(i + 1, chars_of("expected number literal")));
        }
        Err(self.error_here(i, chars_of("expected number literal")))
    }

    fn parse_vreg(&self, i: usize) -> (r: Result<(String, usize), String>)
        ensures
            match p_vreg(self.toks(), i as int) {
                Ok((n, j)) => r matches Ok((s, k)) && s@ == n && k == j,
                Err(m) => r matches Err(e) && e@ == m,
            },
    {
        let j = self.expect_sym(i, '%')?;
        self.parse_name(j, "virtual register")
    }

    pub fn parse_value_expr(&self, i: usize) -> (r: Result<(ValueExpr, usize), String>)
        requires
            i <= self.tokens.len(),
        ensures
            match p_value(self.toks(), i as int) {
                Ok((v, j)) => r matches Ok((e, k)) && vexpr_view(e) == v && k == j,
                Err(m) => r matches Err(e) && e@ == m,
            },
        decreases self.tokens.len() - i, 1nat,
    {
        if self.is_word(i, "ref") {
            let (p, j) = self.parse_place_expr(i + 1)?;
            return Ok((ValueExpr::Ref(p), j));
        }
        if self.is_sym(i, '%') {
            let (x, j) = self.parse_vreg(i)?;
            return Ok((ValueExpr::VReg(x), j));
        }
        if self.is_sym(i, ':') {
            let (l, j) = self.parse_name(i + 1, "code label")?;
            return Ok((ValueExpr::CodeLabel(l), j));
        }
        if self.is_sym(i, '#') {
            let (n, j) = self.parse_number(i + 1)?;
            return Ok((ValueExpr::Imm(n), j));
        }
        if i < self.tokens.len() {
            if let Token::Number(_) = &self.tokens[i] {
                let (n, j) = self.parse_number(i)?;
                return Ok((ValueExpr::Imm(n), j));
            }
        }
        Err(self.error_here(i, chars_of("expected value expression")))
    }

    pub fn parse_place_expr(&self, i: usize) -> (r: Result<(PlaceExpr, usize), String>)
        requires
            i <= self.tokens.len(),
        ensures
            match p_place(self.toks(), i as int) {
                Ok((p, j)) => r matches Ok((e, k)) && pexpr_view(e) == p && k == j,
                Err(m) => r matches Err(e) && e@ == m,
            },
        decreases self.tokens.len() - i, 0nat,
    {
        proof {
            lemma_value_progress(self.toks(), i as int);
        }
        if self.is_sym(i, '@') {
            let (l, j) = self.parse_name(i + 1, "data label")?;
            return Ok((PlaceExpr::Label(l), j));
        }
        if self.is_word(i, "deref") {
            let (x, j) = self.parse_vreg(i + 1)?;
            return Ok((PlaceExpr::Deref(x), j));
        }
        if self.is_word(i, "sacc") {
            let (v, j) = self.parse_value_expr(i + 1)?;
            return Ok((PlaceExpr::SAcc(Box::new(v)), j));
        }
        if self.is_word(i, "hacc") {
            let j1 = self.expect_sym(i + 1, '(')?;
            let (h, j) = self.parse_value_expr(j1)?;
            proof {
                lemma_value_progress(self.toks(), j1 as int);
            }
            let j3 = self.expect_sym(j, ')')?;
            let j4 = self.expect_sym(j3, '[')?;
            let (x, k) = self.parse_value_expr(j4)?;
            let k2 = self.expect_sym(k, ']')?;
            return Ok((PlaceExpr::HAcc { handle: Box::new(h), index: Box::new(x) }, k2));
        }
        Err(self.error_here(i, chars_of("expected place expression")))
    }

    fn parse_cond(&self, i: usize) -> (r: Result<(Cond, usize), String>)
        requires
            i <= self.tokens.len(),
        ensures
            match p_cond(self.toks(), i as int) {
                Ok((c, j)) => r matches Ok((e, k)) && cond_view(e) == c && k == j,
                Err(m) => r matches Err(e) && e@ == m,
            },
    {
        let (l, j) = self.parse_value_expr(i)?;
        proof {
            lemma_value_progress(self.toks(), i as int);
        }
        if self.is_sym(j, '<') {
            let (r, k) = self.parse_value_expr(j + 1)?;
            return Ok((Cond::Lt(l, r), k));
        }
        if self.is_sym(j, '=') {
            let (r, k) = self.parse_value_expr(j + 1)?;
            return Ok((Cond::Eq(l, r), k));
        }
        if self.is_sym(j, '>') {
            let (r, k) = self.parse_value_expr(j + 1)?;
            return Ok((Cond::Gt(l, r), k));
        }
        Err(self.error_here(j, chars_of("expected relation operator")))
    }

    fn end_stmt(&self, s: Stmt, j: usize) -> (r: Result<(Stmt, usize), String>)
        ensures
            match end_stmt(self.toks(), stmt_view(s), j as int) {
                Ok((v, k)) => r matches Ok((e, k2)) && stmt_view(e) == v && k2 == k,
                Err(m) => r matches Err(e) && e@ == m,
            },
    {
        let k = self.expect_sym(j, ';')?;
        Ok((s, k))
    }

    fn parse_reg_stmt(&self, dst: String, j: usize) -> (r: Result<(Stmt, usize), String>)
        requires
            j <= self.tokens.len(),
        ensures
            match p_reg_stmt(self.toks(), dst@, j as int) {
                Ok((v, k)) => r matches Ok((e, k2)) && stmt_view(e) == v && k2 == k,
                Err(m) => r matches Err(e) && e@ == m,
            },
    {
        let j1 = self.expect_sym(j, ':')?;
        let j2 = self.expect_sym(j1, '=')?;
        if self.is_word(j2, "ld") {
            let (p, k) = self.parse_place_expr(j2 + 1)?;
            return self.end_stmt(Stmt::Load { dst, place: p }, k);
        }
        self.parse_assign_tail(dst, j2)
    }

    fn parse_assign_tail(&self, dst: String, j: usize) -> (r: Result<(Stmt, usize), String>)
        requires
            j <= self.tokens.len(),
        ensures
            match p_assign_tail(self.toks(), dst@, j as int) {
                Ok((v, k)) => r matches Ok((e, k2)) && stmt_view(e) == v && k2 == k,
                Err(m) => r matches Err(e) && e@ == m,
            },
    {
        let (l, k) = self.parse_value_expr(j)?;
        proof {
            lemma_value_progress(self.toks(), j as int);
        }
        if self.is_sym(k, '+') {
            let (r, k2) = self.parse_value_expr(k + 1)?;
            return self.end_stmt(Stmt::BinOp { dst, lhs: l, op: BinOp::Add, rhs: r }, k2);
        }
        if self.is_sym(k, '-') {
            let (r, k2) = self.parse_value_expr(k + 1)?;
            return self.end_stmt(Stmt::BinOp { dst, lhs: l, op: BinOp::Sub, rhs: r }, k2);
        }
        self.end_stmt(Stmt::Assign { dst, src: l }, k)
    }

    fn parse_halloc(&self, i: usize) -> (r: Result<(Stmt, usize), String>)
        requires
            i <= self.tokens.len(),
        ensures
            match p_halloc(self.toks(), i as int) {
                Ok((v, k)) => r matches Ok((e, k2)) && stmt_view(e) == v && k2 == k,
                Err(m) => r matches Err(e) && e@ == m,
            },
    {
        let j1 = self.expect_sym(i, '(')?;
        let (v, j) = self.parse_value_expr(j1)?;
        proof {
            lemma_value_progress(self.toks(), j1 as int);
        }
        let j2 = self.expect_sym(j, ')')?;
        let (x, k) = self.parse_vreg(j2)?;
        self.end_stmt(Stmt::HAlloc { size: v, dst: x }, k)
    }

    fn parse_store(&self, i: usize) -> (r: Result<(Stmt, usize), String>)
        requires
            i <= self.tokens.len(),
        ensures
            match p_store(self.toks(), i as int) {
                Ok((v, k)) => r matches Ok((e, k2)) && stmt_view(e) == v && k2 == k,
                Err(m) => r matches Err(e) && e@ == m,
            },
    {
        let (p, j) = self.parse_place_expr(i)?;
        let j1 = self.expect_sym(j, ':')?;
        let j2 = self.expect_sym(j1, '=')?;
        let j3 = self.expect_word(j2, "st")?;
        let (v, k) = self.parse_value_expr(j3)?;
        self.end_stmt(Stmt::Store { place: p, src: v }, k)
    }

    /// A statement from `i`.
    #[verifier::rlimit(30)]
    pub fn parse_stmt(&self, i: usize) -> (r: Result<(Stmt, usize), String>)
        requires
            i <= self.tokens.len(),
        ensures
            match p_stmt(self.toks(), i as int) {
                Ok((v, k)) => r matches Ok((e, k2)) && stmt_view(e) == v && k2 == k,
                Err(m) => r matches Err(e) && e@ == m,
            },
    {
        proof {
            reveal(p_stmt);
        }
        proof {
            lemma_value_progress(self.toks(), i as int);
        }
        if self.is_word(i, "nop") {
            return self.end_stmt(Stmt::Nop, i + 1);
        }
        if self.is_word(i, "pop") {
            let (x, j) = self.parse_vreg(i + 1)?;
            return self.end_stmt(Stmt::Pop { dst: x }, j);
        }
        if self.is_word(i, "push") {
            let (v, j) = self.parse_value_expr(i + 1)?;
            return self.end_stmt(Stmt::Push { src: v }, j);
        }
        if self.is_word(i, "lget") {
            let (x, j) = self.parse_vreg(i + 1)?;
            return self.end_stmt(Stmt::LGet { dst: x }, j);
        }
        if self.is_word(i, "halloc") {
            return self.parse_halloc(i + 1);
        }
        if self.is_word(i, "hfree") {
            let (v, j) = self.parse_value_expr(i + 1)?;
            return self.end_stmt(Stmt::HFree { handle: v }, j);
        }
        if self.is_word(i, "print") {
            let (x, j) = self.parse_vreg(i + 1)?;
            return self.end_stmt(Stmt::Print { src: x }, j);
        }
        if self.is_word(i, "input") {
            let (p, j) = self.parse_place_expr(i + 1)?;
            return self.end_stmt(Stmt::Input { place: p }, j);
        }
        if self.is_sym(i, '%') {
            let (x, j) = self.parse_vreg(i)?;
            return self.parse_reg_stmt(x, j);
        }
        self.parse_store(i)
    }
}


pub open spec fn opt_cont_view(c: Option<Cont>) -> Option<ContV> {
    match c {
        Some(c) => Some(cont_view(c)),
        None => None,
    }
}

fn clone_jumps(ifs: &Vec<JumpIf>) -> (r: Vec<JumpIf>)
    ensures
        jumps_view(r@) == jumps_view(ifs@),
{
    let mut r: Vec<JumpIf> = Vec::new();
    let mut i: usize = 0;
    while i < ifs.len()
        invariant
            0 <= i <= ifs@.len(),
            jumps_view(r@) == jumps_view(ifs@.take(i as int)),
        decreases ifs@.len() - i,
    {
        let j = JumpIf {
            cond: crate::flow_machine::clone_cond(&ifs[i].cond),
            target: crate::flow_machine::clone_vexpr(&ifs[i].target),
        };
        let ghost before = r@;
        r.push(j);
        proof {
            assert(ifs@.take(i + 1) =~= ifs@.take(i as int).push(ifs@[i as int]));
            assert(jumps_view(r@) =~= jumps_view(before).push(jump_view(ifs@[i as int])));
            assert(jumps_view(ifs@.take(i + 1)) =~= jumps_view(ifs@.take(i as int)).push(jump_view(ifs@[i as int])));
        }
        i += 1;
    }
    assert(ifs@.take(ifs@.len() as int) =~= ifs@);
    r
}

impl Parser {
    fn parse_jump_if(&self, i: usize) -> (r: Result<(JumpIf, usize), String>)
        requires
            i <= self.tokens.len(),
        ensures
            match p_jump_if(self.toks(), i as int) {
                Ok((v, k)) => r matches Ok((e, k2)) && jump_view(e) == v && k2 == k,
                Err(m) => r matches Err(e) && e@ == m,
            },
    {
        proof {
            reveal(p_jump_if);
        }
        let i1 = self.expect_word(i, "if")?;
        let (c, j) = self.parse_cond(i1)?;
        proof {
            lemma_cond_progress(self.toks(), i1 as int);
        }
        let j1 = self.expect_word(j, "then")?;
        let (t, k) = self.parse_value_expr(j1)?;
        let k2 = self.expect_sym(k, ';')?;
        Ok((JumpIf { cond: c, target: t }, k2))
    }

    fn is_cont_start(&self, i: usize) -> (r: bool)
        ensures
            r == cont_start(self.toks(), i as int),
    {
        self.is_word(i, "goto") || self.is_word(i, "enter") || self.is_word(i, "halt")
    }

    fn parse_cont(&self, i: usize, ifs: &Vec<JumpIf>) -> (r: Result<(Cont, usize), String>)
        requires
            i <= self.tokens.len(),
        ensures
            match p_cont(self.toks(), i as int, jumps_view(ifs@)) {
                Ok((v, k)) => r matches Ok((e, k2)) && cont_view(e) == v && k2 == k,
                Err(m) => r matches Err(e) && e@ == m,
            },
    {
        proof {
            reveal(p_cont);
        }
        if self.is_word(i, "goto") {
            let (t, j) = self.parse_value_expr(i + 1)?;
            let k = self.expect_sym(j, ';')?;
            return Ok((Cont::Go { ifs: clone_jumps(ifs), target: t }, k));
        }
        if self.is_word(i, "enter") {
            let (t, j) = self.parse_value_expr(i + 1)?;
            let k = self.expect_sym(j, ';')?;
            return Ok((Cont::Enter { ifs: clone_jumps(ifs), target: t }, k));
        }
        if self.is_word(i, "halt") {
            let k = self.expect_sym(i + 1, ';')?;
            return Ok((Cont::Halt { ifs: clone_jumps(ifs) }, k));
        }
        Err(self.error_here(i, chars_of("expected block terminator")))
    }

    /// A block from `i`.
    #[verifier::rlimit(80)]
    pub fn parse_block(&self, i: usize) -> (r: Result<(Block, usize), String>)
        requires
            i <= self.tokens.len(),
        ensures
            match p_block(self.toks(), i as int) {
                Ok((v, k)) => r matches Ok((e, k2)) && block_view(e) == v && k2 == k,
                Err(m) => r matches Err(e) && e@ == m,
            },
    {
        proof {
            reveal(p_block);
        }
        let ghost ts = self.toks();
        let j0 = self.expect_sym(i, ':')?;
        let (label, j) = self.parse_name(j0, "block label")?;
        let start = self.expect_sym(j, '{')?;
        let mut pos = start;
        let mut stmts: Vec<Stmt> = Vec::new();
        let mut ifs: Vec<JumpIf> = Vec::new();
        let mut cont: Option<Cont> = None;
        proof {
            assert(stmts_view(stmts@) =~= Seq::<StmtV>::empty());
            assert(jumps_view(ifs@) =~= Seq::<(CondV, VExprV)>::empty());
        }
        while !self.is_sym(pos, '}')
            invariant
                pos <= self.tokens@.len(),
                ts == self.toks(),
                p_block(ts, i as int) == block_finish(
                    ts,
                    label@,
                    block_items(ts, start as int, label@, seq![], seq![], None),
                ),
                block_items(ts, start as int, label@, seq![], seq![], None) == block_items(
                    ts,
                    pos as int,
                    label@,
                    stmts_view(stmts@),
                    jumps_view(ifs@),
                    opt_cont_view(cont),
                ),
            decreases self.tokens@.len() - pos,
        {
            if self.is_word(pos, "if") {
                let (jmp, k) = self.parse_jump_if(pos)?;
                proof {
                    lemma_jump_progress(ts, pos as int);
                }
                let ghost before = ifs@;
                ifs.push(jmp);
                proof {
                    assert(jumps_view(ifs@) =~= jumps_view(before).push(jump_view(jmp)));
                }
                pos = k;
                continue;
            }
            if cont.is_none() && self.is_cont_start(pos) {
                let (c, k) = self.parse_cont(pos, &ifs)?;
                proof {
                    lemma_jump_progress(ts, pos as int);
                }
                cont = Some(c);
                pos = k;
                continue;
            }
            if cont.is_some() {
                let m = message_of("Line exists after terminator in block :", &chars_of(label.as_str()), "");
                proof {
                    reveal_strlit("");
                }
                return Err(string_of(&m));
            }
            let (st, k) = self.parse_stmt(pos)?;
            proof {
                lemma_stmt_progress(ts, pos as int);
            }
            let ghost before = stmts@;
            stmts.push(st);
            proof {
                assert(stmts_view(stmts@) =~= stmts_view(before).push(stmt_view(st)));
            }
            pos = k;
        }
        let k2 = self.expect_sym(pos, '}')?;
        match cont {
            None => {
                let m = message_of("Missing terminator in block :", &chars_of(label.as_str()), "");
                proof {
                    reveal_strlit("");
                }
                Err(string_of(&m))
            },
            Some(c) => Ok((Block { label, stmts, cont: c }, k2)),
        }
    }

    /// A region from `i`.
    #[verifier::rlimit(80)]
    pub fn parse_region(&self, i: usize) -> (r: Result<(Region, usize), String>)
        requires
            i <= self.tokens.len(),
        ensures
            match p_region(self.toks(), i as int) {
                Ok((v, k)) => r matches Ok((e, k2)) && region_view(e) == v && k2 == k,
                Err(m) => r matches Err(e) && e@ == m,
            },
    {
        let ghost ts = self.toks();
        let j0 = self.expect_sym(i, ':')?;
        let (label, j) = self.parse_name(j0, "region label")?;
        let start = self.expect_sym(j, '{')?;
        let mut pos = start;
        let mut blocks: Vec<Block> = Vec::new();
        proof {
            assert(blocks_view(blocks@) =~= Seq::<BlockV>::empty());
        }
        while !self.is_sym(pos, '}')
            invariant
                pos <= self.tokens@.len(),
                ts == self.toks(),
                p_region(ts, i as int) == region_finish(ts, label@, region_blocks(ts, start as int, seq![])),
                region_blocks(ts, start as int, seq![]) == region_blocks(ts, pos as int, blocks_view(blocks@)),
            decreases self.tokens@.len() - pos,
        {
            let (b, k) = self.parse_block(pos)?;
            proof {
                lemma_block_progress(ts, pos as int);
            }
            let ghost before = blocks@;
            blocks.push(b);
            proof {
                assert(blocks_view(blocks@) =~= blocks_view(before).push(block_view(b)));
            }
            pos = k;
        }
        let k2 = self.expect_sym(pos, '}')?;
        if blocks.len() == 0 {
            return Err(string_of(&message_of("Region :", &chars_of(label.as_str()), " has no blocks")));
        }
        Ok((Region { label, blocks }, k2))
    }

    fn parse_static_def(&self, i: usize) -> (r: Result<(StaticDef, usize), String>)
        requires
            i <= self.tokens.len(),
        ensures
            match p_static(self.toks(), i as int) {
                Ok((v, k)) => r matches Ok((e, k2)) && static_view(e) == v && k2 == k,
                Err(m) => r matches Err(e) && e@ == m,
            },
    {
        let j0 = self.expect_sym(i, '@')?;
        let (label, j) = self.parse_name(j0, "static label")?;
        let (value, k) = self.parse_number(j)?;
        Ok((StaticDef { label, value }, k))
    }

    /// The program that the tokens spell.
    pub fn parse_program(&self) -> (r: Result<Program, String>)
        ensures
            match program_items(self.toks(), 0, seq![], seq![]) {
                Ok(v) => r matches Ok(p) && program_view(p) == v,
                Err(m) => r matches Err(e) && e@ == m,
            },
    {
        let ghost ts = self.toks();
        let mut pos: usize = 0;
        let mut statics: Vec<StaticDef> = Vec::new();
        let mut regions: Vec<Region> = Vec::new();
        proof {
            assert(statics@.map_values(|s: StaticDef| static_view(s)) =~= Seq::<(Seq<char>, nat)>::empty());
            assert(regions@.map_values(|r: Region| region_view(r)) =~= Seq::<RegionV>::empty());
        }
        while !self.is_eof(pos)
            invariant
                pos <= self.tokens@.len(),
                ts == self.toks(),
                program_items(ts, 0, seq![], seq![]) == program_items(
                    ts,
                    pos as int,
                    statics@.map_values(|s: StaticDef| static_view(s)),
                    regions@.map_values(|r: Region| region_view(r)),
                ),
            decreases self.tokens@.len() - pos,
        {
            proof {
                lemma_block_progress(ts, pos as int);
            }
            if self.is_sym(pos, '@') {
                let (sd, k) = self.parse_static_def(pos)?;
                let ghost before = statics@;
                statics.push(sd);
                proof {
                    assert(statics@.map_values(|s: StaticDef| static_view(s)) =~= before.map_values(
                        |s: StaticDef| static_view(s),
                    ).push(static_view(sd)));
                }
                pos = k;
            } else if self.is_sym(pos, ':') {
                let (rg, k) = self.parse_region(pos)?;
                let ghost before = regions@;
                regions.push(rg);
                proof {
                    assert(regions@.map_values(|r: Region| region_view(r)) =~= before.map_values(
                        |r: Region| region_view(r),
                    ).push(region_view(rg)));
                }
                pos = k;
            } else {
                return Err(self.error_here(pos, chars_of("expected static definition or region header")));
            }
        }
        Ok(Program { statics, regions })
    }
}

/// Reads a program from its text.
pub fn parse_program(text: &str) -> (r: Result<Program, String>)
    ensures
        match program_spec(text@) {
            Ok(v) => r matches Ok(p) && program_view(p) == v,
            Err(m) => r matches Err(e) && e@ == m,
        },
{
    let tokens = lex_chars(&chars_of(text))?;
    let parser = Parser::new(tokens);
    parser.parse_program()
}

impl FlowIrCode {
    /// Reads flow IR code from its text.
    pub fn parse(text: &str) -> (r: Result<FlowIrCode, String>)
        ensures
            match program_spec(text@) {
                Ok(v) => r matches Ok(c) && program_view(c.0) == v,
                Err(m) => r matches Err(e) && e@ == m,
            },
    {
        let p = parse_program(text)?;
        Ok(FlowIrCode(p))
    }
}

} // verus!

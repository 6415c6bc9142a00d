//! Code that the flow IR parser reads is printable: its names are words or
//! numerals, its numbers fit in `usize`, and each region has a block; so the
//! text of parsed code reads back as that code.
use vstd::prelude::*;

use crate::circuit_lexer::{
    comment_stop, is_word_start, lemma_comment_stop, lemma_line_stop, lex_at, line_stop, prepend_tok, single_tok,
    TokV,
};
use crate::coroutine_parser::{digits_end, is_word_char, lemma_digits_end, lemma_word_end, word_end};
use crate::flow_parser::{
    block_items, cont_start, expect_sym, lemma_value_progress, p_block, p_cond, p_cont, p_jump_if, p_name, p_number,
    p_place, p_region, p_static, p_stmt, p_value, p_vreg, program_items, program_spec, region_blocks, sym_at, word_at,
};
use crate::flow_printed::law_flow_code_roundtrip;
use crate::flow_roundtrip::{
    is_name, printable_block, printable_cond, printable_cont, printable_jump, printable_pexpr, printable_program,
    printable_region, printable_stmt, printable_vexpr,
};
use crate::flow_text::{program_text, BlockV, CondV, ContV, PExprV, ProgramV, RegionV, StmtV, VExprV};
use crate::number::{parse_decimal, scan_digits_to};
use crate::text::is_digit;

verus! {

/// Each word and each numeral among the tokens is a name.
pub open spec fn good_toks(ts: Seq<TokV>) -> bool {
    forall|k: int|
        0 <= k < ts.len() ==> match #[trigger] ts[k] {
            TokV::Ident(w) => is_name(w),
            TokV::Number(d) => is_name(d),
            _ => true,
        }
}

proof fn lemma_prepend_good(tok: TokV, rest: Result<Seq<TokV>, Seq<char>>)
    requires
        rest matches Ok(ts) ==> good_toks(ts),
        match tok {
            TokV::Ident(w) => is_name(w),
            TokV::Number(d) => is_name(d),
            _ => true,
        },
    ensures
        prepend_tok(tok, rest) matches Ok(ts) ==> good_toks(ts),
{
    if let Ok(ts) = rest {
        let all = seq![tok] + ts;
        assert forall|k: int| 0 <= k < all.len() implies match #[trigger] all[k] {
            TokV::Ident(w) => is_name(w),
            TokV::Number(d) => is_name(d),
            _ => true,
        } by {
            if k > 0 {
                assert(all[k] == ts[k - 1]);
            }
        }
    }
}

/// The lexer gives only words and numerals that are names.
proof fn lemma_lex_good(t: Seq<char>, i: int)
    requires
        0 <= i <= t.len(),
    ensures
        lex_at(t, i) matches Ok(ts) ==> good_toks(ts),
    decreases t.len() - i,
{
    if i < t.len() {
        let ch = t[i];
        if crate::text::is_space(ch) {
            lemma_lex_good(t, i + 1);
        } else if ch == '/' && i + 1 < t.len() && t[i + 1] == '/' {
            lemma_line_stop(t, i + 2);
            lemma_lex_good(t, line_stop(t, i + 2));
        } else if ch == '/' && i + 1 < t.len() && t[i + 1] == '*' {
            lemma_comment_stop(t, i + 2);
            if let Some(j) = comment_stop(t, i + 2) {
                lemma_lex_good(t, j + 2);
            }
        } else if is_word_start(ch) {
            lemma_word_end(t, i + 1);
            let j = word_end(t, i + 1);
            lemma_lex_good(t, j);
            let w = t.subrange(i, j);
            assert forall|k: int| 0 <= k < w.len() implies is_word_char(#[trigger] w[k]) by {
                assert(w[k] == t[i + k]);
            }
            lemma_prepend_good(TokV::Ident(w), lex_at(t, j));
        } else if is_digit(ch) {
            lemma_digits_end(t, i + 1);
            let j = digits_end(t, i + 1);
            lemma_lex_good(t, j);
            let d = t.subrange(i, j);
            assert forall|k: int| 0 <= k < d.len() implies is_digit(#[trigger] d[k]) by {
                assert(d[k] == t[i + k]);
            }
            lemma_prepend_good(TokV::Number(d), lex_at(t, j));
        } else {
            lemma_lex_good(t, i + 1);
            lemma_prepend_good(single_tok(ch), lex_at(t, i + 1));
        }
    }
}

pub open spec fn ok_name(r: Result<(Seq<char>, int), Seq<char>>) -> bool {
    r matches Ok((l, _)) ==> is_name(l)
}

pub open spec fn ok_num(r: Result<(nat, int), Seq<char>>) -> bool {
    r matches Ok((n, _)) ==> n <= usize::MAX
}

pub open spec fn ok_value(r: Result<(VExprV, int), Seq<char>>) -> bool {
    r matches Ok((v, _)) ==> printable_vexpr(v)
}

pub open spec fn ok_place(r: Result<(PExprV, int), Seq<char>>) -> bool {
    r matches Ok((p, _)) ==> printable_pexpr(p)
}

proof fn lemma_scan_bound(s: Seq<char>, acc: nat, limit: nat)
    requires
        acc <= limit,
    ensures
        scan_digits_to(s, acc, limit) matches Ok(n) ==> n <= limit,
    decreases s.len(),
{
    if s.len() > 0 && is_digit(s[0]) {
        let next = acc * 10 + crate::number::digit_of(s[0]);
        if next <= limit {
            lemma_scan_bound(s.drop_first(), next, limit);
        }
    }
}

/// Names, registers and numbers read from good tokens are printable.
proof fn lemma_atoms(ts: Seq<TokV>)
    requires
        good_toks(ts),
    ensures
        forall|i: int, kind: Seq<char>| ok_name(#[trigger] p_name(ts, i, kind)),
        forall|i: int| ok_name(#[trigger] p_vreg(ts, i)),
        forall|i: int| ok_num(#[trigger] p_number(ts, i)),
{
    assert forall|i: int| ok_num(#[trigger] p_number(ts, i)) by {
        if 0 <= i < ts.len() && ts[i] is Number {
            let s = ts[i]->Number_0;
            if s.len() > 0 && s[0] == '+' {
                lemma_scan_bound(s.drop_first(), 0, usize::MAX as nat);
            } else {
                lemma_scan_bound(s, 0, usize::MAX as nat);
            }
        }
    }
    assert forall|i: int, kind: Seq<char>| ok_name(#[trigger] p_name(ts, i, kind)) by {
        if 0 <= i < ts.len() {
            assert(match ts[i] {
                TokV::Ident(w) => is_name(w),
                TokV::Number(d) => is_name(d),
                _ => true,
            });
        }
    }
    assert forall|i: int| ok_name(#[trigger] p_vreg(ts, i)) by {
        if sym_ok(ts, i) {
            assert(ok_name(p_name(ts, i + 1, "virtual register"@)));
        }
    }
}

spec fn sym_ok(ts: Seq<TokV>, i: int) -> bool {
    crate::flow_parser::sym_at(ts, i, '%')
}

/// Value and place expressions read from good tokens are printable.
proof fn lemma_value_printable(ts: Seq<TokV>, i: int)
    requires
        good_toks(ts),
        0 <= i <= ts.len(),
    ensures
        p_value(ts, i) matches Ok((v, _)) ==> printable_vexpr(v),
        p_place(ts, i) matches Ok((p, _)) ==> printable_pexpr(p),
    decreases ts.len() - i,
{
    lemma_atoms(ts);
    if crate::flow_parser::word_at(ts, i, "ref"@) || crate::flow_parser::word_at(ts, i, "sacc"@) {
        lemma_value_printable(ts, i + 1);
    }
    if crate::flow_parser::word_at(ts, i, "hacc"@) && crate::flow_parser::sym_at(ts, i + 1, '(') {
        lemma_value_printable(ts, i + 2);
        lemma_value_progress(ts, i + 2);
        if let Ok((_, j)) = p_value(ts, i + 2) {
            if crate::flow_parser::sym_at(ts, j, ')') && crate::flow_parser::sym_at(ts, j + 1, '[') {
                lemma_value_printable(ts, j + 2);
            }
        }
    }
}

/// Every value and place expression read from good tokens is printable.
proof fn lemma_values(ts: Seq<TokV>)
    requires
        good_toks(ts),
    ensures
        forall|i: int| ok_value(#[trigger] p_value(ts, i)),
        forall|i: int| ok_place(#[trigger] p_place(ts, i)),
{
    assert forall|i: int| ok_value(#[trigger] p_value(ts, i)) by {
        if 0 <= i <= ts.len() {
            lemma_value_printable(ts, i);
        }
    }
    assert forall|i: int| ok_place(#[trigger] p_place(ts, i)) by {
        if 0 <= i <= ts.len() {
            lemma_value_printable(ts, i);
        }
    }
}

proof fn lemma_cond(ts: Seq<TokV>, i: int)
    requires
        good_toks(ts),
    ensures
        p_cond(ts, i) matches Ok((c, _)) ==> printable_cond(c),
{
    lemma_values(ts);
}

proof fn lemma_stmt(ts: Seq<TokV>, i: int)
    requires
        good_toks(ts),
    ensures
        p_stmt(ts, i) matches Ok((s, _)) ==> printable_stmt(s),
{
    reveal(p_stmt);
    lemma_values(ts);
    lemma_atoms(ts);
}

proof fn lemma_jump(ts: Seq<TokV>, i: int)
    requires
        good_toks(ts),
    ensures
        p_jump_if(ts, i) matches Ok((j, _)) ==> printable_jump(j),
{
    reveal(p_jump_if);
    lemma_values(ts);
    lemma_cond(ts, i + 1);
}

pub open spec fn all_stmts(ss: Seq<StmtV>) -> bool {
    forall|k: int| 0 <= k < ss.len() ==> printable_stmt(#[trigger] ss[k])
}

pub open spec fn all_jumps(js: Seq<(CondV, VExprV)>) -> bool {
    forall|k: int| 0 <= k < js.len() ==> printable_jump(#[trigger] js[k])
}

proof fn lemma_cont(ts: Seq<TokV>, i: int, ifs: Seq<(CondV, VExprV)>)
    requires
        good_toks(ts),
        all_jumps(ifs),
    ensures
        p_cont(ts, i, ifs) matches Ok((c, _)) ==> printable_cont(c),
{
    reveal(p_cont);
    lemma_values(ts);
}

proof fn lemma_block_items(
    ts: Seq<TokV>,
    i: int,
    label: Seq<char>,
    stmts: Seq<StmtV>,
    ifs: Seq<(CondV, VExprV)>,
    cont: Option<ContV>,
)
    requires
        good_toks(ts),
        all_stmts(stmts),
        all_jumps(ifs),
        cont matches Some(c) ==> printable_cont(c),
    ensures
        block_items(ts, i, label, stmts, ifs, cont) matches Ok((ss, cc, _)) ==> all_stmts(ss) && (cc matches Some(c)
            ==> printable_cont(c)),
    decreases ts.len() - i,
{
    if 0 <= i <= ts.len() && !sym_at(ts, i, '}') {
        if word_at(ts, i, "if"@) {
            lemma_jump(ts, i);
            if let Ok((j, k)) = p_jump_if(ts, i) {
                if i < k <= ts.len() {
                    assert(all_jumps(ifs.push(j)));
                    lemma_block_items(ts, k, label, stmts, ifs.push(j), cont);
                }
            }
        } else if cont is None && cont_start(ts, i) {
            lemma_cont(ts, i, ifs);
            if let Ok((c, k)) = p_cont(ts, i, ifs) {
                if i < k <= ts.len() {
                    lemma_block_items(ts, k, label, stmts, ifs, Some(c));
                }
            }
        } else if cont is None {
            lemma_stmt(ts, i);
            if let Ok((s, k)) = p_stmt(ts, i) {
                if i < k <= ts.len() {
                    assert(all_stmts(stmts.push(s)));
                    lemma_block_items(ts, k, label, stmts.push(s), ifs, cont);
                }
            }
        }
    }
}

proof fn lemma_block(ts: Seq<TokV>, i: int)
    requires
        good_toks(ts),
    ensures
        p_block(ts, i) matches Ok((b, _)) ==> printable_block(b),
{
    reveal(p_block);
    lemma_atoms(ts);
    if let Ok(j0) = expect_sym(ts, i, ':') {
        if let Ok((label, j)) = p_name(ts, j0, "block label"@) {
            assert(ok_name(p_name(ts, j0, "block label"@)));
            if let Ok(j2) = expect_sym(ts, j, '{') {
                lemma_block_items(ts, j2, label, seq![], seq![], None);
            }
        }
    }
}

pub open spec fn all_blocks(bs: Seq<BlockV>) -> bool {
    forall|k: int| 0 <= k < bs.len() ==> printable_block(#[trigger] bs[k])
}

proof fn lemma_region_blocks(ts: Seq<TokV>, i: int, blocks: Seq<BlockV>)
    requires
        good_toks(ts),
        all_blocks(blocks),
    ensures
        region_blocks(ts, i, blocks) matches Ok((bs, _)) ==> all_blocks(bs),
    decreases ts.len() - i,
{
    if 0 <= i <= ts.len() && !sym_at(ts, i, '}') {
        lemma_block(ts, i);
        if let Ok((b, k)) = p_block(ts, i) {
            if i < k <= ts.len() {
                assert(all_blocks(blocks.push(b)));
                lemma_region_blocks(ts, k, blocks.push(b));
            }
        }
    }
}

proof fn lemma_region(ts: Seq<TokV>, i: int)
    requires
        good_toks(ts),
    ensures
        p_region(ts, i) matches Ok((r, _)) ==> printable_region(r),
{
    lemma_atoms(ts);
    if let Ok(j0) = expect_sym(ts, i, ':') {
        if let Ok((label, j)) = p_name(ts, j0, "region label"@) {
            assert(ok_name(p_name(ts, j0, "region label"@)));
            if let Ok(j2) = expect_sym(ts, j, '{') {
                lemma_region_blocks(ts, j2, seq![]);
            }
        }
    }
}

pub open spec fn all_statics(ss: Seq<(Seq<char>, nat)>) -> bool {
    forall|k: int| 0 <= k < ss.len() ==> is_name(#[trigger] ss[k].0) && ss[k].1 <= usize::MAX
}

pub open spec fn all_regions(rs: Seq<RegionV>) -> bool {
    forall|k: int| 0 <= k < rs.len() ==> printable_region(#[trigger] rs[k])
}

proof fn lemma_program_items(ts: Seq<TokV>, i: int, statics: Seq<(Seq<char>, nat)>, regions: Seq<RegionV>)
    requires
        good_toks(ts),
        all_statics(statics),
        all_regions(regions),
    ensures
        program_items(ts, i, statics, regions) matches Ok(p) ==> printable_program(p),
    decreases ts.len() - i,
{
    lemma_atoms(ts);
    if 0 <= i < ts.len() {
        if sym_at(ts, i, '@') {
            if let Ok((st, k)) = p_static(ts, i) {
                assert(ok_name(p_name(ts, i + 1, "static label"@)));
                if let Ok((_, j)) = p_name(ts, i + 1, "static label"@) {
                    assert(ok_num(p_number(ts, j)));
                }
                if k > i {
                    assert(all_statics(statics.push(st)));
                    lemma_program_items(ts, k, statics.push(st), regions);
                }
            }
        } else if sym_at(ts, i, ':') {
            lemma_region(ts, i);
            if let Ok((r, k)) = p_region(ts, i) {
                if k > i {
                    assert(all_regions(regions.push(r)));
                    lemma_program_items(ts, k, statics, regions.push(r));
                }
            }
        }
    }
}

/// Code that the parser reads from a text is printable: each label and
/// register is a word or a numeral, each number fits in `usize`, and each
/// region has a block.
pub proof fn law_parsed_flow_code_printable(text: Seq<char>)
    ensures
        program_spec(text) matches Ok(p) ==> printable_program(p),
{
    lemma_lex_good(text, 0);
    if let Ok(ts) = lex_at(text, 0) {
        lemma_program_items(ts, 0, seq![], seq![]);
    }
}

/// The printed text of code that the parser read reads back as that code.
pub proof fn law_parsed_flow_code_roundtrip(text: Seq<char>)
    ensures
        program_spec(text) matches Ok(p) ==> program_spec(program_text(p)) == Ok::<ProgramV, Seq<char>>(p),
{
    law_parsed_flow_code_printable(text);
    if let Ok(p) = program_spec(text) {
        law_flow_code_roundtrip(p);
    }
}

} // verus!

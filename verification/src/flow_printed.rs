//! The tokens of printed flow IR code: lexing a text piece by piece, and
//! the law that reading printed code gives the code back.
use vstd::prelude::*;

use crate::circuit_lexer::{
    comment_stop, is_word_start, lemma_comment_stop, lemma_line_stop, lex_at, line_stop, prepend_tok, single_tok, TokV,
};
use crate::coroutine_parser::{digits_end, is_word_char, lemma_digits_end, lemma_word_end, word_end};
use crate::flow_ir::BinOp;
use crate::flow_parser::program_spec;
use crate::flow_roundtrip::{
    assign_head, block_toks, blocks_toks, cond_toks, cont_toks, is_name, jump_toks, jumps_toks, lemma_keywords,
    lemma_parse_program, name_tok, op_char, open_head, pexpr_toks, printable_block, printable_cond, printable_cont,
    printable_jump, printable_pexpr, printable_program, printable_region, printable_stmt, printable_vexpr, program_toks,
    region_toks, regions_toks, semi, statics_toks, stmt_toks, stmts_toks, vexpr_toks, word,
};
use crate::flow_text::{
    BlockV, CondV, ContV, PExprV, ProgramV, RegionV, StmtV, VExprV, binop_text, block_text, blocks_text, cond_text,
    cont_jumps, cont_line, jumps_text, pexpr_text, program_text, region_text, regions_text, statics_text, stmt_text,
    stmts_text, vexpr_text,
};
use crate::number::decimal;
use crate::text::{is_digit, is_space};

verus! {

/// Text without `/`, so without comments.
pub open spec fn clean(t: Seq<char>) -> bool {
    forall|k: int| 0 <= k < t.len() ==> #[trigger] t[k] != '/'
}

/// Two texts whose joint does not run two words together.
pub open spec fn joinable(a: Seq<char>, b: Seq<char>) -> bool {
    a.len() == 0 || b.len() == 0 || !is_word_char(a.last()) || !is_word_char(b[0])
}

/// `t` lexes to `ts`.
pub open spec fn lexes(t: Seq<char>, ts: Seq<TokV>) -> bool {
    lex_at(t, 0) == Ok::<Seq<TokV>, Seq<char>>(ts)
}

/// The tokens `x` before the result `r`.
pub open spec fn cat(x: Seq<TokV>, r: Result<Seq<TokV>, Seq<char>>) -> Result<Seq<TokV>, Seq<char>> {
    match r {
        Ok(y) => Ok(x + y),
        Err(m) => Err(m),
    }
}

// ---------------------------------------------------------------------
// Suffixes
// ---------------------------------------------------------------------

proof fn lemma_word_end_shift(a: Seq<char>, b: Seq<char>, j: int)
    requires
        0 <= j <= b.len(),
    ensures
        word_end(a + b, a.len() + j) == a.len() + word_end(b, j),
    decreases b.len() - j,
{
    if j < b.len() {
        assert((a + b)[a.len() + j] == b[j]);
        if is_word_char(b[j]) {
            lemma_word_end_shift(a, b, j + 1);
        }
    }
}

proof fn lemma_digits_end_shift(a: Seq<char>, b: Seq<char>, j: int)
    requires
        0 <= j <= b.len(),
    ensures
        digits_end(a + b, a.len() + j) == a.len() + digits_end(b, j),
    decreases b.len() - j,
{
    if j < b.len() {
        assert((a + b)[a.len() + j] == b[j]);
        if is_digit(b[j]) {
            lemma_digits_end_shift(a, b, j + 1);
        }
    }
}

proof fn lemma_line_stop_shift(a: Seq<char>, b: Seq<char>, j: int)
    requires
        0 <= j <= b.len(),
    ensures
        line_stop(a + b, a.len() + j) == a.len() + line_stop(b, j),
    decreases b.len() - j,
{
    if j < b.len() {
        assert((a + b)[a.len() + j] == b[j]);
        if b[j] != '\n' {
            lemma_line_stop_shift(a, b, j + 1);
        }
    }
}

proof fn lemma_comment_stop_shift(a: Seq<char>, b: Seq<char>, j: int)
    requires
        0 <= j <= b.len(),
    ensures
        comment_stop(a + b, a.len() + j) == match comment_stop(b, j) {
            Some(k) => Some(a.len() + k),
            None => None::<int>,
        },
    decreases b.len() - j,
{
    if j + 1 < b.len() {
        assert((a + b)[a.len() + j] == b[j]);
        assert((a + b)[a.len() + j + 1] == b[j + 1]);
        if !(b[j] == '*' && b[j + 1] == '/') {
            lemma_comment_stop_shift(a, b, j + 1);
        }
    }
}

/// The tokens of a text after a prefix are those of the text alone.
pub proof fn lemma_lex_shift(a: Seq<char>, b: Seq<char>, j: int)
    requires
        0 <= j <= b.len(),
    ensures
        lex_at(a + b, a.len() + j) == lex_at(b, j),
    decreases b.len() - j,
{
    let t = a + b;
    let i = a.len() + j;
    if j < b.len() {
        assert(t[i] == b[j]);
        let ch = b[j];
        if j + 1 < b.len() {
            assert(t[i + 1] == b[j + 1]);
        }
        if is_space(ch) {
            lemma_lex_shift(a, b, j + 1);
        } else if ch == '/' && j + 1 < b.len() && b[j + 1] == '/' {
            lemma_line_stop(b, j + 2);
            lemma_line_stop_shift(a, b, j + 2);
            lemma_lex_shift(a, b, line_stop(b, j + 2));
        } else if ch == '/' && j + 1 < b.len() && b[j + 1] == '*' {
            lemma_comment_stop(b, j + 2);
            lemma_comment_stop_shift(a, b, j + 2);
            if let Some(k) = comment_stop(b, j + 2) {
                lemma_lex_shift(a, b, k + 2);
            }
        } else if is_word_start(ch) {
            lemma_word_end(b, j + 1);
            lemma_word_end_shift(a, b, j + 1);
            let k = word_end(b, j + 1);
            assert(t.subrange(i, a.len() + k) =~= b.subrange(j, k));
            lemma_lex_shift(a, b, k);
        } else if is_digit(ch) {
            lemma_digits_end(b, j + 1);
            lemma_digits_end_shift(a, b, j + 1);
            let k = digits_end(b, j + 1);
            assert(t.subrange(i, a.len() + k) =~= b.subrange(j, k));
            lemma_lex_shift(a, b, k);
        } else {
            lemma_lex_shift(a, b, j + 1);
        }
    }
}

// ---------------------------------------------------------------------
// Prefixes
// ---------------------------------------------------------------------

proof fn lemma_word_end_prefix(a: Seq<char>, b: Seq<char>, i: int)
    requires
        0 <= i <= a.len(),
        joinable(a, b),
        i == a.len() ==> i > 0 && is_word_char(a[i - 1]),
    ensures
        word_end(a + b, i) == word_end(a, i),
    decreases a.len() - i,
{
    if i < a.len() {
        assert((a + b)[i] == a[i]);
        if is_word_char(a[i]) {
            lemma_word_end_prefix(a, b, i + 1);
        }
    } else if b.len() > 0 {
        assert((a + b)[i] == b[0]);
    }
}

proof fn lemma_digits_end_prefix(a: Seq<char>, b: Seq<char>, i: int)
    requires
        0 <= i <= a.len(),
        joinable(a, b),
        i == a.len() ==> i > 0 && is_digit(a[i - 1]),
    ensures
        digits_end(a + b, i) == digits_end(a, i),
    decreases a.len() - i,
{
    if i < a.len() {
        assert((a + b)[i] == a[i]);
        if is_digit(a[i]) {
            lemma_digits_end_prefix(a, b, i + 1);
        }
    } else if b.len() > 0 {
        assert((a + b)[i] == b[0]);
    }
}

/// The tokens of a joint text: those of the first text, then the rest.
pub proof fn lemma_lex_prefix(a: Seq<char>, b: Seq<char>, i: int)
    requires
        0 <= i <= a.len(),
        clean(a),
        joinable(a, b),
        lex_at(a, i) is Ok,
    ensures
        lex_at(a + b, i) == cat(lex_at(a, i)->Ok_0, lex_at(a + b, a.len() as int)),
    decreases a.len() - i,
{
    let t = a + b;
    if i == a.len() {
        match lex_at(t, i) {
            Ok(y) => {
                assert(Seq::<TokV>::empty() + y =~= y);
            },
            Err(_) => {},
        }
    } else {
        assert(t[i] == a[i]);
        let ch = a[i];
        assert(ch != '/');
        if is_space(ch) {
            lemma_lex_prefix(a, b, i + 1);
        } else if is_word_start(ch) {
            lemma_word_end(a, i + 1);
            lemma_word_end_prefix(a, b, i + 1);
            let k = word_end(a, i + 1);
            assert(t.subrange(i, k) =~= a.subrange(i, k));
            lemma_lex_prefix(a, b, k);
            let x = lex_at(a, k)->Ok_0;
            match lex_at(t, a.len() as int) {
                Ok(y) => {
                    assert(seq![TokV::Ident(a.subrange(i, k))] + (x + y) =~= (seq![TokV::Ident(a.subrange(i, k))] + x)
                        + y);
                },
                Err(_) => {},
            }
        } else if is_digit(ch) {
            lemma_digits_end(a, i + 1);
            lemma_digits_end_prefix(a, b, i + 1);
            let k = digits_end(a, i + 1);
            assert(t.subrange(i, k) =~= a.subrange(i, k));
            lemma_lex_prefix(a, b, k);
            let x = lex_at(a, k)->Ok_0;
            match lex_at(t, a.len() as int) {
                Ok(y) => {
                    assert(seq![TokV::Number(a.subrange(i, k))] + (x + y) =~= (seq![TokV::Number(a.subrange(i, k))]
                        + x) + y);
                },
                Err(_) => {},
            }
        } else {
            lemma_lex_prefix(a, b, i + 1);
            let x = lex_at(a, i + 1)->Ok_0;
            match lex_at(t, a.len() as int) {
                Ok(y) => {
                    assert(seq![single_tok(ch)] + (x + y) =~= (seq![single_tok(ch)] + x) + y);
                },
                Err(_) => {},
            }
        }
    }
}

/// The tokens of two joined texts are the tokens of each, in turn.
pub proof fn lemma_lex_join(a: Seq<char>, ta: Seq<TokV>, b: Seq<char>, tb: Seq<TokV>)
    requires
        lexes(a, ta),
        lexes(b, tb),
        clean(a),
        clean(b),
        joinable(a, b),
    ensures
        lexes(a + b, ta + tb),
        clean(a + b),
{
    lemma_lex_prefix(a, b, 0);
    lemma_lex_shift(a, b, 0);
    assert forall|k: int| 0 <= k < (a + b).len() implies #[trigger] (a + b)[k] != '/' by {
        if k < a.len() {
            assert((a + b)[k] == a[k]);
        } else {
            assert((a + b)[k] == b[k - a.len()]);
        }
    }
}

// ---------------------------------------------------------------------
// Atoms
// ---------------------------------------------------------------------

/// A character that is a token by itself.
pub open spec fn symbol_char(c: char) -> bool {
    !is_space(c) && c != '/' && !is_word_char(c)
}

pub proof fn lemma_lex_symbol(c: char)
    requires
        symbol_char(c),
    ensures
        lexes(seq![c], seq![single_tok(c)]),
        clean(seq![c]),
{
    let t = seq![c];
    assert(!is_word_start(c) && !is_digit(c));
    assert(lex_at(t, 1) == Ok::<Seq<TokV>, Seq<char>>(seq![]));
    assert(seq![single_tok(c)] + Seq::<TokV>::empty() =~= seq![single_tok(c)]);
}

pub proof fn lemma_lex_blank(c: char)
    requires
        is_space(c),
        c != '/',
    ensures
        lexes(seq![c], seq![]),
        clean(seq![c]),
{
    let t = seq![c];
    assert(lex_at(t, 1) == Ok::<Seq<TokV>, Seq<char>>(seq![]));
}

proof fn lemma_word_run(w: Seq<char>, i: int)
    requires
        0 <= i <= w.len(),
        forall|j: int| 0 <= j < w.len() ==> is_word_char(#[trigger] w[j]),
    ensures
        word_end(w, i) == w.len(),
    decreases w.len() - i,
{
    if i < w.len() {
        assert(is_word_char(w[i]));
        lemma_word_run(w, i + 1);
    }
}

proof fn lemma_digit_run(w: Seq<char>, i: int)
    requires
        0 <= i <= w.len(),
        forall|j: int| 0 <= j < w.len() ==> is_digit(#[trigger] w[j]),
    ensures
        digits_end(w, i) == w.len(),
    decreases w.len() - i,
{
    if i < w.len() {
        assert(is_digit(w[i]));
        lemma_digit_run(w, i + 1);
    }
}

/// A word lexes as one word token.
pub proof fn lemma_lex_word(w: Seq<char>)
    requires
        w.len() > 0,
        is_word_start(w[0]),
        forall|j: int| 0 <= j < w.len() ==> is_word_char(#[trigger] w[j]),
    ensures
        lexes(w, seq![TokV::Ident(w)]),
        clean(w),
{
    lemma_word_run(w, 1);
    assert(w.subrange(0, w.len() as int) =~= w);
    assert(lex_at(w, w.len() as int) == Ok::<Seq<TokV>, Seq<char>>(seq![]));
    assert(seq![TokV::Ident(w)] + Seq::<TokV>::empty() =~= seq![TokV::Ident(w)]);
    assert forall|k: int| 0 <= k < w.len() implies #[trigger] w[k] != '/' by {
        assert(is_word_char(w[k]));
    }
}

/// A run of digits lexes as one number token.
pub proof fn lemma_lex_digits(w: Seq<char>)
    requires
        w.len() > 0,
        forall|j: int| 0 <= j < w.len() ==> is_digit(#[trigger] w[j]),
    ensures
        lexes(w, seq![TokV::Number(w)]),
        clean(w),
{
    assert(is_digit(w[0]));
    assert(!is_space(w[0]) && !is_word_start(w[0]));
    lemma_digit_run(w, 1);
    assert(w.subrange(0, w.len() as int) =~= w);
    assert(lex_at(w, w.len() as int) == Ok::<Seq<TokV>, Seq<char>>(seq![]));
    assert(seq![TokV::Number(w)] + Seq::<TokV>::empty() =~= seq![TokV::Number(w)]);
    assert forall|k: int| 0 <= k < w.len() implies #[trigger] w[k] != '/' by {
        assert(is_digit(w[k]));
    }
}

// ---------------------------------------------------------------------
// Fixed texts
// ---------------------------------------------------------------------

/// The tokens of the text "    ".
pub proof fn lemma_lit_indent()
    ensures
        lexes("    "@, Seq::<TokV>::empty()),
        clean("    "@),
        "    "@ == seq![' ', ' ', ' ', ' '],
{
    reveal_strlit("    ");
    let a0 = seq![' '];
    lemma_lex_blank(' ');
    let a1 = seq![' '];
    lemma_lex_blank(' ');
    let a2 = seq![' '];
    lemma_lex_blank(' ');
    let a3 = seq![' '];
    lemma_lex_blank(' ');
    let p0 = a0;
    let t0 = Seq::<TokV>::empty();
    assert(p0.last() == ' ');
    lemma_lex_join(p0, t0, a1, Seq::<TokV>::empty());
    let p1 = p0 + a1;
    let t1 = t0 + Seq::<TokV>::empty();
    assert(p1.last() == ' ');
    lemma_lex_join(p1, t1, a2, Seq::<TokV>::empty());
    let p2 = p1 + a2;
    let t2 = t1 + Seq::<TokV>::empty();
    assert(p2.last() == ' ');
    lemma_lex_join(p2, t2, a3, Seq::<TokV>::empty());
    let p3 = p2 + a3;
    let t3 = t2 + Seq::<TokV>::empty();
    assert(p3 =~= seq![' ', ' ', ' ', ' ']);
    assert(t3 =~= Seq::<TokV>::empty());
    assert("    "@ == p3);
    assert(lexes(p3, t3));
}

/// The tokens of the text "    enter ".
pub proof fn lemma_lit_enter()
    ensures
        lexes("    enter "@, seq![TokV::Ident(seq!['e', 'n', 't', 'e', 'r'])]),
        clean("    enter "@),
        "    enter "@ == seq![' ', ' ', ' ', ' ', 'e', 'n', 't', 'e', 'r', ' '],
{
    reveal_strlit("    enter ");
    let a0 = seq![' '];
    lemma_lex_blank(' ');
    let a1 = seq![' '];
    lemma_lex_blank(' ');
    let a2 = seq![' '];
    lemma_lex_blank(' ');
    let a3 = seq![' '];
    lemma_lex_blank(' ');
    let a4 = seq!['e', 'n', 't', 'e', 'r'];
    assert(is_word_char(a4[0]));
    assert(is_word_char(a4[1]));
    assert(is_word_char(a4[2]));
    assert(is_word_char(a4[3]));
    assert(is_word_char(a4[4]));
    lemma_lex_word(a4);
    let a5 = seq![' '];
    lemma_lex_blank(' ');
    let p0 = a0;
    let t0 = Seq::<TokV>::empty();
    assert(p0.last() == ' ');
    lemma_lex_join(p0, t0, a1, Seq::<TokV>::empty());
    let p1 = p0 + a1;
    let t1 = t0 + Seq::<TokV>::empty();
    assert(p1.last() == ' ');
    lemma_lex_join(p1, t1, a2, Seq::<TokV>::empty());
    let p2 = p1 + a2;
    let t2 = t1 + Seq::<TokV>::empty();
    assert(p2.last() == ' ');
    lemma_lex_join(p2, t2, a3, Seq::<TokV>::empty());
    let p3 = p2 + a3;
    let t3 = t2 + Seq::<TokV>::empty();
    assert(p3.last() == ' ');
    lemma_lex_join(p3, t3, a4, seq![TokV::Ident(a4)]);
    let p4 = p3 + a4;
    let t4 = t3 + seq![TokV::Ident(a4)];
    assert(p4.last() == 'r');
    lemma_lex_join(p4, t4, a5, Seq::<TokV>::empty());
    let p5 = p4 + a5;
    let t5 = t4 + Seq::<TokV>::empty();
    assert(p5 =~= seq![' ', ' ', ' ', ' ', 'e', 'n', 't', 'e', 'r', ' ']);
    assert(t5 =~= seq![TokV::Ident(seq!['e', 'n', 't', 'e', 'r'])]);
    assert("    enter "@ == p5);
    assert(lexes(p5, t5));
}

/// The tokens of the text "    goto ".
pub proof fn lemma_lit_goto()
    ensures
        lexes("    goto "@, seq![TokV::Ident(seq!['g', 'o', 't', 'o'])]),
        clean("    goto "@),
        "    goto "@ == seq![' ', ' ', ' ', ' ', 'g', 'o', 't', 'o', ' '],
{
    reveal_strlit("    goto ");
    let a0 = seq![' '];
    lemma_lex_blank(' ');
    let a1 = seq![' '];
    lemma_lex_blank(' ');
    let a2 = seq![' '];
    lemma_lex_blank(' ');
    let a3 = seq![' '];
    lemma_lex_blank(' ');
    let a4 = seq!['g', 'o', 't', 'o'];
    assert(is_word_char(a4[0]));
    assert(is_word_char(a4[1]));
    assert(is_word_char(a4[2]));
    assert(is_word_char(a4[3]));
    lemma_lex_word(a4);
    let a5 = seq![' '];
    lemma_lex_blank(' ');
    let p0 = a0;
    let t0 = Seq::<TokV>::empty();
    assert(p0.last() == ' ');
    lemma_lex_join(p0, t0, a1, Seq::<TokV>::empty());
    let p1 = p0 + a1;
    let t1 = t0 + Seq::<TokV>::empty();
    assert(p1.last() == ' ');
    lemma_lex_join(p1, t1, a2, Seq::<TokV>::empty());
    let p2 = p1 + a2;
    let t2 = t1 + Seq::<TokV>::empty();
    assert(p2.last() == ' ');
    lemma_lex_join(p2, t2, a3, Seq::<TokV>::empty());
    let p3 = p2 + a3;
    let t3 = t2 + Seq::<TokV>::empty();
    assert(p3.last() == ' ');
    lemma_lex_join(p3, t3, a4, seq![TokV::Ident(a4)]);
    let p4 = p3 + a4;
    let t4 = t3 + seq![TokV::Ident(a4)];
    assert(p4.last() == 'o');
    lemma_lex_join(p4, t4, a5, Seq::<TokV>::empty());
    let p5 = p4 + a5;
    let t5 = t4 + Seq::<TokV>::empty();
    assert(p5 =~= seq![' ', ' ', ' ', ' ', 'g', 'o', 't', 'o', ' ']);
    assert(t5 =~= seq![TokV::Ident(seq!['g', 'o', 't', 'o'])]);
    assert("    goto "@ == p5);
    assert(lexes(p5, t5));
}

/// The tokens of the text "    halt;\n".
pub proof fn lemma_lit_halt()
    ensures
        lexes("    halt;\n"@, seq![TokV::Ident(seq!['h', 'a', 'l', 't']), single_tok(';')]),
        clean("    halt;\n"@),
        "    halt;\n"@ == seq![' ', ' ', ' ', ' ', 'h', 'a', 'l', 't', ';', '\n'],
{
    reveal_strlit("    halt;\n");
    let a0 = seq![' '];
    lemma_lex_blank(' ');
    let a1 = seq![' '];
    lemma_lex_blank(' ');
    let a2 = seq![' '];
    lemma_lex_blank(' ');
    let a3 = seq![' '];
    lemma_lex_blank(' ');
    let a4 = seq!['h', 'a', 'l', 't'];
    assert(is_word_char(a4[0]));
    assert(is_word_char(a4[1]));
    assert(is_word_char(a4[2]));
    assert(is_word_char(a4[3]));
    lemma_lex_word(a4);
    let a5 = seq![';'];
    lemma_lex_symbol(';');
    let a6 = seq!['\n'];
    lemma_lex_blank('\n');
    let p0 = a0;
    let t0 = Seq::<TokV>::empty();
    assert(p0.last() == ' ');
    lemma_lex_join(p0, t0, a1, Seq::<TokV>::empty());
    let p1 = p0 + a1;
    let t1 = t0 + Seq::<TokV>::empty();
    assert(p1.last() == ' ');
    lemma_lex_join(p1, t1, a2, Seq::<TokV>::empty());
    let p2 = p1 + a2;
    let t2 = t1 + Seq::<TokV>::empty();
    assert(p2.last() == ' ');
    lemma_lex_join(p2, t2, a3, Seq::<TokV>::empty());
    let p3 = p2 + a3;
    let t3 = t2 + Seq::<TokV>::empty();
    assert(p3.last() == ' ');
    lemma_lex_join(p3, t3, a4, seq![TokV::Ident(a4)]);
    let p4 = p3 + a4;
    let t4 = t3 + seq![TokV::Ident(a4)];
    assert(p4.last() == 't');
    lemma_lex_join(p4, t4, a5, seq![single_tok(';')]);
    let p5 = p4 + a5;
    let t5 = t4 + seq![single_tok(';')];
    assert(p5.last() == ';');
    lemma_lex_join(p5, t5, a6, Seq::<TokV>::empty());
    let p6 = p5 + a6;
    let t6 = t5 + Seq::<TokV>::empty();
    assert(p6 =~= seq![' ', ' ', ' ', ' ', 'h', 'a', 'l', 't', ';', '\n']);
    assert(t6 =~= seq![TokV::Ident(seq!['h', 'a', 'l', 't']), single_tok(';')]);
    assert("    halt;\n"@ == p6);
    assert(lexes(p6, t6));
}

/// The tokens of the text "    if ".
pub proof fn lemma_lit_if()
    ensures
        lexes("    if "@, seq![TokV::Ident(seq!['i', 'f'])]),
        clean("    if "@),
        "    if "@ == seq![' ', ' ', ' ', ' ', 'i', 'f', ' '],
{
    reveal_strlit("    if ");
    let a0 = seq![' '];
    lemma_lex_blank(' ');
    let a1 = seq![' '];
    lemma_lex_blank(' ');
    let a2 = seq![' '];
    lemma_lex_blank(' ');
    let a3 = seq![' '];
    lemma_lex_blank(' ');
    let a4 = seq!['i', 'f'];
    assert(is_word_char(a4[0]));
    assert(is_word_char(a4[1]));
    lemma_lex_word(a4);
    let a5 = seq![' '];
    lemma_lex_blank(' ');
    let p0 = a0;
    let t0 = Seq::<TokV>::empty();
    assert(p0.last() == ' ');
    lemma_lex_join(p0, t0, a1, Seq::<TokV>::empty());
    let p1 = p0 + a1;
    let t1 = t0 + Seq::<TokV>::empty();
    assert(p1.last() == ' ');
    lemma_lex_join(p1, t1, a2, Seq::<TokV>::empty());
    let p2 = p1 + a2;
    let t2 = t1 + Seq::<TokV>::empty();
    assert(p2.last() == ' ');
    lemma_lex_join(p2, t2, a3, Seq::<TokV>::empty());
    let p3 = p2 + a3;
    let t3 = t2 + Seq::<TokV>::empty();
    assert(p3.last() == ' ');
    lemma_lex_join(p3, t3, a4, seq![TokV::Ident(a4)]);
    let p4 = p3 + a4;
    let t4 = t3 + seq![TokV::Ident(a4)];
    assert(p4.last() == 'f');
    lemma_lex_join(p4, t4, a5, Seq::<TokV>::empty());
    let p5 = p4 + a5;
    let t5 = t4 + Seq::<TokV>::empty();
    assert(p5 =~= seq![' ', ' ', ' ', ' ', 'i', 'f', ' ']);
    assert(t5 =~= seq![TokV::Ident(seq!['i', 'f'])]);
    assert("    if "@ == p5);
    assert(lexes(p5, t5));
}

/// The tokens of the text "  :".
pub proof fn lemma_lit_block_head()
    ensures
        lexes("  :"@, seq![single_tok(':')]),
        clean("  :"@),
        "  :"@ == seq![' ', ' ', ':'],
{
    reveal_strlit("  :");
    let a0 = seq![' '];
    lemma_lex_blank(' ');
    let a1 = seq![' '];
    lemma_lex_blank(' ');
    let a2 = seq![':'];
    lemma_lex_symbol(':');
    let p0 = a0;
    let t0 = Seq::<TokV>::empty();
    assert(p0.last() == ' ');
    lemma_lex_join(p0, t0, a1, Seq::<TokV>::empty());
    let p1 = p0 + a1;
    let t1 = t0 + Seq::<TokV>::empty();
    assert(p1.last() == ' ');
    lemma_lex_join(p1, t1, a2, seq![single_tok(':')]);
    let p2 = p1 + a2;
    let t2 = t1 + seq![single_tok(':')];
    assert(p2 =~= seq![' ', ' ', ':']);
    assert(t2 =~= seq![single_tok(':')]);
    assert("  :"@ == p2);
    assert(lexes(p2, t2));
}

/// The tokens of the text "  }\n".
pub proof fn lemma_lit_block_close()
    ensures
        lexes("  }\n"@, seq![single_tok('}')]),
        clean("  }\n"@),
        "  }\n"@ == seq![' ', ' ', '}', '\n'],
{
    reveal_strlit("  }\n");
    let a0 = seq![' '];
    lemma_lex_blank(' ');
    let a1 = seq![' '];
    lemma_lex_blank(' ');
    let a2 = seq!['}'];
    lemma_lex_symbol('}');
    let a3 = seq!['\n'];
    lemma_lex_blank('\n');
    let p0 = a0;
    let t0 = Seq::<TokV>::empty();
    assert(p0.last() == ' ');
    lemma_lex_join(p0, t0, a1, Seq::<TokV>::empty());
    let p1 = p0 + a1;
    let t1 = t0 + Seq::<TokV>::empty();
    assert(p1.last() == ' ');
    lemma_lex_join(p1, t1, a2, seq![single_tok('}')]);
    let p2 = p1 + a2;
    let t2 = t1 + seq![single_tok('}')];
    assert(p2.last() == '}');
    lemma_lex_join(p2, t2, a3, Seq::<TokV>::empty());
    let p3 = p2 + a3;
    let t3 = t2 + Seq::<TokV>::empty();
    assert(p3 =~= seq![' ', ' ', '}', '\n']);
    assert(t3 =~= seq![single_tok('}')]);
    assert("  }\n"@ == p3);
    assert(lexes(p3, t3));
}

/// The tokens of the text " ".
pub proof fn lemma_lit_space()
    ensures
        lexes(" "@, Seq::<TokV>::empty()),
        clean(" "@),
        " "@ == seq![' '],
{
    reveal_strlit(" ");
    let a0 = seq![' '];
    lemma_lex_blank(' ');
    let p0 = a0;
    let t0 = Seq::<TokV>::empty();
    assert(p0 =~= seq![' ']);
    assert(t0 =~= Seq::<TokV>::empty());
    assert(" "@ == p0);
    assert(lexes(p0, t0));
}

/// The tokens of the text " := ".
pub proof fn lemma_lit_assign()
    ensures
        lexes(" := "@, seq![single_tok(':'), single_tok('=')]),
        clean(" := "@),
        " := "@ == seq![' ', ':', '=', ' '],
{
    reveal_strlit(" := ");
    let a0 = seq![' '];
    lemma_lex_blank(' ');
    let a1 = seq![':'];
    lemma_lex_symbol(':');
    let a2 = seq!['='];
    lemma_lex_symbol('=');
    let a3 = seq![' '];
    lemma_lex_blank(' ');
    let p0 = a0;
    let t0 = Seq::<TokV>::empty();
    assert(p0.last() == ' ');
    lemma_lex_join(p0, t0, a1, seq![single_tok(':')]);
    let p1 = p0 + a1;
    let t1 = t0 + seq![single_tok(':')];
    assert(p1.last() == ':');
    lemma_lex_join(p1, t1, a2, seq![single_tok('=')]);
    let p2 = p1 + a2;
    let t2 = t1 + seq![single_tok('=')];
    assert(p2.last() == '=');
    lemma_lex_join(p2, t2, a3, Seq::<TokV>::empty());
    let p3 = p2 + a3;
    let t3 = t2 + Seq::<TokV>::empty();
    assert(p3 =~= seq![' ', ':', '=', ' ']);
    assert(t3 =~= seq![single_tok(':'), single_tok('=')]);
    assert(" := "@ == p3);
    assert(lexes(p3, t3));
}

/// The tokens of the text " := ld ".
pub proof fn lemma_lit_load()
    ensures
        lexes(" := ld "@, seq![single_tok(':'), single_tok('='), TokV::Ident(seq!['l', 'd'])]),
        clean(" := ld "@),
        " := ld "@ == seq![' ', ':', '=', ' ', 'l', 'd', ' '],
{
    reveal_strlit(" := ld ");
    let a0 = seq![' '];
    lemma_lex_blank(' ');
    let a1 = seq![':'];
    lemma_lex_symbol(':');
    let a2 = seq!['='];
    lemma_lex_symbol('=');
    let a3 = seq![' '];
    lemma_lex_blank(' ');
    let a4 = seq!['l', 'd'];
    assert(is_word_char(a4[0]));
    assert(is_word_char(a4[1]));
    lemma_lex_word(a4);
    let a5 = seq![' '];
    lemma_lex_blank(' ');
    let p0 = a0;
    let t0 = Seq::<TokV>::empty();
    assert(p0.last() == ' ');
    lemma_lex_join(p0, t0, a1, seq![single_tok(':')]);
    let p1 = p0 + a1;
    let t1 = t0 + seq![single_tok(':')];
    assert(p1.last() == ':');
    lemma_lex_join(p1, t1, a2, seq![single_tok('=')]);
    let p2 = p1 + a2;
    let t2 = t1 + seq![single_tok('=')];
    assert(p2.last() == '=');
    lemma_lex_join(p2, t2, a3, Seq::<TokV>::empty());
    let p3 = p2 + a3;
    let t3 = t2 + Seq::<TokV>::empty();
    assert(p3.last() == ' ');
    lemma_lex_join(p3, t3, a4, seq![TokV::Ident(a4)]);
    let p4 = p3 + a4;
    let t4 = t3 + seq![TokV::Ident(a4)];
    assert(p4.last() == 'd');
    lemma_lex_join(p4, t4, a5, Seq::<TokV>::empty());
    let p5 = p4 + a5;
    let t5 = t4 + Seq::<TokV>::empty();
    assert(p5 =~= seq![' ', ':', '=', ' ', 'l', 'd', ' ']);
    assert(t5 =~= seq![single_tok(':'), single_tok('='), TokV::Ident(seq!['l', 'd'])]);
    assert(" := ld "@ == p5);
    assert(lexes(p5, t5));
}

/// The tokens of the text " := st ".
pub proof fn lemma_lit_store()
    ensures
        lexes(" := st "@, seq![single_tok(':'), single_tok('='), TokV::Ident(seq!['s', 't'])]),
        clean(" := st "@),
        " := st "@ == seq![' ', ':', '=', ' ', 's', 't', ' '],
{
    reveal_strlit(" := st ");
    let a0 = seq![' '];
    lemma_lex_blank(' ');
    let a1 = seq![':'];
    lemma_lex_symbol(':');
    let a2 = seq!['='];
    lemma_lex_symbol('=');
    let a3 = seq![' '];
    lemma_lex_blank(' ');
    let a4 = seq!['s', 't'];
    assert(is_word_char(a4[0]));
    assert(is_word_char(a4[1]));
    lemma_lex_word(a4);
    let a5 = seq![' '];
    lemma_lex_blank(' ');
    let p0 = a0;
    let t0 = Seq::<TokV>::empty();
    assert(p0.last() == ' ');
    lemma_lex_join(p0, t0, a1, seq![single_tok(':')]);
    let p1 = p0 + a1;
    let t1 = t0 + seq![single_tok(':')];
    assert(p1.last() == ':');
    lemma_lex_join(p1, t1, a2, seq![single_tok('=')]);
    let p2 = p1 + a2;
    let t2 = t1 + seq![single_tok('=')];
    assert(p2.last() == '=');
    lemma_lex_join(p2, t2, a3, Seq::<TokV>::empty());
    let p3 = p2 + a3;
    let t3 = t2 + Seq::<TokV>::empty();
    assert(p3.last() == ' ');
    lemma_lex_join(p3, t3, a4, seq![TokV::Ident(a4)]);
    let p4 = p3 + a4;
    let t4 = t3 + seq![TokV::Ident(a4)];
    assert(p4.last() == 't');
    lemma_lex_join(p4, t4, a5, Seq::<TokV>::empty());
    let p5 = p4 + a5;
    let t5 = t4 + Seq::<TokV>::empty();
    assert(p5 =~= seq![' ', ':', '=', ' ', 's', 't', ' ']);
    assert(t5 =~= seq![single_tok(':'), single_tok('='), TokV::Ident(seq!['s', 't'])]);
    assert(" := st "@ == p5);
    assert(lexes(p5, t5));
}

/// The tokens of the text " < ".
pub proof fn lemma_lit_lt()
    ensures
        lexes(" < "@, seq![single_tok('<')]),
        clean(" < "@),
        " < "@ == seq![' ', '<', ' '],
{
    reveal_strlit(" < ");
    let a0 = seq![' '];
    lemma_lex_blank(' ');
    let a1 = seq!['<'];
    lemma_lex_symbol('<');
    let a2 = seq![' '];
    lemma_lex_blank(' ');
    let p0 = a0;
    let t0 = Seq::<TokV>::empty();
    assert(p0.last() == ' ');
    lemma_lex_join(p0, t0, a1, seq![single_tok('<')]);
    let p1 = p0 + a1;
    let t1 = t0 + seq![single_tok('<')];
    assert(p1.last() == '<');
    lemma_lex_join(p1, t1, a2, Seq::<TokV>::empty());
    let p2 = p1 + a2;
    let t2 = t1 + Seq::<TokV>::empty();
    assert(p2 =~= seq![' ', '<', ' ']);
    assert(t2 =~= seq![single_tok('<')]);
    assert(" < "@ == p2);
    assert(lexes(p2, t2));
}

/// The tokens of the text " = ".
pub proof fn lemma_lit_eq()
    ensures
        lexes(" = "@, seq![single_tok('=')]),
        clean(" = "@),
        " = "@ == seq![' ', '=', ' '],
{
    reveal_strlit(" = ");
    let a0 = seq![' '];
    lemma_lex_blank(' ');
    let a1 = seq!['='];
    lemma_lex_symbol('=');
    let a2 = seq![' '];
    lemma_lex_blank(' ');
    let p0 = a0;
    let t0 = Seq::<TokV>::empty();
    assert(p0.last() == ' ');
    lemma_lex_join(p0, t0, a1, seq![single_tok('=')]);
    let p1 = p0 + a1;
    let t1 = t0 + seq![single_tok('=')];
    assert(p1.last() == '=');
    lemma_lex_join(p1, t1, a2, Seq::<TokV>::empty());
    let p2 = p1 + a2;
    let t2 = t1 + Seq::<TokV>::empty();
    assert(p2 =~= seq![' ', '=', ' ']);
    assert(t2 =~= seq![single_tok('=')]);
    assert(" = "@ == p2);
    assert(lexes(p2, t2));
}

/// The tokens of the text " > ".
pub proof fn lemma_lit_gt()
    ensures
        lexes(" > "@, seq![single_tok('>')]),
        clean(" > "@),
        " > "@ == seq![' ', '>', ' '],
{
    reveal_strlit(" > ");
    let a0 = seq![' '];
    lemma_lex_blank(' ');
    let a1 = seq!['>'];
    lemma_lex_symbol('>');
    let a2 = seq![' '];
    lemma_lex_blank(' ');
    let p0 = a0;
    let t0 = Seq::<TokV>::empty();
    assert(p0.last() == ' ');
    lemma_lex_join(p0, t0, a1, seq![single_tok('>')]);
    let p1 = p0 + a1;
    let t1 = t0 + seq![single_tok('>')];
    assert(p1.last() == '>');
    lemma_lex_join(p1, t1, a2, Seq::<TokV>::empty());
    let p2 = p1 + a2;
    let t2 = t1 + Seq::<TokV>::empty();
    assert(p2 =~= seq![' ', '>', ' ']);
    assert(t2 =~= seq![single_tok('>')]);
    assert(" > "@ == p2);
    assert(lexes(p2, t2));
}

/// The tokens of the text " then ".
pub proof fn lemma_lit_then()
    ensures
        lexes(" then "@, seq![TokV::Ident(seq!['t', 'h', 'e', 'n'])]),
        clean(" then "@),
        " then "@ == seq![' ', 't', 'h', 'e', 'n', ' '],
{
    reveal_strlit(" then ");
    let a0 = seq![' '];
    lemma_lex_blank(' ');
    let a1 = seq!['t', 'h', 'e', 'n'];
    assert(is_word_char(a1[0]));
    assert(is_word_char(a1[1]));
    assert(is_word_char(a1[2]));
    assert(is_word_char(a1[3]));
    lemma_lex_word(a1);
    let a2 = seq![' '];
    lemma_lex_blank(' ');
    let p0 = a0;
    let t0 = Seq::<TokV>::empty();
    assert(p0.last() == ' ');
    lemma_lex_join(p0, t0, a1, seq![TokV::Ident(a1)]);
    let p1 = p0 + a1;
    let t1 = t0 + seq![TokV::Ident(a1)];
    assert(p1.last() == 'n');
    lemma_lex_join(p1, t1, a2, Seq::<TokV>::empty());
    let p2 = p1 + a2;
    let t2 = t1 + Seq::<TokV>::empty();
    assert(p2 =~= seq![' ', 't', 'h', 'e', 'n', ' ']);
    assert(t2 =~= seq![TokV::Ident(seq!['t', 'h', 'e', 'n'])]);
    assert(" then "@ == p2);
    assert(lexes(p2, t2));
}

/// The tokens of the text " {\n".
pub proof fn lemma_lit_open_brace()
    ensures
        lexes(" {\n"@, seq![single_tok('{')]),
        clean(" {\n"@),
        " {\n"@ == seq![' ', '{', '\n'],
{
    reveal_strlit(" {\n");
    let a0 = seq![' '];
    lemma_lex_blank(' ');
    let a1 = seq!['{'];
    lemma_lex_symbol('{');
    let a2 = seq!['\n'];
    lemma_lex_blank('\n');
    let p0 = a0;
    let t0 = Seq::<TokV>::empty();
    assert(p0.last() == ' ');
    lemma_lex_join(p0, t0, a1, seq![single_tok('{')]);
    let p1 = p0 + a1;
    let t1 = t0 + seq![single_tok('{')];
    assert(p1.last() == '{');
    lemma_lex_join(p1, t1, a2, Seq::<TokV>::empty());
    let p2 = p1 + a2;
    let t2 = t1 + Seq::<TokV>::empty();
    assert(p2 =~= seq![' ', '{', '\n']);
    assert(t2 =~= seq![single_tok('{')]);
    assert(" {\n"@ == p2);
    assert(lexes(p2, t2));
}

/// The tokens of the text "#".
pub proof fn lemma_lit_hash()
    ensures
        lexes("#"@, seq![single_tok('#')]),
        clean("#"@),
        "#"@ == seq!['#'],
{
    reveal_strlit("#");
    let a0 = seq!['#'];
    lemma_lex_symbol('#');
    let p0 = a0;
    let t0 = seq![single_tok('#')];
    assert(p0 =~= seq!['#']);
    assert(t0 =~= seq![single_tok('#')]);
    assert("#"@ == p0);
    assert(lexes(p0, t0));
}

/// The tokens of the text "%".
pub proof fn lemma_lit_percent()
    ensures
        lexes("%"@, seq![single_tok('%')]),
        clean("%"@),
        "%"@ == seq!['%'],
{
    reveal_strlit("%");
    let a0 = seq!['%'];
    lemma_lex_symbol('%');
    let p0 = a0;
    let t0 = seq![single_tok('%')];
    assert(p0 =~= seq!['%']);
    assert(t0 =~= seq![single_tok('%')]);
    assert("%"@ == p0);
    assert(lexes(p0, t0));
}

/// The tokens of the text ") %".
pub proof fn lemma_lit_paren_reg()
    ensures
        lexes(") %"@, seq![single_tok(')'), single_tok('%')]),
        clean(") %"@),
        ") %"@ == seq![')', ' ', '%'],
{
    reveal_strlit(") %");
    let a0 = seq![')'];
    lemma_lex_symbol(')');
    let a1 = seq![' '];
    lemma_lex_blank(' ');
    let a2 = seq!['%'];
    lemma_lex_symbol('%');
    let p0 = a0;
    let t0 = seq![single_tok(')')];
    assert(p0.last() == ')');
    lemma_lex_join(p0, t0, a1, Seq::<TokV>::empty());
    let p1 = p0 + a1;
    let t1 = t0 + Seq::<TokV>::empty();
    assert(p1.last() == ' ');
    lemma_lex_join(p1, t1, a2, seq![single_tok('%')]);
    let p2 = p1 + a2;
    let t2 = t1 + seq![single_tok('%')];
    assert(p2 =~= seq![')', ' ', '%']);
    assert(t2 =~= seq![single_tok(')'), single_tok('%')]);
    assert(") %"@ == p2);
    assert(lexes(p2, t2));
}

/// The tokens of the text ")[".
pub proof fn lemma_lit_paren_bracket()
    ensures
        lexes(")["@, seq![single_tok(')'), single_tok('[')]),
        clean(")["@),
        ")["@ == seq![')', '['],
{
    reveal_strlit(")[");
    let a0 = seq![')'];
    lemma_lex_symbol(')');
    let a1 = seq!['['];
    lemma_lex_symbol('[');
    let p0 = a0;
    let t0 = seq![single_tok(')')];
    assert(p0.last() == ')');
    lemma_lex_join(p0, t0, a1, seq![single_tok('[')]);
    let p1 = p0 + a1;
    let t1 = t0 + seq![single_tok('[')];
    assert(p1 =~= seq![')', '[']);
    assert(t1 =~= seq![single_tok(')'), single_tok('[')]);
    assert(")["@ == p1);
    assert(lexes(p1, t1));
}

/// The tokens of the text "+".
pub proof fn lemma_lit_plus()
    ensures
        lexes("+"@, seq![single_tok('+')]),
        clean("+"@),
        "+"@ == seq!['+'],
{
    reveal_strlit("+");
    let a0 = seq!['+'];
    lemma_lex_symbol('+');
    let p0 = a0;
    let t0 = seq![single_tok('+')];
    assert(p0 =~= seq!['+']);
    assert(t0 =~= seq![single_tok('+')]);
    assert("+"@ == p0);
    assert(lexes(p0, t0));
}

/// The tokens of the text "-".
pub proof fn lemma_lit_minus()
    ensures
        lexes("-"@, seq![single_tok('-')]),
        clean("-"@),
        "-"@ == seq!['-'],
{
    reveal_strlit("-");
    let a0 = seq!['-'];
    lemma_lex_symbol('-');
    let p0 = a0;
    let t0 = seq![single_tok('-')];
    assert(p0 =~= seq!['-']);
    assert(t0 =~= seq![single_tok('-')]);
    assert("-"@ == p0);
    assert(lexes(p0, t0));
}

/// The tokens of the text ":".
pub proof fn lemma_lit_colon()
    ensures
        lexes(":"@, seq![single_tok(':')]),
        clean(":"@),
        ":"@ == seq![':'],
{
    reveal_strlit(":");
    let a0 = seq![':'];
    lemma_lex_symbol(':');
    let p0 = a0;
    let t0 = seq![single_tok(':')];
    assert(p0 =~= seq![':']);
    assert(t0 =~= seq![single_tok(':')]);
    assert(":"@ == p0);
    assert(lexes(p0, t0));
}

/// The tokens of the text ";".
pub proof fn lemma_lit_semi()
    ensures
        lexes(";"@, seq![single_tok(';')]),
        clean(";"@),
        ";"@ == seq![';'],
{
    reveal_strlit(";");
    let a0 = seq![';'];
    lemma_lex_symbol(';');
    let p0 = a0;
    let t0 = seq![single_tok(';')];
    assert(p0 =~= seq![';']);
    assert(t0 =~= seq![single_tok(';')]);
    assert(";"@ == p0);
    assert(lexes(p0, t0));
}

/// The tokens of the text ";\n".
pub proof fn lemma_lit_semi_line()
    ensures
        lexes(";\n"@, seq![single_tok(';')]),
        clean(";\n"@),
        ";\n"@ == seq![';', '\n'],
{
    reveal_strlit(";\n");
    let a0 = seq![';'];
    lemma_lex_symbol(';');
    let a1 = seq!['\n'];
    lemma_lex_blank('\n');
    let p0 = a0;
    let t0 = seq![single_tok(';')];
    assert(p0.last() == ';');
    lemma_lex_join(p0, t0, a1, Seq::<TokV>::empty());
    let p1 = p0 + a1;
    let t1 = t0 + Seq::<TokV>::empty();
    assert(p1 =~= seq![';', '\n']);
    assert(t1 =~= seq![single_tok(';')]);
    assert(";\n"@ == p1);
    assert(lexes(p1, t1));
}

/// The tokens of the text "@".
pub proof fn lemma_lit_at()
    ensures
        lexes("@"@, seq![single_tok('@')]),
        clean("@"@),
        "@"@ == seq!['@'],
{
    reveal_strlit("@");
    let a0 = seq!['@'];
    lemma_lex_symbol('@');
    let p0 = a0;
    let t0 = seq![single_tok('@')];
    assert(p0 =~= seq!['@']);
    assert(t0 =~= seq![single_tok('@')]);
    assert("@"@ == p0);
    assert(lexes(p0, t0));
}

/// The tokens of the text "\n".
pub proof fn lemma_lit_newline()
    ensures
        lexes("\n"@, Seq::<TokV>::empty()),
        clean("\n"@),
        "\n"@ == seq!['\n'],
{
    reveal_strlit("\n");
    let a0 = seq!['\n'];
    lemma_lex_blank('\n');
    let p0 = a0;
    let t0 = Seq::<TokV>::empty();
    assert(p0 =~= seq!['\n']);
    assert(t0 =~= Seq::<TokV>::empty());
    assert("\n"@ == p0);
    assert(lexes(p0, t0));
}

/// The tokens of the text "]".
pub proof fn lemma_lit_bracket_close()
    ensures
        lexes("]"@, seq![single_tok(']')]),
        clean("]"@),
        "]"@ == seq![']'],
{
    reveal_strlit("]");
    let a0 = seq![']'];
    lemma_lex_symbol(']');
    let p0 = a0;
    let t0 = seq![single_tok(']')];
    assert(p0 =~= seq![']']);
    assert(t0 =~= seq![single_tok(']')]);
    assert("]"@ == p0);
    assert(lexes(p0, t0));
}

/// The tokens of the text "deref %".
pub proof fn lemma_lit_deref()
    ensures
        lexes("deref %"@, seq![TokV::Ident(seq!['d', 'e', 'r', 'e', 'f']), single_tok('%')]),
        clean("deref %"@),
        "deref %"@ == seq!['d', 'e', 'r', 'e', 'f', ' ', '%'],
{
    reveal_strlit("deref %");
    let a0 = seq!['d', 'e', 'r', 'e', 'f'];
    assert(is_word_char(a0[0]));
    assert(is_word_char(a0[1]));
    assert(is_word_char(a0[2]));
    assert(is_word_char(a0[3]));
    assert(is_word_char(a0[4]));
    lemma_lex_word(a0);
    let a1 = seq![' '];
    lemma_lex_blank(' ');
    let a2 = seq!['%'];
    lemma_lex_symbol('%');
    let p0 = a0;
    let t0 = seq![TokV::Ident(a0)];
    assert(p0.last() == 'f');
    lemma_lex_join(p0, t0, a1, Seq::<TokV>::empty());
    let p1 = p0 + a1;
    let t1 = t0 + Seq::<TokV>::empty();
    assert(p1.last() == ' ');
    lemma_lex_join(p1, t1, a2, seq![single_tok('%')]);
    let p2 = p1 + a2;
    let t2 = t1 + seq![single_tok('%')];
    assert(p2 =~= seq!['d', 'e', 'r', 'e', 'f', ' ', '%']);
    assert(t2 =~= seq![TokV::Ident(seq!['d', 'e', 'r', 'e', 'f']), single_tok('%')]);
    assert("deref %"@ == p2);
    assert(lexes(p2, t2));
}

/// The tokens of the text "hacc(".
pub proof fn lemma_lit_hacc()
    ensures
        lexes("hacc("@, seq![TokV::Ident(seq!['h', 'a', 'c', 'c']), single_tok('(')]),
        clean("hacc("@),
        "hacc("@ == seq!['h', 'a', 'c', 'c', '('],
{
    reveal_strlit("hacc(");
    let a0 = seq!['h', 'a', 'c', 'c'];
    assert(is_word_char(a0[0]));
    assert(is_word_char(a0[1]));
    assert(is_word_char(a0[2]));
    assert(is_word_char(a0[3]));
    lemma_lex_word(a0);
    let a1 = seq!['('];
    lemma_lex_symbol('(');
    let p0 = a0;
    let t0 = seq![TokV::Ident(a0)];
    assert(p0.last() == 'c');
    lemma_lex_join(p0, t0, a1, seq![single_tok('(')]);
    let p1 = p0 + a1;
    let t1 = t0 + seq![single_tok('(')];
    assert(p1 =~= seq!['h', 'a', 'c', 'c', '(']);
    assert(t1 =~= seq![TokV::Ident(seq!['h', 'a', 'c', 'c']), single_tok('(')]);
    assert("hacc("@ == p1);
    assert(lexes(p1, t1));
}

/// The tokens of the text "halloc(".
pub proof fn lemma_lit_halloc()
    ensures
        lexes("halloc("@, seq![TokV::Ident(seq!['h', 'a', 'l', 'l', 'o', 'c']), single_tok('(')]),
        clean("halloc("@),
        "halloc("@ == seq!['h', 'a', 'l', 'l', 'o', 'c', '('],
{
    reveal_strlit("halloc(");
    let a0 = seq!['h', 'a', 'l', 'l', 'o', 'c'];
    assert(is_word_char(a0[0]));
    assert(is_word_char(a0[1]));
    assert(is_word_char(a0[2]));
    assert(is_word_char(a0[3]));
    assert(is_word_char(a0[4]));
    assert(is_word_char(a0[5]));
    lemma_lex_word(a0);
    let a1 = seq!['('];
    lemma_lex_symbol('(');
    let p0 = a0;
    let t0 = seq![TokV::Ident(a0)];
    assert(p0.last() == 'c');
    lemma_lex_join(p0, t0, a1, seq![single_tok('(')]);
    let p1 = p0 + a1;
    let t1 = t0 + seq![single_tok('(')];
    assert(p1 =~= seq!['h', 'a', 'l', 'l', 'o', 'c', '(']);
    assert(t1 =~= seq![TokV::Ident(seq!['h', 'a', 'l', 'l', 'o', 'c']), single_tok('(')]);
    assert("halloc("@ == p1);
    assert(lexes(p1, t1));
}

/// The tokens of the text "hfree ".
pub proof fn lemma_lit_hfree()
    ensures
        lexes("hfree "@, seq![TokV::Ident(seq!['h', 'f', 'r', 'e', 'e'])]),
        clean("hfree "@),
        "hfree "@ == seq!['h', 'f', 'r', 'e', 'e', ' '],
{
    reveal_strlit("hfree ");
    let a0 = seq!['h', 'f', 'r', 'e', 'e'];
    assert(is_word_char(a0[0]));
    assert(is_word_char(a0[1]));
    assert(is_word_char(a0[2]));
    assert(is_word_char(a0[3]));
    assert(is_word_char(a0[4]));
    lemma_lex_word(a0);
    let a1 = seq![' '];
    lemma_lex_blank(' ');
    let p0 = a0;
    let t0 = seq![TokV::Ident(a0)];
    assert(p0.last() == 'e');
    lemma_lex_join(p0, t0, a1, Seq::<TokV>::empty());
    let p1 = p0 + a1;
    let t1 = t0 + Seq::<TokV>::empty();
    assert(p1 =~= seq!['h', 'f', 'r', 'e', 'e', ' ']);
    assert(t1 =~= seq![TokV::Ident(seq!['h', 'f', 'r', 'e', 'e'])]);
    assert("hfree "@ == p1);
    assert(lexes(p1, t1));
}

/// The tokens of the text "input ".
pub proof fn lemma_lit_input()
    ensures
        lexes("input "@, seq![TokV::Ident(seq!['i', 'n', 'p', 'u', 't'])]),
        clean("input "@),
        "input "@ == seq!['i', 'n', 'p', 'u', 't', ' '],
{
    reveal_strlit("input ");
    let a0 = seq!['i', 'n', 'p', 'u', 't'];
    assert(is_word_char(a0[0]));
    assert(is_word_char(a0[1]));
    assert(is_word_char(a0[2]));
    assert(is_word_char(a0[3]));
    assert(is_word_char(a0[4]));
    lemma_lex_word(a0);
    let a1 = seq![' '];
    lemma_lex_blank(' ');
    let p0 = a0;
    let t0 = seq![TokV::Ident(a0)];
    assert(p0.last() == 't');
    lemma_lex_join(p0, t0, a1, Seq::<TokV>::empty());
    let p1 = p0 + a1;
    let t1 = t0 + Seq::<TokV>::empty();
    assert(p1 =~= seq!['i', 'n', 'p', 'u', 't', ' ']);
    assert(t1 =~= seq![TokV::Ident(seq!['i', 'n', 'p', 'u', 't'])]);
    assert("input "@ == p1);
    assert(lexes(p1, t1));
}

/// The tokens of the text "lget %".
pub proof fn lemma_lit_lget()
    ensures
        lexes("lget %"@, seq![TokV::Ident(seq!['l', 'g', 'e', 't']), single_tok('%')]),
        clean("lget %"@),
        "lget %"@ == seq!['l', 'g', 'e', 't', ' ', '%'],
{
    reveal_strlit("lget %");
    let a0 = seq!['l', 'g', 'e', 't'];
    assert(is_word_char(a0[0]));
    assert(is_word_char(a0[1]));
    assert(is_word_char(a0[2]));
    assert(is_word_char(a0[3]));
    lemma_lex_word(a0);
    let a1 = seq![' '];
    lemma_lex_blank(' ');
    let a2 = seq!['%'];
    lemma_lex_symbol('%');
    let p0 = a0;
    let t0 = seq![TokV::Ident(a0)];
    assert(p0.last() == 't');
    lemma_lex_join(p0, t0, a1, Seq::<TokV>::empty());
    let p1 = p0 + a1;
    let t1 = t0 + Seq::<TokV>::empty();
    assert(p1.last() == ' ');
    lemma_lex_join(p1, t1, a2, seq![single_tok('%')]);
    let p2 = p1 + a2;
    let t2 = t1 + seq![single_tok('%')];
    assert(p2 =~= seq!['l', 'g', 'e', 't', ' ', '%']);
    assert(t2 =~= seq![TokV::Ident(seq!['l', 'g', 'e', 't']), single_tok('%')]);
    assert("lget %"@ == p2);
    assert(lexes(p2, t2));
}

/// The tokens of the text "nop;".
pub proof fn lemma_lit_nop()
    ensures
        lexes("nop;"@, seq![TokV::Ident(seq!['n', 'o', 'p']), single_tok(';')]),
        clean("nop;"@),
        "nop;"@ == seq!['n', 'o', 'p', ';'],
{
    reveal_strlit("nop;");
    let a0 = seq!['n', 'o', 'p'];
    assert(is_word_char(a0[0]));
    assert(is_word_char(a0[1]));
    assert(is_word_char(a0[2]));
    lemma_lex_word(a0);
    let a1 = seq![';'];
    lemma_lex_symbol(';');
    let p0 = a0;
    let t0 = seq![TokV::Ident(a0)];
    assert(p0.last() == 'p');
    lemma_lex_join(p0, t0, a1, seq![single_tok(';')]);
    let p1 = p0 + a1;
    let t1 = t0 + seq![single_tok(';')];
    assert(p1 =~= seq!['n', 'o', 'p', ';']);
    assert(t1 =~= seq![TokV::Ident(seq!['n', 'o', 'p']), single_tok(';')]);
    assert("nop;"@ == p1);
    assert(lexes(p1, t1));
}

/// The tokens of the text "pop %".
pub proof fn lemma_lit_pop()
    ensures
        lexes("pop %"@, seq![TokV::Ident(seq!['p', 'o', 'p']), single_tok('%')]),
        clean("pop %"@),
        "pop %"@ == seq!['p', 'o', 'p', ' ', '%'],
{
    reveal_strlit("pop %");
    let a0 = seq!['p', 'o', 'p'];
    assert(is_word_char(a0[0]));
    assert(is_word_char(a0[1]));
    assert(is_word_char(a0[2]));
    lemma_lex_word(a0);
    let a1 = seq![' '];
    lemma_lex_blank(' ');
    let a2 = seq!['%'];
    lemma_lex_symbol('%');
    let p0 = a0;
    let t0 = seq![TokV::Ident(a0)];
    assert(p0.last() == 'p');
    lemma_lex_join(p0, t0, a1, Seq::<TokV>::empty());
    let p1 = p0 + a1;
    let t1 = t0 + Seq::<TokV>::empty();
    assert(p1.last() == ' ');
    lemma_lex_join(p1, t1, a2, seq![single_tok('%')]);
    let p2 = p1 + a2;
    let t2 = t1 + seq![single_tok('%')];
    assert(p2 =~= seq!['p', 'o', 'p', ' ', '%']);
    assert(t2 =~= seq![TokV::Ident(seq!['p', 'o', 'p']), single_tok('%')]);
    assert("pop %"@ == p2);
    assert(lexes(p2, t2));
}

/// The tokens of the text "print %".
pub proof fn lemma_lit_print()
    ensures
        lexes("print %"@, seq![TokV::Ident(seq!['p', 'r', 'i', 'n', 't']), single_tok('%')]),
        clean("print %"@),
        "print %"@ == seq!['p', 'r', 'i', 'n', 't', ' ', '%'],
{
    reveal_strlit("print %");
    let a0 = seq!['p', 'r', 'i', 'n', 't'];
    assert(is_word_char(a0[0]));
    assert(is_word_char(a0[1]));
    assert(is_word_char(a0[2]));
    assert(is_word_char(a0[3]));
    assert(is_word_char(a0[4]));
    lemma_lex_word(a0);
    let a1 = seq![' '];
    lemma_lex_blank(' ');
    let a2 = seq!['%'];
    lemma_lex_symbol('%');
    let p0 = a0;
    let t0 = seq![TokV::Ident(a0)];
    assert(p0.last() == 't');
    lemma_lex_join(p0, t0, a1, Seq::<TokV>::empty());
    let p1 = p0 + a1;
    let t1 = t0 + Seq::<TokV>::empty();
    assert(p1.last() == ' ');
    lemma_lex_join(p1, t1, a2, seq![single_tok('%')]);
    let p2 = p1 + a2;
    let t2 = t1 + seq![single_tok('%')];
    assert(p2 =~= seq!['p', 'r', 'i', 'n', 't', ' ', '%']);
    assert(t2 =~= seq![TokV::Ident(seq!['p', 'r', 'i', 'n', 't']), single_tok('%')]);
    assert("print %"@ == p2);
    assert(lexes(p2, t2));
}

/// The tokens of the text "push ".
pub proof fn lemma_lit_push()
    ensures
        lexes("push "@, seq![TokV::Ident(seq!['p', 'u', 's', 'h'])]),
        clean("push "@),
        "push "@ == seq!['p', 'u', 's', 'h', ' '],
{
    reveal_strlit("push ");
    let a0 = seq!['p', 'u', 's', 'h'];
    assert(is_word_char(a0[0]));
    assert(is_word_char(a0[1]));
    assert(is_word_char(a0[2]));
    assert(is_word_char(a0[3]));
    lemma_lex_word(a0);
    let a1 = seq![' '];
    lemma_lex_blank(' ');
    let p0 = a0;
    let t0 = seq![TokV::Ident(a0)];
    assert(p0.last() == 'h');
    lemma_lex_join(p0, t0, a1, Seq::<TokV>::empty());
    let p1 = p0 + a1;
    let t1 = t0 + Seq::<TokV>::empty();
    assert(p1 =~= seq!['p', 'u', 's', 'h', ' ']);
    assert(t1 =~= seq![TokV::Ident(seq!['p', 'u', 's', 'h'])]);
    assert("push "@ == p1);
    assert(lexes(p1, t1));
}

/// The tokens of the text "ref ".
pub proof fn lemma_lit_ref()
    ensures
        lexes("ref "@, seq![TokV::Ident(seq!['r', 'e', 'f'])]),
        clean("ref "@),
        "ref "@ == seq!['r', 'e', 'f', ' '],
{
    reveal_strlit("ref ");
    let a0 = seq!['r', 'e', 'f'];
    assert(is_word_char(a0[0]));
    assert(is_word_char(a0[1]));
    assert(is_word_char(a0[2]));
    lemma_lex_word(a0);
    let a1 = seq![' '];
    lemma_lex_blank(' ');
    let p0 = a0;
    let t0 = seq![TokV::Ident(a0)];
    assert(p0.last() == 'f');
    lemma_lex_join(p0, t0, a1, Seq::<TokV>::empty());
    let p1 = p0 + a1;
    let t1 = t0 + Seq::<TokV>::empty();
    assert(p1 =~= seq!['r', 'e', 'f', ' ']);
    assert(t1 =~= seq![TokV::Ident(seq!['r', 'e', 'f'])]);
    assert("ref "@ == p1);
    assert(lexes(p1, t1));
}

/// The tokens of the text "sacc ".
pub proof fn lemma_lit_sacc()
    ensures
        lexes("sacc "@, seq![TokV::Ident(seq!['s', 'a', 'c', 'c'])]),
        clean("sacc "@),
        "sacc "@ == seq!['s', 'a', 'c', 'c', ' '],
{
    reveal_strlit("sacc ");
    let a0 = seq!['s', 'a', 'c', 'c'];
    assert(is_word_char(a0[0]));
    assert(is_word_char(a0[1]));
    assert(is_word_char(a0[2]));
    assert(is_word_char(a0[3]));
    lemma_lex_word(a0);
    let a1 = seq![' '];
    lemma_lex_blank(' ');
    let p0 = a0;
    let t0 = seq![TokV::Ident(a0)];
    assert(p0.last() == 'c');
    lemma_lex_join(p0, t0, a1, Seq::<TokV>::empty());
    let p1 = p0 + a1;
    let t1 = t0 + Seq::<TokV>::empty();
    assert(p1 =~= seq!['s', 'a', 'c', 'c', ' ']);
    assert(t1 =~= seq![TokV::Ident(seq!['s', 'a', 'c', 'c'])]);
    assert("sacc "@ == p1);
    assert(lexes(p1, t1));
}

/// The tokens of the text "}\n".
pub proof fn lemma_lit_region_close()
    ensures
        lexes("}\n"@, seq![single_tok('}')]),
        clean("}\n"@),
        "}\n"@ == seq!['}', '\n'],
{
    reveal_strlit("}\n");
    let a0 = seq!['}'];
    lemma_lex_symbol('}');
    let a1 = seq!['\n'];
    lemma_lex_blank('\n');
    let p0 = a0;
    let t0 = seq![single_tok('}')];
    assert(p0.last() == '}');
    lemma_lex_join(p0, t0, a1, Seq::<TokV>::empty());
    let p1 = p0 + a1;
    let t1 = t0 + Seq::<TokV>::empty();
    assert(p1 =~= seq!['}', '\n']);
    assert(t1 =~= seq![single_tok('}')]);
    assert("}\n"@ == p1);
    assert(lexes(p1, t1));
}


// ---------------------------------------------------------------------
// Printed code
// ---------------------------------------------------------------------

/// A name lexes as its one token.
pub proof fn lemma_lex_name(l: Seq<char>)
    requires
        is_name(l),
    ensures
        lexes(l, seq![name_tok(l)]),
        clean(l),
{
    if forall|j: int| 0 <= j < l.len() ==> is_digit(#[trigger] l[j]) {
        lemma_lex_digits(l);
    } else {
        assert(is_word_start(l[0]));
        assert(!is_digit(l[0]));
        lemma_lex_word(l);
    }
}

pub proof fn lemma_lex_decimal(n: nat)
    ensures
        lexes(decimal(n), seq![TokV::Number(decimal(n))]),
        clean(decimal(n)),
{
    crate::number::lemma_decimal_digits(n);
    lemma_lex_digits(decimal(n));
}

/// A printed value expression lexes to its tokens.
pub proof fn lemma_lex_vexpr(v: VExprV)
    requires
        printable_vexpr(v),
    ensures
        lexes(vexpr_text(v), vexpr_toks(v)),
        clean(vexpr_text(v)),
    decreases v,
{
    lemma_keywords();
    match v {
        VExprV::VReg(x) => {
            lemma_lit_percent();
            lemma_lex_name(x);
            lemma_lex_join("%"@, seq![single_tok('%')], x, seq![name_tok(x)]);
            assert(seq![single_tok('%')] + seq![name_tok(x)] =~= vexpr_toks(v));
        },
        VExprV::Imm(n) => {
            lemma_lit_hash();
            lemma_lex_decimal(n);
            lemma_lex_join("#"@, seq![single_tok('#')], decimal(n), seq![TokV::Number(decimal(n))]);
            assert(seq![single_tok('#')] + seq![TokV::Number(decimal(n))] =~= vexpr_toks(v));
        },
        VExprV::CodeLabel(l) => {
            lemma_lit_colon();
            lemma_lex_name(l);
            lemma_lex_join(":"@, seq![single_tok(':')], l, seq![name_tok(l)]);
            assert(seq![single_tok(':')] + seq![name_tok(l)] =~= vexpr_toks(v));
        },
        VExprV::Ref(p) => {
            lemma_lit_ref();
            lemma_lex_pexpr(*p);
            lemma_lex_join("ref "@, seq![word("ref"@)], pexpr_text(*p), pexpr_toks(*p));
        },
    }
}

/// A printed place expression lexes to its tokens.
pub proof fn lemma_lex_pexpr(p: PExprV)
    requires
        printable_pexpr(p),
    ensures
        lexes(pexpr_text(p), pexpr_toks(p)),
        clean(pexpr_text(p)),
    decreases p,
{
    lemma_keywords();
    match p {
        PExprV::Label(l) => {
            lemma_lit_at();
            lemma_lex_name(l);
            lemma_lex_join("@"@, seq![single_tok('@')], l, seq![name_tok(l)]);
            assert(seq![single_tok('@')] + seq![name_tok(l)] =~= pexpr_toks(p));
        },
        PExprV::Deref(x) => {
            lemma_lit_deref();
            lemma_lex_name(x);
            let a = seq![word("deref"@), single_tok('%')];
            lemma_lex_join("deref %"@, a, x, seq![name_tok(x)]);
            assert(a + seq![name_tok(x)] =~= pexpr_toks(p));
        },
        PExprV::SAcc(v) => {
            lemma_lit_sacc();
            lemma_lex_vexpr(*v);
            lemma_lex_join("sacc "@, seq![word("sacc"@)], vexpr_text(*v), vexpr_toks(*v));
        },
        PExprV::HAcc(h, i) => {
            lemma_lit_hacc();
            lemma_lit_paren_bracket();
            lemma_lit_bracket_close();
            lemma_lex_vexpr(*h);
            lemma_lex_vexpr(*i);
            let a = seq![word("hacc"@), single_tok('(')];
            let m = seq![single_tok(')'), single_tok('[')];
            let e = seq![single_tok(']')];
            lemma_lex_join("hacc("@, a, vexpr_text(*h), vexpr_toks(*h));
            let t1 = "hacc("@ + vexpr_text(*h);
            lemma_lex_join(t1, a + vexpr_toks(*h), ")["@, m);
            let t2 = t1 + ")["@;
            assert(t2.last() == '[');
            lemma_lex_join(t2, a + vexpr_toks(*h) + m, vexpr_text(*i), vexpr_toks(*i));
            let t3 = t2 + vexpr_text(*i);
            lemma_lex_join(t3, a + vexpr_toks(*h) + m + vexpr_toks(*i), "]"@, e);
        },
    }
}


/// A text between two fixed texts that end and start with no word
/// character lexes to the tokens of the three.
pub proof fn lemma_lex_wrap(
    a: Seq<char>,
    ta: Seq<TokV>,
    m: Seq<char>,
    tm: Seq<TokV>,
    b: Seq<char>,
    tb: Seq<TokV>,
)
    requires
        lexes(a, ta),
        lexes(m, tm),
        lexes(b, tb),
        clean(a),
        clean(m),
        clean(b),
        a.len() > 0,
        !is_word_char(a.last()),
        b.len() > 0,
        !is_word_char(b[0]),
    ensures
        lexes(a + m + b, ta + tm + tb),
        clean(a + m + b),
{
    lemma_lex_join(a, ta, m, tm);
    lemma_lex_join(a + m, ta + tm, b, tb);
}

/// A printed comparison lexes to its tokens.
pub proof fn lemma_lex_cond(c: CondV)
    requires
        printable_cond(c),
    ensures
        lexes(cond_text(c), cond_toks(c)),
        clean(cond_text(c)),
{
    match c {
        CondV::Lt(a, b) => {
            lemma_lit_lt();
            lemma_lex_vexpr(a);
            lemma_lex_vexpr(b);
            lemma_lex_join(vexpr_text(a), vexpr_toks(a), " < "@, seq![single_tok('<')]);
            lemma_lex_join(vexpr_text(a) + " < "@, vexpr_toks(a) + seq![single_tok('<')], vexpr_text(b), vexpr_toks(b));
        },
        CondV::Eq(a, b) => {
            lemma_lit_eq();
            lemma_lex_vexpr(a);
            lemma_lex_vexpr(b);
            lemma_lex_join(vexpr_text(a), vexpr_toks(a), " = "@, seq![single_tok('=')]);
            lemma_lex_join(vexpr_text(a) + " = "@, vexpr_toks(a) + seq![single_tok('=')], vexpr_text(b), vexpr_toks(b));
        },
        CondV::Gt(a, b) => {
            lemma_lit_gt();
            lemma_lex_vexpr(a);
            lemma_lex_vexpr(b);
            lemma_lex_join(vexpr_text(a), vexpr_toks(a), " > "@, seq![single_tok('>')]);
            lemma_lex_join(vexpr_text(a) + " > "@, vexpr_toks(a) + seq![single_tok('>')], vexpr_text(b), vexpr_toks(b));
        },
    }
}

/// `%d := ` lexes to its tokens.
proof fn lemma_lex_assign_head(d: Seq<char>)
    requires
        is_name(d),
    ensures
        lexes("%"@ + d + " := "@, assign_head(d)),
        clean("%"@ + d + " := "@),
        ("%"@ + d + " := "@).len() > 0,
        ("%"@ + d + " := "@).last() == ' ',
{
    lemma_lit_percent();
    lemma_lit_assign();
    lemma_lex_name(d);
    lemma_lex_wrap("%"@, seq![single_tok('%')], d, seq![name_tok(d)], " := "@, seq![single_tok(':'), single_tok('=')]);
    assert(seq![single_tok('%')] + seq![name_tok(d)] + seq![single_tok(':'), single_tok('=')] =~= assign_head(d));
}

proof fn lemma_lex_load(d: Seq<char>, p: PExprV)
    requires
        printable_stmt(StmtV::Load(d, p)),
    ensures
        lexes(stmt_text(StmtV::Load(d, p)), stmt_toks(StmtV::Load(d, p))),
        clean(stmt_text(StmtV::Load(d, p))),
{
    lemma_keywords();
    lemma_lit_percent();
    lemma_lit_load();
    lemma_lit_semi();
    lemma_lex_name(d);
    lemma_lex_pexpr(p);
    let h = seq![single_tok(':'), single_tok('='), TokV::Ident(seq!['l', 'd'])];
    lemma_lex_wrap("%"@, seq![single_tok('%')], d, seq![name_tok(d)], " := ld "@, h);
    let a = "%"@ + d + " := ld "@;
    let ta = seq![single_tok('%')] + seq![name_tok(d)] + h;
    lemma_lex_wrap(a, ta, pexpr_text(p), pexpr_toks(p), ";"@, seq![single_tok(';')]);
    assert(ta + pexpr_toks(p) + seq![single_tok(';')] =~= stmt_toks(StmtV::Load(d, p)));
}

proof fn lemma_lex_assign(d: Seq<char>, v: VExprV)
    requires
        printable_stmt(StmtV::Assign(d, v)),
    ensures
        lexes(stmt_text(StmtV::Assign(d, v)), stmt_toks(StmtV::Assign(d, v))),
        clean(stmt_text(StmtV::Assign(d, v))),
{
    lemma_lit_semi();
    lemma_lex_assign_head(d);
    lemma_lex_vexpr(v);
    lemma_lex_wrap("%"@ + d + " := "@, assign_head(d), vexpr_text(v), vexpr_toks(v), ";"@, seq![single_tok(';')]);
}

proof fn lemma_lex_binop(d: Seq<char>, l: VExprV, op: BinOp, r: VExprV)
    requires
        printable_stmt(StmtV::BinOp(d, l, op, r)),
    ensures
        lexes(stmt_text(StmtV::BinOp(d, l, op, r)), stmt_toks(StmtV::BinOp(d, l, op, r))),
        clean(stmt_text(StmtV::BinOp(d, l, op, r))),
{
    lemma_lit_semi();
    lemma_lit_space();
    lemma_lit_plus();
    lemma_lit_minus();
    lemma_lex_assign_head(d);
    lemma_lex_vexpr(l);
    lemma_lex_vexpr(r);
    let a = "%"@ + d + " := "@;
    lemma_lex_wrap(a, assign_head(d), vexpr_text(l), vexpr_toks(l), " "@, Seq::<TokV>::empty());
    let b = a + vexpr_text(l) + " "@;
    let tb = assign_head(d) + vexpr_toks(l) + Seq::<TokV>::empty();
    let o = seq![single_tok(op_char(op))];
    lemma_lex_join(b, tb, binop_text(op), o);
    let c = b + binop_text(op);
    lemma_lex_join(c, tb + o, " "@, Seq::<TokV>::empty());
    let e = c + " "@;
    lemma_lex_wrap(e, tb + o + Seq::<TokV>::empty(), vexpr_text(r), vexpr_toks(r), ";"@, seq![single_tok(';')]);
    assert(stmt_text(StmtV::BinOp(d, l, op, r)) =~= e + vexpr_text(r) + ";"@);
    assert(tb + o + Seq::<TokV>::empty() + vexpr_toks(r) + seq![single_tok(';')] =~= stmt_toks(StmtV::BinOp(d, l, op, r)));
}

proof fn lemma_lex_store(p: PExprV, v: VExprV)
    requires
        printable_stmt(StmtV::Store(p, v)),
    ensures
        lexes(stmt_text(StmtV::Store(p, v)), stmt_toks(StmtV::Store(p, v))),
        clean(stmt_text(StmtV::Store(p, v))),
{
    lemma_keywords();
    lemma_lit_store();
    lemma_lit_semi();
    lemma_lex_pexpr(p);
    lemma_lex_vexpr(v);
    let m = seq![single_tok(':'), single_tok('='), TokV::Ident(seq!['s', 't'])];
    lemma_lex_join(pexpr_text(p), pexpr_toks(p), " := st "@, m);
    lemma_lex_wrap(pexpr_text(p) + " := st "@, pexpr_toks(p) + m, vexpr_text(v), vexpr_toks(v), ";"@, seq![single_tok(';')]);
    assert(pexpr_toks(p) + m + vexpr_toks(v) + seq![single_tok(';')] =~= stmt_toks(StmtV::Store(p, v)));
}

proof fn lemma_lex_halloc(v: VExprV, d: Seq<char>)
    requires
        printable_stmt(StmtV::HAlloc(v, d)),
    ensures
        lexes(stmt_text(StmtV::HAlloc(v, d)), stmt_toks(StmtV::HAlloc(v, d))),
        clean(stmt_text(StmtV::HAlloc(v, d))),
{
    lemma_keywords();
    lemma_lit_halloc();
    lemma_lit_paren_reg();
    lemma_lit_semi();
    lemma_lex_vexpr(v);
    lemma_lex_name(d);
    let a = seq![word("halloc"@), single_tok('(')];
    let m = seq![single_tok(')'), single_tok('%')];
    lemma_lex_wrap("halloc("@, a, vexpr_text(v), vexpr_toks(v), ") %"@, m);
    let b = "halloc("@ + vexpr_text(v) + ") %"@;
    lemma_lex_wrap(b, a + vexpr_toks(v) + m, d, seq![name_tok(d)], ";"@, seq![single_tok(';')]);
    assert(a + vexpr_toks(v) + m + seq![name_tok(d)] + seq![single_tok(';')] =~= stmt_toks(StmtV::HAlloc(v, d)));
}

/// `w d;` for a keyword `w` and a register `d`.
proof fn lemma_lex_word_reg(s: StmtV, lit: Seq<char>, w: Seq<char>, d: Seq<char>)
    requires
        is_name(d),
        lexes(lit, seq![TokV::Ident(w), single_tok('%')]),
        clean(lit),
        lit.len() > 0,
        lit.last() == '%',
        stmt_text(s) == lit + d + ";"@,
        stmt_toks(s) == seq![word(w), single_tok('%'), name_tok(d)] + semi(),
    ensures
        lexes(stmt_text(s), stmt_toks(s)),
        clean(stmt_text(s)),
{
    lemma_lit_semi();
    lemma_lex_name(d);
    lemma_lex_wrap(lit, seq![TokV::Ident(w), single_tok('%')], d, seq![name_tok(d)], ";"@, seq![single_tok(';')]);
    assert(seq![TokV::Ident(w), single_tok('%')] + seq![name_tok(d)] + seq![single_tok(';')] =~= stmt_toks(s));
}

/// `w v;` or `w p;` for a keyword `w`.
proof fn lemma_lex_word_text(s: StmtV, lit: Seq<char>, w: Seq<char>, m: Seq<char>, tm: Seq<TokV>)
    requires
        lexes(lit, seq![TokV::Ident(w)]),
        clean(lit),
        lit.len() > 0,
        lit.last() == ' ',
        lexes(m, tm),
        clean(m),
        stmt_text(s) == lit + m + ";"@,
        stmt_toks(s) == seq![word(w)] + tm + semi(),
    ensures
        lexes(stmt_text(s), stmt_toks(s)),
        clean(stmt_text(s)),
{
    lemma_lit_semi();
    lemma_lex_wrap(lit, seq![TokV::Ident(w)], m, tm, ";"@, seq![single_tok(';')]);
}

/// A printed statement lexes to its tokens.
pub proof fn lemma_lex_stmt(s: StmtV)
    requires
        printable_stmt(s),
    ensures
        lexes(stmt_text(s), stmt_toks(s)),
        clean(stmt_text(s)),
{
    lemma_keywords();
    match s {
        StmtV::Nop => {
            lemma_lit_nop();
            assert(seq![TokV::Ident(seq!['n', 'o', 'p']), single_tok(';')] =~= stmt_toks(s));
        },
        StmtV::Load(d, p) => lemma_lex_load(d, p),
        StmtV::Assign(d, v) => lemma_lex_assign(d, v),
        StmtV::BinOp(d, l, op, r) => lemma_lex_binop(d, l, op, r),
        StmtV::Store(p, v) => lemma_lex_store(p, v),
        StmtV::Pop(d) => {
            lemma_lit_pop();
            lemma_lex_word_reg(s, "pop %"@, "pop"@, d);
        },
        StmtV::Push(v) => {
            lemma_lit_push();
            lemma_lex_vexpr(v);
            lemma_lex_word_text(s, "push "@, "push"@, vexpr_text(v), vexpr_toks(v));
        },
        StmtV::LGet(d) => {
            lemma_lit_lget();
            lemma_lex_word_reg(s, "lget %"@, "lget"@, d);
        },
        StmtV::HAlloc(v, d) => lemma_lex_halloc(v, d),
        StmtV::HFree(v) => {
            lemma_lit_hfree();
            lemma_lex_vexpr(v);
            lemma_lex_word_text(s, "hfree "@, "hfree"@, vexpr_text(v), vexpr_toks(v));
        },
        StmtV::Print(d) => {
            lemma_lit_print();
            lemma_lex_word_reg(s, "print %"@, "print"@, d);
        },
        StmtV::Input(p) => {
            lemma_lit_input();
            lemma_lex_pexpr(p);
            lemma_lex_word_text(s, "input "@, "input"@, pexpr_text(p), pexpr_toks(p));
        },
    }
}


/// The lines of the first `n` printed statements lex to their tokens.
proof fn lemma_lex_stmts(ss: Seq<StmtV>, n: nat)
    requires
        n <= ss.len(),
        forall|k: int| 0 <= k < ss.len() ==> printable_stmt(#[trigger] ss[k]),
    ensures
        lexes(stmts_text(ss, n), stmts_toks(ss, n)),
        clean(stmts_text(ss, n)),
    decreases n,
{
    if n == 0 {
        assert(lex_at(Seq::<char>::empty(), 0) == Ok::<Seq<TokV>, Seq<char>>(seq![]));
    } else {
        lemma_lex_stmts(ss, (n - 1) as nat);
        lemma_lit_indent();
        lemma_lit_newline();
        lemma_lex_stmt(ss[n - 1]);
        let a = stmts_text(ss, (n - 1) as nat);
        let ta = stmts_toks(ss, (n - 1) as nat);
        lemma_lex_join(a, ta, "    "@, Seq::<TokV>::empty());
        lemma_lex_wrap(a + "    "@, ta + Seq::<TokV>::empty(), stmt_text(ss[n - 1]), stmt_toks(ss[n - 1]), "\n"@, Seq::<TokV>::empty());
        assert(ta + Seq::<TokV>::empty() + stmt_toks(ss[n - 1]) + Seq::<TokV>::empty() =~= stmts_toks(ss, n));
    }
}

/// A printed conditional jump line lexes to its tokens.
proof fn lemma_lex_jump(j: (CondV, VExprV))
    requires
        printable_jump(j),
    ensures
        lexes("    if "@ + cond_text(j.0) + " then "@ + vexpr_text(j.1) + ";\n"@, jump_toks(j)),
        clean("    if "@ + cond_text(j.0) + " then "@ + vexpr_text(j.1) + ";\n"@),
{
    lemma_keywords();
    lemma_lit_if();
    lemma_lit_then();
    lemma_lit_semi_line();
    lemma_lex_cond(j.0);
    lemma_lex_vexpr(j.1);
    let ti = seq![TokV::Ident(seq!['i', 'f'])];
    let tt = seq![TokV::Ident(seq!['t', 'h', 'e', 'n'])];
    lemma_lex_wrap("    if "@, ti, cond_text(j.0), cond_toks(j.0), " then "@, tt);
    let a = "    if "@ + cond_text(j.0) + " then "@;
    lemma_lex_wrap(a, ti + cond_toks(j.0) + tt, vexpr_text(j.1), vexpr_toks(j.1), ";\n"@, seq![single_tok(';')]);
    assert(ti + cond_toks(j.0) + tt + vexpr_toks(j.1) + seq![single_tok(';')] =~= jump_toks(j));
}

proof fn lemma_lex_jumps(js: Seq<(CondV, VExprV)>, n: nat)
    requires
        n <= js.len(),
        forall|k: int| 0 <= k < js.len() ==> printable_jump(#[trigger] js[k]),
    ensures
        lexes(jumps_text(js, n), jumps_toks(js, n)),
        clean(jumps_text(js, n)),
        n > 0 ==> jumps_text(js, n)[0] == ' ',
    decreases n,
{
    if n == 0 {
        assert(lex_at(Seq::<char>::empty(), 0) == Ok::<Seq<TokV>, Seq<char>>(seq![]));
    } else {
        lemma_lex_jumps(js, (n - 1) as nat);
        lemma_lex_jump(js[n - 1]);
        lemma_lit_if();
        let j = js[n - 1];
        let line = "    if "@ + cond_text(j.0) + " then "@ + vexpr_text(j.1) + ";\n"@;
        let a = jumps_text(js, (n - 1) as nat);
        lemma_lex_join(a, jumps_toks(js, (n - 1) as nat), line, jump_toks(j));
        assert(jumps_text(js, n) =~= a + line);
        if n == 1 {
            assert(a.len() == 0);
            assert(jumps_text(js, n)[0] == line[0]);
        } else {
            assert(jumps_text(js, n)[0] == a[0]);
        }
    }
}

/// The last line of a printed block lexes to its tokens.
proof fn lemma_lex_cont(c: ContV)
    requires
        printable_cont(c),
    ensures
        lexes(cont_line(c), cont_toks(c)),
        clean(cont_line(c)),
        cont_line(c)[0] == ' ',
{
    lemma_keywords();
    lemma_lit_semi_line();
    match c {
        ContV::Go(_, t) => {
            lemma_lit_goto();
            lemma_lex_vexpr(t);
            lemma_lex_wrap("    goto "@, seq![TokV::Ident(seq!['g', 'o', 't', 'o'])], vexpr_text(t), vexpr_toks(t), ";\n"@, seq![single_tok(';')]);
            assert(cont_line(c)[0] == ("    goto "@)[0]);
        },
        ContV::Enter(_, t) => {
            lemma_lit_enter();
            lemma_lex_vexpr(t);
            lemma_lex_wrap("    enter "@, seq![TokV::Ident(seq!['e', 'n', 't', 'e', 'r'])], vexpr_text(t), vexpr_toks(t), ";\n"@, seq![single_tok(';')]);
            assert(cont_line(c)[0] == ("    enter "@)[0]);
        },
        ContV::Halt(_) => {
            lemma_lit_halt();
            assert(seq![TokV::Ident(seq!['h', 'a', 'l', 't']), single_tok(';')] =~= cont_toks(c));
        },
    }
}

/// `:label {` lexes to its tokens, after a fixed text.
proof fn lemma_lex_head(lit: Seq<char>, l: Seq<char>)
    requires
        is_name(l),
        lexes(lit, seq![single_tok(':')]),
        clean(lit),
        lit.len() > 0,
        lit.last() == ':',
    ensures
        lexes(lit + l + " {\n"@, open_head(l)),
        clean(lit + l + " {\n"@),
        (lit + l + " {\n"@).last() == '\n',
{
    lemma_lit_open_brace();
    lemma_lex_name(l);
    lemma_lex_wrap(lit, seq![single_tok(':')], l, seq![name_tok(l)], " {\n"@, seq![single_tok('{')]);
    assert(seq![single_tok(':')] + seq![name_tok(l)] + seq![single_tok('{')] =~= open_head(l));
}

/// A printed block lexes to its tokens.
pub proof fn lemma_lex_block(b: BlockV)
    requires
        printable_block(b),
    ensures
        lexes(block_text(b), block_toks(b)),
        clean(block_text(b)),
        block_text(b)[0] == ' ',
{
    lemma_lit_block_head();
    lemma_lit_block_close();
    lemma_lex_head("  :"@, b.label);
    let h = "  :"@ + b.label + " {\n"@;
    lemma_lex_stmts(b.stmts, b.stmts.len());
    let js = cont_jumps(b.cont);
    assert forall|k: int| 0 <= k < js.len() implies printable_jump(#[trigger] js[k]) by {
        assert(printable_cont(b.cont));
    }
    lemma_lex_jumps(js, js.len());
    lemma_lex_cont(b.cont);
    let st = stmts_text(b.stmts, b.stmts.len());
    let jt = jumps_text(js, js.len());
    lemma_lex_join(h, open_head(b.label), st, stmts_toks(b.stmts, b.stmts.len()));
    let a1 = h + st;
    let t1 = open_head(b.label) + stmts_toks(b.stmts, b.stmts.len());
    lemma_lex_join(a1, t1, jt, jumps_toks(js, js.len()));
    let a2 = a1 + jt;
    let t2 = t1 + jumps_toks(js, js.len());
    lemma_lex_join(a2, t2, cont_line(b.cont), cont_toks(b.cont));
    let a3 = a2 + cont_line(b.cont);
    let t3 = t2 + cont_toks(b.cont);
    lemma_lex_join(a3, t3, "  }\n"@, seq![single_tok('}')]);
    assert(block_text(b) =~= a3 + "  }\n"@);
    assert(block_text(b)[0] == ("  :"@)[0]);
}

proof fn lemma_lex_blocks(bs: Seq<BlockV>, n: nat)
    requires
        n <= bs.len(),
        forall|k: int| 0 <= k < bs.len() ==> printable_block(#[trigger] bs[k]),
    ensures
        lexes(blocks_text(bs, n), blocks_toks(bs, n)),
        clean(blocks_text(bs, n)),
    decreases n,
{
    if n == 0 {
        assert(lex_at(Seq::<char>::empty(), 0) == Ok::<Seq<TokV>, Seq<char>>(seq![]));
    } else {
        lemma_lex_blocks(bs, (n - 1) as nat);
        lemma_lex_block(bs[n - 1]);
        lemma_lex_join(blocks_text(bs, (n - 1) as nat), blocks_toks(bs, (n - 1) as nat), block_text(bs[n - 1]), block_toks(bs[n - 1]));
    }
}

/// A printed region lexes to its tokens.
pub proof fn lemma_lex_region(r: RegionV)
    requires
        printable_region(r),
    ensures
        lexes(region_text(r), region_toks(r)),
        clean(region_text(r)),
        region_text(r)[0] == ':',
{
    lemma_lit_colon();
    lemma_lit_region_close();
    lemma_lex_head(":"@, r.label);
    let h = ":"@ + r.label + " {\n"@;
    lemma_lex_blocks(r.blocks, r.blocks.len());
    let bt = blocks_text(r.blocks, r.blocks.len());
    lemma_lex_join(h, open_head(r.label), bt, blocks_toks(r.blocks, r.blocks.len()));
    lemma_lex_join(h + bt, open_head(r.label) + blocks_toks(r.blocks, r.blocks.len()), "}\n"@, seq![single_tok('}')]);
    assert(region_text(r) =~= h + bt + "}\n"@);
    assert(region_text(r)[0] == (":"@)[0]);
}

proof fn lemma_lex_regions(rs: Seq<RegionV>, n: nat)
    requires
        n <= rs.len(),
        forall|k: int| 0 <= k < rs.len() ==> printable_region(#[trigger] rs[k]),
    ensures
        lexes(regions_text(rs, n), regions_toks(rs, n)),
        clean(regions_text(rs, n)),
        n > 0 ==> regions_text(rs, n)[0] == ':',
    decreases n,
{
    if n == 0 {
        assert(lex_at(Seq::<char>::empty(), 0) == Ok::<Seq<TokV>, Seq<char>>(seq![]));
    } else {
        lemma_lex_regions(rs, (n - 1) as nat);
        lemma_lex_region(rs[n - 1]);
        let a = regions_text(rs, (n - 1) as nat);
        lemma_lex_join(a, regions_toks(rs, (n - 1) as nat), region_text(rs[n - 1]), region_toks(rs[n - 1]));
        if n == 1 {
            assert(a.len() == 0);
            assert(regions_text(rs, n)[0] == region_text(rs[n - 1])[0]);
        } else {
            assert(regions_text(rs, n)[0] == a[0]);
        }
    }
}

proof fn lemma_lex_statics(ss: Seq<(Seq<char>, nat)>, n: nat)
    requires
        n <= ss.len(),
        forall|k: int| 0 <= k < ss.len() ==> is_name(#[trigger] ss[k].0) && ss[k].1 <= usize::MAX,
    ensures
        lexes(statics_text(ss, n), statics_toks(ss, n)),
        clean(statics_text(ss, n)),
    decreases n,
{
    if n == 0 {
        assert(lex_at(Seq::<char>::empty(), 0) == Ok::<Seq<TokV>, Seq<char>>(seq![]));
    } else {
        assert forall|k: int| 0 <= k < ss.len() implies is_name(#[trigger] ss[k].0) && ss[k].1 <= usize::MAX by {
            let q = ss[k];
            assert(is_name(q.0));
        }
        lemma_lex_statics(ss, (n - 1) as nat);
        let sd = ss[n - 1];
        assert(is_name(sd.0));
        lemma_lit_at();
        lemma_lit_space();
        lemma_lit_newline();
        lemma_lex_name(sd.0);
        lemma_lex_decimal(sd.1);
        let a = statics_text(ss, (n - 1) as nat);
        let ta = statics_toks(ss, (n - 1) as nat);
        lemma_lex_join(a, ta, "@"@, seq![single_tok('@')]);
        lemma_lex_wrap(a + "@"@, ta + seq![single_tok('@')], sd.0, seq![name_tok(sd.0)], " "@, Seq::<TokV>::empty());
        let b = a + "@"@ + sd.0 + " "@;
        let tb = ta + seq![single_tok('@')] + seq![name_tok(sd.0)] + Seq::<TokV>::empty();
        lemma_lex_wrap(b, tb, decimal(sd.1), seq![TokV::Number(decimal(sd.1))], "\n"@, Seq::<TokV>::empty());
        assert(statics_text(ss, n) =~= b + decimal(sd.1) + "\n"@);
        assert(tb + seq![TokV::Number(decimal(sd.1))] + Seq::<TokV>::empty() =~= statics_toks(ss, n));
    }
}

/// Printed code lexes to its tokens.
pub proof fn lemma_lex_program(p: ProgramV)
    requires
        printable_program(p),
    ensures
        lexes(program_text(p), program_toks(p)),
{
    lemma_lex_statics(p.statics, p.statics.len());
    lemma_lex_regions(p.regions, p.regions.len());
    lemma_lex_join(
        statics_text(p.statics, p.statics.len()),
        statics_toks(p.statics, p.statics.len()),
        regions_text(p.regions, p.regions.len()),
        regions_toks(p.regions, p.regions.len()),
    );
}

/// Reading the text of printable code gives the code back.
pub proof fn law_flow_code_roundtrip(p: ProgramV)
    requires
        printable_program(p),
    ensures
        program_spec(program_text(p)) == Ok::<ProgramV, Seq<char>>(p),
{
    lemma_lex_program(p);
    lemma_parse_program(p);
}

} // verus!

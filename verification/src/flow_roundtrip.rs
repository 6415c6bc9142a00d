//! Reading back printed flow IR code: the tokens that the text of a program
//! lexes to, and the program that the parser reads from them.
use vstd::prelude::*;

use crate::circuit_lexer::{single_tok, DelimKind, TokV};
use crate::coroutine_parser::is_word_char;
use crate::flow_ir::BinOp;
use crate::flow_parser::{
    after, block_finish, block_items, cont_start, end_stmt, error_here, expect_sym, expect_word, p_assign_tail,
    p_block, p_cond, p_cont, p_halloc, p_jump_if, p_name, p_number, p_place, p_reg_stmt, p_static, p_stmt, p_store,
    p_value, p_vreg, program_items, region_blocks, region_finish, p_region, sym_at, tok_sym, word_at,
};
use crate::flow_text::{BlockV, CondV, ContV, PExprV, ProgramV, RegionV, StmtV, VExprV, cont_jumps};
use crate::number::{decimal, parse_decimal};
use crate::text::is_digit;

verus! {

// ---------------------------------------------------------------------
// Printable code
// ---------------------------------------------------------------------

/// A name that reads back as one token: digits, or a word.
pub open spec fn is_name(l: Seq<char>) -> bool {
    &&& l.len() > 0
    &&& (forall|j: int| 0 <= j < l.len() ==> is_digit(#[trigger] l[j])) || (crate::circuit_lexer::is_word_start(
        l[0],
    ) && forall|j: int| 0 <= j < l.len() ==> is_word_char(#[trigger] l[j]))
}

pub open spec fn printable_vexpr(v: VExprV) -> bool
    decreases v,
{
    match v {
        VExprV::VReg(x) => is_name(x),
        VExprV::Imm(n) => n <= usize::MAX,
        VExprV::CodeLabel(l) => is_name(l),
        VExprV::Ref(p) => printable_pexpr(*p),
    }
}

pub open spec fn printable_pexpr(p: PExprV) -> bool
    decreases p,
{
    match p {
        PExprV::Label(l) => is_name(l),
        PExprV::Deref(x) => is_name(x),
        PExprV::SAcc(v) => printable_vexpr(*v),
        PExprV::HAcc(h, i) => printable_vexpr(*h) && printable_vexpr(*i),
    }
}

pub open spec fn printable_cond(c: CondV) -> bool {
    match c {
        CondV::Lt(a, b) => printable_vexpr(a) && printable_vexpr(b),
        CondV::Eq(a, b) => printable_vexpr(a) && printable_vexpr(b),
        CondV::Gt(a, b) => printable_vexpr(a) && printable_vexpr(b),
    }
}

pub open spec fn printable_stmt(s: StmtV) -> bool {
    match s {
        StmtV::Nop => true,
        StmtV::Load(d, p) => is_name(d) && printable_pexpr(p),
        StmtV::Assign(d, v) => is_name(d) && printable_vexpr(v),
        StmtV::BinOp(d, l, _, r) => is_name(d) && printable_vexpr(l) && printable_vexpr(r),
        StmtV::Store(p, v) => printable_pexpr(p) && printable_vexpr(v),
        StmtV::Pop(d) => is_name(d),
        StmtV::Push(v) => printable_vexpr(v),
        StmtV::LGet(d) => is_name(d),
        StmtV::HAlloc(v, d) => printable_vexpr(v) && is_name(d),
        StmtV::HFree(v) => printable_vexpr(v),
        StmtV::Print(d) => is_name(d),
        StmtV::Input(p) => printable_pexpr(p),
    }
}

pub open spec fn printable_jump(j: (CondV, VExprV)) -> bool {
    printable_cond(j.0) && printable_vexpr(j.1)
}

pub open spec fn printable_cont(c: ContV) -> bool {
    &&& forall|k: int| 0 <= k < cont_jumps(c).len() ==> printable_jump(#[trigger] cont_jumps(c)[k])
    &&& match c {
        ContV::Go(_, t) => printable_vexpr(t),
        ContV::Enter(_, t) => printable_vexpr(t),
        ContV::Halt(_) => true,
    }
}

pub open spec fn printable_block(b: BlockV) -> bool {
    &&& is_name(b.label)
    &&& forall|k: int| 0 <= k < b.stmts.len() ==> printable_stmt(#[trigger] b.stmts[k])
    &&& printable_cont(b.cont)
}

pub open spec fn printable_region(r: RegionV) -> bool {
    &&& is_name(r.label)
    &&& r.blocks.len() > 0
    &&& forall|k: int| 0 <= k < r.blocks.len() ==> printable_block(#[trigger] r.blocks[k])
}

/// Code whose text reads back as itself: every label and register is a
/// name, every number fits in `usize`, and every region has a block.
pub open spec fn printable_program(p: ProgramV) -> bool {
    &&& forall|k: int|
        0 <= k < p.statics.len() ==> is_name(#[trigger] p.statics[k].0) && p.statics[k].1 <= usize::MAX
    &&& forall|k: int| 0 <= k < p.regions.len() ==> printable_region(#[trigger] p.regions[k])
}

// ---------------------------------------------------------------------
// Tokens of printed code
// ---------------------------------------------------------------------

pub open spec fn name_tok(l: Seq<char>) -> TokV {
    if is_digit(l[0]) {
        TokV::Number(l)
    } else {
        TokV::Ident(l)
    }
}

pub open spec fn word(w: Seq<char>) -> TokV {
    TokV::Ident(w)
}

pub open spec fn vexpr_toks(v: VExprV) -> Seq<TokV>
    decreases v,
{
    match v {
        VExprV::VReg(x) => seq![single_tok('%'), name_tok(x)],
        VExprV::Imm(n) => seq![single_tok('#'), TokV::Number(decimal(n))],
        VExprV::CodeLabel(l) => seq![single_tok(':'), name_tok(l)],
        VExprV::Ref(p) => seq![word("ref"@)] + pexpr_toks(*p),
    }
}

pub open spec fn pexpr_toks(p: PExprV) -> Seq<TokV>
    decreases p,
{
    match p {
        PExprV::Label(l) => seq![single_tok('@'), name_tok(l)],
        PExprV::Deref(x) => seq![word("deref"@), single_tok('%'), name_tok(x)],
        PExprV::SAcc(v) => seq![word("sacc"@)] + vexpr_toks(*v),
        PExprV::HAcc(h, i) => seq![word("hacc"@), single_tok('(')] + vexpr_toks(*h) + seq![
            single_tok(')'),
            single_tok('['),
        ] + vexpr_toks(*i) + seq![single_tok(']')],
    }
}

pub open spec fn op_char(op: BinOp) -> char {
    match op {
        BinOp::Add => '+',
        BinOp::Sub => '-',
    }
}

pub open spec fn cond_toks(c: CondV) -> Seq<TokV> {
    match c {
        CondV::Lt(a, b) => vexpr_toks(a) + seq![single_tok('<')] + vexpr_toks(b),
        CondV::Eq(a, b) => vexpr_toks(a) + seq![single_tok('=')] + vexpr_toks(b),
        CondV::Gt(a, b) => vexpr_toks(a) + seq![single_tok('>')] + vexpr_toks(b),
    }
}

/// `%d := ` as tokens.
pub open spec fn assign_head(d: Seq<char>) -> Seq<TokV> {
    seq![single_tok('%'), name_tok(d), single_tok(':'), single_tok('=')]
}

pub open spec fn semi() -> Seq<TokV> {
    seq![single_tok(';')]
}

pub open spec fn stmt_toks(s: StmtV) -> Seq<TokV> {
    match s {
        StmtV::Nop => seq![word("nop"@)] + semi(),
        StmtV::Load(d, p) => assign_head(d) + seq![word("ld"@)] + pexpr_toks(p) + semi(),
        StmtV::Assign(d, v) => assign_head(d) + vexpr_toks(v) + semi(),
        StmtV::BinOp(d, l, op, r) => assign_head(d) + vexpr_toks(l) + seq![single_tok(op_char(op))] + vexpr_toks(
            r,
        ) + semi(),
        StmtV::Store(p, v) => pexpr_toks(p) + seq![single_tok(':'), single_tok('='), word("st"@)] + vexpr_toks(v)
            + semi(),
        StmtV::Pop(d) => seq![word("pop"@), single_tok('%'), name_tok(d)] + semi(),
        StmtV::Push(v) => seq![word("push"@)] + vexpr_toks(v) + semi(),
        StmtV::LGet(d) => seq![word("lget"@), single_tok('%'), name_tok(d)] + semi(),
        StmtV::HAlloc(v, d) => seq![word("halloc"@), single_tok('(')] + vexpr_toks(v) + seq![
            single_tok(')'),
            single_tok('%'),
            name_tok(d),
        ] + semi(),
        StmtV::HFree(v) => seq![word("hfree"@)] + vexpr_toks(v) + semi(),
        StmtV::Print(d) => seq![word("print"@), single_tok('%'), name_tok(d)] + semi(),
        StmtV::Input(p) => seq![word("input"@)] + pexpr_toks(p) + semi(),
    }
}

pub open spec fn jump_toks(j: (CondV, VExprV)) -> Seq<TokV> {
    seq![word("if"@)] + cond_toks(j.0) + seq![word("then"@)] + vexpr_toks(j.1) + semi()
}

pub open spec fn cont_toks(c: ContV) -> Seq<TokV> {
    match c {
        ContV::Go(_, t) => seq![word("goto"@)] + vexpr_toks(t) + semi(),
        ContV::Enter(_, t) => seq![word("enter"@)] + vexpr_toks(t) + semi(),
        ContV::Halt(_) => seq![word("halt"@)] + semi(),
    }
}

pub open spec fn stmts_toks(ss: Seq<StmtV>, n: nat) -> Seq<TokV>
    decreases n,
{
    if n == 0 || n > ss.len() {
        seq![]
    } else {
        stmts_toks(ss, (n - 1) as nat) + stmt_toks(ss[n - 1])
    }
}

pub open spec fn jumps_toks(js: Seq<(CondV, VExprV)>, n: nat) -> Seq<TokV>
    decreases n,
{
    if n == 0 || n > js.len() {
        seq![]
    } else {
        jumps_toks(js, (n - 1) as nat) + jump_toks(js[n - 1])
    }
}

/// `:label {` as tokens.
pub open spec fn open_head(l: Seq<char>) -> Seq<TokV> {
    seq![single_tok(':'), name_tok(l), single_tok('{')]
}

pub open spec fn block_toks(b: BlockV) -> Seq<TokV> {
    open_head(b.label) + stmts_toks(b.stmts, b.stmts.len()) + jumps_toks(cont_jumps(b.cont), cont_jumps(b.cont).len())
        + cont_toks(b.cont) + seq![single_tok('}')]
}

pub open spec fn blocks_toks(bs: Seq<BlockV>, n: nat) -> Seq<TokV>
    decreases n,
{
    if n == 0 || n > bs.len() {
        seq![]
    } else {
        blocks_toks(bs, (n - 1) as nat) + block_toks(bs[n - 1])
    }
}

pub open spec fn region_toks(r: RegionV) -> Seq<TokV> {
    open_head(r.label) + blocks_toks(r.blocks, r.blocks.len()) + seq![single_tok('}')]
}

pub open spec fn regions_toks(rs: Seq<RegionV>, n: nat) -> Seq<TokV>
    decreases n,
{
    if n == 0 || n > rs.len() {
        seq![]
    } else {
        regions_toks(rs, (n - 1) as nat) + region_toks(rs[n - 1])
    }
}

pub open spec fn static_toks(s: (Seq<char>, nat)) -> Seq<TokV> {
    seq![single_tok('@'), name_tok(s.0), TokV::Number(decimal(s.1))]
}

pub open spec fn statics_toks(ss: Seq<(Seq<char>, nat)>, n: nat) -> Seq<TokV>
    decreases n,
{
    if n == 0 || n > ss.len() {
        seq![]
    } else {
        statics_toks(ss, (n - 1) as nat) + static_toks(ss[n - 1])
    }
}

/// The tokens of printed code.
pub open spec fn program_toks(p: ProgramV) -> Seq<TokV> {
    statics_toks(p.statics, p.statics.len()) + regions_toks(p.regions, p.regions.len())
}

/// Whether `s` stands in `ts` from position `i`.
pub open spec fn toks_at(ts: Seq<TokV>, i: int, s: Seq<TokV>) -> bool {
    0 <= i && i + s.len() <= ts.len() && forall|k: int| 0 <= k < s.len() ==> ts[i + k] == #[trigger] s[k]
}

pub proof fn lemma_toks_at_split(ts: Seq<TokV>, i: int, a: Seq<TokV>, b: Seq<TokV>)
    requires
        toks_at(ts, i, a + b),
    ensures
        toks_at(ts, i, a),
        toks_at(ts, i + a.len(), b),
{
    assert forall|k: int| 0 <= k < a.len() implies ts[i + k] == #[trigger] a[k] by {
        assert((a + b)[k] == a[k]);
    }
    assert forall|k: int| 0 <= k < b.len() implies ts[i + a.len() + k] == #[trigger] b[k] by {
        assert((a + b)[a.len() + k] == b[k]);
    }
}

/// The characters of the keywords.
pub proof fn lemma_keywords()
    ensures
        "ref"@ == seq!['r', 'e', 'f'],
        "deref"@ == seq!['d', 'e', 'r', 'e', 'f'],
        "sacc"@ == seq!['s', 'a', 'c', 'c'],
        "hacc"@ == seq!['h', 'a', 'c', 'c'],
        "nop"@ == seq!['n', 'o', 'p'],
        "pop"@ == seq!['p', 'o', 'p'],
        "push"@ == seq!['p', 'u', 's', 'h'],
        "lget"@ == seq!['l', 'g', 'e', 't'],
        "halloc"@ == seq!['h', 'a', 'l', 'l', 'o', 'c'],
        "hfree"@ == seq!['h', 'f', 'r', 'e', 'e'],
        "print"@ == seq!['p', 'r', 'i', 'n', 't'],
        "input"@ == seq!['i', 'n', 'p', 'u', 't'],
        "ld"@ == seq!['l', 'd'],
        "st"@ == seq!['s', 't'],
        "if"@ == seq!['i', 'f'],
        "then"@ == seq!['t', 'h', 'e', 'n'],
        "goto"@ == seq!['g', 'o', 't', 'o'],
        "enter"@ == seq!['e', 'n', 't', 'e', 'r'],
        "halt"@ == seq!['h', 'a', 'l', 't'],
{
    reveal_strlit("ref");
    reveal_strlit("deref");
    reveal_strlit("sacc");
    reveal_strlit("hacc");
    reveal_strlit("nop");
    reveal_strlit("pop");
    reveal_strlit("push");
    reveal_strlit("lget");
    reveal_strlit("halloc");
    reveal_strlit("hfree");
    reveal_strlit("print");
    reveal_strlit("input");
    reveal_strlit("ld");
    reveal_strlit("st");
    reveal_strlit("if");
    reveal_strlit("then");
    reveal_strlit("goto");
    reveal_strlit("enter");
    reveal_strlit("halt");
}

proof fn lemma_tok_at(ts: Seq<TokV>, i: int, s: Seq<TokV>, k: int)
    requires
        toks_at(ts, i, s),
        0 <= k < s.len(),
    ensures
        ts[i + k] == s[k],
{
}

proof fn lemma_tok_sym(c: char)
    ensures
        tok_sym(single_tok(c)) == Some(c),
{
}

proof fn lemma_name_tok(ts: Seq<TokV>, i: int, l: Seq<char>, kind: Seq<char>)
    requires
        is_name(l),
        0 <= i < ts.len(),
        ts[i] == name_tok(l),
    ensures
        p_name(ts, i, kind) == Ok::<(Seq<char>, int), Seq<char>>((l, i + 1)),
{
}

/// A printed value expression reads back from its tokens.
pub proof fn lemma_parse_value(ts: Seq<TokV>, i: int, v: VExprV)
    requires
        printable_vexpr(v),
        toks_at(ts, i, vexpr_toks(v)),
    ensures
        p_value(ts, i) == Ok::<(VExprV, int), Seq<char>>((v, i + vexpr_toks(v).len())),
    decreases v,
{
    let t = vexpr_toks(v);
    assert(ts[i] == t[0]);
    lemma_keywords();
    match v {
        VExprV::VReg(x) => {
            assert(ts[i + 1] == t[1]);
            lemma_tok_sym('%');
            lemma_name_tok(ts, i + 1, x, "virtual register"@);
        },
        VExprV::Imm(n) => {
            assert(ts[i + 1] == t[1]);
            lemma_tok_sym('#');
            crate::number::law_decimal_roundtrip(n);
        },
        VExprV::CodeLabel(l) => {
            assert(ts[i + 1] == t[1]);
            lemma_tok_sym(':');
            lemma_name_tok(ts, i + 1, l, "code label"@);
        },
        VExprV::Ref(p) => {
            lemma_toks_at_split(ts, i, seq![word("ref"@)], pexpr_toks(*p));
            lemma_parse_place(ts, i + 1, *p);
        },
    }
}

proof fn lemma_parse_label(ts: Seq<TokV>, i: int, l: Seq<char>)
    requires
        is_name(l),
        toks_at(ts, i, pexpr_toks(PExprV::Label(l))),
    ensures
        p_place(ts, i) == Ok::<(PExprV, int), Seq<char>>((PExprV::Label(l), i + 2)),
{
    let t = pexpr_toks(PExprV::Label(l));
    assert(ts[i] == t[0]);
    assert(ts[i + 1] == t[1]);
    lemma_tok_sym('@');
    assert(sym_at(ts, i, '@'));
    lemma_name_tok(ts, i + 1, l, "data label"@);
}

proof fn lemma_parse_deref(ts: Seq<TokV>, i: int, x: Seq<char>)
    requires
        is_name(x),
        toks_at(ts, i, pexpr_toks(PExprV::Deref(x))),
    ensures
        p_place(ts, i) == Ok::<(PExprV, int), Seq<char>>((PExprV::Deref(x), i + 3)),
{
    let t = pexpr_toks(PExprV::Deref(x));
    assert(ts[i] == t[0]);
    assert(ts[i + 1] == t[1]);
    assert(ts[i + 2] == t[2]);
    lemma_keywords();
    lemma_tok_sym('%');
    assert(!sym_at(ts, i, '@'));
    assert(word_at(ts, i, "deref"@));
    lemma_name_tok(ts, i + 2, x, "virtual register"@);
}

proof fn lemma_hacc_tokens(ts: Seq<TokV>, i: int, h: VExprV, x: VExprV)
    requires
        toks_at(ts, i, pexpr_toks(PExprV::HAcc(Box::new(h), Box::new(x)))),
    ensures
        ({
            let j = i + 2 + vexpr_toks(h).len();
            let k = j + 2 + vexpr_toks(x).len();
            &&& ts[i] == word("hacc"@)
            &&& ts[i + 1] == single_tok('(')
            &&& toks_at(ts, i + 2, vexpr_toks(h))
            &&& ts[j] == single_tok(')')
            &&& ts[j + 1] == single_tok('[')
            &&& toks_at(ts, j + 2, vexpr_toks(x))
            &&& ts[k] == single_tok(']')
            &&& pexpr_toks(PExprV::HAcc(Box::new(h), Box::new(x))).len() == k + 1 - i
        }),
{
    let a = seq![word("hacc"@), single_tok('(')];
    let hb = vexpr_toks(h);
    let m = seq![single_tok(')'), single_tok('[')];
    let xb = vexpr_toks(x);
    let e = seq![single_tok(']')];
    assert(pexpr_toks(PExprV::HAcc(Box::new(h), Box::new(x))) == a + hb + m + xb + e);
    lemma_toks_at_split(ts, i, a + hb + m + xb, e);
    lemma_toks_at_split(ts, i, a + hb + m, xb);
    lemma_toks_at_split(ts, i, a + hb, m);
    lemma_toks_at_split(ts, i, a, hb);
    assert(ts[i] == a[0]);
    assert(ts[i + 1] == a[1]);
    let j = i + 2 + hb.len();
    assert(ts[j] == m[0]);
    assert(ts[j + 1] == m[1]);
    let k = j + 2 + xb.len();
    assert(ts[k] == e[0]);
}

proof fn lemma_hacc_parse(ts: Seq<TokV>, i: int, h: VExprV, x: VExprV)
    requires
        ({
            let j = i + 2 + vexpr_toks(h).len();
            let k = j + 2 + vexpr_toks(x).len();
            &&& 0 <= i
            &&& k < ts.len()
            &&& ts[i] == word("hacc"@)
            &&& ts[i + 1] == single_tok('(')
            &&& ts[j] == single_tok(')')
            &&& ts[j + 1] == single_tok('[')
            &&& ts[k] == single_tok(']')
            &&& p_value(ts, i + 2) == Ok::<(VExprV, int), Seq<char>>((h, j))
            &&& p_value(ts, j + 2) == Ok::<(VExprV, int), Seq<char>>((x, k))
        }),
    ensures
        p_place(ts, i) == Ok::<(PExprV, int), Seq<char>>(
            (PExprV::HAcc(Box::new(h), Box::new(x)), i + 5 + vexpr_toks(h).len() + vexpr_toks(x).len()),
        ),
{
    lemma_keywords();
    lemma_tok_sym('(');
    lemma_tok_sym(')');
    lemma_tok_sym('[');
    lemma_tok_sym(']');
    assert(!sym_at(ts, i, '@'));
    assert(vexpr_toks(h).len() > 0);
}

/// A printed place expression reads back from its tokens.
#[verifier::rlimit(30)]
pub proof fn lemma_parse_place(ts: Seq<TokV>, i: int, p: PExprV)
    requires
        printable_pexpr(p),
        toks_at(ts, i, pexpr_toks(p)),
    ensures
        p_place(ts, i) == Ok::<(PExprV, int), Seq<char>>((p, i + pexpr_toks(p).len())),
    decreases p,
{
    let t = pexpr_toks(p);
    assert(ts[i] == t[0]);
    lemma_keywords();
    match p {
        PExprV::Label(l) => {
            lemma_parse_label(ts, i, l);
            assert(t =~= seq![single_tok('@'), name_tok(l)]);
        },
        PExprV::Deref(x) => {
            lemma_parse_deref(ts, i, x);
            assert(t =~= seq![word("deref"@), single_tok('%'), name_tok(x)]);
        },
        PExprV::SAcc(v) => {
            lemma_toks_at_split(ts, i, seq![word("sacc"@)], vexpr_toks(*v));
            lemma_parse_value(ts, i + 1, *v);
        },
        PExprV::HAcc(h, x) => {
            lemma_hacc_tokens(ts, i, *h, *x);
            let j = i + 2 + vexpr_toks(*h).len();
            lemma_parse_value(ts, i + 2, *h);
            lemma_parse_value(ts, j + 2, *x);
            lemma_hacc_parse(ts, i, *h, *x);
        },
    }
}


pub proof fn lemma_first_toks(v: VExprV, p: PExprV)
    ensures
        vexpr_toks(v).len() > 0,
        vexpr_toks(v)[0] == single_tok('%') || vexpr_toks(v)[0] == single_tok('#') || vexpr_toks(v)[0]
            == single_tok(':') || vexpr_toks(v)[0] == word("ref"@),
        pexpr_toks(p).len() > 0,
        pexpr_toks(p)[0] == single_tok('@') || pexpr_toks(p)[0] == word("deref"@) || pexpr_toks(p)[0] == word(
            "sacc"@,
        ) || pexpr_toks(p)[0] == word("hacc"@),
{
    match v {
        VExprV::Ref(q) => {
            assert((seq![word("ref"@)] + pexpr_toks(*q))[0] == word("ref"@));
        },
        _ => {},
    }
    match p {
        PExprV::SAcc(w) => {
            assert((seq![word("sacc"@)] + vexpr_toks(*w))[0] == word("sacc"@));
        },
        PExprV::HAcc(h, x) => {
            let t = seq![word("hacc"@), single_tok('(')] + vexpr_toks(*h) + seq![single_tok(')'), single_tok('[')]
                + vexpr_toks(*x) + seq![single_tok(']')];
            assert(t[0] == word("hacc"@));
        },
        _ => {},
    }
}

/// A printed comparison reads back from its tokens.
pub proof fn lemma_parse_cond(ts: Seq<TokV>, i: int, c: CondV)
    requires
        printable_cond(c),
        toks_at(ts, i, cond_toks(c)),
    ensures
        p_cond(ts, i) == Ok::<(CondV, int), Seq<char>>((c, i + cond_toks(c).len())),
{
    let (a, b, ch) = match c {
        CondV::Lt(a, b) => (a, b, '<'),
        CondV::Eq(a, b) => (a, b, '='),
        CondV::Gt(a, b) => (a, b, '>'),
    };
    assert(cond_toks(c) == vexpr_toks(a) + seq![single_tok(ch)] + vexpr_toks(b));
    lemma_toks_at_split(ts, i, vexpr_toks(a) + seq![single_tok(ch)], vexpr_toks(b));
    lemma_toks_at_split(ts, i, vexpr_toks(a), seq![single_tok(ch)]);
    lemma_parse_value(ts, i, a);
    let j = i + vexpr_toks(a).len();
    lemma_tok_at(ts, j, seq![single_tok(ch)], 0);
    lemma_tok_sym(ch);
    lemma_parse_value(ts, j + 1, b);
}

proof fn lemma_end_stmt(ts: Seq<TokV>, s: StmtV, j: int)
    requires
        toks_at(ts, j, semi()),
    ensures
        end_stmt(ts, s, j) == Ok::<(StmtV, int), Seq<char>>((s, j + 1)),
{
    assert(ts[j] == semi()[0]);
    lemma_tok_sym(';');
}

proof fn lemma_parse_vreg(ts: Seq<TokV>, i: int, d: Seq<char>)
    requires
        is_name(d),
        0 <= i,
        i + 1 < ts.len(),
        ts[i] == single_tok('%'),
        ts[i + 1] == name_tok(d),
    ensures
        p_vreg(ts, i) == Ok::<(Seq<char>, int), Seq<char>>((d, i + 2)),
{
    lemma_tok_sym('%');
    lemma_name_tok(ts, i + 1, d, "virtual register"@);
}

/// `%d := ld p;` reads back after its register.
proof fn lemma_parse_load(ts: Seq<TokV>, i: int, d: Seq<char>, p: PExprV)
    requires
        printable_stmt(StmtV::Load(d, p)),
        toks_at(ts, i, stmt_toks(StmtV::Load(d, p))),
    ensures
        p_reg_stmt(ts, d, i + 2) == Ok::<(StmtV, int), Seq<char>>(
            (StmtV::Load(d, p), i + stmt_toks(StmtV::Load(d, p)).len()),
        ),
{
    lemma_keywords();
    lemma_tok_sym(':');
    lemma_tok_sym('=');
    let h = assign_head(d) + seq![word("ld"@)];
    assert(stmt_toks(StmtV::Load(d, p)) == h + pexpr_toks(p) + semi());
    lemma_toks_at_split(ts, i, h + pexpr_toks(p), semi());
    lemma_toks_at_split(ts, i, h, pexpr_toks(p));
    lemma_tok_at(ts, i, h, 2);
    lemma_tok_at(ts, i, h, 3);
    lemma_tok_at(ts, i, h, 4);
    lemma_parse_place(ts, i + 5, p);
    lemma_end_stmt(ts, StmtV::Load(d, p), i + 5 + pexpr_toks(p).len());
}

/// `%d := v;` reads back after its register.
proof fn lemma_parse_assign(ts: Seq<TokV>, i: int, d: Seq<char>, v: VExprV)
    requires
        printable_stmt(StmtV::Assign(d, v)),
        toks_at(ts, i, stmt_toks(StmtV::Assign(d, v))),
    ensures
        p_reg_stmt(ts, d, i + 2) == Ok::<(StmtV, int), Seq<char>>(
            (StmtV::Assign(d, v), i + stmt_toks(StmtV::Assign(d, v)).len()),
        ),
{
    lemma_keywords();
    lemma_tok_sym(':');
    lemma_tok_sym('=');
    lemma_tok_sym(';');
    let h = assign_head(d);
    assert(stmt_toks(StmtV::Assign(d, v)) == h + vexpr_toks(v) + semi());
    lemma_toks_at_split(ts, i, h + vexpr_toks(v), semi());
    lemma_toks_at_split(ts, i, h, vexpr_toks(v));
    lemma_tok_at(ts, i, h, 2);
    lemma_tok_at(ts, i, h, 3);
    lemma_first_toks(v, PExprV::Label(seq![]));
    lemma_tok_at(ts, i + 4, vexpr_toks(v), 0);
    assert(!word_at(ts, i + 4, "ld"@));
    lemma_parse_value(ts, i + 4, v);
    let k = i + 4 + vexpr_toks(v).len();
    lemma_tok_at(ts, k, semi(), 0);
    lemma_end_stmt(ts, StmtV::Assign(d, v), k);
}

/// `%d := l op r;` reads back after its register.
proof fn lemma_parse_binop(ts: Seq<TokV>, i: int, d: Seq<char>, l: VExprV, op: BinOp, r: VExprV)
    requires
        printable_stmt(StmtV::BinOp(d, l, op, r)),
        toks_at(ts, i, stmt_toks(StmtV::BinOp(d, l, op, r))),
    ensures
        p_reg_stmt(ts, d, i + 2) == Ok::<(StmtV, int), Seq<char>>(
            (StmtV::BinOp(d, l, op, r), i + stmt_toks(StmtV::BinOp(d, l, op, r)).len()),
        ),
{
    lemma_keywords();
    lemma_tok_sym(':');
    lemma_tok_sym('=');
    let h = assign_head(d);
    let o = seq![single_tok(op_char(op))];
    assert(stmt_toks(StmtV::BinOp(d, l, op, r)) == h + vexpr_toks(l) + o + vexpr_toks(r) + semi());
    lemma_toks_at_split(ts, i, h + vexpr_toks(l) + o + vexpr_toks(r), semi());
    lemma_toks_at_split(ts, i, h + vexpr_toks(l) + o, vexpr_toks(r));
    lemma_toks_at_split(ts, i, h + vexpr_toks(l), o);
    lemma_toks_at_split(ts, i, h, vexpr_toks(l));
    lemma_tok_at(ts, i, h, 2);
    lemma_tok_at(ts, i, h, 3);
    lemma_first_toks(l, PExprV::Label(seq![]));
    lemma_tok_at(ts, i + 4, vexpr_toks(l), 0);
    assert(!word_at(ts, i + 4, "ld"@));
    lemma_parse_value(ts, i + 4, l);
    let k = i + 4 + vexpr_toks(l).len();
    lemma_tok_at(ts, k, o, 0);
    lemma_tok_sym(op_char(op));
    lemma_parse_value(ts, k + 1, r);
    lemma_end_stmt(ts, StmtV::BinOp(d, l, op, r), k + 1 + vexpr_toks(r).len());
}


/// The words that start statements, none of which starts a place.
pub open spec fn stmt_word(w: Seq<char>) -> bool {
    w == "nop"@ || w == "pop"@ || w == "push"@ || w == "lget"@ || w == "halloc"@ || w == "hfree"@ || w == "print"@
        || w == "input"@
}

/// `w %d;` for `pop`, `lget` and `print`.
proof fn lemma_parse_word_reg(ts: Seq<TokV>, i: int, s: StmtV, w: Seq<char>, d: Seq<char>)
    requires
        is_name(d),
        (w == "pop"@ && s == StmtV::Pop(d)) || (w == "lget"@ && s == StmtV::LGet(d)) || (w == "print"@ && s
            == StmtV::Print(d)),
        stmt_toks(s) == seq![word(w), single_tok('%'), name_tok(d)] + semi(),
        toks_at(ts, i, stmt_toks(s)),
    ensures
        p_stmt(ts, i) == Ok::<(StmtV, int), Seq<char>>((s, i + 4)),
{
    reveal(p_stmt);
    lemma_keywords();
    let h = seq![word(w), single_tok('%'), name_tok(d)];
    lemma_toks_at_split(ts, i, h, semi());
    lemma_tok_at(ts, i, h, 0);
    lemma_tok_at(ts, i, h, 1);
    lemma_tok_at(ts, i, h, 2);
    lemma_parse_vreg(ts, i + 1, d);
    lemma_end_stmt(ts, s, i + 3);
}

/// `w v;` for `push` and `hfree`.
proof fn lemma_parse_word_value(ts: Seq<TokV>, i: int, s: StmtV, w: Seq<char>, v: VExprV)
    requires
        printable_vexpr(v),
        (w == "push"@ && s == StmtV::Push(v)) || (w == "hfree"@ && s == StmtV::HFree(v)),
        stmt_toks(s) == seq![word(w)] + vexpr_toks(v) + semi(),
        toks_at(ts, i, stmt_toks(s)),
    ensures
        p_stmt(ts, i) == Ok::<(StmtV, int), Seq<char>>((s, i + stmt_toks(s).len())),
{
    reveal(p_stmt);
    lemma_keywords();
    lemma_toks_at_split(ts, i, seq![word(w)] + vexpr_toks(v), semi());
    lemma_toks_at_split(ts, i, seq![word(w)], vexpr_toks(v));
    lemma_tok_at(ts, i, seq![word(w)], 0);
    lemma_parse_value(ts, i + 1, v);
    lemma_end_stmt(ts, s, i + 1 + vexpr_toks(v).len());
}

/// `input p;`.
proof fn lemma_parse_input(ts: Seq<TokV>, i: int, p: PExprV)
    requires
        printable_pexpr(p),
        toks_at(ts, i, stmt_toks(StmtV::Input(p))),
    ensures
        p_stmt(ts, i) == Ok::<(StmtV, int), Seq<char>>((StmtV::Input(p), i + stmt_toks(StmtV::Input(p)).len())),
{
    reveal(p_stmt);
    lemma_keywords();
    let w = seq![word("input"@)];
    lemma_toks_at_split(ts, i, w + pexpr_toks(p), semi());
    lemma_toks_at_split(ts, i, w, pexpr_toks(p));
    lemma_tok_at(ts, i, w, 0);
    lemma_parse_place(ts, i + 1, p);
    lemma_end_stmt(ts, StmtV::Input(p), i + 1 + pexpr_toks(p).len());
}

/// `halloc(v) %d;`.
proof fn lemma_parse_halloc(ts: Seq<TokV>, i: int, v: VExprV, d: Seq<char>)
    requires
        printable_vexpr(v),
        is_name(d),
        toks_at(ts, i, stmt_toks(StmtV::HAlloc(v, d))),
    ensures
        p_stmt(ts, i) == Ok::<(StmtV, int), Seq<char>>(
            (StmtV::HAlloc(v, d), i + stmt_toks(StmtV::HAlloc(v, d)).len()),
        ),
{
    reveal(p_stmt);
    lemma_keywords();
    let a = seq![word("halloc"@), single_tok('(')];
    let m = seq![single_tok(')'), single_tok('%'), name_tok(d)];
    lemma_toks_at_split(ts, i, a + vexpr_toks(v) + m, semi());
    lemma_toks_at_split(ts, i, a + vexpr_toks(v), m);
    lemma_toks_at_split(ts, i, a, vexpr_toks(v));
    lemma_tok_at(ts, i, a, 0);
    lemma_tok_at(ts, i, a, 1);
    lemma_tok_sym('(');
    lemma_tok_sym(')');
    lemma_parse_value(ts, i + 2, v);
    let j = i + 2 + vexpr_toks(v).len();
    lemma_tok_at(ts, j, m, 0);
    lemma_tok_at(ts, j, m, 1);
    lemma_tok_at(ts, j, m, 2);
    lemma_parse_vreg(ts, j + 1, d);
    lemma_end_stmt(ts, StmtV::HAlloc(v, d), j + 3);
}

/// `p := st v;`.
proof fn lemma_parse_store(ts: Seq<TokV>, i: int, p: PExprV, v: VExprV)
    requires
        printable_pexpr(p),
        printable_vexpr(v),
        toks_at(ts, i, stmt_toks(StmtV::Store(p, v))),
    ensures
        p_store(ts, i) == Ok::<(StmtV, int), Seq<char>>(
            (StmtV::Store(p, v), i + stmt_toks(StmtV::Store(p, v)).len()),
        ),
{
    lemma_keywords();
    let m = seq![single_tok(':'), single_tok('='), word("st"@)];
    lemma_toks_at_split(ts, i, pexpr_toks(p) + m + vexpr_toks(v), semi());
    lemma_toks_at_split(ts, i, pexpr_toks(p) + m, vexpr_toks(v));
    lemma_toks_at_split(ts, i, pexpr_toks(p), m);
    lemma_tok_sym(':');
    lemma_tok_sym('=');
    lemma_parse_place(ts, i, p);
    let j = i + pexpr_toks(p).len();
    lemma_tok_at(ts, j, m, 0);
    lemma_tok_at(ts, j, m, 1);
    lemma_tok_at(ts, j, m, 2);
    lemma_parse_value(ts, j + 3, v);
    lemma_end_stmt(ts, StmtV::Store(p, v), j + 3 + vexpr_toks(v).len());
}

/// A statement that starts with a place is a store.
proof fn lemma_store_dispatch(ts: Seq<TokV>, i: int, p: PExprV)
    requires
        toks_at(ts, i, pexpr_toks(p)),
    ensures
        p_stmt(ts, i) == p_store(ts, i),
{
    reveal(p_stmt);
    lemma_keywords();
    lemma_first_toks(VExprV::Imm(0), p);
    lemma_tok_at(ts, i, pexpr_toks(p), 0);
    lemma_tok_sym('@');
    assert(!sym_at(ts, i, '%'));
}

/// `%d := ...;`.
proof fn lemma_parse_reg_head(ts: Seq<TokV>, i: int, d: Seq<char>, s: StmtV)
    requires
        is_name(d),
        toks_at(ts, i, assign_head(d)),
    ensures
        p_stmt(ts, i) == p_reg_stmt(ts, d, i + 2),
{
    reveal(p_stmt);
    lemma_keywords();
    lemma_tok_at(ts, i, assign_head(d), 0);
    lemma_tok_at(ts, i, assign_head(d), 1);
    lemma_parse_vreg(ts, i, d);
}

/// A printed statement reads back from its tokens.
pub proof fn lemma_parse_stmt(ts: Seq<TokV>, i: int, s: StmtV)
    requires
        printable_stmt(s),
        toks_at(ts, i, stmt_toks(s)),
    ensures
        p_stmt(ts, i) == Ok::<(StmtV, int), Seq<char>>((s, i + stmt_toks(s).len())),
{
    lemma_keywords();
    match s {
        StmtV::Nop => {
            reveal(p_stmt);
            lemma_tok_at(ts, i, stmt_toks(s), 0);
            lemma_toks_at_split(ts, i, seq![word("nop"@)], semi());
            lemma_end_stmt(ts, s, i + 1);
        },
        StmtV::Load(d, p) => {
            assert(stmt_toks(s) =~= assign_head(d) + (seq![word("ld"@)] + pexpr_toks(p) + semi()));
            lemma_toks_at_split(ts, i, assign_head(d), seq![word("ld"@)] + pexpr_toks(p) + semi());
            lemma_parse_reg_head(ts, i, d, s);
            lemma_parse_load(ts, i, d, p);
        },
        StmtV::Assign(d, v) => {
            assert(stmt_toks(s) =~= assign_head(d) + (vexpr_toks(v) + semi()));
            lemma_toks_at_split(ts, i, assign_head(d), vexpr_toks(v) + semi());
            lemma_parse_reg_head(ts, i, d, s);
            lemma_parse_assign(ts, i, d, v);
        },
        StmtV::BinOp(d, l, op, r) => {
            assert(stmt_toks(s) =~= assign_head(d) + (vexpr_toks(l) + seq![single_tok(op_char(op))] + vexpr_toks(r)
                + semi()));
            lemma_toks_at_split(
                ts,
                i,
                assign_head(d),
                vexpr_toks(l) + seq![single_tok(op_char(op))] + vexpr_toks(r) + semi(),
            );
            lemma_parse_reg_head(ts, i, d, s);
            lemma_parse_binop(ts, i, d, l, op, r);
        },
        StmtV::Store(p, v) => {
            let m = seq![single_tok(':'), single_tok('='), word("st"@)];
            assert(stmt_toks(s) =~= pexpr_toks(p) + (m + vexpr_toks(v) + semi()));
            lemma_toks_at_split(ts, i, pexpr_toks(p), m + vexpr_toks(v) + semi());
            lemma_store_dispatch(ts, i, p);
            lemma_parse_store(ts, i, p, v);
        },
        StmtV::Pop(d) => lemma_parse_word_reg(ts, i, s, "pop"@, d),
        StmtV::Push(v) => lemma_parse_word_value(ts, i, s, "push"@, v),
        StmtV::LGet(d) => lemma_parse_word_reg(ts, i, s, "lget"@, d),
        StmtV::HAlloc(v, d) => lemma_parse_halloc(ts, i, v, d),
        StmtV::HFree(v) => lemma_parse_word_value(ts, i, s, "hfree"@, v),
        StmtV::Print(d) => lemma_parse_word_reg(ts, i, s, "print"@, d),
        StmtV::Input(p) => lemma_parse_input(ts, i, p),
    }
}


/// A printed conditional jump reads back from its tokens.
proof fn lemma_parse_jump(ts: Seq<TokV>, i: int, j: (CondV, VExprV))
    requires
        printable_jump(j),
        toks_at(ts, i, jump_toks(j)),
    ensures
        p_jump_if(ts, i) == Ok::<((CondV, VExprV), int), Seq<char>>((j, i + jump_toks(j).len())),
{
    reveal(p_jump_if);
    lemma_keywords();
    let a = seq![word("if"@)];
    let m = seq![word("then"@)];
    lemma_toks_at_split(ts, i, a + cond_toks(j.0) + m + vexpr_toks(j.1), semi());
    lemma_toks_at_split(ts, i, a + cond_toks(j.0) + m, vexpr_toks(j.1));
    lemma_toks_at_split(ts, i, a + cond_toks(j.0), m);
    lemma_toks_at_split(ts, i, a, cond_toks(j.0));
    lemma_tok_at(ts, i, a, 0);
    lemma_parse_cond(ts, i + 1, j.0);
    let k = i + 1 + cond_toks(j.0).len();
    lemma_tok_at(ts, k, m, 0);
    lemma_parse_value(ts, k + 1, j.1);
    let e = k + 1 + vexpr_toks(j.1).len();
    lemma_tok_at(ts, e, semi(), 0);
    lemma_tok_sym(';');
}

/// A printed block ending reads back from its tokens, after its jumps.
proof fn lemma_parse_cont(ts: Seq<TokV>, i: int, c: ContV)
    requires
        printable_cont(c),
        toks_at(ts, i, cont_toks(c)),
    ensures
        p_cont(ts, i, cont_jumps(c)) == Ok::<(ContV, int), Seq<char>>((c, i + cont_toks(c).len())),
{
    reveal(p_cont);
    lemma_keywords();
    lemma_tok_sym(';');
    match c {
        ContV::Go(ifs, t) => {
            let a = seq![word("goto"@)];
            lemma_toks_at_split(ts, i, a + vexpr_toks(t), semi());
            lemma_toks_at_split(ts, i, a, vexpr_toks(t));
            lemma_tok_at(ts, i, a, 0);
            lemma_parse_value(ts, i + 1, t);
            lemma_tok_at(ts, i + 1 + vexpr_toks(t).len(), semi(), 0);
        },
        ContV::Enter(ifs, t) => {
            let a = seq![word("enter"@)];
            lemma_toks_at_split(ts, i, a + vexpr_toks(t), semi());
            lemma_toks_at_split(ts, i, a, vexpr_toks(t));
            lemma_tok_at(ts, i, a, 0);
            lemma_parse_value(ts, i + 1, t);
            lemma_tok_at(ts, i + 1 + vexpr_toks(t).len(), semi(), 0);
        },
        ContV::Halt(ifs) => {
            let a = seq![word("halt"@)];
            lemma_toks_at_split(ts, i, a, semi());
            lemma_tok_at(ts, i, a, 0);
            lemma_tok_at(ts, i + 1, semi(), 0);
        },
    }
}

proof fn lemma_stmts_at(ts: Seq<TokV>, i: int, ss: Seq<StmtV>, n: nat, k: int)
    requires
        n <= ss.len(),
        0 <= k < n,
        toks_at(ts, i, stmts_toks(ss, n)),
    ensures
        toks_at(ts, i + stmts_toks(ss, k as nat).len(), stmt_toks(ss[k])),
        stmts_toks(ss, (k + 1) as nat).len() == stmts_toks(ss, k as nat).len() + stmt_toks(ss[k]).len(),
    decreases n,
{
    lemma_toks_at_split(ts, i, stmts_toks(ss, (n - 1) as nat), stmt_toks(ss[n - 1]));
    if k < n - 1 {
        lemma_stmts_at(ts, i, ss, (n - 1) as nat, k);
    }
}

proof fn lemma_jumps_at(ts: Seq<TokV>, i: int, js: Seq<(CondV, VExprV)>, n: nat, k: int)
    requires
        n <= js.len(),
        0 <= k < n,
        toks_at(ts, i, jumps_toks(js, n)),
    ensures
        toks_at(ts, i + jumps_toks(js, k as nat).len(), jump_toks(js[k])),
        jumps_toks(js, (k + 1) as nat).len() == jumps_toks(js, k as nat).len() + jump_toks(js[k]).len(),
    decreases n,
{
    lemma_toks_at_split(ts, i, jumps_toks(js, (n - 1) as nat), jump_toks(js[n - 1]));
    if k < n - 1 {
        lemma_jumps_at(ts, i, js, (n - 1) as nat, k);
    }
}

proof fn lemma_first_stmt_tok(s: StmtV)
    ensures
        stmt_toks(s).len() > 0,
        stmt_toks(s)[0] == single_tok('%') || stmt_toks(s)[0] == single_tok('@') || (stmt_toks(s)[0] is Ident
            && stmt_word_or_place(stmt_toks(s)[0]->Ident_0)),
{
    lemma_keywords();
    match s {
        StmtV::Store(p, v) => {
            lemma_first_toks(v, p);
            let m = seq![single_tok(':'), single_tok('='), word("st"@)];
            assert((pexpr_toks(p) + m + vexpr_toks(v) + semi())[0] == pexpr_toks(p)[0]);
        },
        _ => {},
    }
}

/// Words that start a statement or a place.
pub open spec fn stmt_word_or_place(w: Seq<char>) -> bool {
    stmt_word(w) || w == "deref"@ || w == "sacc"@ || w == "hacc"@
}

/// The statements of a printed block read back one after the other.
proof fn lemma_block_stmts(ts: Seq<TokV>, i: int, b: BlockV, k: nat)
    requires
        printable_block(b),
        k <= b.stmts.len(),
        toks_at(ts, i, stmts_toks(b.stmts, b.stmts.len())),
        i + stmts_toks(b.stmts, b.stmts.len()).len() <= ts.len(),
    ensures
        block_items(ts, i + stmts_toks(b.stmts, k).len(), b.label, b.stmts.take(k as int), seq![], None)
            == block_items(ts, i + stmts_toks(b.stmts, b.stmts.len()).len(), b.label, b.stmts, seq![], None),
    decreases b.stmts.len() - k,
{
    let n = b.stmts.len();
    if k == n {
        assert(b.stmts.take(k as int) =~= b.stmts);
    } else {
        let q = i + stmts_toks(b.stmts, k).len();
        lemma_stmts_at(ts, i, b.stmts, n, k as int);
        lemma_parse_stmt(ts, q, b.stmts[k as int]);
        lemma_first_stmt_tok(b.stmts[k as int]);
        lemma_tok_at(ts, q, stmt_toks(b.stmts[k as int]), 0);
        lemma_keywords();
        lemma_tok_sym('%');
        lemma_tok_sym('@');
        lemma_stmts_len_mono(b.stmts, (k + 1) as nat, n);
        assert(b.stmts.take(k as int).push(b.stmts[k as int]) =~= b.stmts.take((k + 1) as int));
        lemma_block_stmts(ts, i, b, (k + 1) as nat);
    }
}

proof fn lemma_stmts_len_mono(ss: Seq<StmtV>, k: nat, n: nat)
    requires
        k <= n <= ss.len(),
    ensures
        stmts_toks(ss, k).len() <= stmts_toks(ss, n).len(),
    decreases n,
{
    if k < n {
        lemma_stmts_len_mono(ss, k, (n - 1) as nat);
    }
}

proof fn lemma_jumps_len_mono(js: Seq<(CondV, VExprV)>, k: nat, n: nat)
    requires
        k <= n <= js.len(),
    ensures
        jumps_toks(js, k).len() <= jumps_toks(js, n).len(),
    decreases n,
{
    if k < n {
        lemma_jumps_len_mono(js, k, (n - 1) as nat);
    }
}

/// The conditional jumps of a printed block read back one after the other.
proof fn lemma_block_jumps(ts: Seq<TokV>, i: int, b: BlockV, k: nat)
    requires
        printable_block(b),
        k <= cont_jumps(b.cont).len(),
        toks_at(ts, i, jumps_toks(cont_jumps(b.cont), cont_jumps(b.cont).len())),
    ensures
        ({
            let js = cont_jumps(b.cont);
            block_items(ts, i + jumps_toks(js, k).len(), b.label, b.stmts, js.take(k as int), None) == block_items(
                ts,
                i + jumps_toks(js, js.len()).len(),
                b.label,
                b.stmts,
                js,
                None,
            )
        }),
    decreases cont_jumps(b.cont).len() - k,
{
    let js = cont_jumps(b.cont);
    let n = js.len();
    if k == n {
        assert(js.take(k as int) =~= js);
    } else {
        let q = i + jumps_toks(js, k).len();
        lemma_jumps_at(ts, i, js, n, k as int);
        assert(printable_jump(js[k as int]));
        lemma_parse_jump(ts, q, js[k as int]);
        lemma_keywords();
        lemma_tok_at(ts, q, jump_toks(js[k as int]), 0);
        lemma_jumps_len_mono(js, (k + 1) as nat, n);
        assert(js.take(k as int).push(js[k as int]) =~= js.take((k + 1) as int));
        lemma_block_jumps(ts, i, b, (k + 1) as nat);
    }
}


proof fn lemma_open_head(ts: Seq<TokV>, i: int, l: Seq<char>, kind: Seq<char>)
    requires
        is_name(l),
        toks_at(ts, i, open_head(l)),
    ensures
        expect_sym(ts, i, ':') == Ok::<int, Seq<char>>(i + 1),
        p_name(ts, i + 1, kind) == Ok::<(Seq<char>, int), Seq<char>>((l, i + 2)),
        expect_sym(ts, i + 2, '{') == Ok::<int, Seq<char>>(i + 3),
{
    lemma_tok_at(ts, i, open_head(l), 0);
    lemma_tok_at(ts, i, open_head(l), 1);
    lemma_tok_at(ts, i, open_head(l), 2);
    lemma_tok_sym(':');
    lemma_tok_sym('{');
    lemma_name_tok(ts, i + 1, l, kind);
}

/// A printed block reads back from its tokens.
#[verifier::rlimit(30)]
pub proof fn lemma_parse_block(ts: Seq<TokV>, i: int, b: BlockV)
    requires
        printable_block(b),
        toks_at(ts, i, block_toks(b)),
    ensures
        p_block(ts, i) == Ok::<(BlockV, int), Seq<char>>((b, i + block_toks(b).len())),
{
    reveal(p_block);
    lemma_keywords();
    let ss = b.stmts;
    let js = cont_jumps(b.cont);
    let h = open_head(b.label);
    let st = stmts_toks(ss, ss.len());
    let jt = jumps_toks(js, js.len());
    let ct = cont_toks(b.cont);
    let close = seq![single_tok('}')];
    lemma_toks_at_split(ts, i, h + st + jt + ct, close);
    lemma_toks_at_split(ts, i, h + st + jt, ct);
    lemma_toks_at_split(ts, i, h + st, jt);
    lemma_toks_at_split(ts, i, h, st);
    lemma_open_head(ts, i, b.label, "block label"@);
    let p0 = i + 3;
    assert(ss.take(0) =~= Seq::<StmtV>::empty());
    lemma_block_stmts(ts, p0, b, 0);
    let p1 = p0 + st.len();
    assert(js.take(0) =~= Seq::<(CondV, VExprV)>::empty());
    lemma_block_jumps(ts, p1, b, 0);
    let r = p1 + jt.len();
    lemma_parse_cont(ts, r, b.cont);
    let e = r + ct.len();
    lemma_tok_at(ts, e, close, 0);
    lemma_tok_sym('}');
    lemma_tok_at(ts, r, ct, 0);
    assert(!sym_at(ts, r, '}'));
    assert(!word_at(ts, r, "if"@));
    assert(cont_start(ts, r));
    assert(block_items(ts, r, b.label, ss, js, None) == block_items(ts, e, b.label, ss, js, Some(b.cont)));
    assert(block_items(ts, e, b.label, ss, js, Some(b.cont)) == Ok::<(Seq<StmtV>, Option<ContV>, int), Seq<char>>(
        (ss, Some(b.cont), e),
    ));
}


proof fn lemma_blocks_at(ts: Seq<TokV>, i: int, bs: Seq<BlockV>, n: nat, k: int)
    requires
        n <= bs.len(),
        0 <= k < n,
        toks_at(ts, i, blocks_toks(bs, n)),
    ensures
        toks_at(ts, i + blocks_toks(bs, k as nat).len(), block_toks(bs[k])),
        blocks_toks(bs, (k + 1) as nat).len() == blocks_toks(bs, k as nat).len() + block_toks(bs[k]).len(),
    decreases n,
{
    lemma_toks_at_split(ts, i, blocks_toks(bs, (n - 1) as nat), block_toks(bs[n - 1]));
    if k < n - 1 {
        lemma_blocks_at(ts, i, bs, (n - 1) as nat, k);
    }
}

proof fn lemma_blocks_len_mono(bs: Seq<BlockV>, k: nat, n: nat)
    requires
        k <= n <= bs.len(),
    ensures
        blocks_toks(bs, k).len() <= blocks_toks(bs, n).len(),
    decreases n,
{
    if k < n {
        lemma_blocks_len_mono(bs, k, (n - 1) as nat);
    }
}

/// The blocks of a printed region read back one after the other.
proof fn lemma_region_blocks_read(ts: Seq<TokV>, i: int, r: RegionV, k: nat)
    requires
        printable_region(r),
        k <= r.blocks.len(),
        toks_at(ts, i, blocks_toks(r.blocks, r.blocks.len())),
        i + blocks_toks(r.blocks, r.blocks.len()).len() <= ts.len(),
    ensures
        region_blocks(ts, i + blocks_toks(r.blocks, k).len(), r.blocks.take(k as int)) == region_blocks(
            ts,
            i + blocks_toks(r.blocks, r.blocks.len()).len(),
            r.blocks,
        ),
    decreases r.blocks.len() - k,
{
    let n = r.blocks.len();
    if k == n {
        assert(r.blocks.take(k as int) =~= r.blocks);
    } else {
        let q = i + blocks_toks(r.blocks, k).len();
        lemma_blocks_at(ts, i, r.blocks, n, k as int);
        lemma_parse_block(ts, q, r.blocks[k as int]);
        lemma_tok_at(ts, q, block_toks(r.blocks[k as int]), 0);
        assert(block_toks(r.blocks[k as int])[0] == single_tok(':'));
        lemma_tok_sym(':');
        lemma_blocks_len_mono(r.blocks, (k + 1) as nat, n);
        assert(r.blocks.take(k as int).push(r.blocks[k as int]) =~= r.blocks.take((k + 1) as int));
        lemma_region_blocks_read(ts, i, r, (k + 1) as nat);
    }
}

/// A printed region reads back from its tokens.
pub proof fn lemma_parse_region(ts: Seq<TokV>, i: int, r: RegionV)
    requires
        printable_region(r),
        toks_at(ts, i, region_toks(r)),
    ensures
        p_region(ts, i) == Ok::<(RegionV, int), Seq<char>>((r, i + region_toks(r).len())),
{
    let h = open_head(r.label);
    let bt = blocks_toks(r.blocks, r.blocks.len());
    let close = seq![single_tok('}')];
    lemma_toks_at_split(ts, i, h + bt, close);
    lemma_toks_at_split(ts, i, h, bt);
    lemma_open_head(ts, i, r.label, "region label"@);
    assert(r.blocks.take(0) =~= Seq::<BlockV>::empty());
    lemma_region_blocks_read(ts, i + 3, r, 0);
    let e = i + 3 + bt.len();
    lemma_tok_at(ts, e, close, 0);
    lemma_tok_sym('}');
    assert(region_blocks(ts, e, r.blocks) == Ok::<(Seq<BlockV>, int), Seq<char>>((r.blocks, e)));
}

proof fn lemma_regions_at(ts: Seq<TokV>, i: int, rs: Seq<RegionV>, n: nat, k: int)
    requires
        n <= rs.len(),
        0 <= k < n,
        toks_at(ts, i, regions_toks(rs, n)),
    ensures
        toks_at(ts, i + regions_toks(rs, k as nat).len(), region_toks(rs[k])),
        regions_toks(rs, (k + 1) as nat).len() == regions_toks(rs, k as nat).len() + region_toks(rs[k]).len(),
    decreases n,
{
    lemma_toks_at_split(ts, i, regions_toks(rs, (n - 1) as nat), region_toks(rs[n - 1]));
    if k < n - 1 {
        lemma_regions_at(ts, i, rs, (n - 1) as nat, k);
    }
}

proof fn lemma_statics_at(ts: Seq<TokV>, i: int, ss: Seq<(Seq<char>, nat)>, n: nat, k: int)
    requires
        n <= ss.len(),
        0 <= k < n,
        toks_at(ts, i, statics_toks(ss, n)),
    ensures
        toks_at(ts, i + statics_toks(ss, k as nat).len(), static_toks(ss[k])),
        statics_toks(ss, (k + 1) as nat).len() == statics_toks(ss, k as nat).len() + 3,
    decreases n,
{
    lemma_toks_at_split(ts, i, statics_toks(ss, (n - 1) as nat), static_toks(ss[n - 1]));
    if k < n - 1 {
        lemma_statics_at(ts, i, ss, (n - 1) as nat, k);
    }
}

proof fn lemma_regions_len_mono(rs: Seq<RegionV>, k: nat, n: nat)
    requires
        k <= n <= rs.len(),
    ensures
        regions_toks(rs, k).len() <= regions_toks(rs, n).len(),
    decreases n,
{
    if k < n {
        lemma_regions_len_mono(rs, k, (n - 1) as nat);
    }
}

proof fn lemma_statics_len(ss: Seq<(Seq<char>, nat)>, n: nat)
    requires
        n <= ss.len(),
    ensures
        statics_toks(ss, n).len() == 3 * n,
    decreases n,
{
    if n > 0 {
        lemma_statics_len(ss, (n - 1) as nat);
    }
}

/// The regions of printed code read back one after the other.
proof fn lemma_program_regions(ts: Seq<TokV>, i: int, p: ProgramV, k: nat)
    requires
        printable_program(p),
        k <= p.regions.len(),
        toks_at(ts, i, regions_toks(p.regions, p.regions.len())),
        ts.len() == i + regions_toks(p.regions, p.regions.len()).len(),
    ensures
        program_items(ts, i + regions_toks(p.regions, k).len(), p.statics, p.regions.take(k as int)) == Ok::<
            ProgramV,
            Seq<char>,
        >(p),
    decreases p.regions.len() - k,
{
    let n = p.regions.len();
    if k == n {
        assert(p.regions.take(k as int) =~= p.regions);
    } else {
        let q = i + regions_toks(p.regions, k).len();
        lemma_regions_at(ts, i, p.regions, n, k as int);
        assert(printable_region(p.regions[k as int]));
        lemma_parse_region(ts, q, p.regions[k as int]);
        lemma_tok_at(ts, q, region_toks(p.regions[k as int]), 0);
        assert(region_toks(p.regions[k as int])[0] == single_tok(':'));
        lemma_tok_sym(':');
        lemma_tok_sym('@');
        lemma_regions_len_mono(p.regions, (k + 1) as nat, n);
        assert(p.regions.take(k as int).push(p.regions[k as int]) =~= p.regions.take((k + 1) as int));
        lemma_program_regions(ts, i, p, (k + 1) as nat);
    }
    assert(p.statics =~= p.statics);
}

/// The static definitions of printed code read back one after the other.
proof fn lemma_program_statics(ts: Seq<TokV>, p: ProgramV, k: nat)
    requires
        printable_program(p),
        k <= p.statics.len(),
        ts == program_toks(p),
    ensures
        program_items(ts, statics_toks(p.statics, k).len() as int, p.statics.take(k as int), seq![]) == Ok::<
            ProgramV,
            Seq<char>,
        >(p),
    decreases p.statics.len() - k,
{
    let n = p.statics.len();
    let st = statics_toks(p.statics, n);
    let rt = regions_toks(p.regions, p.regions.len());
    assert(toks_at(ts, 0, st + rt));
    lemma_toks_at_split(ts, 0, st, rt);
    if k == n {
        assert(p.statics.take(k as int) =~= p.statics);
        assert(p.regions.take(0) =~= Seq::<RegionV>::empty());
        lemma_program_regions(ts, st.len() as int, p, 0);
    } else {
        let q = statics_toks(p.statics, k).len() as int;
        lemma_statics_at(ts, 0, p.statics, n, k as int);
        lemma_statics_len(p.statics, n);
        lemma_statics_len(p.statics, k);
        let sd = p.statics[k as int];
        assert(is_name(sd.0) && sd.1 <= usize::MAX);
        let sk = static_toks(sd);
        lemma_tok_at(ts, q, sk, 0);
        lemma_tok_at(ts, q, sk, 1);
        lemma_tok_at(ts, q, sk, 2);
        lemma_tok_sym('@');
        lemma_name_tok(ts, q + 1, sd.0, "static label"@);
        crate::number::law_decimal_roundtrip(sd.1);
        assert(p_static(ts, q) == Ok::<((Seq<char>, nat), int), Seq<char>>((sd, q + 3)));
        assert(p.statics.take(k as int).push(sd) =~= p.statics.take((k + 1) as int));
        lemma_program_statics(ts, p, (k + 1) as nat);
    }
}

/// The tokens of printed code read back as the code.
pub proof fn lemma_parse_program(p: ProgramV)
    requires
        printable_program(p),
    ensures
        program_items(program_toks(p), 0, seq![], seq![]) == Ok::<ProgramV, Seq<char>>(p),
{
    assert(p.statics.take(0) =~= Seq::<(Seq<char>, nat)>::empty());
    lemma_program_statics(program_toks(p), p, 0);
}


} // verus!

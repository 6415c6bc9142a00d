//! Flow IR code as values, and its text: each static definition on a line,
//! then each region with its blocks, one statement or jump per line.
use vstd::prelude::*;

use crate::coroutine::{push_all, push_str};
use crate::flow_ir::{
    BinOp, Block, Cond, Cont, FlowIrCode, JumpIf, PlaceExpr, Program, Region, StaticDef, Stmt, ValueExpr,
};
use crate::number::{decimal, decimal_chars};
use crate::text::{chars_of, string_of};

verus! {

/// A value expression as a value.
pub enum VExprV {
    VReg(Seq<char>),
    Imm(nat),
    CodeLabel(Seq<char>),
    Ref(Box<PExprV>),
}

/// A place expression as a value.
pub enum PExprV {
    Label(Seq<char>),
    Deref(Seq<char>),
    SAcc(Box<VExprV>),
    HAcc(Box<VExprV>, Box<VExprV>),
}

pub enum CondV {
    Lt(VExprV, VExprV),
    Eq(VExprV, VExprV),
    Gt(VExprV, VExprV),
}

pub enum StmtV {
    Nop,
    Load(Seq<char>, PExprV),
    Assign(Seq<char>, VExprV),
    BinOp(Seq<char>, VExprV, BinOp, VExprV),
    Store(PExprV, VExprV),
    Pop(Seq<char>),
    Push(VExprV),
    LGet(Seq<char>),
    HAlloc(VExprV, Seq<char>),
    HFree(VExprV),
    Print(Seq<char>),
    Input(PExprV),
}

/// A block ending: its conditional jumps and its last jump.
pub enum ContV {
    Go(Seq<(CondV, VExprV)>, VExprV),
    Enter(Seq<(CondV, VExprV)>, VExprV),
    Halt(Seq<(CondV, VExprV)>),
}

pub struct BlockV {
    pub label: Seq<char>,
    pub stmts: Seq<StmtV>,
    pub cont: ContV,
}

pub struct RegionV {
    pub label: Seq<char>,
    pub blocks: Seq<BlockV>,
}

pub struct ProgramV {
    pub statics: Seq<(Seq<char>, nat)>,
    pub regions: Seq<RegionV>,
}

pub open spec fn vexpr_view(e: ValueExpr) -> VExprV
    decreases e,
{
    match e {
        ValueExpr::VReg(x) => VExprV::VReg(x@),
        ValueExpr::Imm(n) => VExprV::Imm(n.value()),
        ValueExpr::CodeLabel(l) => VExprV::CodeLabel(l@),
        ValueExpr::Ref(p) => VExprV::Ref(Box::new(pexpr_view(p))),
    }
}

pub open spec fn pexpr_view(p: PlaceExpr) -> PExprV
    decreases p,
{
    match p {
        PlaceExpr::Label(l) => PExprV::Label(l@),
        PlaceExpr::Deref(x) => PExprV::Deref(x@),
        PlaceExpr::SAcc(ix) => PExprV::SAcc(Box::new(vexpr_view(*ix))),
        PlaceExpr::HAcc { handle, index } => PExprV::HAcc(
            Box::new(vexpr_view(*handle)),
            Box::new(vexpr_view(*index)),
        ),
    }
}

pub open spec fn cond_view(c: Cond) -> CondV {
    match c {
        Cond::Lt(a, b) => CondV::Lt(vexpr_view(a), vexpr_view(b)),
        Cond::Eq(a, b) => CondV::Eq(vexpr_view(a), vexpr_view(b)),
        Cond::Gt(a, b) => CondV::Gt(vexpr_view(a), vexpr_view(b)),
    }
}

pub open spec fn stmt_view(s: Stmt) -> StmtV {
    match s {
        Stmt::Nop => StmtV::Nop,
        Stmt::Load { dst, place } => StmtV::Load(dst@, pexpr_view(place)),
        Stmt::Assign { dst, src } => StmtV::Assign(dst@, vexpr_view(src)),
        Stmt::BinOp { dst, lhs, op, rhs } => StmtV::BinOp(dst@, vexpr_view(lhs), op, vexpr_view(rhs)),
        Stmt::Store { place, src } => StmtV::Store(pexpr_view(place), vexpr_view(src)),
        Stmt::Pop { dst } => StmtV::Pop(dst@),
        Stmt::Push { src } => StmtV::Push(vexpr_view(src)),
        Stmt::LGet { dst } => StmtV::LGet(dst@),
        Stmt::HAlloc { size, dst } => StmtV::HAlloc(vexpr_view(size), dst@),
        Stmt::HFree { handle } => StmtV::HFree(vexpr_view(handle)),
        Stmt::Print { src } => StmtV::Print(src@),
        Stmt::Input { place } => StmtV::Input(pexpr_view(place)),
    }
}

pub open spec fn jump_view(j: JumpIf) -> (CondV, VExprV) {
    (cond_view(j.cond), vexpr_view(j.target))
}

pub open spec fn jumps_view(js: Seq<JumpIf>) -> Seq<(CondV, VExprV)> {
    js.map_values(|j: JumpIf| jump_view(j))
}

pub open spec fn cont_view(c: Cont) -> ContV {
    match c {
        Cont::Go { ifs, target } => ContV::Go(jumps_view(ifs@), vexpr_view(target)),
        Cont::Enter { ifs, target } => ContV::Enter(jumps_view(ifs@), vexpr_view(target)),
        Cont::Halt { ifs } => ContV::Halt(jumps_view(ifs@)),
    }
}

pub open spec fn stmts_view(s: Seq<Stmt>) -> Seq<StmtV> {
    s.map_values(|st: Stmt| stmt_view(st))
}

pub open spec fn block_view(b: Block) -> BlockV {
    BlockV { label: b.label@, stmts: stmts_view(b.stmts@), cont: cont_view(b.cont) }
}

pub open spec fn blocks_view(bs: Seq<Block>) -> Seq<BlockV> {
    bs.map_values(|b: Block| block_view(b))
}

pub open spec fn region_view(r: Region) -> RegionV {
    RegionV { label: r.label@, blocks: blocks_view(r.blocks@) }
}

pub open spec fn static_view(s: StaticDef) -> (Seq<char>, nat) {
    (s.label@, s.value.value())
}

pub open spec fn program_view(p: Program) -> ProgramV {
    ProgramV {
        statics: p.statics@.map_values(|s: StaticDef| static_view(s)),
        regions: p.regions@.map_values(|r: Region| region_view(r)),
    }
}

// ---------------------------------------------------------------------
// Text
// ---------------------------------------------------------------------

pub open spec fn vexpr_text(e: VExprV) -> Seq<char>
    decreases e,
{
    match e {
        VExprV::VReg(x) => "%"@ + x,
        VExprV::Imm(n) => "#"@ + decimal(n),
        VExprV::CodeLabel(l) => ":"@ + l,
        VExprV::Ref(p) => "ref "@ + pexpr_text(*p),
    }
}

pub open spec fn pexpr_text(p: PExprV) -> Seq<char>
    decreases p,
{
    match p {
        PExprV::Label(l) => "@"@ + l,
        PExprV::Deref(x) => "deref %"@ + x,
        PExprV::SAcc(ix) => "sacc "@ + vexpr_text(*ix),
        PExprV::HAcc(h, i) => "hacc("@ + vexpr_text(*h) + ")["@ + vexpr_text(*i) + "]"@,
    }
}

pub open spec fn cond_text(c: CondV) -> Seq<char> {
    match c {
        CondV::Lt(a, b) => vexpr_text(a) + " < "@ + vexpr_text(b),
        CondV::Eq(a, b) => vexpr_text(a) + " = "@ + vexpr_text(b),
        CondV::Gt(a, b) => vexpr_text(a) + " > "@ + vexpr_text(b),
    }
}

pub open spec fn binop_text(op: BinOp) -> Seq<char> {
    match op {
        BinOp::Add => "+"@,
        BinOp::Sub => "-"@,
    }
}

pub open spec fn stmt_text(s: StmtV) -> Seq<char> {
    match s {
        StmtV::Nop => "nop;"@,
        StmtV::Load(d, p) => "%"@ + d + " := ld "@ + pexpr_text(p) + ";"@,
        StmtV::Assign(d, v) => "%"@ + d + " := "@ + vexpr_text(v) + ";"@,
        StmtV::BinOp(d, l, op, r) => "%"@ + d + " := "@ + vexpr_text(l) + " "@ + binop_text(op) + " "@
            + vexpr_text(r) + ";"@,
        StmtV::Store(p, v) => pexpr_text(p) + " := st "@ + vexpr_text(v) + ";"@,
        StmtV::Pop(d) => "pop %"@ + d + ";"@,
        StmtV::Push(v) => "push "@ + vexpr_text(v) + ";"@,
        StmtV::LGet(d) => "lget %"@ + d + ";"@,
        StmtV::HAlloc(v, d) => "halloc("@ + vexpr_text(v) + ") %"@ + d + ";"@,
        StmtV::HFree(v) => "hfree "@ + vexpr_text(v) + ";"@,
        StmtV::Print(d) => "print %"@ + d + ";"@,
        StmtV::Input(p) => "input "@ + pexpr_text(p) + ";"@,
    }
}

pub open spec fn cont_jumps(c: ContV) -> Seq<(CondV, VExprV)> {
    match c {
        ContV::Go(ifs, _) => ifs,
        ContV::Enter(ifs, _) => ifs,
        ContV::Halt(ifs) => ifs,
    }
}

/// The lines of the first `n` statements.
pub open spec fn stmts_text(s: Seq<StmtV>, n: nat) -> Seq<char>
    decreases n,
{
    if n == 0 || n > s.len() {
        seq![]
    } else {
        stmts_text(s, (n - 1) as nat) + "    "@ + stmt_text(s[n - 1]) + "\n"@
    }
}

/// The lines of the first `n` conditional jumps.
pub open spec fn jumps_text(js: Seq<(CondV, VExprV)>, n: nat) -> Seq<char>
    decreases n,
{
    if n == 0 || n > js.len() {
        seq![]
    } else {
        jumps_text(js, (n - 1) as nat) + "    if "@ + cond_text(js[n - 1].0) + " then "@ + vexpr_text(
            js[n - 1].1,
        ) + ";\n"@
    }
}

pub open spec fn cont_line(c: ContV) -> Seq<char> {
    match c {
        ContV::Go(_, t) => "    goto "@ + vexpr_text(t) + ";\n"@,
        ContV::Enter(_, t) => "    enter "@ + vexpr_text(t) + ";\n"@,
        ContV::Halt(_) => "    halt;\n"@,
    }
}

pub open spec fn block_text(b: BlockV) -> Seq<char> {
    "  :"@ + b.label + " {\n"@ + stmts_text(b.stmts, b.stmts.len()) + jumps_text(
        cont_jumps(b.cont),
        cont_jumps(b.cont).len(),
    ) + cont_line(b.cont) + "  }\n"@
}

pub open spec fn blocks_text(bs: Seq<BlockV>, n: nat) -> Seq<char>
    decreases n,
{
    if n == 0 || n > bs.len() {
        seq![]
    } else {
        blocks_text(bs, (n - 1) as nat) + block_text(bs[n - 1])
    }
}

pub open spec fn region_text(r: RegionV) -> Seq<char> {
    ":"@ + r.label + " {\n"@ + blocks_text(r.blocks, r.blocks.len()) + "}\n"@
}

pub open spec fn regions_text(rs: Seq<RegionV>, n: nat) -> Seq<char>
    decreases n,
{
    if n == 0 || n > rs.len() {
        seq![]
    } else {
        regions_text(rs, (n - 1) as nat) + region_text(rs[n - 1])
    }
}

pub open spec fn statics_text(s: Seq<(Seq<char>, nat)>, n: nat) -> Seq<char>
    decreases n,
{
    if n == 0 || n > s.len() {
        seq![]
    } else {
        statics_text(s, (n - 1) as nat) + "@"@ + s[n - 1].0 + " "@ + decimal(s[n - 1].1) + "\n"@
    }
}

/// The text of a program.
pub open spec fn program_text(p: ProgramV) -> Seq<char> {
    statics_text(p.statics, p.statics.len()) + regions_text(p.regions, p.regions.len())
}

// ---------------------------------------------------------------------
// Writing
// ---------------------------------------------------------------------

pub fn value_to_text(e: &ValueExpr) -> (r: Vec<char>)
    ensures
        r@ == vexpr_text(vexpr_view(*e)),
    decreases e,
{
    match e {
        ValueExpr::VReg(x) => {
            let mut r = chars_of("%");
            push_str(&mut r, x.as_str());
            r
        },
        ValueExpr::Imm(n) => {
            let mut r = chars_of("#");
            push_all(&mut r, &decimal_chars(n.0));
            r
        },
        ValueExpr::CodeLabel(l) => {
            let mut r = chars_of(":");
            push_str(&mut r, l.as_str());
            r
        },
        ValueExpr::Ref(p) => {
            let mut r = chars_of("ref ");
            push_all(&mut r, &place_to_text(p));
            r
        },
    }
}

pub fn place_to_text(p: &PlaceExpr) -> (r: Vec<char>)
    ensures
        r@ == pexpr_text(pexpr_view(*p)),
    decreases p,
{
    match p {
        PlaceExpr::Label(l) => {
            let mut r = chars_of("@");
            push_str(&mut r, l.as_str());
            r
        },
        PlaceExpr::Deref(x) => {
            let mut r = chars_of("deref %");
            push_str(&mut r, x.as_str());
            r
        },
        PlaceExpr::SAcc(ix) => {
            let mut r = chars_of("sacc ");
            push_all(&mut r, &value_to_text(ix));
            r
        },
        PlaceExpr::HAcc { handle, index } => {
            let mut r = chars_of("hacc(");
            push_all(&mut r, &value_to_text(handle));
            push_str(&mut r, ")[");
            push_all(&mut r, &value_to_text(index));
            push_str(&mut r, "]");
            r
        },
    }
}

pub fn cond_to_text(c: &Cond) -> (r: Vec<char>)
    ensures
        r@ == cond_text(cond_view(*c)),
{
    let (a, op, b) = match c {
        Cond::Lt(a, b) => (a, " < ", b),
        Cond::Eq(a, b) => (a, " = ", b),
        Cond::Gt(a, b) => (a, " > ", b),
    };
    let mut r = value_to_text(a);
    push_str(&mut r, op);
    push_all(&mut r, &value_to_text(b));
    r
}

fn binop_to_text(op: BinOp) -> (r: &'static str)
    ensures
        r@ == binop_text(op),
{
    match op {
        BinOp::Add => "+",
        BinOp::Sub => "-",
    }
}

fn with_reg(prefix: &str, x: &String, suffix: &str) -> (r: Vec<char>)
    ensures
        r@ == prefix@ + x@ + suffix@,
{
    let mut r = chars_of(prefix);
    push_str(&mut r, x.as_str());
    push_str(&mut r, suffix);
    r
}

fn with_value(prefix: &str, v: &ValueExpr, suffix: &str) -> (r: Vec<char>)
    ensures
        r@ == prefix@ + vexpr_text(vexpr_view(*v)) + suffix@,
{
    let mut r = chars_of(prefix);
    push_all(&mut r, &value_to_text(v));
    push_str(&mut r, suffix);
    r
}

fn with_place(prefix: &str, p: &PlaceExpr, suffix: &str) -> (r: Vec<char>)
    ensures
        r@ == prefix@ + pexpr_text(pexpr_view(*p)) + suffix@,
{
    let mut r = chars_of(prefix);
    push_all(&mut r, &place_to_text(p));
    push_str(&mut r, suffix);
    r
}

pub fn stmt_to_text(s: &Stmt) -> (r: Vec<char>)
    ensures
        r@ == stmt_text(stmt_view(*s)),
{
    match s {
        Stmt::Nop => chars_of("nop;"),
        Stmt::Load { dst, place } => {
            let mut r = with_reg("%", dst, " := ld ");
            push_all(&mut r, &with_place("", place, ";"));
            proof {
                reveal_strlit("");
            }
            r
        },
        Stmt::Assign { dst, src } => {
            let mut r = with_reg("%", dst, " := ");
            push_all(&mut r, &with_value("", src, ";"));
            proof {
                reveal_strlit("");
            }
            r
        },
        Stmt::BinOp { dst, lhs, op, rhs } => {
            let mut r = with_reg("%", dst, " := ");
            push_all(&mut r, &value_to_text(lhs));
            push_str(&mut r, " ");
            push_str(&mut r, binop_to_text(*op));
            push_str(&mut r, " ");
            push_all(&mut r, &value_to_text(rhs));
            push_str(&mut r, ";");
            r
        },
        Stmt::Store { place, src } => {
            let mut r = place_to_text(place);
            push_all(&mut r, &with_value(" := st ", src, ";"));
            r
        },
        Stmt::Pop { dst } => with_reg("pop %", dst, ";"),
        Stmt::Push { src } => with_value("push ", src, ";"),
        Stmt::LGet { dst } => with_reg("lget %", dst, ";"),
        Stmt::HAlloc { size, dst } => {
            let mut r = with_value("halloc(", size, ") %");
            push_str(&mut r, dst.as_str());
            push_str(&mut r, ";");
            r
        },
        Stmt::HFree { handle } => with_value("hfree ", handle, ";"),
        Stmt::Print { src } => with_reg("print %", src, ";"),
        Stmt::Input { place } => with_place("input ", place, ";"),
    }
}

fn cont_jumps_ref(c: &Cont) -> (r: &Vec<JumpIf>)
    ensures
        jumps_view(r@) == cont_jumps(cont_view(*c)),
{
    match c {
        Cont::Go { ifs, .. } => ifs,
        Cont::Enter { ifs, .. } => ifs,
        Cont::Halt { ifs } => ifs,
    }
}

fn write_block(out: &mut Vec<char>, b: &Block)
    ensures
        final(out)@ == old(out)@ + block_text(block_view(*b)),
{
    let ghost bv = block_view(*b);
    let ghost start = out@;
    push_str(out, "  :");
    push_str(out, b.label.as_str());
    push_str(out, " {\n");
    let ghost head = out@;
    let mut i: usize = 0;
    while i < b.stmts.len()
        invariant
            0 <= i <= b.stmts@.len(),
            bv == block_view(*b),
            out@ == head + stmts_text(bv.stmts, i as nat),
        decreases b.stmts@.len() - i,
    {
        push_str(out, "    ");
        push_all(out, &stmt_to_text(&b.stmts[i]));
        push_str(out, "\n");
        i += 1;
    }
    let ghost mid = out@;
    let ifs = cont_jumps_ref(&b.cont);
    let mut k: usize = 0;
    while k < ifs.len()
        invariant
            0 <= k <= ifs@.len(),
            bv == block_view(*b),
            jumps_view(ifs@) == cont_jumps(bv.cont),
            out@ == mid + jumps_text(cont_jumps(bv.cont), k as nat),
        decreases ifs@.len() - k,
    {
        push_str(out, "    if ");
        push_all(out, &cond_to_text(&ifs[k].cond));
        push_str(out, " then ");
        push_all(out, &value_to_text(&ifs[k].target));
        push_str(out, ";\n");
        k += 1;
    }
    match &b.cont {
        Cont::Go { target, .. } => push_all(out, &with_value("    goto ", target, ";\n")),
        Cont::Enter { target, .. } => push_all(out, &with_value("    enter ", target, ";\n")),
        Cont::Halt { .. } => push_str(out, "    halt;\n"),
    }
    push_str(out, "  }\n");
    proof {
        assert(out@ =~= start + block_text(bv));
    }
}

fn write_region(out: &mut Vec<char>, r: &Region)
    ensures
        final(out)@ == old(out)@ + region_text(region_view(*r)),
{
    let ghost rv = region_view(*r);
    let ghost start = out@;
    push_str(out, ":");
    push_str(out, r.label.as_str());
    push_str(out, " {\n");
    let ghost head = out@;
    let mut i: usize = 0;
    while i < r.blocks.len()
        invariant
            0 <= i <= r.blocks@.len(),
            rv == region_view(*r),
            out@ == head + blocks_text(rv.blocks, i as nat),
        decreases r.blocks@.len() - i,
    {
        write_block(out, &r.blocks[i]);
        i += 1;
    }
    push_str(out, "}\n");
    proof {
        assert(out@ =~= start + region_text(rv));
    }
}

impl FlowIrCode {
    /// The text of the code.
    pub fn print(&self) -> (s: String)
        ensures
            s@ == program_text(program_view(self.0)),
    {
        let p = &self.0;
        let ghost pv = program_view(*p);
        let mut out: Vec<char> = Vec::new();
        let mut i: usize = 0;
        while i < p.statics.len()
            invariant
                0 <= i <= p.statics@.len(),
                pv == program_view(*p),
                out@ == statics_text(pv.statics, i as nat),
            decreases p.statics@.len() - i,
        {
            push_str(&mut out, "@");
            push_str(&mut out, p.statics[i].label.as_str());
            push_str(&mut out, " ");
            push_all(&mut out, &decimal_chars(p.statics[i].value.0));
            push_str(&mut out, "\n");
            i += 1;
        }
        let ghost head = out@;
        let mut k: usize = 0;
        while k < p.regions.len()
            invariant
                0 <= k <= p.regions@.len(),
                pv == program_view(*p),
                out@ == head + regions_text(pv.regions, k as nat),
            decreases p.regions@.len() - k,
        {
            write_region(&mut out, &p.regions[k]);
            k += 1;
        }
        string_of(&out)
    }
}

} // verus!

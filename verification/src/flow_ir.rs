//! A flow IR: regions of labelled blocks of statements over virtual
//! registers, static data, a stack and a heap, each block ending in
//! conditional jumps and a jump, an entry into a region, or a halt.
use vstd::prelude::*;

use crate::coroutine::{push_all, push_str};
use crate::number::Number;
use crate::table::Table;
use crate::text::{chars_of, string_of};

verus! {

#[derive(Debug, PartialEq)]
pub struct FlowIrCode(pub Program);

#[derive(Debug, PartialEq)]
pub struct Program {
    pub statics: Vec<StaticDef>,
    pub regions: Vec<Region>,
}

#[derive(Debug, PartialEq)]
pub struct StaticDef {
    pub label: String,
    pub value: Number,
}

#[derive(Debug, PartialEq)]
pub struct Region {
    pub label: String,
    pub blocks: Vec<Block>,
}

#[derive(Debug, PartialEq)]
pub struct Block {
    pub label: String,
    pub stmts: Vec<Stmt>,
    pub cont: Cont,
}

#[derive(Debug, PartialEq)]
pub struct JumpIf {
    pub cond: Cond,
    pub target: ValueExpr,
}

#[derive(Debug, PartialEq)]
pub enum Cont {
    Go { ifs: Vec<JumpIf>, target: ValueExpr },
    Enter { ifs: Vec<JumpIf>, target: ValueExpr },
    Halt { ifs: Vec<JumpIf> },
}

#[derive(Debug, PartialEq)]
pub enum Cond {
    Lt(ValueExpr, ValueExpr),
    Eq(ValueExpr, ValueExpr),
    Gt(ValueExpr, ValueExpr),
}

#[derive(Debug, PartialEq)]
pub enum Stmt {
    Nop,
    Load { dst: String, place: PlaceExpr },
    Assign { dst: String, src: ValueExpr },
    BinOp { dst: String, lhs: ValueExpr, op: BinOp, rhs: ValueExpr },
    Store { place: PlaceExpr, src: ValueExpr },
    Pop { dst: String },
    Push { src: ValueExpr },
    LGet { dst: String },
    HAlloc { size: ValueExpr, dst: String },
    HFree { handle: ValueExpr },
    Print { src: String },
    Input { place: PlaceExpr },
}

#[derive(Debug, Clone, Copy, PartialEq, Eq, Structural)]
pub enum BinOp {
    Add,
    Sub,
}

#[derive(Debug, PartialEq)]
pub enum ValueExpr {
    VReg(String),
    Imm(Number),
    CodeLabel(String),
    Ref(PlaceExpr),
}

#[derive(Debug, PartialEq)]
pub enum PlaceExpr {
    Label(String),
    Deref(String),
    SAcc(Box<ValueExpr>),
    HAcc { handle: Box<ValueExpr>, index: Box<ValueExpr> },
}

/// Where a value is kept: a static label, a stack slot, or a slot of a heap
/// area.
#[derive(Debug, PartialEq)]
pub enum PlaceKey {
    Static(String),
    Stack(usize),
    Heap { handle: usize, index: usize },
}

#[derive(Debug, PartialEq)]
pub enum FlowValue {
    Num(Number),
    CodeLabel(String),
    Key(PlaceKey),
}

// ---------------------------------------------------------------------
// Names
// ---------------------------------------------------------------------

/// The labels of a program, resolved: the static labels, each region's
/// index, each region's block indices, and the index of `:main`.
pub struct NameMapping {
    pub static_labels: Table<()>,
    pub region_label_to_id: Table<usize>,
    pub block_labels_in_region: Vec<Table<usize>>,
    pub entry_region: usize,
}

pub open spec fn static_labels_of(p: Program) -> Seq<Seq<char>> {
    p.statics@.map_values(|s: StaticDef| s.label@)
}

pub open spec fn region_labels(p: Program) -> Seq<Seq<char>> {
    p.regions@.map_values(|r: Region| r.label@)
}

pub open spec fn block_labels(r: Region) -> Seq<Seq<char>> {
    r.blocks@.map_values(|b: Block| b.label@)
}

/// Whether an earlier label is the label at `i`.
pub open spec fn label_repeated(labels: Seq<Seq<char>>, i: int) -> bool {
    exists|j: int| 0 <= j < i && #[trigger] labels[j] == labels[i]
}

/// The first label, from `i` on, that repeats an earlier one.
pub open spec fn first_repeat(labels: Seq<Seq<char>>, i: int) -> Option<int>
    decreases labels.len() - i,
{
    if i < 0 || i >= labels.len() {
        None
    } else if label_repeated(labels, i) {
        Some(i)
    } else {
        first_repeat(labels, i + 1)
    }
}

/// The first region, from `i` on, that has no blocks or repeats a label.
pub open spec fn first_bad_region(p: Program, i: int) -> Option<int>
    decreases p.regions@.len() - i,
{
    if i < 0 || i >= p.regions@.len() {
        None
    } else if p.regions@[i].blocks@.len() == 0 || label_repeated(region_labels(p), i) {
        Some(i)
    } else {
        first_bad_region(p, i + 1)
    }
}

pub open spec fn region_message(p: Program, i: int) -> Seq<char> {
    let r = p.regions@[i];
    if r.blocks@.len() == 0 {
        "Region :"@ + r.label@ + " has no blocks"@
    } else {
        "Duplicate region label: :"@ + r.label@
    }
}

/// The first region, from `r` on, two of whose blocks share a label, with
/// the block that repeats it.
pub open spec fn first_bad_block(p: Program, r: int) -> Option<(int, int)>
    decreases p.regions@.len() - r,
{
    if r < 0 || r >= p.regions@.len() {
        None
    } else {
        match first_repeat(block_labels(p.regions@[r]), 0) {
            Some(b) => Some((r, b)),
            None => first_bad_block(p, r + 1),
        }
    }
}

/// Each of the first `n` labels mapped to its index.
pub open spec fn index_map(labels: Seq<Seq<char>>, n: nat) -> Map<Seq<char>, usize>
    decreases n,
{
    if n == 0 || n > labels.len() {
        Map::empty()
    } else {
        index_map(labels, (n - 1) as nat).insert(labels[n - 1], (n - 1) as usize)
    }
}

/// The first `n` labels, as a set.
pub open spec fn label_set(labels: Seq<Seq<char>>, n: nat) -> Set<Seq<char>>
    decreases n,
{
    if n == 0 || n > labels.len() {
        Set::empty()
    } else {
        label_set(labels, (n - 1) as nat).insert(labels[n - 1])
    }
}

pub proof fn lemma_index_map(labels: Seq<Seq<char>>, n: nat)
    requires
        n <= labels.len(),
    ensures
        forall|k: Seq<char>|
            #![trigger index_map(labels, n).contains_key(k)]
            index_map(labels, n).contains_key(k) <==> exists|j: int| 0 <= j < n && labels[j] == k,
        forall|k: Seq<char>|
            #![trigger label_set(labels, n).contains(k)]
            label_set(labels, n).contains(k) <==> exists|j: int| 0 <= j < n && labels[j] == k,
    decreases n,
{
    if n > 0 {
        lemma_index_map(labels, (n - 1) as nat);
        assert forall|k: Seq<char>| #[trigger] index_map(labels, n).contains_key(k) <==> exists|j: int| 0 <= j < n && labels[j] == k by {
            if index_map(labels, n).contains_key(k) && k != labels[n - 1] {
                assert(index_map(labels, (n - 1) as nat).contains_key(k));
                let j = choose|j: int| 0 <= j < n - 1 && labels[j] == k;
                assert(0 <= j < n && labels[j] == k);
            }
            if exists|j: int| 0 <= j < n && labels[j] == k {
                let j = choose|j: int| 0 <= j < n && labels[j] == k;
                if j < n - 1 {
                    assert(index_map(labels, (n - 1) as nat).contains_key(k));
                }
            }
        }
        assert forall|k: Seq<char>| #[trigger] label_set(labels, n).contains(k) <==> exists|j: int| 0 <= j < n && labels[j] == k by {
            if label_set(labels, n).contains(k) && k != labels[n - 1] {
                assert(label_set(labels, (n - 1) as nat).contains(k));
                let j = choose|j: int| 0 <= j < n - 1 && labels[j] == k;
                assert(0 <= j < n && labels[j] == k);
            }
            if exists|j: int| 0 <= j < n && labels[j] == k {
                let j = choose|j: int| 0 <= j < n && labels[j] == k;
                if j < n - 1 {
                    assert(label_set(labels, (n - 1) as nat).contains(k));
                }
            }
        }
    }
}

/// The labels of a program, resolved.
pub struct NamesV {
    pub static_labels: Set<Seq<char>>,
    pub region_ids: Map<Seq<char>, usize>,
    pub block_ids: Seq<Map<Seq<char>, usize>>,
    pub entry_region: usize,
}

pub open spec fn names_view(n: NameMapping) -> NamesV {
    NamesV {
        static_labels: n.static_labels.as_map().dom(),
        region_ids: n.region_label_to_id.as_map(),
        block_ids: n.block_labels_in_region@.map_values(|t: Table<usize>| t.as_map()),
        entry_region: n.entry_region,
    }
}

/// What resolving the labels of a program gives: an error for the first
/// repeated static label, empty or repeated region, repeated block label
/// in a region, or a missing `:main`; else the resolved labels.
pub open spec fn names_spec(p: Program) -> Result<NamesV, Seq<char>> {
    let statics = static_labels_of(p);
    let regions = region_labels(p);
    match first_repeat(statics, 0) {
        Some(i) => Err("Duplicate static label: @"@ + statics[i]),
        None => match first_bad_region(p, 0) {
            Some(i) => Err(region_message(p, i)),
            None => match first_bad_block(p, 0) {
                Some((r, b)) => Err(
                    "Duplicate block label in region :"@ + regions[r] + ": :"@ + block_labels(
                        p.regions@[r],
                    )[b],
                ),
                None => {
                    let ids = index_map(regions, regions.len());
                    if !ids.contains_key("main"@) {
                        Err("Missing entry region: :main"@)
                    } else {
                        Ok(
                            NamesV {
                                static_labels: label_set(statics, statics.len()),
                                region_ids: ids,
                                block_ids: p.regions@.map_values(
                                    |r: Region| index_map(block_labels(r), block_labels(r).len()),
                                ),
                                entry_region: ids["main"@],
                            },
                        )
                    }
                },
            },
        },
    }
}

/// The labels of the program, resolved.
pub fn compile_name_mapping(program: &Program) -> (r: Result<NameMapping, String>)
    ensures
        match names_spec(*program) {
            Ok(n) => r matches Ok(m) && names_view(m) == n,
            Err(msg) => r matches Err(e) && e@ == msg,
        },
{
    let ghost statics = static_labels_of(*program);
    let ghost regions = region_labels(*program);
    // static labels
    let mut static_labels: Table<()> = Table::new();
    let mut i: usize = 0;
    assert(static_labels.as_map().dom() =~= label_set(statics, 0));
    while i < program.statics.len()
        invariant
            0 <= i <= program.statics.len(),
            statics == static_labels_of(*program),
            first_repeat(statics, 0) == first_repeat(statics, i as int),
            static_labels.as_map().dom() == label_set(statics, i as nat),
        decreases program.statics.len() - i,
    {
        let label = &program.statics[i].label;
        assert(statics[i as int] == label@);
        proof {
            lemma_index_map(statics, i as nat);
        }
        if static_labels.get(label.as_str()).is_some() {
            assert(label_set(statics, i as nat).contains(label@));
            assert(label_repeated(statics, i as int));
            let mut v = chars_of("Duplicate static label: @");
            push_str(&mut v, label.as_str());
            return Err(string_of(&v));
        }
        assert(!label_repeated(statics, i as int)) by {
            if label_repeated(statics, i as int) {
                let j = choose|j: int| 0 <= j < i && #[trigger] statics[j] == statics[i as int];
                assert(label_set(statics, i as nat).contains(label@));
            }
        }
        static_labels.insert(label.clone(), ());
        assert(static_labels.as_map().dom() =~= label_set(statics, (i + 1) as nat));
        i += 1;
    }
    // regions
    let mut region_label_to_id: Table<usize> = Table::new();
    let mut i: usize = 0;
    assert(region_label_to_id.as_map() =~= index_map(regions, 0));
    while i < program.regions.len()
        invariant
            0 <= i <= program.regions.len(),
            regions == region_labels(*program),
            statics == static_labels_of(*program),
            first_repeat(statics, 0) is None,
            first_bad_region(*program, 0) == first_bad_region(*program, i as int),
            region_label_to_id.as_map() == index_map(regions, i as nat),
        decreases program.regions.len() - i,
    {
        let region = &program.regions[i];
        assert(regions[i as int] == region.label@);
        proof {
            lemma_index_map(regions, i as nat);
        }
        if region.blocks.len() == 0 {
            assert(first_bad_region(*program, i as int) == Some(i as int));
            let mut v = chars_of("Region :");
            push_str(&mut v, region.label.as_str());
            push_str(&mut v, " has no blocks");
            return Err(string_of(&v));
        }
        if region_label_to_id.get(region.label.as_str()).is_some() {
            assert(index_map(regions, i as nat).contains_key(region.label@));
            assert(label_repeated(regions, i as int));
            assert(first_bad_region(*program, i as int) == Some(i as int));
            let mut v = chars_of("Duplicate region label: :");
            push_str(&mut v, region.label.as_str());
            return Err(string_of(&v));
        }
        assert(!label_repeated(regions, i as int)) by {
            if label_repeated(regions, i as int) {
                let j = choose|j: int| 0 <= j < i && #[trigger] regions[j] == regions[i as int];
                assert(index_map(regions, i as nat).contains_key(region.label@));
            }
        }
        region_label_to_id.insert(region.label.clone(), i);
        i += 1;
    }
    // blocks of each region
    let mut block_labels_in_region: Vec<Table<usize>> = Vec::new();
    let mut r: usize = 0;
    while r < program.regions.len()
        invariant
            0 <= r <= program.regions.len(),
            regions == region_labels(*program),
            statics == static_labels_of(*program),
            first_repeat(statics, 0) is None,
            first_bad_region(*program, 0) is None,
            first_bad_block(*program, 0) == first_bad_block(*program, r as int),
            block_labels_in_region@.len() == r,
            forall|k: int| 0 <= k < r ==> (#[trigger] block_labels_in_region@[k]).as_map() == index_map(
                block_labels(program.regions@[k]),
                block_labels(program.regions@[k]).len(),
            ),
        decreases program.regions.len() - r,
    {
        let region = &program.regions[r];
        let ghost bl = block_labels(*region);
        let mut local: Table<usize> = Table::new();
        let mut b: usize = 0;
        assert(local.as_map() =~= index_map(bl, 0));
        while b < region.blocks.len()
            invariant
                0 <= b <= region.blocks.len(),
                r < program.regions.len(),
                statics == static_labels_of(*program),
                regions == region_labels(*program),
                first_repeat(statics, 0) is None,
                first_bad_region(*program, 0) is None,
                first_bad_block(*program, 0) == first_bad_block(*program, r as int),
                *region == program.regions@[r as int],
                bl == block_labels(*region),
                first_repeat(bl, 0) == first_repeat(bl, b as int),
                local.as_map() == index_map(bl, b as nat),
            decreases region.blocks.len() - b,
        {
            let block = &region.blocks[b];
            assert(bl[b as int] == block.label@);
            proof {
                lemma_index_map(bl, b as nat);
            }
            if local.get(block.label.as_str()).is_some() {
                assert(index_map(bl, b as nat).contains_key(block.label@));
                assert(label_repeated(bl, b as int));
                assert(first_repeat(bl, 0) == Some(b as int));
                assert(first_bad_block(*program, r as int) == Some((r as int, b as int)));
                assert(regions[r as int] == region.label@);
                let mut v = chars_of("Duplicate block label in region :");
                push_str(&mut v, region.label.as_str());
                push_str(&mut v, ": :");
                push_str(&mut v, block.label.as_str());
                return Err(string_of(&v));
            }
            assert(!label_repeated(bl, b as int)) by {
                if label_repeated(bl, b as int) {
                    let j = choose|j: int| 0 <= j < b && #[trigger] bl[j] == bl[b as int];
                    assert(index_map(bl, b as nat).contains_key(block.label@));
                }
            }
            local.insert(block.label.clone(), b);
            b += 1;
        }
        assert(first_repeat(bl, 0) is None);
        block_labels_in_region.push(local);
        r += 1;
    }
    let entry_region = match region_label_to_id.get("main") {
        Some(e) => e,
        None => {
            return Err(String::from_str("Missing entry region: :main"));
        },
    };
    let m = NameMapping { static_labels, region_label_to_id, block_labels_in_region, entry_region };
    proof {
        assert(names_view(m).block_ids =~= program.regions@.map_values(
            |r: Region| index_map(block_labels(r), block_labels(r).len()),
        ));
    }
    Ok(m)
}

} // verus!

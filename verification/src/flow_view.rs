//! What a flow IR machine shows: where it is, whether it halted, and its
//! registers, static data, stack and heap.
use vstd::prelude::*;

use crate::flow_ir::{FlowValue, StaticDef};
use crate::flow_machine::{fv, fv_text, FlowIrMachine};
use crate::number::decimal;
use crate::table::Table;
use crate::view::{
    dec_string, panels_model, prefixed, push_panel, push_row, row2, row3, rows_model, text, Panel, PanelModel,
    TableModel, TableView,
};

verus! {

/// The label of the current region, or `<invalid>`.
pub open spec fn region_label(m: FlowIrMachine) -> Seq<char> {
    let rs = m.code.0.regions@;
    if m.current_region < rs.len() {
        rs[m.current_region as int].label@
    } else {
        "<invalid>"@
    }
}

/// The label of the current block, or `<invalid>`.
pub open spec fn block_label(m: FlowIrMachine) -> Seq<char> {
    let rs = m.code.0.regions@;
    if m.current_region < rs.len() && m.current_block < rs[m.current_region as int].blocks@.len() {
        rs[m.current_region as int].blocks@[m.current_block as int].label@
    } else {
        "<invalid>"@
    }
}

pub open spec fn vreg_rows(vs: Seq<(String, FlowValue)>) -> Seq<Seq<Seq<char>>> {
    Seq::new(vs.len(), |i: int| seq!["%"@ + vs[i].0@, fv_text(fv(vs[i].1))])
}

/// The value of a static label: what the static data holds, or zero.
pub open spec fn static_text(mem: Table<FlowValue>, label: Seq<char>) -> Seq<char> {
    match mem.lookup(label) {
        Some(v) => fv_text(fv(v)),
        None => decimal(0),
    }
}

pub open spec fn static_rows(defs: Seq<StaticDef>, mem: Table<FlowValue>) -> Seq<Seq<Seq<char>>> {
    Seq::new(defs.len(), |i: int| seq!["@"@ + defs[i].label@, static_text(mem, defs[i].label@)])
}

pub open spec fn stack_rows(st: Seq<FlowValue>) -> Seq<Seq<Seq<char>>> {
    Seq::new(st.len(), |i: int| seq![decimal(i as nat), fv_text(fv(st[i]))])
}

pub open spec fn area_rows(h: usize, vals: Seq<FlowValue>) -> Seq<Seq<Seq<char>>> {
    Seq::new(vals.len(), |i: int| seq![decimal(h as nat), decimal(i as nat), fv_text(fv(vals[i]))])
}

/// The rows of the first `n` heap areas: one per cell.
pub open spec fn heap_rows(areas: Seq<(usize, Vec<FlowValue>)>, n: nat) -> Seq<Seq<Seq<char>>>
    decreases n,
{
    if n == 0 || n > areas.len() {
        seq![]
    } else {
        heap_rows(areas, (n - 1) as nat) + area_rows(areas[n - 1].0, areas[n - 1].1@)
    }
}

pub open spec fn bool_text(b: bool) -> Seq<char> {
    if b {
        "true"@
    } else {
        "false"@
    }
}

/// What the machine shows: the current region, block and line, whether it
/// halted, the registers in the order of their names, the static data in
/// the order of the code, the stack from the bottom, and each heap cell.
pub open spec fn flow_panels(m: FlowIrMachine) -> Seq<PanelModel> {
    seq![
        PanelModel::Text("current_region"@, ":"@ + region_label(m)),
        PanelModel::Text("current_block"@, ":"@ + block_label(m)),
        PanelModel::Text("current_line"@, decimal(m.current_line as nat)),
        PanelModel::Text("halted"@, bool_text(m.halted)),
        PanelModel::Table(
            TableModel { title: "vregs"@, columns: seq!["vreg"@, "value"@], rows: vreg_rows(m.vregs.entries_view()) },
        ),
        PanelModel::Table(
            TableModel {
                title: "static"@,
                columns: seq!["label"@, "value"@],
                rows: static_rows(m.code.0.statics@, m.static_mem),
            },
        ),
        PanelModel::Table(TableModel { title: "stack"@, columns: seq!["index"@, "value"@], rows: stack_rows(m.stack@) }),
        PanelModel::Table(
            TableModel {
                title: "heap"@,
                columns: seq!["handle"@, "index"@, "value"@],
                rows: heap_rows(m.heap.areas_view(), m.heap.areas_view().len()),
            },
        ),
    ]
}

fn text_panel(title: &str, t: String) -> (p: Panel)
    ensures
        crate::view::panel_model(p) == PanelModel::Text(title@, t@),
{
    Panel::Text { title: text(title), text: t }
}

fn table_panel(title: &str, columns: Vec<String>, rows: Vec<Vec<String>>) -> (p: Panel)
    ensures
        crate::view::panel_model(p) == PanelModel::Table(
            TableModel { title: title@, columns: crate::view::strs(columns@), rows: rows_model(rows@) },
        ),
{
    Panel::Table(TableView { title: text(title), columns, rows })
}

/// The panels that show the machine.
pub fn flow_tables(m: &FlowIrMachine) -> (r: Vec<Panel>)
    ensures
        panels_model(r@) == flow_panels(*m),
{
    let ghost want = flow_panels(*m);
    let regions = &m.code.0.regions;
    let region = if m.current_region < regions.len() {
        prefixed(":", regions[m.current_region].label.as_str())
    } else {
        text(":<invalid>")
    };
    let block = if m.current_region < regions.len() && m.current_block < regions[m.current_region].blocks.len() {
        prefixed(":", regions[m.current_region].blocks[m.current_block].label.as_str())
    } else {
        text(":<invalid>")
    };
    proof {
        reveal_strlit(":<invalid>");
        reveal_strlit(":");
        reveal_strlit("<invalid>");
        assert(":<invalid>"@ =~= ":"@ + "<invalid>"@);
    }
    let halted = if m.halted {
        text("true")
    } else {
        text("false")
    };
    // registers
    let vs = m.vregs.entries();
    let mut vrows: Vec<Vec<String>> = Vec::new();
    let mut i: usize = 0;
    while i < vs.len()
        invariant
            i <= vs@.len(),
            vs@ == m.vregs.entries_view(),
            rows_model(vrows@) == vreg_rows(vs@).take(i as int),
        decreases vs@.len() - i,
    {
        push_row(&mut vrows, row2(prefixed("%", vs[i].0.as_str()), vs[i].1.print()));
        assert(rows_model(vrows@) =~= vreg_rows(vs@).take(i + 1));
        i += 1;
    }
    assert(vreg_rows(vs@).take(i as int) =~= vreg_rows(vs@));
    // static data
    let defs = &m.code.0.statics;
    let mut srows: Vec<Vec<String>> = Vec::new();
    let mut i: usize = 0;
    while i < defs.len()
        invariant
            i <= defs@.len(),
            rows_model(srows@) == static_rows(defs@, m.static_mem).take(i as int),
        decreases defs@.len() - i,
    {
        let value = match m.static_mem.get_ref(defs[i].label.as_str()) {
            Some(v) => v.print(),
            None => dec_string(0),
        };
        push_row(&mut srows, row2(prefixed("@", defs[i].label.as_str()), value));
        assert(rows_model(srows@) =~= static_rows(defs@, m.static_mem).take(i + 1));
        i += 1;
    }
    assert(static_rows(defs@, m.static_mem).take(i as int) =~= static_rows(defs@, m.static_mem));
    // stack
    let mut strows: Vec<Vec<String>> = Vec::new();
    let mut i: usize = 0;
    while i < m.stack.len()
        invariant
            i <= m.stack@.len(),
            rows_model(strows@) == stack_rows(m.stack@).take(i as int),
        decreases m.stack@.len() - i,
    {
        push_row(&mut strows, row2(dec_string(i), m.stack[i].print()));
        assert(rows_model(strows@) =~= stack_rows(m.stack@).take(i + 1));
        i += 1;
    }
    assert(stack_rows(m.stack@).take(i as int) =~= stack_rows(m.stack@));
    // heap
    let areas = m.heap.areas();
    let mut hrows: Vec<Vec<String>> = Vec::new();
    let mut a: usize = 0;
    while a < areas.len()
        invariant
            a <= areas@.len(),
            areas@ == m.heap.areas_view(),
            rows_model(hrows@) == heap_rows(areas@, a as nat),
        decreases areas@.len() - a,
    {
        let h = areas[a].0;
        let vals = &areas[a].1;
        let ghost before = rows_model(hrows@);
        let mut k: usize = 0;
        while k < vals.len()
            invariant
                k <= vals@.len(),
                rows_model(hrows@) == before + area_rows(h, vals@).take(k as int),
            decreases vals@.len() - k,
        {
            push_row(&mut hrows, row3(dec_string(h), dec_string(k), vals[k].print()));
            assert(rows_model(hrows@) =~= before + area_rows(h, vals@).take(k + 1));
            k += 1;
        }
        assert(area_rows(h, vals@).take(k as int) =~= area_rows(h, vals@));
        assert(heap_rows(areas@, (a + 1) as nat) == heap_rows(areas@, a as nat) + area_rows(areas@[a as int].0, areas@[a as int].1@));
        a += 1;
    }
    let p0 = text_panel("current_region", region);
    let p1 = text_panel("current_block", block);
    let p2 = text_panel("current_line", dec_string(m.current_line));
    let p3 = text_panel("halted", halted);
    let p4 = table_panel("vregs", row2(text("vreg"), text("value")), vrows);
    let p5 = table_panel("static", row2(text("label"), text("value")), srows);
    let p6 = table_panel("stack", row2(text("index"), text("value")), strows);
    let p7 = table_panel("heap", row3(text("handle"), text("index"), text("value")), hrows);
    assert(crate::view::panel_model(p0) =~= want[0]);
    assert(crate::view::panel_model(p1) =~= want[1]);
    assert(crate::view::panel_model(p2) =~= want[2]);
    assert(crate::view::panel_model(p3) =~= want[3]);
    assert(crate::view::panel_model(p4) =~= want[4]);
    assert(crate::view::panel_model(p5) =~= want[5]);
    assert(crate::view::panel_model(p6) =~= want[6]);
    assert(crate::view::panel_model(p7) =~= want[7]);
    let mut r: Vec<Panel> = Vec::new();
    push_panel(&mut r, p0);
    push_panel(&mut r, p1);
    push_panel(&mut r, p2);
    push_panel(&mut r, p3);
    push_panel(&mut r, p4);
    push_panel(&mut r, p5);
    push_panel(&mut r, p6);
    push_panel(&mut r, p7);
    assert(panels_model(r@) =~= want);
    r
}

} // verus!

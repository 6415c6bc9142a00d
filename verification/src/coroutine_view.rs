//! What a coroutine machine shows: its counts, its environment, its agents,
//! its queue and the stack of each task.
use vstd::prelude::*;

use crate::coroutine_machine::{CoroutineMachine, Frame};
use crate::number::{decimal, Number};
use crate::view::{
    dec_string, prefixed, push_panel, push_row, push_table, row2, row3, rows_model, strs, tables_model, text,
    panels_model, Panel, PanelModel, TableModel, TableView,
};

verus! {

pub open spec fn status_rows(m: CoroutineMachine) -> Seq<Seq<Seq<char>>> {
    seq![
        seq!["agents"@, decimal(m.workers@.len())],
        seq!["queue_len"@, decimal(m.queue@.len())],
        seq!["task_count"@, decimal(m.tasks@.len())],
    ]
}

pub open spec fn var_rows(vs: Seq<(String, Number)>) -> Seq<Seq<Seq<char>>> {
    Seq::new(vs.len(), |i: int| seq![vs[i].0@, decimal(vs[i].1.value())])
}

pub open spec fn task_id_text(t: Option<usize>, missing: Seq<char>) -> Seq<char> {
    match t {
        Some(t) => decimal(t as nat),
        None => missing,
    }
}

pub open spec fn task_id_rows(ts: Seq<(String, Option<usize>)>) -> Seq<Seq<Seq<char>>> {
    Seq::new(ts.len(), |i: int| seq!["$"@ + ts[i].0@, task_id_text(ts[i].1, "none"@)])
}

pub open spec fn worker_rows(ws: Seq<Option<usize>>) -> Seq<Seq<Seq<char>>> {
    Seq::new(ws.len(), |i: int| seq![decimal(i as nat), task_id_text(ws[i], "idle"@)])
}

pub open spec fn queue_rows(q: Seq<usize>) -> Seq<Seq<Seq<char>>> {
    Seq::new(q.len(), |i: int| seq![decimal(i as nat), decimal(q[i] as nat)])
}

/// The table of one task: a row per frame, from the bottom of its stack.
pub open spec fn task_table(t: nat, stack: Seq<Frame>) -> TableModel {
    TableModel {
        title: "task "@ + decimal(t),
        columns: seq!["depth"@, "function"@, "pc"@],
        rows: Seq::new(stack.len(), |d: int| seq![decimal(d as nat), stack[d].function@, decimal(stack[d].pc as nat)]),
    }
}

pub open spec fn task_tables(tasks: Seq<Vec<Frame>>) -> Seq<TableModel> {
    Seq::new(tasks.len(), |t: int| task_table(t as nat, tasks[t]@))
}

/// What the machine shows: a status table, the environment (variables and
/// task ids, each in the order of their names), the agents, the queue, and
/// a table for each task.
pub open spec fn coroutine_panels(m: CoroutineMachine) -> Seq<PanelModel> {
    seq![
        PanelModel::Table(TableModel { title: "status"@, columns: seq!["field"@, "value"@], rows: status_rows(m) }),
        PanelModel::Group(
            "env"@,
            seq![
                TableModel {
                    title: "vars"@,
                    columns: seq!["var"@, "value"@],
                    rows: var_rows(m.env.vars.entries_view()),
                },
                TableModel {
                    title: "task_ids"@,
                    columns: seq!["id"@, "task"@],
                    rows: task_id_rows(m.env.task_ids.entries_view()),
                },
            ],
        ),
        PanelModel::Table(TableModel { title: "workers"@, columns: seq!["agent"@, "task"@], rows: worker_rows(m.workers@) }),
        PanelModel::Table(TableModel { title: "queue"@, columns: seq!["slot"@, "task"@], rows: queue_rows(m.queue@) }),
        PanelModel::Group("tasks"@, task_tables(m.tasks@)),
    ]
}

fn task_id_string(t: Option<usize>, missing: &str) -> (r: String)
    ensures
        r@ == task_id_text(t, missing@),
{
    match t {
        Some(t) => dec_string(t),
        None => text(missing),
    }
}

fn table(title: &str, columns: Vec<String>, rows: Vec<Vec<String>>) -> (t: TableView)
    ensures
        t.title@ == title@,
        t.columns@ == columns@,
        t.rows@ == rows@,
{
    TableView { title: text(title), columns, rows }
}

fn render_task(t: usize, stack: &Vec<Frame>) -> (r: TableView)
    ensures
        crate::view::table_model(r) == task_table(t as nat, stack@),
{
    let mut rows: Vec<Vec<String>> = Vec::new();
    let mut d: usize = 0;
    while d < stack.len()
        invariant
            d <= stack.len(),
            rows_model(rows@) == task_table(t as nat, stack@).rows.take(d as int),
        decreases stack.len() - d,
    {
        let row = row3(dec_string(d), stack[d].function.clone(), dec_string(stack[d].pc));
        push_row(&mut rows, row);
        assert(rows_model(rows@) =~= task_table(t as nat, stack@).rows.take(d + 1));
        d += 1;
    }
    assert(task_table(t as nat, stack@).rows.take(d as int) =~= task_table(t as nat, stack@).rows);
    let columns = row3(text("depth"), text("function"), text("pc"));
    let r = TableView { title: prefixed_dec("task ", t), columns, rows };
    assert(crate::view::table_model(r) =~= task_table(t as nat, stack@));
    r
}

fn prefixed_dec(p: &str, n: usize) -> (r: String)
    ensures
        r@ == p@ + decimal(n as nat),
{
    crate::view::prefixed_chars(p, &crate::number::decimal_chars(n))
}

/// The panels that show the machine.
pub fn coroutine_tables(m: &CoroutineMachine) -> (r: Vec<Panel>)
    ensures
        panels_model(r@) == coroutine_panels(*m),
{
    let ghost want = coroutine_panels(*m);
    // status
    let mut status: Vec<Vec<String>> = Vec::new();
    push_row(&mut status, row2(text("agents"), dec_string(m.workers.len())));
    push_row(&mut status, row2(text("queue_len"), dec_string(m.queue.len())));
    push_row(&mut status, row2(text("task_count"), dec_string(m.tasks.len())));
    assert(rows_model(status@) =~= status_rows(*m));
    // variables
    let vs = m.env.vars.entries();
    let mut vrows: Vec<Vec<String>> = Vec::new();
    let mut i: usize = 0;
    while i < vs.len()
        invariant
            i <= vs@.len(),
            vs@ == m.env.vars.entries_view(),
            rows_model(vrows@) == var_rows(vs@).take(i as int),
        decreases vs@.len() - i,
    {
        push_row(&mut vrows, row2(vs[i].0.clone(), dec_string(vs[i].1.0)));
        assert(rows_model(vrows@) =~= var_rows(vs@).take(i + 1));
        i += 1;
    }
    assert(var_rows(vs@).take(i as int) =~= var_rows(vs@));
    // task ids
    let ts = m.env.task_ids.entries();
    let mut trows: Vec<Vec<String>> = Vec::new();
    let mut i: usize = 0;
    while i < ts.len()
        invariant
            i <= ts@.len(),
            ts@ == m.env.task_ids.entries_view(),
            rows_model(trows@) == task_id_rows(ts@).take(i as int),
        decreases ts@.len() - i,
    {
        push_row(&mut trows, row2(prefixed("$", ts[i].0.as_str()), task_id_string(ts[i].1, "none")));
        assert(rows_model(trows@) =~= task_id_rows(ts@).take(i + 1));
        i += 1;
    }
    assert(task_id_rows(ts@).take(i as int) =~= task_id_rows(ts@));
    // workers
    let mut wrows: Vec<Vec<String>> = Vec::new();
    let mut i: usize = 0;
    while i < m.workers.len()
        invariant
            i <= m.workers@.len(),
            rows_model(wrows@) == worker_rows(m.workers@).take(i as int),
        decreases m.workers@.len() - i,
    {
        push_row(&mut wrows, row2(dec_string(i), task_id_string(m.workers[i], "idle")));
        assert(rows_model(wrows@) =~= worker_rows(m.workers@).take(i + 1));
        i += 1;
    }
    assert(worker_rows(m.workers@).take(i as int) =~= worker_rows(m.workers@));
    // queue
    let mut qrows: Vec<Vec<String>> = Vec::new();
    let mut i: usize = 0;
    while i < m.queue.len()
        invariant
            i <= m.queue@.len(),
            rows_model(qrows@) == queue_rows(m.queue@).take(i as int),
        decreases m.queue@.len() - i,
    {
        push_row(&mut qrows, row2(dec_string(i), dec_string(m.queue[i])));
        assert(rows_model(qrows@) =~= queue_rows(m.queue@).take(i + 1));
        i += 1;
    }
    assert(queue_rows(m.queue@).take(i as int) =~= queue_rows(m.queue@));
    // tasks
    let mut tasks: Vec<TableView> = Vec::new();
    let mut t: usize = 0;
    while t < m.tasks.len()
        invariant
            t <= m.tasks@.len(),
            tables_model(tasks@) == task_tables(m.tasks@).take(t as int),
        decreases m.tasks@.len() - t,
    {
        push_table(&mut tasks, render_task(t, &m.tasks[t]));
        assert(tables_model(tasks@) =~= task_tables(m.tasks@).take(t + 1));
        t += 1;
    }
    assert(task_tables(m.tasks@).take(t as int) =~= task_tables(m.tasks@));
    // env
    let mut env: Vec<TableView> = Vec::new();
    push_table(&mut env, table("vars", row2(text("var"), text("value")), vrows));
    push_table(&mut env, table("task_ids", row2(text("id"), text("task")), trows));
    let p0 = Panel::Table(table("status", row2(text("field"), text("value")), status));
    assert(crate::view::panel_model(p0) =~= want[0]);
    let p1 = Panel::Group { title: text("env"), tables: env };
    assert(crate::view::panel_model(p1) =~= want[1]);
    let p2 = Panel::Table(table("workers", row2(text("agent"), text("task")), wrows));
    assert(crate::view::panel_model(p2) =~= want[2]);
    let p3 = Panel::Table(table("queue", row2(text("slot"), text("task")), qrows));
    assert(crate::view::panel_model(p3) =~= want[3]);
    let p4 = Panel::Group { title: text("tasks"), tables: tasks };
    assert(crate::view::panel_model(p4) =~= want[4]);
    let mut r: Vec<Panel> = Vec::new();
    push_panel(&mut r, p0);
    push_panel(&mut r, p1);
    push_panel(&mut r, p2);
    push_panel(&mut r, p3);
    push_panel(&mut r, p4);
    assert(panels_model(r@) =~= want);
    r
}

} // verus!

//! What the running models show: panels of text and tables of strings, and
//! the helpers that build them.
use vstd::prelude::*;

use crate::coroutine::{push_all, push_str};
use crate::number::{decimal, decimal_chars};
use crate::text::{chars_of, string_of};

verus! {

/// A table: its title, the names of its columns, and its rows of cells.
#[derive(Debug, PartialEq)]
pub struct TableView {
    pub title: String,
    pub columns: Vec<String>,
    pub rows: Vec<Vec<String>>,
}

/// One thing shown: a titled text, a table, or a titled group of tables.
#[derive(Debug, PartialEq)]
pub enum Panel {
    Text { title: String, text: String },
    Table(TableView),
    Group { title: String, tables: Vec<TableView> },
}

#[verifier::ext_equal]
pub struct TableModel {
    pub title: Seq<char>,
    pub columns: Seq<Seq<char>>,
    pub rows: Seq<Seq<Seq<char>>>,
}

#[verifier::ext_equal]
pub enum PanelModel {
    Text(Seq<char>, Seq<char>),
    Table(TableModel),
    Group(Seq<char>, Seq<TableModel>),
}

pub open spec fn strs(v: Seq<String>) -> Seq<Seq<char>> {
    v.map_values(|s: String| s@)
}

pub open spec fn rows_model(rows: Seq<Vec<String>>) -> Seq<Seq<Seq<char>>> {
    rows.map_values(|r: Vec<String>| strs(r@))
}

pub open spec fn table_model(t: TableView) -> TableModel {
    TableModel { title: t.title@, columns: strs(t.columns@), rows: rows_model(t.rows@) }
}

pub open spec fn tables_model(ts: Seq<TableView>) -> Seq<TableModel> {
    ts.map_values(|t: TableView| table_model(t))
}

pub open spec fn panel_model(p: Panel) -> PanelModel {
    match p {
        Panel::Text { title, text } => PanelModel::Text(title@, text@),
        Panel::Table(t) => PanelModel::Table(table_model(t)),
        Panel::Group { title, tables } => PanelModel::Group(title@, tables_model(tables@)),
    }
}

pub open spec fn panels_model(ps: Seq<Panel>) -> Seq<PanelModel> {
    ps.map_values(|p: Panel| panel_model(p))
}

/// A string holding the text of a literal.
pub fn text(s: &str) -> (r: String)
    ensures
        r@ == s@,
{
    string_of(&chars_of(s))
}

/// The decimal numeral of a number.
pub fn dec_string(n: usize) -> (r: String)
    ensures
        r@ == decimal(n as nat),
{
    string_of(&decimal_chars(n))
}

/// A prefix followed by a name.
pub fn prefixed(p: &str, name: &str) -> (r: String)
    ensures
        r@ == p@ + name@,
{
    let mut v = chars_of(p);
    push_str(&mut v, name);
    string_of(&v)
}

/// A prefix followed by characters.
pub fn prefixed_chars(p: &str, tail: &Vec<char>) -> (r: String)
    ensures
        r@ == p@ + tail@,
{
    let mut v = chars_of(p);
    push_all(&mut v, tail);
    string_of(&v)
}

pub fn row2(a: String, b: String) -> (r: Vec<String>)
    ensures
        strs(r@) == seq![a@, b@],
{
    let r = vec![a, b];
    assert(strs(r@) =~= seq![r@[0]@, r@[1]@]);
    r
}

pub fn row3(a: String, b: String, c: String) -> (r: Vec<String>)
    ensures
        strs(r@) == seq![a@, b@, c@],
{
    let r = vec![a, b, c];
    assert(strs(r@) =~= seq![r@[0]@, r@[1]@, r@[2]@]);
    r
}

pub fn push_row(rows: &mut Vec<Vec<String>>, row: Vec<String>)
    ensures
        rows_model(final(rows)@) == rows_model(old(rows)@).push(strs(row@)),
{
    let ghost r0 = rows@;
    let ghost m = strs(row@);
    rows.push(row);
    assert(rows_model(rows@) =~= rows_model(r0).push(m));
}

pub fn push_table(ts: &mut Vec<TableView>, t: TableView)
    ensures
        tables_model(final(ts)@) == tables_model(old(ts)@).push(table_model(t)),
{
    let ghost t0 = ts@;
    let ghost m = table_model(t);
    ts.push(t);
    assert(tables_model(ts@) =~= tables_model(t0).push(m));
}

pub fn push_panel(ps: &mut Vec<Panel>, p: Panel)
    ensures
        panels_model(final(ps)@) == panels_model(old(ps)@).push(panel_model(p)),
{
    let ghost p0 = ps@;
    let ghost m = panel_model(p);
    ps.push(p);
    assert(panels_model(ps@) =~= panels_model(p0).push(m));
}

} // verus!

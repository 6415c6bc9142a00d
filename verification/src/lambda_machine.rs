//! The lambda calculus as a machine: a term applied to its inputs, reduced
//! one chosen redex at a time until it is in normal form, with snapshots
//! that record a term by the ids of its variables and a table of names.
use vstd::prelude::*;

use crate::coroutine::{push_all, push_str};
use crate::lambda_parse::{parse_from_spec, parse_lambda_from, term_view, TermV};
use crate::lambda_term::{
    apps, apps_spec, mark, mark_redex, normal, is_normal_form, redex_count, reduce_nth, step, term_text, LambdaTerm,
    Var,
};
use crate::number::{decimal, decimal_chars};
use crate::text::{chars_of, slice_chars, string_of, trim, trim_chars};

verus! {

/// A term with each variable given by its id.
#[derive(Debug, PartialEq)]
pub enum SnapshotTerm {
    Var(usize),
    Abs(usize, Box<SnapshotTerm>),
    App(Box<SnapshotTerm>, Box<SnapshotTerm>),
}

/// A term by the ids of its variables, and the name of each id.
#[derive(Debug, PartialEq)]
pub struct Snapshot {
    pub term: SnapshotTerm,
    pub table: Vec<(usize, String)>,
}

/// What a step of the machine gives: the next term, or the normal form
/// that it halts on.
#[derive(Debug, PartialEq)]
pub enum LambdaStep {
    Continue { next: LambdaTerm },
    Halt { output: LambdaTerm },
}

/// The inputs that the code is applied to.
#[derive(Debug, PartialEq)]
pub struct AInput(pub Vec<LambdaTerm>);

pub open spec fn shape(t: LambdaTerm) -> SnapshotTerm
    decreases t,
{
    match t {
        LambdaTerm::Var(v) => SnapshotTerm::Var(v.id),
        LambdaTerm::Abs(v, b) => SnapshotTerm::Abs(v.id, Box::new(shape(*b))),
        LambdaTerm::App(f, a) => SnapshotTerm::App(Box::new(shape(*f)), Box::new(shape(*a))),
    }
}

pub open spec fn table_view(tab: Seq<(usize, String)>) -> Seq<(usize, Seq<char>)> {
    tab.map_values(|e: (usize, String)| (e.0, e.1@))
}

/// The first entry for `id` at or after `i`, or -1.
pub open spec fn find_id(tab: Seq<(usize, Seq<char>)>, id: usize, i: int) -> int
    decreases tab.len() - i,
{
    if i < 0 || i >= tab.len() {
        -1
    } else if tab[i].0 == id {
        i
    } else {
        find_id(tab, id, i + 1)
    }
}

/// The table with the name for `id` added, unless it has one.
pub open spec fn add_name(tab: Seq<(usize, Seq<char>)>, id: usize, name: Seq<char>) -> Seq<(usize, Seq<char>)> {
    if find_id(tab, id, 0) >= 0 {
        tab
    } else {
        tab.push((id, name))
    }
}

/// The table with the first name met for each id of the term added, in the
/// order in which the term is read.
pub open spec fn name_table(t: LambdaTerm, tab: Seq<(usize, Seq<char>)>) -> Seq<(usize, Seq<char>)>
    decreases t,
{
    match t {
        LambdaTerm::Var(v) => add_name(tab, v.id, v.name@),
        LambdaTerm::Abs(v, b) => name_table(*b, add_name(tab, v.id, v.name@)),
        LambdaTerm::App(f, a) => name_table(*a, name_table(*f, tab)),
    }
}

/// The name of an id: the table's, or `v` and the id.
pub open spec fn name_for(tab: Seq<(usize, Seq<char>)>, id: usize) -> Seq<char> {
    let k = find_id(tab, id, 0);
    if 0 <= k < tab.len() {
        tab[k].1
    } else {
        seq!['v'] + decimal(id as nat)
    }
}

pub open spec fn decode(st: SnapshotTerm, tab: Seq<(usize, Seq<char>)>) -> TermV
    decreases st,
{
    match st {
        SnapshotTerm::Var(id) => TermV::Var(id, name_for(tab, id)),
        SnapshotTerm::Abs(id, b) => TermV::Abs(id, name_for(tab, id), Box::new(decode(*b, tab))),
        SnapshotTerm::App(f, a) => TermV::App(Box::new(decode(*f, tab)), Box::new(decode(*a, tab))),
    }
}

fn find_id_exec(tab: &Vec<(usize, String)>, id: usize) -> (r: Option<usize>)
    ensures
        match r {
            Some(k) => k as int == find_id(table_view(tab@), id, 0) && k < tab.len(),
            None => find_id(table_view(tab@), id, 0) < 0,
        },
{
    let ghost tv = table_view(tab@);
    let mut i: usize = 0;
    while i < tab.len()
        invariant
            i <= tab.len(),
            tv == table_view(tab@),
            find_id(tv, id, 0) == find_id(tv, id, i as int),
        decreases tab.len() - i,
    {
        if tab[i].0 == id {
            return Some(i);
        }
        i = i + 1;
    }
    None
}

fn add_name_exec(tab: &mut Vec<(usize, String)>, v: &Var)
    ensures
        table_view(final(tab)@) == add_name(table_view(old(tab)@), v.id, v.name@),
{
    if find_id_exec(tab, v.id).is_none() {
        tab.push((v.id, v.name.clone()));
        assert(table_view(tab@) =~= table_view(old(tab)@).push((v.id, v.name@)));
    }
}

/// The snapshot term of `term`, the names of its ids added to `table`.
pub fn encode_snapshot_term(term: &LambdaTerm, table: &mut Vec<(usize, String)>) -> (st: SnapshotTerm)
    ensures
        st == shape(*term),
        table_view(final(table)@) == name_table(*term, table_view(old(table)@)),
    decreases term,
{
    match term {
        LambdaTerm::Var(v) => {
            add_name_exec(table, v);
            SnapshotTerm::Var(v.id)
        },
        LambdaTerm::Abs(v, b) => {
            add_name_exec(table, v);
            SnapshotTerm::Abs(v.id, Box::new(encode_snapshot_term(b, table)))
        },
        LambdaTerm::App(f, a) => {
            let l = encode_snapshot_term(f, table);
            let r = encode_snapshot_term(a, table);
            SnapshotTerm::App(Box::new(l), Box::new(r))
        },
    }
}

fn var_named(tab: &Vec<(usize, String)>, id: usize) -> (v: Var)
    ensures
        v.id == id,
        v.name@ == name_for(table_view(tab@), id),
{
    match find_id_exec(tab, id) {
        Some(k) => Var { id, name: tab[k].1.clone() },
        None => {
            let mut n: Vec<char> = Vec::new();
            n.push('v');
            push_all(&mut n, &decimal_chars(id));
            assert(n@ =~= seq!['v'] + decimal(id as nat));
            Var { id, name: string_of(&n) }
        },
    }
}

/// The term of a snapshot term, each id named by the table.
pub fn decode_snapshot_term(term: &SnapshotTerm, table: &Vec<(usize, String)>) -> (t: LambdaTerm)
    ensures
        term_view(t) == decode(*term, table_view(table@)),
    decreases term,
{
    match term {
        SnapshotTerm::Var(id) => LambdaTerm::Var(var_named(table, *id)),
        SnapshotTerm::Abs(id, b) => LambdaTerm::Abs(var_named(table, *id), Box::new(decode_snapshot_term(b, table))),
        SnapshotTerm::App(f, a) => LambdaTerm::App(
            Box::new(decode_snapshot_term(f, table)),
            Box::new(decode_snapshot_term(a, table)),
        ),
    }
}

/// The result of a step on term `t` with the redex `n` chosen.
pub open spec fn step_result(t: LambdaTerm, n: int) -> Result<LambdaStep, Seq<char>> {
    if 0 <= n < redex_count(mark(t)) {
        let r = reduce_nth(mark(t), n);
        if normal(r) {
            Ok(LambdaStep::Halt { output: r })
        } else {
            Ok(LambdaStep::Continue { next: r })
        }
    } else {
        Err("No redex found at the given index"@)
    }
}

impl LambdaTerm {
    /// The code applied to each of the inputs in turn.
    pub fn make(code: LambdaTerm, ainput: AInput) -> (r: Result<LambdaTerm, String>)
        ensures
            r == Ok::<LambdaTerm, String>(apps_spec(code, ainput.0@)),
    {
        Ok(apps(code, ainput.0))
    }

    /// Reduces the redex numbered `rinput`; halts when the result is in
    /// normal form.
    pub fn step(self, rinput: usize) -> (r: Result<LambdaStep, String>)
        ensures
            match step_result(self, rinput as int) {
                Ok(s) => r == Ok::<LambdaStep, String>(s),
                Err(m) => r matches Err(e) && e@ == m,
            },
    {
        let marked = mark_redex(&self);
        match step(&marked, rinput) {
            None => Err(String::from_str("No redex found at the given index")),
            Some(t) => {
                if is_normal_form(&t) {
                    Ok(LambdaStep::Halt { output: t })
                } else {
                    Ok(LambdaStep::Continue { next: t })
                }
            },
        }
    }

    pub fn snapshot(&self) -> (s: Snapshot)
        ensures
            s.term == shape(*self),
            table_view(s.table@) == name_table(*self, seq![]),
    {
        let mut table: Vec<(usize, String)> = Vec::new();
        assert(table_view(table@) =~= seq![]);
        let term = encode_snapshot_term(self, &mut table);
        Snapshot { term, table }
    }

    pub fn restore(snapshot: Snapshot) -> (t: LambdaTerm)
        ensures
            term_view(t) == decode(snapshot.term, table_view(snapshot.table@)),
    {
        decode_snapshot_term(&snapshot.term, &snapshot.table)
    }
}

/// Some occurrence of `id` in the term, as a variable or as a binder, has
/// the name.
pub open spec fn has_named(t: LambdaTerm, id: usize, name: Seq<char>) -> bool
    decreases t,
{
    match t {
        LambdaTerm::Var(v) => v.id == id && v.name@ == name,
        LambdaTerm::Abs(v, b) => (v.id == id && v.name@ == name) || has_named(*b, id, name),
        LambdaTerm::App(f, a) => has_named(*f, id, name) || has_named(*a, id, name),
    }
}

/// Each variable of the term has one name wherever it occurs.
pub open spec fn names_agree(t: LambdaTerm) -> bool {
    forall|id: usize, n1: Seq<char>, n2: Seq<char>|
        #[trigger] has_named(t, id, n1) && #[trigger] has_named(t, id, n2) ==> n1 == n2
}

/// The table gives each id that occurs in the term the name it has there.
pub open spec fn table_names(t: LambdaTerm, tab: Seq<(usize, Seq<char>)>) -> bool {
    forall|id: usize, n: Seq<char>| #[trigger] has_named(t, id, n) ==>
        0 <= find_id(tab, id, 0) < tab.len() && tab[find_id(tab, id, 0)].1 == n
}

/// The table names the ids of the term that it holds as the term does.
pub open spec fn table_agrees(t: LambdaTerm, tab: Seq<(usize, Seq<char>)>) -> bool {
    forall|id: usize, n: Seq<char>| #[trigger] has_named(t, id, n) && find_id(tab, id, 0) >= 0 ==>
        tab[find_id(tab, id, 0)].1 == n
}

proof fn lemma_find_bounds(tab: Seq<(usize, Seq<char>)>, id: usize, i: int)
    requires
        0 <= i,
    ensures
        find_id(tab, id, i) == -1 || (i <= find_id(tab, id, i) < tab.len() && tab[find_id(tab, id, i)].0 == id),
    decreases tab.len() - i,
{
    if i < tab.len() && tab[i].0 != id {
        lemma_find_bounds(tab, id, i + 1);
    }
}

proof fn lemma_find_extend(tab: Seq<(usize, Seq<char>)>, more: Seq<(usize, Seq<char>)>, id: usize, i: int)
    requires
        0 <= i <= tab.len(),
    ensures
        find_id(tab, id, i) >= 0 ==> find_id(tab + more, id, i) == find_id(tab, id, i),
        find_id(tab, id, i) < 0 ==> find_id(tab + more, id, i) == find_id(tab + more, id, tab.len() as int),
    decreases tab.len() - i,
{
    if i < tab.len() {
        assert((tab + more)[i] == tab[i]);
        if tab[i].0 != id {
            lemma_find_extend(tab, more, id, i + 1);
        }
    }
}

proof fn lemma_find_push(tab: Seq<(usize, Seq<char>)>, e: (usize, Seq<char>), id: usize)
    ensures
        find_id(tab, id, 0) >= 0 ==> find_id(tab.push(e), id, 0) == find_id(tab, id, 0),
        find_id(tab, id, 0) < 0 && e.0 == id ==> find_id(tab.push(e), id, 0) == tab.len(),
        find_id(tab, id, 0) < 0 && e.0 != id ==> find_id(tab.push(e), id, 0) < 0,
{
    lemma_find_extend(tab, seq![e], id, 0);
    assert(tab + seq![e] =~= tab.push(e));
    let p = tab.push(e);
    assert(p[tab.len() as int] == e);
    if e.0 != id {
        assert(find_id(p, id, tab.len() + 1int) == -1);
    }
}

/// The facts about `name_table(t, tab)` that the restoring of a snapshot
/// rests on.
proof fn lemma_name_table(t: LambdaTerm, tab: Seq<(usize, Seq<char>)>)
    requires
        names_agree(t),
        table_agrees(t, tab),
    ensures
        tab.len() <= name_table(t, tab).len(),
        name_table(t, tab).subrange(0, tab.len() as int) == tab,
        table_names(t, name_table(t, tab)),
        forall|id: usize| find_id(#[trigger] name_table(t, tab), id, 0) >= 0 ==>
            find_id(tab, id, 0) >= 0 || has_named(t, id, name_table(t, tab)[find_id(name_table(t, tab), id, 0)].1),
    decreases t,
{
    let out = name_table(t, tab);
    match t {
        LambdaTerm::Var(v) => {
            lemma_add_name(tab, v.id, v.name@);
            assert forall|id: usize, n: Seq<char>| #[trigger] has_named(t, id, n) implies
                0 <= find_id(out, id, 0) < out.len() && out[find_id(out, id, 0)].1 == n by {
                lemma_find_bounds(tab, id, 0);
                lemma_find_push(tab, (v.id, v.name@), id);
                if find_id(tab, id, 0) >= 0 {
                    assert(tab[find_id(tab, id, 0)].1 == n);
                } else {
                    assert(out == tab.push((v.id, v.name@)));
                    assert(out[tab.len() as int] == (v.id, v.name@));
                }
            }
            assert forall|id: usize| find_id(#[trigger] name_table(t, tab), id, 0) >= 0 implies
                find_id(tab, id, 0) >= 0 || has_named(t, id, out[find_id(out, id, 0)].1) by {
                lemma_find_push(tab, (v.id, v.name@), id);
            }
        },
        LambdaTerm::Abs(v, b) => {
            let tab1 = add_name(tab, v.id, v.name@);
            lemma_add_name(tab, v.id, v.name@);
            assert forall|id: usize, n1: Seq<char>, n2: Seq<char>|
                #[trigger] has_named(*b, id, n1) && #[trigger] has_named(*b, id, n2) implies n1 == n2 by {
                assert(has_named(t, id, n1) && has_named(t, id, n2));
            }
            assert forall|id: usize, n: Seq<char>| #[trigger] has_named(*b, id, n) && find_id(tab1, id, 0) >= 0 implies
                tab1[find_id(tab1, id, 0)].1 == n by {
                assert(has_named(t, id, n));
                lemma_find_push(tab, (v.id, v.name@), id);
                lemma_find_bounds(tab, id, 0);
                if find_id(tab, id, 0) >= 0 {
                    let k = find_id(tab, id, 0);
                    assert(tab1[k] == tab[k]);
                    assert(tab[k].1 == n);
                } else {
                    assert(id == v.id);
                    assert(tab1 == tab.push((v.id, v.name@)));
                    assert(tab1[tab.len() as int].1 == v.name@);
                    assert(has_named(t, v.id, v.name@));
                    assert(n == v.name@);
                }
            }
            lemma_name_table(*b, tab1);
            let k = tab.len() as int;
            assert(out.subrange(0, k) =~= out.subrange(0, tab1.len() as int).subrange(0, k));
            assert forall|id: usize, n: Seq<char>| #[trigger] has_named(t, id, n) implies
                0 <= find_id(out, id, 0) < out.len() && out[find_id(out, id, 0)].1 == n by {
                if !has_named(*b, id, n) {
                    assert(id == v.id && n == v.name@);
                    lemma_find_bounds(tab1, id, 0);
                    lemma_find_push(tab, (v.id, v.name@), id);
                    assert(out == tab1 + out.subrange(tab1.len() as int, out.len() as int));
                    lemma_find_extend(tab1, out.subrange(tab1.len() as int, out.len() as int), id, 0);
                    assert(out[find_id(out, id, 0)] == tab1[find_id(tab1, id, 0)]);
                    if find_id(tab, id, 0) >= 0 {
                        assert(tab1 == tab);
                    }
                }
            }
            assert forall|id: usize| find_id(#[trigger] name_table(t, tab), id, 0) >= 0 implies
                find_id(tab, id, 0) >= 0 || has_named(t, id, out[find_id(out, id, 0)].1) by {
                lemma_find_push(tab, (v.id, v.name@), id);
                if find_id(tab1, id, 0) >= 0 && find_id(tab, id, 0) < 0 {
                    lemma_find_bounds(tab1, id, 0);
                    assert(out == tab1 + out.subrange(tab1.len() as int, out.len() as int));
                    lemma_find_extend(tab1, out.subrange(tab1.len() as int, out.len() as int), id, 0);
                    assert(out[find_id(out, id, 0)] == tab1[find_id(tab1, id, 0)]);
                    assert(id == v.id);
                }
            }
        },
        LambdaTerm::App(f, a) => {
            assert forall|id: usize, n1: Seq<char>, n2: Seq<char>|
                #[trigger] has_named(*f, id, n1) && #[trigger] has_named(*f, id, n2) implies n1 == n2 by {
                assert(has_named(t, id, n1) && has_named(t, id, n2));
            }
            assert forall|id: usize, n1: Seq<char>, n2: Seq<char>|
                #[trigger] has_named(*a, id, n1) && #[trigger] has_named(*a, id, n2) implies n1 == n2 by {
                assert(has_named(t, id, n1) && has_named(t, id, n2));
            }
            assert forall|id: usize, n: Seq<char>| #[trigger] has_named(*f, id, n) && find_id(tab, id, 0) >= 0 implies
                tab[find_id(tab, id, 0)].1 == n by {
                assert(has_named(t, id, n));
            }
            lemma_name_table(*f, tab);
            let t1 = name_table(*f, tab);
            assert(t1 == tab + t1.subrange(tab.len() as int, t1.len() as int));
            assert forall|id: usize, n: Seq<char>| #[trigger] has_named(*a, id, n) && find_id(t1, id, 0) >= 0 implies
                t1[find_id(t1, id, 0)].1 == n by {
                assert(has_named(t, id, n));
                lemma_find_extend(tab, t1.subrange(tab.len() as int, t1.len() as int), id, 0);
                lemma_find_bounds(tab, id, 0);
                if find_id(tab, id, 0) >= 0 {
                    assert(t1[find_id(tab, id, 0)] == tab[find_id(tab, id, 0)]);
                } else {
                    assert(has_named(*f, id, t1[find_id(t1, id, 0)].1));
                    assert(has_named(t, id, t1[find_id(t1, id, 0)].1));
                }
            }
            lemma_name_table(*a, t1);
            assert(out == t1 + out.subrange(t1.len() as int, out.len() as int));
            assert(out.subrange(0, tab.len() as int) =~= t1.subrange(0, tab.len() as int));
            assert forall|id: usize, n: Seq<char>| #[trigger] has_named(t, id, n) implies
                0 <= find_id(out, id, 0) < out.len() && out[find_id(out, id, 0)].1 == n by {
                if !has_named(*a, id, n) {
                    assert(has_named(*f, id, n));
                    lemma_find_bounds(t1, id, 0);
                    lemma_find_extend(t1, out.subrange(t1.len() as int, out.len() as int), id, 0);
                    assert(out[find_id(out, id, 0)] == t1[find_id(t1, id, 0)]);
                }
            }
            assert forall|id: usize| find_id(#[trigger] name_table(t, tab), id, 0) >= 0 implies
                find_id(tab, id, 0) >= 0 || has_named(t, id, out[find_id(out, id, 0)].1) by {
                lemma_find_extend(t1, out.subrange(t1.len() as int, out.len() as int), id, 0);
                lemma_find_extend(tab, t1.subrange(tab.len() as int, t1.len() as int), id, 0);
                lemma_find_bounds(t1, id, 0);
                if find_id(t1, id, 0) >= 0 {
                    assert(out[find_id(out, id, 0)] == t1[find_id(t1, id, 0)]);
                    if find_id(tab, id, 0) < 0 {
                        assert(has_named(*f, id, t1[find_id(t1, id, 0)].1));
                    }
                } else {
                    assert(has_named(*a, id, out[find_id(out, id, 0)].1));
                }
            }
        },
    }
}

proof fn lemma_add_name(tab: Seq<(usize, Seq<char>)>, id: usize, name: Seq<char>)
    ensures
        tab.len() <= add_name(tab, id, name).len(),
        add_name(tab, id, name).subrange(0, tab.len() as int) == tab,
        find_id(tab, id, 0) >= 0 ==> add_name(tab, id, name) == tab,
        find_id(tab, id, 0) < 0 ==> add_name(tab, id, name) == tab.push((id, name)),
{
    assert(tab.push((id, name)).subrange(0, tab.len() as int) =~= tab);
    assert(tab.subrange(0, tab.len() as int) =~= tab);
}

proof fn lemma_decode(t: LambdaTerm, tab: Seq<(usize, Seq<char>)>)
    requires
        table_names(t, tab),
    ensures
        decode(shape(t), tab) == term_view(t),
    decreases t,
{
    match t {
        LambdaTerm::Var(v) => {
            assert(has_named(t, v.id, v.name@));
        },
        LambdaTerm::Abs(v, b) => {
            assert(has_named(t, v.id, v.name@));
            assert forall|id: usize, n: Seq<char>| #[trigger] has_named(*b, id, n) implies
                0 <= find_id(tab, id, 0) < tab.len() && tab[find_id(tab, id, 0)].1 == n by {
                assert(has_named(t, id, n));
            }
            lemma_decode(*b, tab);
        },
        LambdaTerm::App(f, a) => {
            assert forall|id: usize, n: Seq<char>| #[trigger] has_named(*f, id, n) implies
                0 <= find_id(tab, id, 0) < tab.len() && tab[find_id(tab, id, 0)].1 == n by {
                assert(has_named(t, id, n));
            }
            assert forall|id: usize, n: Seq<char>| #[trigger] has_named(*a, id, n) implies
                0 <= find_id(tab, id, 0) < tab.len() && tab[find_id(tab, id, 0)].1 == n by {
                assert(has_named(t, id, n));
            }
            lemma_decode(*f, tab);
            lemma_decode(*a, tab);
        },
    }
}

/// Restoring the snapshot of a term, each of whose variables has one name,
/// gives the term back.
pub proof fn law_snapshot_restore(t: LambdaTerm)
    requires
        names_agree(t),
    ensures
        decode(shape(t), name_table(t, seq![])) == term_view(t),
{
    lemma_name_table(t, seq![]);
    lemma_decode(t, name_table(t, seq![]));
}

/// Where the piece that starts at `i` ends: the next comma, or the end.
pub open spec fn comma_end(t: Seq<char>, i: int) -> int
    decreases t.len() - i,
{
    if i < 0 || i >= t.len() || t[i] == ',' {
        i
    } else {
        comma_end(t, i + 1)
    }
}

proof fn lemma_comma_end(t: Seq<char>, i: int)
    requires
        0 <= i <= t.len(),
    ensures
        i <= comma_end(t, i) <= t.len(),
        comma_end(t, i) < t.len() ==> t[comma_end(t, i)] == ',',
    decreases t.len() - i,
{
    if i < t.len() && t[i] != ',' {
        lemma_comma_end(t, i + 1);
    }
}

/// The pieces of `t` from `i` on, split at commas.
pub open spec fn pieces_from(t: Seq<char>, i: int) -> Seq<Seq<char>>
    decreases t.len() - i,
{
    if i < 0 || i > t.len() {
        seq![]
    } else {
        let j = comma_end(t, i);
        if j >= t.len() || j < i {
            seq![t.subrange(i, t.len() as int)]
        } else {
            seq![t.subrange(i, j)] + pieces_from(t, j + 1)
        }
    }
}

/// The terms of the pieces from `k` on, each read from its trimmed text,
/// their new variables numbered on from `next`.
pub open spec fn parse_pieces(ps: Seq<Seq<char>>, k: int, next: int, acc: Seq<TermV>) -> Result<(Seq<TermV>, int), Seq<char>>
    decreases ps.len() - k,
{
    if k < 0 || k >= ps.len() {
        Ok((acc, next))
    } else {
        match parse_from_spec(trim(ps[k]), next) {
            Err(m) => Err(m),
            Ok((t, n)) => parse_pieces(ps, k + 1, n, acc.push(t)),
        }
    }
}

/// The inputs read from a text of terms separated by commas: none for a
/// blank text.
pub open spec fn ainput_spec(text: Seq<char>, first: int) -> Result<(Seq<TermV>, int), Seq<char>> {
    if trim(text).len() == 0 {
        Ok((seq![], first))
    } else {
        parse_pieces(pieces_from(text, 0), 0, first, seq![])
    }
}

pub open spec fn terms_view(ts: Seq<LambdaTerm>) -> Seq<TermV> {
    ts.map_values(|t: LambdaTerm| term_view(t))
}

/// The texts of the terms, separated by `, `.
pub open spec fn terms_text(ts: Seq<LambdaTerm>) -> Seq<char>
    decreases ts.len(),
{
    if ts.len() == 0 {
        seq![]
    } else if ts.len() == 1 {
        term_text(ts[0])
    } else {
        terms_text(ts.drop_last()) + seq![',', ' '] + term_text(ts.last())
    }
}

fn split_commas(t: &Vec<char>) -> (r: Vec<Vec<char>>)
    ensures
        r@.map_values(|p: Vec<char>| p@) == pieces_from(t@, 0),
{
    let mut ps: Vec<Vec<char>> = Vec::new();
    let mut i: usize = 0;
    assert(ps@.map_values(|p: Vec<char>| p@) =~= seq![]);
    loop
        invariant
            0 <= i <= t.len(),
            pieces_from(t@, 0) == ps@.map_values(|p: Vec<char>| p@) + pieces_from(t@, i as int),
        decreases t.len() - i,
    {
        let mut j = i;
        proof {
            lemma_comma_end(t@, i as int);
        }
        while j < t.len() && t[j] != ','
            invariant
                i <= j <= t.len(),
                comma_end(t@, i as int) == comma_end(t@, j as int),
            decreases t.len() - j,
        {
            j += 1;
        }
        let piece = slice_chars(t, i, j);
        let ghost before = ps@.map_values(|p: Vec<char>| p@);
        ps.push(piece);
        assert(ps@.map_values(|p: Vec<char>| p@) =~= before.push(piece@));
        if j >= t.len() {
            assert(pieces_from(t@, 0) =~= ps@.map_values(|p: Vec<char>| p@));
            return ps;
        }
        assert(pieces_from(t@, 0) =~= ps@.map_values(|p: Vec<char>| p@) + pieces_from(t@, j + 1));
        i = j + 1;
    }
}

impl AInput {
    /// Reads the inputs from a text of terms separated by commas, the new
    /// variables numbered on from `first`; also gives the next id left free.
    pub fn parse(text: &str, first: usize) -> (r: Result<(AInput, usize), String>)
        ensures
            match ainput_spec(text@, first as int) {
                Ok((ts, n)) => r matches Ok((a, k)) && terms_view(a.0@) == ts && k == n,
                Err(m) => r matches Err(e) && e@ == m,
            },
    {
        let chars = chars_of(text);
        let mut v: Vec<LambdaTerm> = Vec::new();
        if trim_chars(&chars).len() == 0 {
            assert(terms_view(v@) =~= seq![]);
            return Ok((AInput(v), first));
        }
        let ps = split_commas(&chars);
        let ghost pv = ps@.map_values(|p: Vec<char>| p@);
        let mut next = first;
        let mut k: usize = 0;
        assert(terms_view(v@) =~= seq![]);
        while k < ps.len()
            invariant
                k <= ps.len(),
                pv == ps@.map_values(|p: Vec<char>| p@),
                ainput_spec(text@, first as int) == parse_pieces(pv, k as int, next as int, terms_view(v@)),
            decreases ps.len() - k,
        {
            let piece = string_of(&trim_chars(&ps[k]));
            assert(pv[k as int] == ps@[k as int]@);
            match parse_lambda_from(piece.as_str(), next) {
                Ok((t, n)) => {
                    let ghost before = terms_view(v@);
                    v.push(t);
                    assert(terms_view(v@) =~= before.push(term_view(t)));
                    next = n;
                },
                Err(e) => {
                    return Err(e);
                },
            }
            k = k + 1;
        }
        Ok((AInput(v), next))
    }

    /// The texts of the inputs, separated by `, `.
    pub fn print(&self) -> (s: String)
        ensures
            s@ == terms_text(self.0@),
    {
        let mut out: Vec<char> = Vec::new();
        let mut i: usize = 0;
        while i < self.0.len()
            invariant
                i <= self.0.len(),
                out@ == terms_text(self.0@.take(i as int)),
            decreases self.0.len() - i,
        {
            let ghost before = out@;
            if i > 0 {
                out.push(',');
                out.push(' ');
            }
            let text = self.0[i].print();
            push_str(&mut out, text.as_str());
            assert(self.0@.take(i + 1).drop_last() =~= self.0@.take(i as int));
            proof {
                if i == 0 {
                    assert(out@ =~= terms_text(self.0@.take(1)));
                } else {
                    assert(out@ =~= terms_text(self.0@.take(i + 1)));
                }
            }
            i = i + 1;
        }
        assert(self.0@.take(self.0.len() as int) =~= self.0@);
        string_of(&out)
    }
}

} // verus!

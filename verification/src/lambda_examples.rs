//! Church encodings written as lambda terms, their variables named by their
//! ids: booleans, a conditional, pairs and the Y combinator.
use vstd::prelude::*;

use crate::lambda_parse::{term_view, TermV};
use crate::lambda_term::{alpha, alpha_eq, apps, apps_spec, LambdaTerm, Var};
use crate::number::{decimal, decimal_chars};
use crate::text::string_of;

verus! {

/// The variable with the id, named by the id's numeral.
pub open spec fn var_v(id: usize) -> TermV {
    TermV::Var(id, decimal(id as nat))
}

pub open spec fn abs_v(id: usize, body: TermV) -> TermV {
    TermV::Abs(id, decimal(id as nat), Box::new(body))
}

pub open spec fn app_v(f: TermV, a: TermV) -> TermV {
    TermV::App(Box::new(f), Box::new(a))
}

/// `\0. \1. 0`
pub open spec fn true_view() -> TermV {
    abs_v(0, abs_v(1, var_v(0)))
}

/// `\0. \1. 1`
pub open spec fn false_view() -> TermV {
    abs_v(0, abs_v(1, var_v(1)))
}

/// `\0. (\1. 0 (1 1)) (\1. 0 (1 1))`
pub open spec fn y_view() -> TermV {
    let half = abs_v(1, app_v(var_v(0), app_v(var_v(1), var_v(1))));
    abs_v(0, app_v(half, half))
}

/// `term` under binders with the ids, the first of them outermost.
pub open spec fn abs_chain(ids: Seq<usize>, body: TermV) -> TermV
    decreases ids.len(),
{
    if ids.len() == 0 {
        body
    } else {
        abs_v(ids[0], abs_chain(ids.drop_first(), body))
    }
}

/// The variable with the id, named by its numeral.
pub fn num_var(id: usize) -> (v: Var)
    ensures
        v.id == id,
        v.name@ == decimal(id as nat),
{
    Var { id, name: string_of(&decimal_chars(id)) }
}

fn var_t(id: usize) -> (t: LambdaTerm)
    ensures
        term_view(t) == var_v(id),
{
    LambdaTerm::Var(num_var(id))
}

fn abs_t(id: usize, body: LambdaTerm) -> (t: LambdaTerm)
    ensures
        term_view(t) == abs_v(id, term_view(body)),
{
    LambdaTerm::Abs(num_var(id), Box::new(body))
}

fn app_t(f: LambdaTerm, a: LambdaTerm) -> (t: LambdaTerm)
    ensures
        t == LambdaTerm::App(Box::new(f), Box::new(a)),
        term_view(t) == app_v(term_view(f), term_view(a)),
{
    LambdaTerm::App(Box::new(f), Box::new(a))
}

pub fn true_lambda() -> (t: LambdaTerm)
    ensures
        term_view(t) == true_view(),
{
    abs_t(0, abs_t(1, var_t(0)))
}

pub fn false_lambda() -> (t: LambdaTerm)
    ensures
        term_view(t) == false_view(),
{
    abs_t(0, abs_t(1, var_t(1)))
}

/// Terms with the same ids in the same places are alpha equivalent to the
/// same terms.
proof fn lemma_alpha_by_view(t1: LambdaTerm, t2: LambdaTerm, x: LambdaTerm, c1: Seq<usize>, c2: Seq<usize>)
    requires
        term_view(t1) == term_view(t2),
    ensures
        alpha(t1, x, c1, c2) == alpha(t2, x, c1, c2),
    decreases t1,
{
    match t1 {
        LambdaTerm::Var(_) => {},
        LambdaTerm::Abs(v1, b1) => match t2 {
            LambdaTerm::Abs(v2, b2) => match x {
                LambdaTerm::Abs(w, c) => lemma_alpha_by_view(*b1, *b2, *c, c1.push(v1.id), c2.push(w.id)),
                _ => {},
            },
            _ => {},
        },
        LambdaTerm::App(f1, a1) => match t2 {
            LambdaTerm::App(f2, a2) => match x {
                LambdaTerm::App(g, b) => {
                    lemma_alpha_by_view(*f1, *f2, *g, c1, c2);
                    lemma_alpha_by_view(*a1, *a2, *b, c1, c2);
                },
                _ => {},
            },
            _ => {},
        },
    }
}

/// Whether the term is alpha equivalent to Church's true.
pub fn is_true(term: LambdaTerm) -> (b: bool)
    ensures
        forall|t: LambdaTerm| term_view(t) == true_view() ==> b == alpha(t, term, seq![], seq![]),
{
    let l = true_lambda();
    let b = alpha_eq(&l, &term);
    assert forall|t: LambdaTerm| term_view(t) == true_view() implies b == alpha(t, term, seq![], seq![]) by {
        lemma_alpha_by_view(t, l, term, seq![], seq![]);
    }
    b
}

/// Whether the term is alpha equivalent to Church's false.
pub fn is_false(term: LambdaTerm) -> (b: bool)
    ensures
        forall|t: LambdaTerm| term_view(t) == false_view() ==> b == alpha(t, term, seq![], seq![]),
{
    let l = false_lambda();
    let b = alpha_eq(&l, &term);
    assert forall|t: LambdaTerm| term_view(t) == false_view() implies b == alpha(t, term, seq![], seq![]) by {
        lemma_alpha_by_view(t, l, term, seq![], seq![]);
    }
    b
}

/// `l m n`
pub fn if_lambda(l: LambdaTerm, m: LambdaTerm, n: LambdaTerm) -> (t: LambdaTerm)
    ensures
        t == LambdaTerm::App(Box::new(LambdaTerm::App(Box::new(l), Box::new(m))), Box::new(n)),
{
    app_t(app_t(l, m), n)
}

/// `\0. 0 m n`
pub fn pair(m: LambdaTerm, n: LambdaTerm) -> (t: LambdaTerm)
    ensures
        term_view(t) == abs_v(0, app_v(app_v(var_v(0), term_view(m)), term_view(n))),
{
    abs_t(0, app_t(app_t(var_t(0), m), n))
}

/// `\0. 0 true`
pub fn first() -> (t: LambdaTerm)
    ensures
        term_view(t) == abs_v(0, app_v(var_v(0), true_view())),
{
    abs_t(0, app_t(var_t(0), true_lambda()))
}

/// `\0. 0 false`
pub fn second() -> (t: LambdaTerm)
    ensures
        term_view(t) == abs_v(0, app_v(var_v(0), false_view())),
{
    abs_t(0, app_t(var_t(0), false_lambda()))
}

/// The term under binders with the ids, the first of them outermost.
pub fn take_n_abs(list: Vec<usize>, term: LambdaTerm) -> (t: LambdaTerm)
    ensures
        term_view(t) == abs_chain(list@, term_view(term)),
{
    let ghost orig = list@;
    let ghost body = term_view(term);
    let mut t = term;
    let mut k: usize = list.len();
    assert(orig.take(k as int) =~= orig);
    while k > 0
        invariant
            k <= list.len(),
            orig == list@,
            abs_chain(orig, body) == abs_chain(orig.take(k as int), term_view(t)),
        decreases k,
    {
        proof {
            lemma_abs_chain_split(orig.take(k as int), term_view(t));
            assert(orig.take(k as int).drop_last() =~= orig.take(k - 1));
        }
        t = abs_t(list[k - 1], t);
        k = k - 1;
    }
    proof {
        assert(orig.take(0) =~= Seq::<usize>::empty());
    }
    t
}

proof fn lemma_abs_chain_split(ids: Seq<usize>, body: TermV)
    requires
        ids.len() > 0,
    ensures
        abs_chain(ids, body) == abs_chain(ids.drop_last(), abs_v(ids.last(), body)),
    decreases ids.len(),
{
    let x = abs_v(ids.last(), body);
    if ids.len() > 1 {
        lemma_abs_chain_split(ids.drop_first(), body);
        assert(ids.drop_first().drop_last() =~= ids.drop_last().drop_first());
        assert(ids.drop_first().last() == ids.last());
        assert(ids.drop_last()[0] == ids[0]);
        assert(abs_chain(ids.drop_last(), x) == abs_v(ids[0], abs_chain(ids.drop_last().drop_first(), x)));
    } else {
        assert(ids.drop_first().len() == 0);
        assert(ids.drop_last().len() == 0);
        assert(abs_chain(ids.drop_first(), body) == body);
        assert(abs_chain(ids.drop_last(), x) == x);
    }
}

/// The first term applied to each of the others in turn.
pub fn fold_left(list: Vec<LambdaTerm>) -> (t: LambdaTerm)
    requires
        list.len() > 0,
    ensures
        t == apps_spec(list@[0], list@.subrange(1, list.len() as int)),
{
    let mut list = list;
    let first = list.remove(0);
    apps(first, list)
}

/// `\0. (\1. 0 (1 1)) (\1. 0 (1 1))`
pub fn y_combinator() -> (t: LambdaTerm)
    ensures
        term_view(t) == y_view(),
{
    let h1 = abs_t(1, app_t(var_t(0), app_t(var_t(1), var_t(1))));
    let h2 = abs_t(1, app_t(var_t(0), app_t(var_t(1), var_t(1))));
    abs_t(0, app_t(h1, h2))
}

} // verus!

//! Untyped lambda terms whose variables are told apart by an identity,
//! not by their names, with their redexes marked and reduced one at a time.
use vstd::prelude::*;

use crate::coroutine::push_str;
use crate::lambda_beta::{beta, beta_reduce};
use crate::text::string_of;

verus! {

/// A variable: two variables are the same variable exactly when their ids
/// agree; the name is what is shown of it.
#[derive(Clone, Debug, PartialEq)]
pub struct Var {
    pub id: usize,
    pub name: String,
}

impl Var {
    pub fn new(id: usize, name: &str) -> (v: Var)
        ensures
            v.id == id,
            v.name@ == name@,
    {
        Var { id, name: name.to_string() }
    }

    pub fn as_str(&self) -> (s: &str)
        ensures
            s@ == self.name@,
    {
        self.name.as_str()
    }

    pub fn dup(&self) -> (v: Var)
        ensures
            v == *self,
    {
        Var { id: self.id, name: self.name.clone() }
    }
}

#[derive(Debug, PartialEq)]
pub enum LambdaTerm {
    Var(Var),
    Abs(Var, Box<LambdaTerm>),
    App(Box<LambdaTerm>, Box<LambdaTerm>),
}

/// A term with each redex `(\x. m) n` marked as `Red(x, m, n)`.
#[derive(Debug, PartialEq)]
pub enum MarkedTerm {
    Var(Var),
    Abs(Var, Box<MarkedTerm>),
    App(Box<MarkedTerm>, Box<MarkedTerm>),
    Red(Var, Box<MarkedTerm>, Box<MarkedTerm>),
}

/// The marking of a term: an application whose function is an abstraction
/// becomes a redex.
pub open spec fn mark(t: LambdaTerm) -> MarkedTerm
    decreases t,
{
    match t {
        LambdaTerm::Var(v) => MarkedTerm::Var(v),
        LambdaTerm::Abs(v, b) => MarkedTerm::Abs(v, Box::new(mark(*b))),
        LambdaTerm::App(f, a) => match *f {
            LambdaTerm::Abs(v, b) => MarkedTerm::Red(v, Box::new(mark(*b)), Box::new(mark(*a))),
            _ => MarkedTerm::App(Box::new(mark(*f)), Box::new(mark(*a))),
        },
    }
}

/// The term that a marked term stands for.
pub open spec fn unmark(m: MarkedTerm) -> LambdaTerm
    decreases m,
{
    match m {
        MarkedTerm::Var(v) => LambdaTerm::Var(v),
        MarkedTerm::Abs(v, b) => LambdaTerm::Abs(v, Box::new(unmark(*b))),
        MarkedTerm::App(f, a) => LambdaTerm::App(Box::new(unmark(*f)), Box::new(unmark(*a))),
        MarkedTerm::Red(v, b, a) => LambdaTerm::App(
            Box::new(LambdaTerm::Abs(v, Box::new(unmark(*b)))),
            Box::new(unmark(*a)),
        ),
    }
}

/// A term in normal form holds no application of an abstraction.
pub open spec fn normal(t: LambdaTerm) -> bool
    decreases t,
{
    match t {
        LambdaTerm::Var(_) => true,
        LambdaTerm::Abs(_, b) => normal(*b),
        LambdaTerm::App(f, a) => match *f {
            LambdaTerm::Abs(_, _) => false,
            _ => normal(*f) && normal(*a),
        },
    }
}

/// The number of marked redexes.
pub open spec fn redex_count(m: MarkedTerm) -> nat
    decreases m,
{
    match m {
        MarkedTerm::Var(_) => 0,
        MarkedTerm::Abs(_, b) => redex_count(*b),
        MarkedTerm::App(f, a) => redex_count(*f) + redex_count(*a),
        MarkedTerm::Red(_, b, a) => 1 + redex_count(*b) + redex_count(*a),
    }
}

pub fn copy_term(t: &LambdaTerm) -> (r: LambdaTerm)
    ensures
        r == *t,
    decreases t,
{
    match t {
        LambdaTerm::Var(v) => LambdaTerm::Var(v.dup()),
        LambdaTerm::Abs(v, b) => LambdaTerm::Abs(v.dup(), Box::new(copy_term(b))),
        LambdaTerm::App(f, a) => LambdaTerm::App(Box::new(copy_term(f)), Box::new(copy_term(a))),
    }
}

/// Marks every redex of the term.
pub fn mark_redex(term: &LambdaTerm) -> (m: MarkedTerm)
    ensures
        m == mark(*term),
    decreases term,
{
    match term {
        LambdaTerm::Var(v) => MarkedTerm::Var(v.dup()),
        LambdaTerm::Abs(v, b) => MarkedTerm::Abs(v.dup(), Box::new(mark_redex(b))),
        LambdaTerm::App(f, a) => match &**f {
            LambdaTerm::Abs(v, b) => MarkedTerm::Red(
                v.dup(),
                Box::new(mark_redex(b)),
                Box::new(mark_redex(a)),
            ),
            _ => MarkedTerm::App(Box::new(mark_redex(f)), Box::new(mark_redex(a))),
        },
    }
}

/// The term that the marked term stands for.
pub fn unmark_redex(marked_term: MarkedTerm) -> (t: LambdaTerm)
    ensures
        t == unmark(marked_term),
    decreases marked_term,
{
    match marked_term {
        MarkedTerm::Var(v) => LambdaTerm::Var(v),
        MarkedTerm::Abs(v, b) => LambdaTerm::Abs(v, Box::new(unmark_redex(*b))),
        MarkedTerm::App(f, a) => LambdaTerm::App(
            Box::new(unmark_redex(*f)),
            Box::new(unmark_redex(*a)),
        ),
        MarkedTerm::Red(v, b, a) => LambdaTerm::App(
            Box::new(LambdaTerm::Abs(v, Box::new(unmark_redex(*b)))),
            Box::new(unmark_redex(*a)),
        ),
    }
}

pub fn is_normal_form(term: &LambdaTerm) -> (b: bool)
    ensures
        b == normal(*term),
    decreases term,
{
    match term {
        LambdaTerm::Var(_) => true,
        LambdaTerm::Abs(_, b) => is_normal_form(b),
        LambdaTerm::App(f, a) => match &**f {
            LambdaTerm::Abs(_, _) => false,
            _ => is_normal_form(f) && is_normal_form(a),
        },
    }
}

/// Marking loses nothing: the marked term stands for the term it was made from.
pub proof fn law_unmark_mark(t: LambdaTerm)
    ensures
        unmark(mark(t)) == t,
    decreases t,
{
    match t {
        LambdaTerm::Var(_) => {},
        LambdaTerm::Abs(_, b) => law_unmark_mark(*b),
        LambdaTerm::App(f, a) => {
            law_unmark_mark(*a);
            match *f {
                LambdaTerm::Abs(_, b) => law_unmark_mark(*b),
                _ => law_unmark_mark(*f),
            }
        },
    }
}

/// A term is in normal form exactly when marking finds no redex in it.
pub proof fn law_normal_no_redex(t: LambdaTerm)
    ensures
        normal(t) <==> redex_count(mark(t)) == 0,
    decreases t,
{
    match t {
        LambdaTerm::Var(_) => {},
        LambdaTerm::Abs(_, b) => law_normal_no_redex(*b),
        LambdaTerm::App(f, a) => {
            law_normal_no_redex(*a);
            match *f {
                LambdaTerm::Abs(_, _) => {},
                _ => law_normal_no_redex(*f),
            }
        },
    }
}

/// The term with `s` put for every free occurrence of the variable `x`;
/// an abstraction that binds `x` is left as it is.
pub open spec fn subst(t: LambdaTerm, x: usize, s: LambdaTerm) -> LambdaTerm
    decreases t,
{
    match t {
        LambdaTerm::Var(v) => if v.id == x { s } else { LambdaTerm::Var(v) },
        LambdaTerm::Abs(v, b) => if v.id == x {
            LambdaTerm::Abs(v, b)
        } else {
            LambdaTerm::Abs(v, Box::new(subst(*b, x, s)))
        },
        LambdaTerm::App(f, a) => LambdaTerm::App(
            Box::new(subst(*f, x, s)),
            Box::new(subst(*a, x, s)),
        ),
    }
}

/// The term with the variable `y` put for every free occurrence of `x`.
pub open spec fn rename(t: LambdaTerm, x: usize, y: Var) -> LambdaTerm
    decreases t,
{
    match t {
        LambdaTerm::Var(v) => if v.id == x { LambdaTerm::Var(y) } else { LambdaTerm::Var(v) },
        LambdaTerm::Abs(v, b) => if v.id == x {
            LambdaTerm::Abs(v, b)
        } else {
            LambdaTerm::Abs(v, Box::new(rename(*b, x, y)))
        },
        LambdaTerm::App(f, a) => LambdaTerm::App(
            Box::new(rename(*f, x, y)),
            Box::new(rename(*a, x, y)),
        ),
    }
}

/// Whether the variable `x` occurs in the term, free or as a binder.
pub open spec fn occurs(t: LambdaTerm, x: usize) -> bool
    decreases t,
{
    match t {
        LambdaTerm::Var(v) => v.id == x,
        LambdaTerm::Abs(v, b) => v.id == x || occurs(*b, x),
        LambdaTerm::App(f, a) => occurs(*f, x) || occurs(*a, x),
    }
}

/// Puts `term2` for the free occurrences of `var` in `term1`, with no
/// renaming of the binders of `term1`.
pub fn unchecked_subst(term1: LambdaTerm, var: Var, term2: LambdaTerm) -> (t: LambdaTerm)
    ensures
        t == subst(term1, var.id, term2),
    decreases term1,
{
    match term1 {
        LambdaTerm::Var(v) => if v.id == var.id { term2 } else { LambdaTerm::Var(v) },
        LambdaTerm::Abs(v, b) => if v.id == var.id {
            LambdaTerm::Abs(v, b)
        } else {
            LambdaTerm::Abs(v, Box::new(unchecked_subst(*b, var, term2)))
        },
        LambdaTerm::App(f, a) => {
            let s = copy_term(&term2);
            LambdaTerm::App(
                Box::new(unchecked_subst(*f, var.dup(), s)),
                Box::new(unchecked_subst(*a, var, term2)),
            )
        },
    }
}

/// Puts `var_post` for the free occurrences of `var_pre` in `term`.
pub fn var_change(var_pre: Var, var_post: Var, term: LambdaTerm) -> (t: LambdaTerm)
    ensures
        t == rename(term, var_pre.id, var_post),
    decreases term,
{
    match term {
        LambdaTerm::Var(v) => if v.id == var_pre.id { LambdaTerm::Var(var_post) } else { LambdaTerm::Var(v) },
        LambdaTerm::Abs(v, b) => if v.id == var_pre.id {
            LambdaTerm::Abs(v, b)
        } else {
            LambdaTerm::Abs(v, Box::new(var_change(var_pre, var_post, *b)))
        },
        LambdaTerm::App(f, a) => {
            let f2 = var_change(var_pre.dup(), var_post.dup(), *f);
            LambdaTerm::App(Box::new(f2), Box::new(var_change(var_pre, var_post, *a)))
        },
    }
}

proof fn lemma_subst_absent(t: LambdaTerm, y: usize, s: LambdaTerm)
    requires
        !occurs(t, y),
    ensures
        subst(t, y, s) == t,
    decreases t,
{
    match t {
        LambdaTerm::Var(_) => {},
        LambdaTerm::Abs(_, b) => lemma_subst_absent(*b, y, s),
        LambdaTerm::App(f, a) => {
            lemma_subst_absent(*f, y, s);
            lemma_subst_absent(*a, y, s);
        },
    }
}

/// Renaming a variable to one that does not occur in the term, and then
/// substituting for the new one, is substituting for the old one.
pub proof fn law_rename_then_subst(t: LambdaTerm, x: usize, y: Var, s: LambdaTerm)
    requires
        !occurs(t, y.id),
    ensures
        subst(rename(t, x, y), y.id, s) == subst(t, x, s),
    decreases t,
{
    match t {
        LambdaTerm::Var(_) => {},
        LambdaTerm::Abs(v, b) => {
            if v.id == x {
                lemma_subst_absent(*b, y.id, s);
            } else {
                law_rename_then_subst(*b, x, y, s);
            }
        },
        LambdaTerm::App(f, a) => {
            law_rename_then_subst(*f, x, y, s);
            law_rename_then_subst(*a, x, y, s);
        },
    }
}

/// The term with the redex numbered `n` reduced, the redexes numbered from
/// zero in the order in which they are met left to right, a redex before
/// the redexes inside it.
pub open spec fn reduce_nth(m: MarkedTerm, n: int) -> LambdaTerm
    decreases m,
{
    match m {
        MarkedTerm::Var(v) => LambdaTerm::Var(v),
        MarkedTerm::Abs(v, b) => LambdaTerm::Abs(v, Box::new(reduce_nth(*b, n))),
        MarkedTerm::App(f, a) => if n < redex_count(*f) {
            LambdaTerm::App(Box::new(reduce_nth(*f, n)), Box::new(unmark(*a)))
        } else {
            LambdaTerm::App(Box::new(unmark(*f)), Box::new(reduce_nth(*a, n - redex_count(*f))))
        },
        MarkedTerm::Red(v, b, a) => if n == 0 {
            beta(unmark(*b), v.id, unmark(*a))
        } else if n - 1 < redex_count(*b) {
            LambdaTerm::App(
                Box::new(LambdaTerm::Abs(v, Box::new(reduce_nth(*b, n - 1)))),
                Box::new(unmark(*a)),
            )
        } else {
            LambdaTerm::App(
                Box::new(LambdaTerm::Abs(v, Box::new(unmark(*b)))),
                Box::new(reduce_nth(*a, n - 1 - redex_count(*b))),
            )
        },
    }
}

/// The term that the marked term stands for, the marked term kept.
pub fn unmarked(m: &MarkedTerm) -> (t: LambdaTerm)
    ensures
        t == unmark(*m),
    decreases m,
{
    match m {
        MarkedTerm::Var(v) => LambdaTerm::Var(v.dup()),
        MarkedTerm::Abs(v, b) => LambdaTerm::Abs(v.dup(), Box::new(unmarked(b))),
        MarkedTerm::App(f, a) => LambdaTerm::App(Box::new(unmarked(f)), Box::new(unmarked(a))),
        MarkedTerm::Red(v, b, a) => LambdaTerm::App(
            Box::new(LambdaTerm::Abs(v.dup(), Box::new(unmarked(b)))),
            Box::new(unmarked(a)),
        ),
    }
}

/// Reduces the redex numbered `num` when there is one; otherwise tells how
/// many redexes were missing.
fn step_rec(m: &MarkedTerm, num: usize) -> (r: Result<LambdaTerm, usize>)
    ensures
        num < redex_count(*m) ==> r == Ok::<LambdaTerm, usize>(reduce_nth(*m, num as int)),
        num >= redex_count(*m) ==> r == Err::<LambdaTerm, usize>((num - redex_count(*m)) as usize),
        r matches Ok(t) ==> free_ids(t).subset_of(free_ids(unmark(*m))),
    decreases m,
{
    let ghost um = unmark(*m);
    match m {
        MarkedTerm::Var(v) => Err(num),
        MarkedTerm::Abs(v, b) => match step_rec(b, num) {
            Ok(t) => {
                let res = LambdaTerm::Abs(v.dup(), Box::new(t));
                assert(free_ids(res).subset_of(free_ids(um)));
                Ok(res)
            },
            Err(k) => Err(k),
        },
        MarkedTerm::App(f, a) => match step_rec(f, num) {
            Ok(t) => {
                let res = LambdaTerm::App(Box::new(t), Box::new(unmarked(a)));
                assert(free_ids(res).subset_of(free_ids(um)));
                Ok(res)
            },
            Err(k) => match step_rec(a, k) {
                Ok(t) => {
                    let res = LambdaTerm::App(Box::new(unmarked(f)), Box::new(t));
                    assert(free_ids(res).subset_of(free_ids(um)));
                    Ok(res)
                },
                Err(k2) => Err(k2),
            },
        },
        MarkedTerm::Red(v, b, a) => {
            let ghost fab = LambdaTerm::Abs(*v, Box::new(unmark(**b)));
            assert(free_ids(um) =~= free_ids(fab).union(free_ids(unmark(**a))));
            assert(free_ids(fab) =~= free_ids(unmark(**b)).remove(v.id));
            if num == 0 {
                let res = beta_reduce(unmarked(b), v, unmarked(a));
                assert(free_ids(res).subset_of(free_ids(um)));
                Ok(res)
            } else {
                match step_rec(b, num - 1) {
                    Ok(t) => {
                        let ghost tg = t;
                        let res = LambdaTerm::App(
                            Box::new(LambdaTerm::Abs(v.dup(), Box::new(t))),
                            Box::new(unmarked(a)),
                        );
                        let ghost abs_t = LambdaTerm::Abs(*v, Box::new(tg));
                        assert(free_ids(abs_t) =~= free_ids(tg).remove(v.id));
                        assert(res == LambdaTerm::App(Box::new(abs_t), Box::new(unmark(**a))));
                        assert(free_ids(res) =~= free_ids(abs_t).union(free_ids(unmark(**a))));
                        assert(free_ids(res).subset_of(free_ids(um)));
                        Ok(res)
                    },
                    Err(k) => match step_rec(a, k) {
                        Ok(t) => {
                            let res = LambdaTerm::App(
                                Box::new(LambdaTerm::Abs(v.dup(), Box::new(unmarked(b)))),
                                Box::new(t),
                            );
                            assert(free_ids(res).subset_of(free_ids(um)));
                            Ok(res)
                        },
                        Err(k2) => Err(k2),
                    },
                }
            }
        },
    }
}

/// Reduces the redex numbered `num` of the marked term, or gives `None`
/// where it has no such redex. A redex `(\x. m) n` becomes `m` with `n` put
/// for the free occurrences of `x`, the binders of `m` that would catch a
/// free variable of `n` renamed first (`beta`).
pub fn step(marked_term: &MarkedTerm, num: usize) -> (r: Option<LambdaTerm>)
    ensures
        num < redex_count(*marked_term) ==> r == Some(reduce_nth(*marked_term, num as int)),
        num >= redex_count(*marked_term) ==> r is None,
        r matches Some(t) ==> free_ids(t).subset_of(free_ids(unmark(*marked_term))),
{
    match step_rec(marked_term, num) {
        Ok(t) => Some(t),
        Err(_) => None,
    }
}

/// The first position at or after `i` where `x` stands in `c`, or -1.
pub open spec fn index_from(c: Seq<usize>, x: usize, i: int) -> int
    decreases c.len() - i,
{
    if i < 0 || i >= c.len() {
        -1
    } else if c[i] == x {
        i
    } else {
        index_from(c, x, i + 1)
    }
}

pub open spec fn ids(c: Seq<Var>) -> Seq<usize> {
    c.map_values(|v: Var| v.id)
}

/// Alpha equivalence of two terms under binders `c1` and `c2` met so far,
/// outermost first: a bound variable matches a bound variable at the same
/// position (the first one where its binder stands), a free variable only
/// itself.
pub open spec fn alpha(t1: LambdaTerm, t2: LambdaTerm, c1: Seq<usize>, c2: Seq<usize>) -> bool
    decreases t1,
{
    match t1 {
        LambdaTerm::Var(v1) => match t2 {
            LambdaTerm::Var(v2) => {
                let i = index_from(c1, v1.id, 0);
                let j = index_from(c2, v2.id, 0);
                if i >= 0 && j >= 0 {
                    i == j
                } else if i < 0 && j < 0 {
                    v1.id == v2.id
                } else {
                    false
                }
            },
            _ => false,
        },
        LambdaTerm::Abs(v1, b1) => match t2 {
            LambdaTerm::Abs(v2, b2) => alpha(*b1, *b2, c1.push(v1.id), c2.push(v2.id)),
            _ => false,
        },
        LambdaTerm::App(f1, a1) => match t2 {
            LambdaTerm::App(f2, a2) => alpha(*f1, *f2, c1, c2) && alpha(*a1, *a2, c1, c2),
            _ => false,
        },
    }
}

/// The first position of the variable `x` among the binders `c`.
fn position(c: &Vec<Var>, x: usize) -> (r: Option<usize>)
    ensures
        match r {
            Some(i) => i as int == index_from(ids(c@), x, 0),
            None => index_from(ids(c@), x, 0) < 0,
        },
{
    let mut i: usize = 0;
    while i < c.len()
        invariant
            i <= c.len(),
            index_from(ids(c@), x, 0) == index_from(ids(c@), x, i as int),
        decreases c.len() - i,
    {
        if c[i].id == x {
            return Some(i);
        }
        i = i + 1;
    }
    None
}

fn alpha_eq_rec(term1: &LambdaTerm, term2: &LambdaTerm, corr1: &mut Vec<Var>, corr2: &mut Vec<Var>) -> (b: bool)
    ensures
        b == alpha(*term1, *term2, ids(old(corr1)@), ids(old(corr2)@)),
        final(corr1)@ == old(corr1)@,
        final(corr2)@ == old(corr2)@,
    decreases term1,
{
    match term1 {
        LambdaTerm::Var(v1) => match term2 {
            LambdaTerm::Var(v2) => {
                let p1 = position(corr1, v1.id);
                let p2 = position(corr2, v2.id);
                match p1 {
                    Some(i) => match p2 {
                        Some(j) => {
                            i == j
                        },
                        None => false,
                    },
                    None => match p2 {
                        Some(_) => false,
                        None => v1.id == v2.id,
                    },
                }
            },
            _ => false,
        },
        LambdaTerm::Abs(v1, b1) => match term2 {
            LambdaTerm::Abs(v2, b2) => {
                corr1.push(v1.dup());
                corr2.push(v2.dup());
                proof {
                    assert(ids(corr1@) =~= ids(old(corr1)@).push(v1.id));
                    assert(ids(corr2@) =~= ids(old(corr2)@).push(v2.id));
                }
                let res = alpha_eq_rec(b1, b2, corr1, corr2);
                corr1.pop();
                corr2.pop();
                proof {
                    assert(corr1@ =~= old(corr1)@);
                    assert(corr2@ =~= old(corr2)@);
                }
                res
            },
            _ => false,
        },
        LambdaTerm::App(f1, a1) => match term2 {
            LambdaTerm::App(f2, a2) => {
                let l = alpha_eq_rec(f1, f2, corr1, corr2);
                if !l {
                    return false;
                }
                alpha_eq_rec(a1, a2, corr1, corr2)
            },
            _ => false,
        },
    }
}

/// Whether the two terms are alpha equivalent.
pub fn alpha_eq(term1: &LambdaTerm, term2: &LambdaTerm) -> (b: bool)
    ensures
        b == alpha(*term1, *term2, Seq::empty(), Seq::empty()),
{
    let mut c1: Vec<Var> = Vec::new();
    let mut c2: Vec<Var> = Vec::new();
    proof {
        assert(ids(c1@) =~= Seq::<usize>::empty());
        assert(ids(c2@) =~= Seq::<usize>::empty());
    }
    alpha_eq_rec(term1, term2, &mut c1, &mut c2)
}

proof fn lemma_alpha_refl(t: LambdaTerm, c: Seq<usize>)
    ensures
        alpha(t, t, c, c),
    decreases t,
{
    match t {
        LambdaTerm::Var(_) => {},
        LambdaTerm::Abs(v, b) => lemma_alpha_refl(*b, c.push(v.id)),
        LambdaTerm::App(f, a) => {
            lemma_alpha_refl(*f, c);
            lemma_alpha_refl(*a, c);
        },
    }
}

/// Every term is alpha equivalent to itself.
pub proof fn law_alpha_reflexive(t: LambdaTerm)
    ensures
        alpha(t, t, Seq::empty(), Seq::empty()),
{
    lemma_alpha_refl(t, Seq::empty());
}

proof fn lemma_alpha_sym(t1: LambdaTerm, t2: LambdaTerm, c1: Seq<usize>, c2: Seq<usize>)
    ensures
        alpha(t1, t2, c1, c2) == alpha(t2, t1, c2, c1),
    decreases t1,
{
    match t1 {
        LambdaTerm::Var(_) => {},
        LambdaTerm::Abs(v1, b1) => match t2 {
            LambdaTerm::Abs(v2, b2) => lemma_alpha_sym(*b1, *b2, c1.push(v1.id), c2.push(v2.id)),
            _ => {},
        },
        LambdaTerm::App(f1, a1) => match t2 {
            LambdaTerm::App(f2, a2) => {
                lemma_alpha_sym(*f1, *f2, c1, c2);
                lemma_alpha_sym(*a1, *a2, c1, c2);
            },
            _ => {},
        },
    }
}

/// Alpha equivalence does not depend on the order of the two terms.
pub proof fn law_alpha_symmetric(t1: LambdaTerm, t2: LambdaTerm)
    ensures
        alpha(t1, t2, Seq::empty(), Seq::empty()) == alpha(t2, t1, Seq::empty(), Seq::empty()),
{
    lemma_alpha_sym(t1, t2, Seq::empty(), Seq::empty());
}

/// The variables free in the term.
pub open spec fn free_ids(t: LambdaTerm) -> Set<usize>
    decreases t,
{
    match t {
        LambdaTerm::Var(v) => set![v.id],
        LambdaTerm::Abs(v, b) => free_ids(*b).remove(v.id),
        LambdaTerm::App(f, a) => free_ids(*f).union(free_ids(*a)),
    }
}

/// The binders of the term that no other binder encloses.
pub open spec fn bound_ids(t: LambdaTerm) -> Set<usize>
    decreases t,
{
    match t {
        LambdaTerm::Var(_) => Set::empty(),
        LambdaTerm::Abs(v, _) => set![v.id],
        LambdaTerm::App(f, a) => bound_ids(*f).union(bound_ids(*a)),
    }
}

/// The variables listed.
pub open spec fn id_set(s: Seq<Var>) -> Set<usize> {
    Set::new(|x: usize| exists|i: int| 0 <= i < s.len() && #[trigger] s[i].id == x)
}

/// No variable is listed twice.
pub open spec fn distinct_ids(s: Seq<Var>) -> bool {
    forall|i: int, j: int| 0 <= i < j < s.len() ==> s[i].id != s[j].id
}

/// Adds the variable to the list unless it is there already.
pub(crate) fn add_var(set: &mut Vec<Var>, v: Var)
    requires
        distinct_ids(old(set)@),
    ensures
        distinct_ids(final(set)@),
        id_set(final(set)@) == id_set(old(set)@).insert(v.id),
{
    let mut i: usize = 0;
    while i < set.len()
        invariant
            i <= set.len(),
            set@ == old(set)@,
            distinct_ids(set@),
            forall|k: int| 0 <= k < i ==> set@[k].id != v.id,
        decreases set.len() - i,
    {
        if set[i].id == v.id {
            assert(id_set(set@) =~= id_set(set@).insert(v.id)) by {
                assert(set@[i as int].id == v.id);
            }
            return;
        }
        i = i + 1;
    }
    let ghost before = set@;
    set.push(v);
    assert(id_set(set@) =~= id_set(before).insert(v.id)) by {
        assert forall|x: usize| id_set(before).insert(v.id).contains(x) implies id_set(set@).contains(x) by {
            if x == v.id {
                assert(set@[before.len() as int].id == x);
            } else {
                let k = choose|k: int| 0 <= k < before.len() && #[trigger] before[k].id == x;
                assert(set@[k].id == x);
            }
        }
        assert forall|x: usize| id_set(set@).contains(x) implies id_set(before).insert(v.id).contains(x) by {
            let k = choose|k: int| 0 <= k < set@.len() && #[trigger] set@[k].id == x;
            if k < before.len() {
                assert(before[k].id == x);
            }
        }
    }
}

/// The list without the variable `x`.
pub(crate) fn remove_var(set: Vec<Var>, x: usize) -> (r: Vec<Var>)
    requires
        distinct_ids(set@),
    ensures
        distinct_ids(r@),
        id_set(r@) == id_set(set@).remove(x),
{
    let mut r: Vec<Var> = Vec::new();
    let mut i: usize = 0;
    while i < set.len()
        invariant
            i <= set.len(),
            distinct_ids(set@),
            distinct_ids(r@),
            forall|k: int| 0 <= k < r@.len() ==> r@[k].id != x,
            forall|k: int| 0 <= k < r@.len() ==> exists|j: int| 0 <= j < i && set@[j].id == #[trigger] r@[k].id,
            forall|j: int| 0 <= j < i && set@[j].id != x ==> exists|k: int| 0 <= k < r@.len() && #[trigger] r@[k].id == set@[j].id,
        decreases set.len() - i,
    {
        if set[i].id != x {
            let ghost before = r@;
            assert forall|k: int| 0 <= k < before.len() implies before[k].id != set@[i as int].id by {
                let j = choose|j: int| 0 <= j < i && #[trigger] set@[j].id == before[k].id;
            }
            r.push(set[i].dup());
            assert forall|k: int| 0 <= k < r@.len() implies exists|j: int| 0 <= j < i + 1 && set@[j].id == #[trigger] r@[k].id by {
                if k < before.len() {
                    assert(r@[k] == before[k]);
                } else {
                    assert(set@[i as int].id == r@[k].id);
                }
            }
            assert forall|j: int| 0 <= j < i + 1 && set@[j].id != x implies exists|k: int| 0 <= k < r@.len() && #[trigger] r@[k].id == set@[j].id by {
                if j < i {
                    let k = choose|k: int| 0 <= k < before.len() && #[trigger] before[k].id == set@[j].id;
                    assert(r@[k] == before[k]);
                } else {
                    assert(r@[before.len() as int].id == set@[j].id);
                }
            }
        }
        i = i + 1;
    }
    assert(id_set(r@) =~= id_set(set@).remove(x)) by {
        assert forall|y: usize| id_set(r@).contains(y) implies id_set(set@).remove(x).contains(y) by {
            let k = choose|k: int| 0 <= k < r@.len() && #[trigger] r@[k].id == y;
            let j = choose|j: int| 0 <= j < set@.len() && set@[j].id == #[trigger] r@[k].id;
        }
        assert forall|y: usize| id_set(set@).remove(x).contains(y) implies id_set(r@).contains(y) by {
            let j = choose|j: int| 0 <= j < set@.len() && #[trigger] set@[j].id == y;
            let k = choose|k: int| 0 <= k < r@.len() && #[trigger] r@[k].id == set@[j].id;
        }
    }
    r
}

/// Adds every variable of `more` to the list.
pub(crate) fn add_all(set: &mut Vec<Var>, more: Vec<Var>)
    requires
        distinct_ids(old(set)@),
    ensures
        distinct_ids(final(set)@),
        id_set(final(set)@) == id_set(old(set)@).union(id_set(more@)),
{
    let mut i: usize = 0;
    while i < more.len()
        invariant
            i <= more.len(),
            distinct_ids(set@),
            id_set(set@) == id_set(old(set)@).union(id_set(more@.take(i as int))),
        decreases more.len() - i,
    {
        let ghost before = set@;
        add_var(set, more[i].dup());
        assert(id_set(more@.take(i + 1)) =~= id_set(more@.take(i as int)).insert(more@[i as int].id)) by {
            assert forall|y: usize| id_set(more@.take(i + 1)).contains(y) implies id_set(more@.take(i as int)).insert(more@[i as int].id).contains(y) by {
                let k = choose|k: int| 0 <= k < i + 1 && #[trigger] more@.take(i + 1)[k].id == y;
                if k < i {
                    assert(more@.take(i as int)[k].id == y);
                }
            }
            assert forall|y: usize| id_set(more@.take(i as int)).insert(more@[i as int].id).contains(y) implies id_set(more@.take(i + 1)).contains(y) by {
                if y == more@[i as int].id {
                    assert(more@.take(i + 1)[i as int].id == y);
                } else {
                    let k = choose|k: int| 0 <= k < i && #[trigger] more@.take(i as int)[k].id == y;
                    assert(more@.take(i + 1)[k].id == y);
                }
            }
        }
        assert(id_set(set@) =~= id_set(old(set)@).union(id_set(more@.take(i + 1))));
        i = i + 1;
    }
    assert(more@.take(more.len() as int) =~= more@);
}

impl LambdaTerm {
    /// The variables free in the term, each once.
    pub fn free_variable(&self) -> (r: Vec<Var>)
        ensures
            distinct_ids(r@),
            id_set(r@) == free_ids(*self),
        decreases self,
    {
        match self {
            LambdaTerm::Var(v) => {
                let r = vec![v.dup()];
                assert(id_set(r@) =~= set![v.id]) by {
                    assert(r@[0].id == v.id);
                }
                r
            },
            LambdaTerm::Abs(v, b) => remove_var(b.free_variable(), v.id),
            LambdaTerm::App(f, a) => {
                let mut r = f.free_variable();
                add_all(&mut r, a.free_variable());
                r
            },
        }
    }

    /// The binders of the term that no other binder encloses, each once.
    pub fn bounded_variable(&self) -> (r: Vec<Var>)
        ensures
            distinct_ids(r@),
            id_set(r@) == bound_ids(*self),
        decreases self,
    {
        match self {
            LambdaTerm::Var(_) => {
                let r: Vec<Var> = Vec::new();
                assert(id_set(r@) =~= Set::<usize>::empty());
                r
            },
            LambdaTerm::Abs(v, _) => {
                let r = vec![v.dup()];
                assert(id_set(r@) =~= set![v.id]) by {
                    assert(r@[0].id == v.id);
                }
                r
            },
            LambdaTerm::App(f, a) => {
                let mut r = f.bounded_variable();
                add_all(&mut r, a.bounded_variable());
                r
            },
        }
    }
}

/// The number of abstractions in the term.
pub open spec fn abs_count(t: LambdaTerm) -> nat
    decreases t,
{
    match t {
        LambdaTerm::Var(_) => 0,
        LambdaTerm::Abs(_, b) => 1 + abs_count(*b),
        LambdaTerm::App(f, a) => abs_count(*f) + abs_count(*a),
    }
}

/// The variable that the first pair for `x` in `map` gives, if any.
pub open spec fn lookup_from(map: Seq<(Var, Var)>, x: usize, i: int) -> Option<Var>
    decreases map.len() - i,
{
    if i < 0 || i >= map.len() {
        None
    } else if map[i].0.id == x {
        Some(map[i].1)
    } else {
        lookup_from(map, x, i + 1)
    }
}

/// The term with each binder replaced by a new variable of the same name,
/// the new ids counted up from `next` in the order in which the binders are
/// met, and each variable that `map` or a binder on the way maps given its
/// new variable.
pub open spec fn conversion(t: LambdaTerm, map: Seq<(Var, Var)>, next: int) -> LambdaTerm
    decreases t,
{
    match t {
        LambdaTerm::Var(v) => match lookup_from(map, v.id, 0) {
            Some(w) => LambdaTerm::Var(w),
            None => LambdaTerm::Var(v),
        },
        LambdaTerm::Abs(v, b) => {
            let nv = Var { id: next as usize, name: v.name };
            LambdaTerm::Abs(nv, Box::new(conversion(*b, map.push((v, nv)), next + 1)))
        },
        LambdaTerm::App(f, a) => LambdaTerm::App(
            Box::new(conversion(*f, map, next)),
            Box::new(conversion(*a, map, next + abs_count(*f))),
        ),
    }
}

fn lookup(map: &Vec<(Var, Var)>, x: usize) -> (r: Option<Var>)
    ensures
        r == lookup_from(map@, x, 0),
{
    let mut i: usize = 0;
    while i < map.len()
        invariant
            i <= map.len(),
            lookup_from(map@, x, 0) == lookup_from(map@, x, i as int),
        decreases map.len() - i,
    {
        if map[i].0.id == x {
            return Some(map[i].1.dup());
        }
        i = i + 1;
    }
    None
}

/// Gives every binder of the term a new variable of the same name, with ids
/// taken from `next_id` on, and every variable that `map` or its binder
/// maps the new variable.
pub fn alpha_conversion_rec(term: &LambdaTerm, map: &mut Vec<(Var, Var)>, next_id: &mut usize) -> (t: LambdaTerm)
    requires
        *old(next_id) + abs_count(*term) <= usize::MAX,
    ensures
        t == conversion(*term, old(map)@, *old(next_id) as int),
        final(map)@ == old(map)@,
        *final(next_id) == *old(next_id) + abs_count(*term),
    decreases term,
{
    match term {
        LambdaTerm::Var(v) => match lookup(map, v.id) {
            Some(w) => LambdaTerm::Var(w),
            None => LambdaTerm::Var(v.dup()),
        },
        LambdaTerm::Abs(v, b) => {
            let nv = Var { id: *next_id, name: v.name.clone() };
            *next_id = *next_id + 1;
            map.push((v.dup(), nv.dup()));
            let body = alpha_conversion_rec(b, map, next_id);
            map.pop();
            proof {
                assert(map@ =~= old(map)@);
            }
            LambdaTerm::Abs(nv, Box::new(body))
        },
        LambdaTerm::App(f, a) => {
            let l = alpha_conversion_rec(f, map, next_id);
            let r = alpha_conversion_rec(a, map, next_id);
            LambdaTerm::App(Box::new(l), Box::new(r))
        },
    }
}

/// `first` applied to each of `rest` in turn: `((first r0) r1) ...`.
pub open spec fn apps_spec(first: LambdaTerm, rest: Seq<LambdaTerm>) -> LambdaTerm
    decreases rest.len(),
{
    if rest.len() == 0 {
        first
    } else {
        LambdaTerm::App(Box::new(apps_spec(first, rest.drop_last())), Box::new(rest.last()))
    }
}

/// `last` under the binders `vars`, the first of them outermost.
pub open spec fn lambdas_spec(vars: Seq<Var>, last: LambdaTerm) -> LambdaTerm
    decreases vars.len(),
{
    if vars.len() == 0 {
        last
    } else {
        lambdas_spec(vars.drop_last(), LambdaTerm::Abs(vars.last(), Box::new(last)))
    }
}

/// Applies `first` to each of `remains` in turn.
pub fn apps(first: LambdaTerm, remains: Vec<LambdaTerm>) -> (t: LambdaTerm)
    ensures
        t == apps_spec(first, remains@),
{
    let mut term = first;
    let mut i: usize = 0;
    while i < remains.len()
        invariant
            i <= remains.len(),
            term == apps_spec(first, remains@.take(i as int)),
        decreases remains.len() - i,
    {
        let next = copy_term(&remains[i]);
        assert(remains@.take(i + 1).drop_last() =~= remains@.take(i as int));
        term = LambdaTerm::App(Box::new(term), Box::new(next));
        i = i + 1;
    }
    assert(remains@.take(remains.len() as int) =~= remains@);
    term
}

/// Applies the first term to each of the others in turn.
pub fn app_with_nonepmty(all: Vec<LambdaTerm>) -> (t: LambdaTerm)
    requires
        all.len() > 0,
    ensures
        t == apps_spec(all@[0], all@.subrange(1, all.len() as int)),
{
    let mut all = all;
    let first = all.remove(0);
    apps(first, all)
}

/// Puts `last` under the binders `pres`, the first of them outermost.
pub fn lambdas(pres: Vec<Var>, last: LambdaTerm) -> (t: LambdaTerm)
    ensures
        t == lambdas_spec(pres@, last),
{
    let ghost orig = pres@;
    let mut pres = pres;
    let mut term = last;
    while pres.len() > 0
        invariant
            lambdas_spec(pres@, term) == lambdas_spec(orig, last),
        decreases pres.len(),
    {
        let ghost before = pres@;
        let v = pres.pop().unwrap();
        assert(before.drop_last() =~= pres@);
        term = LambdaTerm::Abs(v, Box::new(term));
    }
    term
}

impl From<Var> for LambdaTerm {
    fn from(var: Var) -> (t: LambdaTerm) {
        LambdaTerm::Var(var)
    }
}

impl vstd::std_specs::convert::FromSpecImpl<Var> for LambdaTerm {
    open spec fn obeys_from_spec() -> bool {
        true
    }

    open spec fn from_spec(var: Var) -> LambdaTerm {
        LambdaTerm::Var(var)
    }
}

impl From<MarkedTerm> for LambdaTerm {
    fn from(marked_term: MarkedTerm) -> (t: LambdaTerm) {
        unmark_redex(marked_term)
    }
}

impl vstd::std_specs::convert::FromSpecImpl<MarkedTerm> for LambdaTerm {
    open spec fn obeys_from_spec() -> bool {
        true
    }

    open spec fn from_spec(marked_term: MarkedTerm) -> LambdaTerm {
        unmark(marked_term)
    }
}

/// The text of a term: a variable by its name, `\x. m` for an abstraction
/// and `(m n)` for an application.
pub open spec fn term_text(t: LambdaTerm) -> Seq<char>
    decreases t,
{
    match t {
        LambdaTerm::Var(v) => v.name@,
        LambdaTerm::Abs(v, b) => seq!['\\'] + v.name@ + seq!['.', ' '] + term_text(*b),
        LambdaTerm::App(f, a) => seq!['('] + term_text(*f) + seq![' '] + term_text(*a) + seq![')'],
    }
}

fn write_term(t: &LambdaTerm, out: &mut Vec<char>)
    ensures
        final(out)@ == old(out)@ + term_text(*t),
    decreases t,
{
    match t {
        LambdaTerm::Var(v) => push_str(out, v.name.as_str()),
        LambdaTerm::Abs(v, b) => {
            out.push('\\');
            push_str(out, v.name.as_str());
            out.push('.');
            out.push(' ');
            write_term(b, out);
            assert(out@ =~= old(out)@ + term_text(*t));
        },
        LambdaTerm::App(f, a) => {
            out.push('(');
            write_term(f, out);
            out.push(' ');
            write_term(a, out);
            out.push(')');
            assert(out@ =~= old(out)@ + term_text(*t));
        },
    }
}

impl LambdaTerm {
    /// The text of the term.
    pub fn print(&self) -> (s: String)
        ensures
            s@ == term_text(*self),
    {
        let mut out: Vec<char> = Vec::new();
        write_term(self, &mut out);
        assert(out@ =~= term_text(*self));
        string_of(&out)
    }
}

/// How a term is shown: a variable as `[x]`, `\x.m` for an abstraction and
/// `(m n)` for an application.
pub open spec fn display_text(t: LambdaTerm) -> Seq<char>
    decreases t,
{
    match t {
        LambdaTerm::Var(v) => seq!['['] + v.name@ + seq![']'],
        LambdaTerm::Abs(v, b) => seq!['\\'] + v.name@ + seq!['.'] + display_text(*b),
        LambdaTerm::App(f, a) => seq!['('] + display_text(*f) + seq![' '] + display_text(*a) + seq![')'],
    }
}

pub(crate) fn write_display(t: &LambdaTerm, out: &mut Vec<char>)
    ensures
        final(out)@ == old(out)@ + display_text(*t),
    decreases t,
{
    match t {
        LambdaTerm::Var(v) => {
            out.push('[');
            push_str(out, v.name.as_str());
            out.push(']');
            assert(out@ =~= old(out)@ + display_text(*t));
        },
        LambdaTerm::Abs(v, b) => {
            out.push('\\');
            push_str(out, v.name.as_str());
            out.push('.');
            write_display(b, out);
            assert(out@ =~= old(out)@ + display_text(*t));
        },
        LambdaTerm::App(f, a) => {
            out.push('(');
            write_display(f, out);
            out.push(' ');
            write_display(a, out);
            out.push(')');
            assert(out@ =~= old(out)@ + display_text(*t));
        },
    }
}

impl LambdaTerm {
    /// The term as shown.
    pub fn display(&self) -> (s: String)
        ensures
            s@ == display_text(*self),
    {
        let mut out: Vec<char> = Vec::new();
        write_display(self, &mut out);
        assert(out@ =~= display_text(*self));
        string_of(&out)
    }
}

} // verus!

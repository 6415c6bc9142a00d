//! The core of a lambda calculus with numbers: variables, abstractions,
//! applications, zero, successor, predecessor, a test for zero, `let` and
//! recursive functions; its free and bound variables, and alpha
//! equivalence.
use vstd::prelude::*;

use crate::lambda_term::{add_all, add_var, distinct_ids, id_set, remove_var, Var};

verus! {

#[derive(Debug, PartialEq)]
pub enum Core {
    Var { var: Var },
    Lam { var: Var, body: Box<Core> },
    App { e1: Box<Core>, e2: Box<Core> },
    Zero,
    Succ { succ: Box<Core> },
    Pred { pred: Box<Core> },
    IfZ { cond: Box<Core>, tcase: Box<Core>, fcase: Box<Core> },
    Let { var: Var, bind: Box<Core>, body: Box<Core> },
    Rec { fix: Var, var: Var, body: Box<Core> },
}

/// The terms of the calculus with numbers, `let` and recursion that the
/// control operators extend: the same terms as the core, with the same
/// variables, alpha equivalence and substitution.
pub type Lam = Core;

/// The variables free in a term. In `let x = b in e` the variable is free
/// neither in `e` nor where `b` has it free but `e` holds it too; `rec f x.
/// e` binds both `f` and `x` in `e`.
pub open spec fn core_free(t: Core) -> Set<usize>
    decreases t,
{
    match t {
        Core::Var { var } => set![var.id],
        Core::Lam { var, body } => core_free(*body).remove(var.id),
        Core::App { e1, e2 } => core_free(*e1).union(core_free(*e2)),
        Core::Zero => Set::empty(),
        Core::Succ { succ } => core_free(*succ),
        Core::Pred { pred } => core_free(*pred),
        Core::IfZ { cond, tcase, fcase } => core_free(*cond).union(core_free(*tcase)).union(core_free(*fcase)),
        Core::Let { var, bind, body } => core_free(*body).remove(var.id).union(core_free(*bind)),
        Core::Rec { fix, var, body } => core_free(*body).remove(fix.id).remove(var.id),
    }
}

/// The variables that the term binds.
pub open spec fn core_bound(t: Core) -> Set<usize>
    decreases t,
{
    match t {
        Core::Var { .. } => Set::empty(),
        Core::Lam { var, body } => core_bound(*body).insert(var.id),
        Core::App { e1, e2 } => core_bound(*e1).union(core_bound(*e2)),
        Core::Zero => Set::empty(),
        Core::Succ { succ } => core_bound(*succ),
        Core::Pred { pred } => core_bound(*pred),
        Core::IfZ { cond, tcase, fcase } => core_bound(*cond).union(core_bound(*tcase)).union(core_bound(*fcase)),
        Core::Let { var, bind, body } => core_bound(*body).insert(var.id).union(core_bound(*bind)),
        Core::Rec { fix, var, body } => core_bound(*body).insert(fix.id).insert(var.id),
    }
}

/// The last position before `k` where `x` stands in `c`, or -1.
pub open spec fn last_before(c: Seq<usize>, x: usize, k: int) -> int
    decreases k,
{
    if k <= 0 || k > c.len() {
        -1
    } else if c[k - 1] == x {
        k - 1
    } else {
        last_before(c, x, k - 1)
    }
}

/// Alpha equivalence under the binders `c1` and `c2` met so far, innermost
/// last: a bound variable matches a variable bound at the same depth by
/// its innermost binder, a free variable only itself. In `let x = b in e`
/// the two `e` are compared as they are and the two `b` under `x`; in `rec
/// f x. e`, `x` is the inner binder.
pub open spec fn core_alpha(t1: Core, t2: Core, c1: Seq<usize>, c2: Seq<usize>) -> bool
    decreases t1,
{
    match t1 {
        Core::Var { var: v1 } => match t2 {
            Core::Var { var: v2 } => {
                let i = last_before(c1, v1.id, c1.len() as int);
                let j = last_before(c2, v2.id, c2.len() as int);
                if i >= 0 && j >= 0 {
                    i == j
                } else if i < 0 && j < 0 {
                    v1.id == v2.id
                } else {
                    false
                }
            },
            _ => false,
        },
        Core::Lam { var: v1, body: b1 } => match t2 {
            Core::Lam { var: v2, body: b2 } => core_alpha(*b1, *b2, c1.push(v1.id), c2.push(v2.id)),
            _ => false,
        },
        Core::App { e1: f1, e2: a1 } => match t2 {
            Core::App { e1: f2, e2: a2 } => core_alpha(*f1, *f2, c1, c2) && core_alpha(*a1, *a2, c1, c2),
            _ => false,
        },
        Core::Zero => t2 is Zero,
        Core::Succ { succ: s1 } => match t2 {
            Core::Succ { succ: s2 } => core_alpha(*s1, *s2, c1, c2),
            _ => false,
        },
        Core::Pred { pred: p1 } => match t2 {
            Core::Pred { pred: p2 } => core_alpha(*p1, *p2, c1, c2),
            _ => false,
        },
        Core::IfZ { cond: x1, tcase: y1, fcase: z1 } => match t2 {
            Core::IfZ { cond: x2, tcase: y2, fcase: z2 } => core_alpha(*x1, *x2, c1, c2) && core_alpha(
                *y1,
                *y2,
                c1,
                c2,
            ) && core_alpha(*z1, *z2, c1, c2),
            _ => false,
        },
        Core::Let { var: v1, bind: d1, body: b1 } => match t2 {
            Core::Let { var: v2, bind: d2, body: b2 } => core_alpha(*b1, *b2, c1, c2) && core_alpha(
                *d1,
                *d2,
                c1.push(v1.id),
                c2.push(v2.id),
            ),
            _ => false,
        },
        Core::Rec { fix: f1, var: v1, body: b1 } => match t2 {
            Core::Rec { fix: f2, var: v2, body: b2 } => core_alpha(
                *b1,
                *b2,
                c1.push(f1.id).push(v1.id),
                c2.push(f2.id).push(v2.id),
            ),
            _ => false,
        },
    }
}

fn last_index(c: &Vec<usize>, x: usize) -> (r: Option<usize>)
    ensures
        match r {
            Some(i) => i as int == last_before(c@, x, c@.len() as int),
            None => last_before(c@, x, c@.len() as int) < 0,
        },
{
    let mut k: usize = c.len();
    while k > 0
        invariant
            k <= c.len(),
            last_before(c@, x, c@.len() as int) == last_before(c@, x, k as int),
        decreases k,
    {
        if c[k - 1] == x {
            return Some(k - 1);
        }
        k = k - 1;
    }
    None
}

fn alpha_rec(t1: &Core, t2: &Core, c1: &mut Vec<usize>, c2: &mut Vec<usize>) -> (b: bool)
    ensures
        b == core_alpha(*t1, *t2, old(c1)@, old(c2)@),
        final(c1)@ == old(c1)@,
        final(c2)@ == old(c2)@,
    decreases t1,
{
    match (t1, t2) {
        (Core::Var { var: v1 }, Core::Var { var: v2 }) => {
            let i = last_index(c1, v1.id);
            let j = last_index(c2, v2.id);
            match i {
                Some(i) => match j {
                    Some(j) => i == j,
                    None => false,
                },
                None => match j {
                    Some(_) => false,
                    None => v1.id == v2.id,
                },
            }
        },
        (Core::Lam { var: v1, body: b1 }, Core::Lam { var: v2, body: b2 }) => {
            c1.push(v1.id);
            c2.push(v2.id);
            let r = alpha_rec(b1, b2, c1, c2);
            c1.pop();
            c2.pop();
            assert(c1@ =~= old(c1)@);
            assert(c2@ =~= old(c2)@);
            r
        },
        (Core::App { e1: f1, e2: a1 }, Core::App { e1: f2, e2: a2 }) => {
            if !alpha_rec(f1, f2, c1, c2) {
                return false;
            }
            alpha_rec(a1, a2, c1, c2)
        },
        (Core::Zero, Core::Zero) => true,
        (Core::Succ { succ: s1 }, Core::Succ { succ: s2 }) => alpha_rec(s1, s2, c1, c2),
        (Core::Pred { pred: p1 }, Core::Pred { pred: p2 }) => alpha_rec(p1, p2, c1, c2),
        (Core::IfZ { cond: x1, tcase: y1, fcase: z1 }, Core::IfZ { cond: x2, tcase: y2, fcase: z2 }) => {
            if !alpha_rec(x1, x2, c1, c2) {
                return false;
            }
            if !alpha_rec(y1, y2, c1, c2) {
                return false;
            }
            alpha_rec(z1, z2, c1, c2)
        },
        (Core::Let { var: v1, bind: d1, body: b1 }, Core::Let { var: v2, bind: d2, body: b2 }) => {
            if !alpha_rec(b1, b2, c1, c2) {
                return false;
            }
            c1.push(v1.id);
            c2.push(v2.id);
            let r = alpha_rec(d1, d2, c1, c2);
            c1.pop();
            c2.pop();
            assert(c1@ =~= old(c1)@);
            assert(c2@ =~= old(c2)@);
            r
        },
        (Core::Rec { fix: f1, var: v1, body: b1 }, Core::Rec { fix: f2, var: v2, body: b2 }) => {
            c1.push(f1.id);
            c1.push(v1.id);
            c2.push(f2.id);
            c2.push(v2.id);
            let r = alpha_rec(b1, b2, c1, c2);
            c1.pop();
            c1.pop();
            c2.pop();
            c2.pop();
            assert(c1@ =~= old(c1)@);
            assert(c2@ =~= old(c2)@);
            r
        },
        _ => false,
    }
}

impl Core {
    /// Whether the two terms are alpha equivalent.
    pub fn alpha_eq(&self, other: &Core) -> (b: bool)
        ensures
            b == core_alpha(*self, *other, seq![], seq![]),
    {
        let mut c1: Vec<usize> = Vec::new();
        let mut c2: Vec<usize> = Vec::new();
        assert(c1@ =~= seq![]);
        assert(c2@ =~= seq![]);
        alpha_rec(self, other, &mut c1, &mut c2)
    }

    /// The variables free in the term, each once.
    pub fn free_variables(&self) -> (r: Vec<Var>)
        ensures
            distinct_ids(r@),
            id_set(r@) == core_free(*self),
        decreases self,
    {
        match self {
            Core::Var { var } => {
                let mut r: Vec<Var> = Vec::new();
                assert(id_set(r@) =~= Set::<usize>::empty());
                add_var(&mut r, var.dup());
                assert(id_set(r@) =~= core_free(*self));
                r
            },
            Core::Lam { var, body } => remove_var(body.free_variables(), var.id),
            Core::App { e1, e2 } => {
                let mut r = e1.free_variables();
                add_all(&mut r, e2.free_variables());
                r
            },
            Core::Zero => {
                let r: Vec<Var> = Vec::new();
                assert(id_set(r@) =~= Set::<usize>::empty());
                r
            },
            Core::Succ { succ } => succ.free_variables(),
            Core::Pred { pred } => pred.free_variables(),
            Core::IfZ { cond, tcase, fcase } => {
                let mut r = cond.free_variables();
                add_all(&mut r, tcase.free_variables());
                add_all(&mut r, fcase.free_variables());
                r
            },
            Core::Let { var, bind, body } => {
                let mut r = remove_var(body.free_variables(), var.id);
                add_all(&mut r, bind.free_variables());
                r
            },
            Core::Rec { fix, var, body } => remove_var(remove_var(body.free_variables(), fix.id), var.id),
        }
    }

    /// The variables that the term binds, each once.
    pub fn bound_variables(&self) -> (r: Vec<Var>)
        ensures
            distinct_ids(r@),
            id_set(r@) == core_bound(*self),
        decreases self,
    {
        match self {
            Core::Var { .. } | Core::Zero => {
                let r: Vec<Var> = Vec::new();
                assert(id_set(r@) =~= Set::<usize>::empty());
                r
            },
            Core::Lam { var, body } => {
                let mut r = body.bound_variables();
                add_var(&mut r, var.dup());
                r
            },
            Core::App { e1, e2 } => {
                let mut r = e1.bound_variables();
                add_all(&mut r, e2.bound_variables());
                r
            },
            Core::Succ { succ } => succ.bound_variables(),
            Core::Pred { pred } => pred.bound_variables(),
            Core::IfZ { cond, tcase, fcase } => {
                let mut r = cond.bound_variables();
                add_all(&mut r, tcase.bound_variables());
                add_all(&mut r, fcase.bound_variables());
                r
            },
            Core::Let { var, bind, body } => {
                let mut r = body.bound_variables();
                add_var(&mut r, var.dup());
                add_all(&mut r, bind.bound_variables());
                r
            },
            Core::Rec { fix, var, body } => {
                let mut r = body.bound_variables();
                add_var(&mut r, fix.dup());
                add_var(&mut r, var.dup());
                r
            },
        }
    }
}

proof fn lemma_core_alpha_refl(t: Core, c: Seq<usize>)
    ensures
        core_alpha(t, t, c, c),
    decreases t,
{
    match t {
        Core::Var { .. } | Core::Zero => {},
        Core::Lam { var, body } => lemma_core_alpha_refl(*body, c.push(var.id)),
        Core::App { e1, e2 } => {
            lemma_core_alpha_refl(*e1, c);
            lemma_core_alpha_refl(*e2, c);
        },
        Core::Succ { succ } => lemma_core_alpha_refl(*succ, c),
        Core::Pred { pred } => lemma_core_alpha_refl(*pred, c),
        Core::IfZ { cond, tcase, fcase } => {
            lemma_core_alpha_refl(*cond, c);
            lemma_core_alpha_refl(*tcase, c);
            lemma_core_alpha_refl(*fcase, c);
        },
        Core::Let { var, bind, body } => {
            lemma_core_alpha_refl(*body, c);
            lemma_core_alpha_refl(*bind, c.push(var.id));
        },
        Core::Rec { fix, var, body } => lemma_core_alpha_refl(*body, c.push(fix.id).push(var.id)),
    }
}

/// Every term is alpha equivalent to itself.
pub proof fn law_core_alpha_reflexive(t: Core)
    ensures
        core_alpha(t, t, seq![], seq![]),
{
    lemma_core_alpha_refl(t, seq![]);
}

proof fn lemma_core_alpha_sym(t1: Core, t2: Core, c1: Seq<usize>, c2: Seq<usize>)
    ensures
        core_alpha(t1, t2, c1, c2) == core_alpha(t2, t1, c2, c1),
    decreases t1,
{
    match (t1, t2) {
        (Core::Lam { var: v1, body: b1 }, Core::Lam { var: v2, body: b2 }) => lemma_core_alpha_sym(
            *b1,
            *b2,
            c1.push(v1.id),
            c2.push(v2.id),
        ),
        (Core::App { e1: f1, e2: a1 }, Core::App { e1: f2, e2: a2 }) => {
            lemma_core_alpha_sym(*f1, *f2, c1, c2);
            lemma_core_alpha_sym(*a1, *a2, c1, c2);
        },
        (Core::Succ { succ: s1 }, Core::Succ { succ: s2 }) => lemma_core_alpha_sym(*s1, *s2, c1, c2),
        (Core::Pred { pred: p1 }, Core::Pred { pred: p2 }) => lemma_core_alpha_sym(*p1, *p2, c1, c2),
        (Core::IfZ { cond: x1, tcase: y1, fcase: z1 }, Core::IfZ { cond: x2, tcase: y2, fcase: z2 }) => {
            lemma_core_alpha_sym(*x1, *x2, c1, c2);
            lemma_core_alpha_sym(*y1, *y2, c1, c2);
            lemma_core_alpha_sym(*z1, *z2, c1, c2);
        },
        (Core::Let { var: v1, bind: d1, body: b1 }, Core::Let { var: v2, bind: d2, body: b2 }) => {
            lemma_core_alpha_sym(*b1, *b2, c1, c2);
            lemma_core_alpha_sym(*d1, *d2, c1.push(v1.id), c2.push(v2.id));
        },
        (Core::Rec { fix: f1, var: v1, body: b1 }, Core::Rec { fix: f2, var: v2, body: b2 }) => {
            lemma_core_alpha_sym(*b1, *b2, c1.push(f1.id).push(v1.id), c2.push(f2.id).push(v2.id));
        },
        _ => {},
    }
}

/// Alpha equivalence does not depend on the order of the two terms.
pub proof fn law_core_alpha_symmetric(t1: Core, t2: Core)
    ensures
        core_alpha(t1, t2, seq![], seq![]) == core_alpha(t2, t1, seq![], seq![]),
{
    lemma_core_alpha_sym(t1, t2, seq![], seq![]);
}

/// Whether the term holds no `let`.
pub open spec fn no_let(t: Core) -> bool
    decreases t,
{
    match t {
        Core::Var { .. } => true,
        Core::Lam { body, .. } => no_let(*body),
        Core::App { e1, e2 } => no_let(*e1) && no_let(*e2),
        Core::Zero => true,
        Core::Succ { succ } => no_let(*succ),
        Core::Pred { pred } => no_let(*pred),
        Core::IfZ { cond, tcase, fcase } => no_let(*cond) && no_let(*tcase) && no_let(*fcase),
        Core::Let { .. } => false,
        Core::Rec { body, .. } => no_let(*body),
    }
}

proof fn lemma_last_before(c: Seq<usize>, x: usize, k: int)
    requires
        0 <= k <= c.len(),
    ensures
        (last_before(c, x, k) < 0) == (forall|i: int| 0 <= i < k ==> c[i] != x),
    decreases k,
{
    if k > 0 && c[k - 1] != x {
        lemma_last_before(c, x, k - 1);
    }
}

proof fn lemma_unbound(c: Seq<usize>, x: usize)
    ensures
        (last_before(c, x, c.len() as int) < 0) == !c.contains(x),
{
    lemma_last_before(c, x, c.len() as int);
}

/// Under alpha equivalence, a variable free in the first term and bound by
/// none of its enclosing binders is free in the second and bound by none of
/// its binders.
proof fn lemma_alpha_free(t1: Core, t2: Core, c1: Seq<usize>, c2: Seq<usize>, x: usize)
    requires
        core_alpha(t1, t2, c1, c2),
        no_let(t1),
        core_free(t1).contains(x),
        !c1.contains(x),
    ensures
        core_free(t2).contains(x),
        !c2.contains(x),
    decreases t1,
{
    match t1 {
        Core::Var { var: v1 } => {
            lemma_unbound(c1, x);
            if let Core::Var { var: v2 } = t2 {
                lemma_unbound(c2, v2.id);
                assert(v1.id == x);
            }
        },
        Core::Lam { var: v1, body: b1 } => {
            if let Core::Lam { var: v2, body: b2 } = t2 {
                assert(!c1.push(v1.id).contains(x)) by {
                    if c1.push(v1.id).contains(x) {
                        let i = choose|i: int| 0 <= i < c1.push(v1.id).len() && c1.push(v1.id)[i] == x;
                        if i < c1.len() {
                            assert(c1.contains(x));
                        }
                    }
                }
                lemma_alpha_free(*b1, *b2, c1.push(v1.id), c2.push(v2.id), x);
                assert(c2.push(v2.id)[c2.len() as int] == v2.id);
                assert forall|i: int| 0 <= i < c2.len() implies c2[i] != x by {
                    assert(c2.push(v2.id)[i] == c2[i]);
                }
            }
        },
        Core::App { e1: f1, e2: a1 } => {
            if let Core::App { e1: f2, e2: a2 } = t2 {
                if core_free(*f1).contains(x) {
                    lemma_alpha_free(*f1, *f2, c1, c2, x);
                } else {
                    lemma_alpha_free(*a1, *a2, c1, c2, x);
                }
            }
        },
        Core::Zero => {},
        Core::Succ { succ: s1 } => {
            if let Core::Succ { succ: s2 } = t2 {
                lemma_alpha_free(*s1, *s2, c1, c2, x);
            }
        },
        Core::Pred { pred: p1 } => {
            if let Core::Pred { pred: p2 } = t2 {
                lemma_alpha_free(*p1, *p2, c1, c2, x);
            }
        },
        Core::IfZ { cond: x1, tcase: y1, fcase: z1 } => {
            if let Core::IfZ { cond: x2, tcase: y2, fcase: z2 } = t2 {
                if core_free(*x1).contains(x) {
                    lemma_alpha_free(*x1, *x2, c1, c2, x);
                } else if core_free(*y1).contains(x) {
                    lemma_alpha_free(*y1, *y2, c1, c2, x);
                } else {
                    lemma_alpha_free(*z1, *z2, c1, c2, x);
                }
            }
        },
        Core::Let { .. } => {},
        Core::Rec { fix: f1, var: v1, body: b1 } => {
            if let Core::Rec { fix: f2, var: v2, body: b2 } = t2 {
                let d1 = c1.push(f1.id).push(v1.id);
                let d2 = c2.push(f2.id).push(v2.id);
                assert(!d1.contains(x)) by {
                    if d1.contains(x) {
                        let i = choose|i: int| 0 <= i < d1.len() && d1[i] == x;
                        if i < c1.len() {
                            assert(d1[i] == c1[i]);
                            assert(c1.contains(x));
                        }
                    }
                }
                lemma_alpha_free(*b1, *b2, d1, d2, x);
                assert(d2[c2.len() as int] == f2.id);
                assert(d2[c2.len() + 1int] == v2.id);
                assert forall|i: int| 0 <= i < c2.len() implies c2[i] != x by {
                    assert(d2[i] == c2[i]);
                }
            }
        },
    }
}

/// Alpha-equivalent terms without `let` have the same free variables. (In
/// `let x = b in e` the body is compared without its binder, so `let x = x
/// in z` and `let y = y in z` are alpha equivalent with other free
/// variables.)
pub proof fn law_core_alpha_keeps_free(t1: Core, t2: Core)
    requires
        no_let(t1),
        no_let(t2),
        core_alpha(t1, t2, seq![], seq![]),
    ensures
        core_free(t1) == core_free(t2),
{
    lemma_core_alpha_sym(t1, t2, seq![], seq![]);
    assert forall|x: usize| core_free(t1).contains(x) implies core_free(t2).contains(x) by {
        lemma_alpha_free(t1, t2, seq![], seq![], x);
    }
    assert forall|x: usize| core_free(t2).contains(x) implies core_free(t1).contains(x) by {
        lemma_alpha_free(t2, t1, seq![], seq![], x);
    }
    assert(core_free(t1) =~= core_free(t2));
}

} // verus!

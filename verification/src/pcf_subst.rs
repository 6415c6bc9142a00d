//! Substitution in the core calculus. Every binder that the substitution
//! passes is renamed to a fresh id before the term is put in, so that no
//! free variable of the term is caught: the fresh id is the least one that
//! occurs neither in the two terms, nor as the variable, nor among the ids
//! handed out before.
use vstd::prelude::*;

use crate::lambda_beta::{avoid_of, fresh_id, least_free, lemma_avoid_facts, lemma_avoid_push, lemma_least_free};
use crate::lambda_term::Var;
use crate::pcf_core::{core_free, Core};

verus! {

pub open spec fn core_size(t: Core) -> nat
    decreases t,
{
    match t {
        Core::Var { .. } => 1,
        Core::Lam { body, .. } => 1 + core_size(*body),
        Core::App { e1, e2 } => 1 + core_size(*e1) + core_size(*e2),
        Core::Zero => 1,
        Core::Succ { succ } => 1 + core_size(*succ),
        Core::Pred { pred } => 1 + core_size(*pred),
        Core::IfZ { cond, tcase, fcase } => 1 + core_size(*cond) + core_size(*tcase) + core_size(*fcase),
        Core::Let { bind, body, .. } => 1 + core_size(*bind) + core_size(*body),
        Core::Rec { body, .. } => 1 + core_size(*body),
    }
}

/// Every id that occurs in the term, free or as a binder.
pub open spec fn core_ids(t: Core) -> Set<int>
    decreases t,
{
    match t {
        Core::Var { var } => set![var.id as int],
        Core::Lam { var, body } => core_ids(*body).insert(var.id as int),
        Core::App { e1, e2 } => core_ids(*e1).union(core_ids(*e2)),
        Core::Zero => Set::empty(),
        Core::Succ { succ } => core_ids(*succ),
        Core::Pred { pred } => core_ids(*pred),
        Core::IfZ { cond, tcase, fcase } => core_ids(*cond).union(core_ids(*tcase)).union(core_ids(*fcase)),
        Core::Let { var, bind, body } => core_ids(*bind).union(core_ids(*body)).insert(var.id as int),
        Core::Rec { fix, var, body } => core_ids(*body).insert(fix.id as int).insert(var.id as int),
    }
}

/// The free occurrences of `x` replaced by the variable `w`; a binder of
/// `x` shadows it (in `let`, only in the body).
pub open spec fn core_rename(t: Core, x: usize, w: Var) -> Core
    decreases t,
{
    match t {
        Core::Var { var } => if var.id == x {
            Core::Var { var: w }
        } else {
            Core::Var { var }
        },
        Core::Lam { var, body } => if var.id == x {
            Core::Lam { var, body }
        } else {
            Core::Lam { var, body: Box::new(core_rename(*body, x, w)) }
        },
        Core::App { e1, e2 } => Core::App {
            e1: Box::new(core_rename(*e1, x, w)),
            e2: Box::new(core_rename(*e2, x, w)),
        },
        Core::Zero => Core::Zero,
        Core::Succ { succ } => Core::Succ { succ: Box::new(core_rename(*succ, x, w)) },
        Core::Pred { pred } => Core::Pred { pred: Box::new(core_rename(*pred, x, w)) },
        Core::IfZ { cond, tcase, fcase } => Core::IfZ {
            cond: Box::new(core_rename(*cond, x, w)),
            tcase: Box::new(core_rename(*tcase, x, w)),
            fcase: Box::new(core_rename(*fcase, x, w)),
        },
        Core::Let { var, bind, body } => Core::Let {
            var,
            bind: Box::new(core_rename(*bind, x, w)),
            body: if var.id == x {
                body
            } else {
                Box::new(core_rename(*body, x, w))
            },
        },
        Core::Rec { fix, var, body } => if fix.id == x || var.id == x {
            Core::Rec { fix, var, body }
        } else {
            Core::Rec { fix, var, body: Box::new(core_rename(*body, x, w)) }
        },
    }
}

/// A binder renamed to the least id outside `avoid`, its name kept.
pub open spec fn fresh_var(v: Var, avoid: Set<int>) -> Var {
    Var { id: least_free(avoid) as usize, name: v.name }
}

/// `s` put for the free occurrences of `x` in `t`, each binder passed on
/// the way renamed first to a fresh id, taken outside `avoid` and then
/// added to it.
pub open spec fn core_subst_in(t: Core, x: usize, s: Core, avoid: Set<int>) -> Core
    decreases core_size(t),
{
    match t {
        Core::Var { var } => if var.id == x {
            s
        } else {
            Core::Var { var }
        },
        Core::Lam { var, body } => {
            let w = fresh_var(var, avoid);
            proof {
                lemma_core_rename_size(*body, var.id, w);
            }
            Core::Lam {
                var: w,
                body: Box::new(core_subst_in(core_rename(*body, var.id, w), x, s, avoid.insert(w.id as int))),
            }
        },
        Core::App { e1, e2 } => Core::App {
            e1: Box::new(core_subst_in(*e1, x, s, avoid)),
            e2: Box::new(core_subst_in(*e2, x, s, avoid)),
        },
        Core::Zero => Core::Zero,
        Core::Succ { succ } => Core::Succ { succ: Box::new(core_subst_in(*succ, x, s, avoid)) },
        Core::Pred { pred } => Core::Pred { pred: Box::new(core_subst_in(*pred, x, s, avoid)) },
        Core::IfZ { cond, tcase, fcase } => Core::IfZ {
            cond: Box::new(core_subst_in(*cond, x, s, avoid)),
            tcase: Box::new(core_subst_in(*tcase, x, s, avoid)),
            fcase: Box::new(core_subst_in(*fcase, x, s, avoid)),
        },
        Core::Let { var, bind, body } => {
            let w = fresh_var(var, avoid);
            let a2 = avoid.insert(w.id as int);
            proof {
                lemma_core_rename_size(*body, var.id, w);
            }
            Core::Let {
                var: w,
                bind: Box::new(core_subst_in(*bind, x, s, a2)),
                body: Box::new(core_subst_in(core_rename(*body, var.id, w), x, s, a2)),
            }
        },
        Core::Rec { fix, var, body } => {
            let wf = fresh_var(fix, avoid);
            let a1 = avoid.insert(wf.id as int);
            let wv = fresh_var(var, a1);
            let a2 = a1.insert(wv.id as int);
            let b1 = core_rename(*body, fix.id, wf);
            proof {
                lemma_core_rename_size(*body, fix.id, wf);
                lemma_core_rename_size(b1, var.id, wv);
            }
            Core::Rec { fix: wf, var: wv, body: Box::new(core_subst_in(core_rename(b1, var.id, wv), x, s, a2)) }
        },
    }
}

/// `s` put for the free occurrences of `x` in `t`, without capture.
pub open spec fn core_subst(t: Core, x: usize, s: Core) -> Core {
    core_subst_in(t, x, s, core_ids(t).union(core_ids(s)).insert(x as int))
}

/// The variables free after the substitution: those of `t` but `x`, and
/// those of `s` where `x` is free in `t`.
pub open spec fn subst_free(t: Core, x: usize, s: Core) -> Set<usize> {
    core_free(t).remove(x).union(if core_free(t).contains(x) { core_free(s) } else { Set::empty() })
}

pub proof fn lemma_core_rename_size(t: Core, x: usize, w: Var)
    ensures
        core_size(core_rename(t, x, w)) == core_size(t),
    decreases t,
{
    match t {
        Core::Var { .. } => {},
        Core::Lam { body, .. } => lemma_core_rename_size(*body, x, w),
        Core::App { e1, e2 } => {
            lemma_core_rename_size(*e1, x, w);
            lemma_core_rename_size(*e2, x, w);
        },
        Core::Zero => {},
        Core::Succ { succ } => lemma_core_rename_size(*succ, x, w),
        Core::Pred { pred } => lemma_core_rename_size(*pred, x, w),
        Core::IfZ { cond, tcase, fcase } => {
            lemma_core_rename_size(*cond, x, w);
            lemma_core_rename_size(*tcase, x, w);
            lemma_core_rename_size(*fcase, x, w);
        },
        Core::Let { bind, body, .. } => {
            lemma_core_rename_size(*bind, x, w);
            lemma_core_rename_size(*body, x, w);
        },
        Core::Rec { body, .. } => lemma_core_rename_size(*body, x, w),
    }
}


/// A variable free in the term occurs in it.
pub proof fn lemma_core_free_in_ids(t: Core)
    ensures
        forall|i: usize| #[trigger] core_free(t).contains(i) ==> core_ids(t).contains(i as int),
    decreases t,
{
    match t {
        Core::Var { var } => {
            assert(core_free(t) == set![var.id]);
            assert(core_ids(t) == set![var.id as int]);
            assert forall|i: usize| #[trigger] core_free(t).contains(i) implies core_ids(t).contains(i as int) by {
                assert(i == var.id);
            }
        },
        Core::Lam { var, body } => {
            lemma_core_free_in_ids(*body);
            assert(core_free(t) == core_free(*body).remove(var.id));
            assert(core_ids(t) == core_ids(*body).insert(var.id as int));
            assert forall|i: usize| #[trigger] core_free(t).contains(i) implies core_ids(t).contains(i as int) by {
                assert(core_free(*body).contains(i));
            }
        },
        Core::App { e1, e2 } => {
            lemma_core_free_in_ids(*e1);
            lemma_core_free_in_ids(*e2);
            assert(core_free(t) == core_free(*e1).union(core_free(*e2)));
            assert(core_ids(t) == core_ids(*e1).union(core_ids(*e2)));
        },
        Core::Zero => {
            assert(core_free(t) == Set::<usize>::empty());
        },
        Core::Succ { succ } => {
            lemma_core_free_in_ids(*succ);
            assert(core_free(t) == core_free(*succ));
            assert(core_ids(t) == core_ids(*succ));
        },
        Core::Pred { pred } => {
            lemma_core_free_in_ids(*pred);
            assert(core_free(t) == core_free(*pred));
            assert(core_ids(t) == core_ids(*pred));
        },
        Core::IfZ { cond, tcase, fcase } => {
            lemma_core_free_in_ids(*cond);
            lemma_core_free_in_ids(*tcase);
            lemma_core_free_in_ids(*fcase);
            assert(core_free(t) == core_free(*cond).union(core_free(*tcase)).union(core_free(*fcase)));
            assert(core_ids(t) == core_ids(*cond).union(core_ids(*tcase)).union(core_ids(*fcase)));
        },
        Core::Let { var, bind, body } => {
            lemma_core_free_in_ids(*bind);
            lemma_core_free_in_ids(*body);
            assert(core_free(t) == core_free(*body).remove(var.id).union(core_free(*bind)));
            assert(core_ids(t) == core_ids(*bind).union(core_ids(*body)).insert(var.id as int));
            assert forall|i: usize| #[trigger] core_free(t).contains(i) implies core_ids(t).contains(i as int) by {
                if core_free(*bind).contains(i) {
                } else {
                    assert(core_free(*body).contains(i));
                }
            }
        },
        Core::Rec { fix, var, body } => {
            lemma_core_free_in_ids(*body);
            assert(core_free(t) == core_free(*body).remove(fix.id).remove(var.id));
            assert(core_ids(t) == core_ids(*body).insert(fix.id as int).insert(var.id as int));
            assert forall|i: usize| #[trigger] core_free(t).contains(i) implies core_ids(t).contains(i as int) by {
                assert(core_free(*body).contains(i));
            }
        },
    }
}

proof fn lemma_core_rename_ids(t: Core, x: usize, w: Var)
    ensures
        forall|i: int| #[trigger] core_ids(core_rename(t, x, w)).contains(i) ==> core_ids(t).contains(i) || i == w.id as int,
    decreases t,
{
    let r = core_rename(t, x, w);
    match t {
        Core::Var { var } => {
            assert(core_ids(t) == set![var.id as int]);
            if var.id == x {
                assert(core_ids(r) == set![w.id as int]);
            } else {
                assert(r == t);
            }
        },
        Core::Lam { var, body } => {
            lemma_core_rename_ids(*body, x, w);
            if var.id == x {
                assert(r == t);
            } else {
                let b = core_rename(*body, x, w);
                assert(core_ids(r) == core_ids(b).insert(var.id as int));
                assert(core_ids(t) == core_ids(*body).insert(var.id as int));
            }
        },
        Core::App { e1, e2 } => {
            lemma_core_rename_ids(*e1, x, w);
            lemma_core_rename_ids(*e2, x, w);
            assert(core_ids(r) == core_ids(core_rename(*e1, x, w)).union(core_ids(core_rename(*e2, x, w))));
            assert(core_ids(t) == core_ids(*e1).union(core_ids(*e2)));
        },
        Core::Zero => {
            assert(core_ids(r) == Set::<int>::empty());
        },
        Core::Succ { succ } => {
            lemma_core_rename_ids(*succ, x, w);
            assert(core_ids(r) == core_ids(core_rename(*succ, x, w)));
            assert(core_ids(t) == core_ids(*succ));
        },
        Core::Pred { pred } => {
            lemma_core_rename_ids(*pred, x, w);
            assert(core_ids(r) == core_ids(core_rename(*pred, x, w)));
            assert(core_ids(t) == core_ids(*pred));
        },
        Core::IfZ { cond, tcase, fcase } => {
            lemma_core_rename_ids(*cond, x, w);
            lemma_core_rename_ids(*tcase, x, w);
            lemma_core_rename_ids(*fcase, x, w);
            assert(core_ids(r) == core_ids(core_rename(*cond, x, w)).union(core_ids(core_rename(*tcase, x, w))).union(
                core_ids(core_rename(*fcase, x, w)),
            ));
            assert(core_ids(t) == core_ids(*cond).union(core_ids(*tcase)).union(core_ids(*fcase)));
        },
        Core::Let { var, bind, body } => {
            lemma_core_rename_ids(*bind, x, w);
            lemma_core_rename_ids(*body, x, w);
            let b2 = if var.id == x { *body } else { core_rename(*body, x, w) };
            assert(core_ids(r) == core_ids(core_rename(*bind, x, w)).union(core_ids(b2)).insert(var.id as int));
            assert(core_ids(t) == core_ids(*bind).union(core_ids(*body)).insert(var.id as int));
        },
        Core::Rec { fix, var, body } => {
            lemma_core_rename_ids(*body, x, w);
            if fix.id == x || var.id == x {
                assert(r == t);
            } else {
                assert(core_ids(r) == core_ids(core_rename(*body, x, w)).insert(fix.id as int).insert(var.id as int));
                assert(core_ids(t) == core_ids(*body).insert(fix.id as int).insert(var.id as int));
            }
        },
    }
}

pub open spec fn renamed_free(f: Set<usize>, x: usize, w: usize) -> Set<usize> {
    if f.contains(x) {
        f.remove(x).insert(w)
    } else {
        f
    }
}

/// Renaming `x` to an id that occurs nowhere in the term moves the free
/// `x` to it.
proof fn lemma_core_rename_free(t: Core, x: usize, w: Var)
    requires
        !core_ids(t).contains(w.id as int),
    ensures
        core_free(core_rename(t, x, w)) == renamed_free(core_free(t), x, w.id),
    decreases t,
{
    let r = core_rename(t, x, w);
    match t {
        Core::Var { .. } => {},
        Core::Lam { body, .. } => lemma_core_rename_free(*body, x, w),
        Core::App { e1, e2 } => {
            lemma_core_rename_free(*e1, x, w);
            lemma_core_rename_free(*e2, x, w);
        },
        Core::Zero => {},
        Core::Succ { succ } => lemma_core_rename_free(*succ, x, w),
        Core::Pred { pred } => lemma_core_rename_free(*pred, x, w),
        Core::IfZ { cond, tcase, fcase } => {
            lemma_core_rename_free(*cond, x, w);
            lemma_core_rename_free(*tcase, x, w);
            lemma_core_rename_free(*fcase, x, w);
        },
        Core::Let { bind, body, .. } => {
            lemma_core_rename_free(*bind, x, w);
            lemma_core_rename_free(*body, x, w);
        },
        Core::Rec { body, .. } => lemma_core_rename_free(*body, x, w),
    }
    assert(core_free(r) =~= renamed_free(core_free(t), x, w.id));
}


pub open spec fn sub_free_set(f: Set<usize>, x: usize, fs: Set<usize>) -> Set<usize> {
    f.remove(x).union(if f.contains(x) { fs } else { Set::empty() })
}

/// Under a binder `v` renamed to `k`, which occurs nowhere else, the
/// variables free after the substitution are those under `v`.
proof fn lemma_binder_free(fb: Set<usize>, v: usize, k: usize, x: usize, fs: Set<usize>)
    requires
        !fs.contains(k),
        !fb.contains(k),
        k != x,
    ensures
        sub_free_set(renamed_free(fb, v, k), x, fs).remove(k) == sub_free_set(fb.remove(v), x, fs),
{
    assert(sub_free_set(renamed_free(fb, v, k), x, fs).remove(k) =~= sub_free_set(fb.remove(v), x, fs));
}

/// An id that is neither the variable nor free in the term put in can be
/// dropped before the substitution as well as after it.
proof fn lemma_drop_fresh(g: Set<usize>, k: usize, x: usize, fs: Set<usize>)
    requires
        !fs.contains(k),
        k != x,
    ensures
        sub_free_set(g, x, fs).remove(k) == sub_free_set(g.remove(k), x, fs),
{
    assert(sub_free_set(g, x, fs).remove(k) =~= sub_free_set(g.remove(k), x, fs));
}

/// A copy of the term.
pub fn copy_core(t: &Core) -> (r: Core)
    ensures
        r == *t,
    decreases t,
{
    match t {
        Core::Var { var } => Core::Var { var: var.dup() },
        Core::Lam { var, body } => Core::Lam { var: var.dup(), body: Box::new(copy_core(body)) },
        Core::App { e1, e2 } => Core::App { e1: Box::new(copy_core(e1)), e2: Box::new(copy_core(e2)) },
        Core::Zero => Core::Zero,
        Core::Succ { succ } => Core::Succ { succ: Box::new(copy_core(succ)) },
        Core::Pred { pred } => Core::Pred { pred: Box::new(copy_core(pred)) },
        Core::IfZ { cond, tcase, fcase } => Core::IfZ {
            cond: Box::new(copy_core(cond)),
            tcase: Box::new(copy_core(tcase)),
            fcase: Box::new(copy_core(fcase)),
        },
        Core::Let { var, bind, body } => Core::Let {
            var: var.dup(),
            bind: Box::new(copy_core(bind)),
            body: Box::new(copy_core(body)),
        },
        Core::Rec { fix, var, body } => Core::Rec { fix: fix.dup(), var: var.dup(), body: Box::new(copy_core(body)) },
    }
}

/// The free occurrences of `x` replaced by the variable `w`.
fn rename_core(t: Core, x: usize, w: &Var) -> (r: Core)
    ensures
        r == core_rename(t, x, *w),
    decreases t,
{
    match t {
        Core::Var { var } => if var.id == x {
            Core::Var { var: w.dup() }
        } else {
            Core::Var { var }
        },
        Core::Lam { var, body } => if var.id == x {
            Core::Lam { var, body }
        } else {
            Core::Lam { var, body: Box::new(rename_core(*body, x, w)) }
        },
        Core::App { e1, e2 } => {
            let f = rename_core(*e1, x, w);
            Core::App { e1: Box::new(f), e2: Box::new(rename_core(*e2, x, w)) }
        },
        Core::Zero => Core::Zero,
        Core::Succ { succ } => Core::Succ { succ: Box::new(rename_core(*succ, x, w)) },
        Core::Pred { pred } => Core::Pred { pred: Box::new(rename_core(*pred, x, w)) },
        Core::IfZ { cond, tcase, fcase } => {
            let c = rename_core(*cond, x, w);
            let y = rename_core(*tcase, x, w);
            Core::IfZ { cond: Box::new(c), tcase: Box::new(y), fcase: Box::new(rename_core(*fcase, x, w)) }
        },
        Core::Let { var, bind, body } => {
            let d = rename_core(*bind, x, w);
            if var.id == x {
                Core::Let { var, bind: Box::new(d), body }
            } else {
                Core::Let { var, bind: Box::new(d), body: Box::new(rename_core(*body, x, w)) }
            }
        },
        Core::Rec { fix, var, body } => if fix.id == x || var.id == x {
            Core::Rec { fix, var, body }
        } else {
            Core::Rec { fix, var, body: Box::new(rename_core(*body, x, w)) }
        },
    }
}

fn push_id(used: &mut Vec<usize>, k: usize)
    ensures
        final(used)@ == old(used)@.push(k),
        avoid_of(final(used)@) == avoid_of(old(used)@).insert(k as int),
{
    let ghost u0 = used@;
    used.push(k);
    proof {
        lemma_avoid_push(u0, k);
    }
}

/// Adds the ids of the term to the list.
fn collect_core_ids(t: &Core, used: &mut Vec<usize>)
    ensures
        avoid_of(final(used)@) == avoid_of(old(used)@).union(core_ids(*t)),
    decreases t,
{
    let ghost a0 = avoid_of(used@);
    match t {
        Core::Var { var } => push_id(used, var.id),
        Core::Lam { var, body } => {
            push_id(used, var.id);
            collect_core_ids(body, used);
        },
        Core::App { e1, e2 } => {
            collect_core_ids(e1, used);
            collect_core_ids(e2, used);
        },
        Core::Zero => {},
        Core::Succ { succ } => collect_core_ids(succ, used),
        Core::Pred { pred } => collect_core_ids(pred, used),
        Core::IfZ { cond, tcase, fcase } => {
            collect_core_ids(cond, used);
            collect_core_ids(tcase, used);
            collect_core_ids(fcase, used);
        },
        Core::Let { var, bind, body } => {
            push_id(used, var.id);
            collect_core_ids(bind, used);
            collect_core_ids(body, used);
        },
        Core::Rec { fix, var, body } => {
            push_id(used, fix.id);
            push_id(used, var.id);
            collect_core_ids(body, used);
        },
    }
    assert(avoid_of(used@) =~= a0.union(core_ids(*t)));
}


/// Takes the least id outside the list and adds it to the list.
fn take_fresh(used: &mut Vec<usize>) -> (k: usize)
    ensures
        k as int == least_free(avoid_of(old(used)@)),
        !avoid_of(old(used)@).contains(k as int),
        final(used)@ == old(used)@.push(k),
        avoid_of(final(used)@) == avoid_of(old(used)@).insert(k as int),
{
    let k = fresh_id(used);
    push_id(used, k);
    k
}

/// Substitution with the fresh ids taken from outside `used`.
fn subst_in(t: Core, x: usize, s: &Core, used: &mut Vec<usize>) -> (r: Core)
    requires
        core_ids(t).subset_of(avoid_of(old(used)@)),
        core_ids(*s).subset_of(avoid_of(old(used)@)),
        avoid_of(old(used)@).contains(x as int),
    ensures
        r == core_subst_in(t, x, *s, avoid_of(old(used)@)),
        final(used)@ == old(used)@,
        core_free(r) == subst_free(t, x, *s),
    decreases core_size(t),
{
    let ghost a = avoid_of(used@);
    let ghost u0 = used@;
    proof {
        lemma_core_free_in_ids(*s);
    }
    match t {
        Core::Var { var } => {
            if var.id == x {
                let r = copy_core(s);
                assert(core_free(r) =~= subst_free(t, x, *s));
                r
            } else {
                let r = Core::Var { var };
                assert(core_free(r) =~= subst_free(t, x, *s));
                r
            }
        },
        Core::Lam { var, body } => {
            let vid = var.id;
            let k = take_fresh(used);
            let w = Var { id: k, name: var.name };
            let ghost bb = *body;
            proof {
                lemma_core_rename_size(bb, vid, w);
                lemma_core_rename_ids(bb, vid, w);
                lemma_core_rename_free(bb, vid, w);
            }
            let b2 = rename_core(*body, vid, &w);
            let r2 = subst_in(b2, x, s, used);
            used.pop();
            assert(used@ =~= u0);
            let r = Core::Lam { var: w, body: Box::new(r2) };
            proof {
                lemma_core_free_in_ids(bb);
                assert(!core_free(*s).contains(k));
                assert(!core_free(bb).contains(k));
                lemma_binder_free(core_free(bb), vid, k, x, core_free(*s));
                assert(core_free(r2) == sub_free_set(core_free(b2), x, core_free(*s)));
            }
            assert(core_free(r) =~= subst_free(t, x, *s));
            r
        },
        Core::App { e1, e2 } => {
            let f = subst_in(*e1, x, s, used);
            let g = subst_in(*e2, x, s, used);
            let r = Core::App { e1: Box::new(f), e2: Box::new(g) };
            assert(core_free(r) =~= subst_free(t, x, *s));
            r
        },
        Core::Zero => {
            assert(core_free(Core::Zero) =~= subst_free(t, x, *s));
            Core::Zero
        },
        Core::Succ { succ } => {
            let r = Core::Succ { succ: Box::new(subst_in(*succ, x, s, used)) };
            assert(core_free(r) =~= subst_free(t, x, *s));
            r
        },
        Core::Pred { pred } => {
            let r = Core::Pred { pred: Box::new(subst_in(*pred, x, s, used)) };
            assert(core_free(r) =~= subst_free(t, x, *s));
            r
        },
        Core::IfZ { cond, tcase, fcase } => {
            let c = subst_in(*cond, x, s, used);
            let y = subst_in(*tcase, x, s, used);
            let z = subst_in(*fcase, x, s, used);
            let r = Core::IfZ { cond: Box::new(c), tcase: Box::new(y), fcase: Box::new(z) };
            assert(core_free(r) =~= subst_free(t, x, *s));
            r
        },
        Core::Let { var, bind, body } => {
            let vid = var.id;
            let k = take_fresh(used);
            let w = Var { id: k, name: var.name };
            let ghost bb = *body;
            proof {
                lemma_core_rename_size(bb, vid, w);
                lemma_core_rename_ids(bb, vid, w);
                lemma_core_rename_free(bb, vid, w);
            }
            let d = subst_in(*bind, x, s, used);
            let b2 = rename_core(*body, vid, &w);
            let r2 = subst_in(b2, x, s, used);
            used.pop();
            assert(used@ =~= u0);
            let r = Core::Let { var: w, bind: Box::new(d), body: Box::new(r2) };
            proof {
                lemma_core_free_in_ids(bb);
                assert(!core_free(*s).contains(k));
                assert(!core_free(bb).contains(k));
                lemma_binder_free(core_free(bb), vid, k, x, core_free(*s));
                assert(core_free(r2) == sub_free_set(core_free(b2), x, core_free(*s)));
                assert(core_free(d) == sub_free_set(core_free(*bind), x, core_free(*s)));
            }
            assert(core_free(r) =~= subst_free(t, x, *s));
            r
        },
        Core::Rec { fix, var, body } => {
            let fid = fix.id;
            let vid = var.id;
            let k1 = take_fresh(used);
            let ghost a1 = avoid_of(used@);
            let k2 = take_fresh(used);
            let wf = Var { id: k1, name: fix.name };
            let wv = Var { id: k2, name: var.name };
            let ghost bb = *body;
            let b1 = rename_core(*body, fid, &wf);
            proof {
                lemma_core_rename_size(bb, fid, wf);
                lemma_core_rename_ids(bb, fid, wf);
                lemma_core_rename_free(bb, fid, wf);
                lemma_core_rename_size(b1, vid, wv);
                lemma_core_rename_ids(b1, vid, wv);
                lemma_core_rename_free(b1, vid, wv);
            }
            let b2 = rename_core(b1, vid, &wv);
            let r2 = subst_in(b2, x, s, used);
            used.pop();
            used.pop();
            assert(used@ =~= u0);
            let r = Core::Rec { fix: wf, var: wv, body: Box::new(r2) };
            proof {
                lemma_core_free_in_ids(bb);
                lemma_core_free_in_ids(b1);
                assert(!core_free(*s).contains(k1));
                assert(!core_free(*s).contains(k2));
                assert(!core_free(bb).contains(k1));
                assert(!core_free(b1).contains(k2));
                lemma_binder_free(core_free(b1), vid, k2, x, core_free(*s));
                assert(core_free(r2) == sub_free_set(core_free(b2), x, core_free(*s)));
                let fb = core_free(bb);
                let g = core_free(b1).remove(vid);
                assert(g.remove(k1) =~= fb.remove(fid).remove(vid));
                lemma_drop_fresh(g, k1, x, core_free(*s));
                assert(core_free(r) =~= sub_free_set(core_free(b2), x, core_free(*s)).remove(k2).remove(k1));
            }
            assert(core_free(r) =~= subst_free(t, x, *s));
            r
        },
    }
}

impl Core {
    /// `t` put for the free occurrences of `v`. Every binder passed on the
    /// way is renamed to a fresh id first, so that no free variable of `t`
    /// is caught: the variables free in the result are those of the term
    /// but `v`, and those of `t` where `v` is free in the term.
    pub fn subst(self, v: Var, t: Core) -> (r: Core)
        ensures
            r == core_subst(self, v.id, t),
            core_free(r) == subst_free(self, v.id, t),
    {
        let mut used: Vec<usize> = Vec::new();
        proof {
            lemma_avoid_facts(used@);
            assert(avoid_of(used@) =~= Set::<int>::empty());
        }
        collect_core_ids(&self, &mut used);
        collect_core_ids(&t, &mut used);
        push_id(&mut used, v.id);
        assert(avoid_of(used@) =~= core_ids(self).union(core_ids(t)).insert(v.id as int));
        subst_in(self, v.id, &t, &mut used)
    }
}

pub open spec fn var_term(v: Var) -> Core {
    Core::Var { var: v }
}

pub open spec fn succ_term(t: Core) -> Core {
    Core::Succ { succ: Box::new(t) }
}

pub open spec fn pred_term(t: Core) -> Core {
    Core::Pred { pred: Box::new(t) }
}

pub open spec fn app_term(a: Core, b: Core) -> Core {
    Core::App { e1: Box::new(a), e2: Box::new(b) }
}

/// The term put in stands where the variable did: the variable itself
/// becomes the term, another variable stays, and the substitution goes into
/// both sides of an application and under successor and predecessor.
pub proof fn law_subst_on_variables(x: Var, y: Var, t: Core)
    ensures
        core_subst(var_term(x), x.id, t) == t,
        y.id != x.id ==> core_subst(var_term(y), x.id, t) == var_term(y),
        core_subst(succ_term(var_term(x)), x.id, t) == succ_term(t),
        core_subst(pred_term(var_term(x)), x.id, t) == pred_term(t),
        core_subst(app_term(var_term(x), var_term(y)), x.id, t) == app_term(
            t,
            if y.id == x.id {
                t
            } else {
                var_term(y)
            },
        ),
{
    let a = core_ids(app_term(var_term(x), var_term(y))).union(core_ids(t)).insert(x.id as int);
    assert(core_subst_in(var_term(x), x.id, t, a) == t);
    assert(core_subst_in(var_term(y), x.id, t, a) == if y.id == x.id { t } else { var_term(y) });
}

} // verus!

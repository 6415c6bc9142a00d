use models::lambda_term::Var;
use models::pcf_core::{Core, Lam};
use models::pcf_subst::copy_core;

fn v(x: &Var) -> Core {
    Core::Var { var: x.clone() }
}

fn lam(x: &Var, b: Core) -> Core {
    Core::Lam { var: x.clone(), body: Box::new(b) }
}

fn app(a: Core, b: Core) -> Core {
    Core::App { e1: Box::new(a), e2: Box::new(b) }
}

fn ids(vs: Vec<Var>) -> Vec<usize> {
    let mut r: Vec<usize> = vs.iter().map(|v| v.id).collect();
    r.sort();
    r
}

#[test]
fn core_alpha_equivalence() {
    let x = Var::new(0, "x");
    let y = Var::new(1, "y");
    let z = Var::new(2, "z");
    assert!(lam(&x, v(&x)).alpha_eq(&lam(&y, v(&y))));
    assert!(!lam(&x, v(&z)).alpha_eq(&lam(&y, v(&y))));
    assert!(lam(&x, lam(&x, v(&x))).alpha_eq(&lam(&y, lam(&z, v(&z)))));
    assert!(!lam(&x, lam(&x, v(&x))).alpha_eq(&lam(&y, lam(&z, v(&y)))));
    assert!(!v(&x).alpha_eq(&v(&y)));
    assert!(Core::Zero.alpha_eq(&Core::Zero));
    let r1 = Core::Rec { fix: x.clone(), var: y.clone(), body: Box::new(app(v(&x), v(&y))) };
    let r2 = Core::Rec { fix: z.clone(), var: x.clone(), body: Box::new(app(v(&z), v(&x))) };
    assert!(r1.alpha_eq(&r2));
    let s1 = Core::Succ { succ: Box::new(Core::Pred { pred: Box::new(v(&z)) }) };
    let s2 = Core::Succ { succ: Box::new(Core::Pred { pred: Box::new(v(&z)) }) };
    assert!(s1.alpha_eq(&s2));
}

#[test]
fn core_free_and_bound() {
    let x = Var::new(0, "x");
    let y = Var::new(1, "y");
    let z = Var::new(2, "z");
    let t = Core::Let { var: x.clone(), bind: Box::new(v(&y)), body: Box::new(app(v(&x), v(&z))) };
    assert_eq!(ids(t.free_variables()), vec![1, 2]);
    assert_eq!(ids(t.bound_variables()), vec![0]);
    let r = Core::Rec { fix: x.clone(), var: y.clone(), body: Box::new(app(v(&x), app(v(&y), v(&z)))) };
    assert_eq!(ids(r.free_variables()), vec![2]);
    assert_eq!(ids(r.bound_variables()), vec![0, 1]);
    let i = Core::IfZ { cond: Box::new(v(&x)), tcase: Box::new(Core::Zero), fcase: Box::new(lam(&y, v(&y))) };
    assert_eq!(ids(i.free_variables()), vec![0]);
}

#[test]
fn core_subst_renames_binders() {
    let x = Var::new(0, "x");
    let y = Var::new(1, "y");
    let w = Var::new(2, "y");
    let r = lam(&y, v(&x)).subst(x.clone(), v(&y));
    assert_eq!(r, lam(&w, v(&y)));
    assert_eq!(ids(r.free_variables()), vec![1]);
    assert!(r.alpha_eq(&lam(&x, v(&y))));
    let shadowed = lam(&x, v(&x)).subst(x.clone(), v(&y));
    let x2 = Var::new(2, "x");
    assert_eq!(shadowed, lam(&x2, v(&x2)));
    assert!(shadowed.free_variables().is_empty());
}

#[test]
fn core_subst_under_let_and_rec() {
    let x = Var::new(0, "x");
    let y = Var::new(1, "y");
    let t = Core::Let { var: y.clone(), bind: Box::new(v(&x)), body: Box::new(app(v(&y), v(&x))) };
    let w = Var::new(2, "y");
    let expected = Core::Let { var: w.clone(), bind: Box::new(Core::Zero), body: Box::new(app(v(&w), Core::Zero)) };
    assert_eq!(t.subst(x.clone(), Core::Zero), expected);
    let f = Var::new(3, "f");
    let n = Var::new(4, "n");
    let body = app(app(v(&f), v(&n)), v(&x));
    let r = Core::Rec { fix: f.clone(), var: n.clone(), body: Box::new(body) }.subst(x.clone(), v(&y));
    let wf = Var::new(2, "f");
    let wn = Var::new(5, "n");
    let expected = Core::Rec { fix: wf.clone(), var: wn.clone(), body: Box::new(app(app(v(&wf), v(&wn)), v(&y))) };
    assert_eq!(r, expected);
    assert_eq!(ids(r.free_variables()), vec![1]);
    let s = Core::Succ { succ: Box::new(Core::Pred { pred: Box::new(v(&x)) }) };
    let expected = Core::Succ { succ: Box::new(Core::Pred { pred: Box::new(Core::Zero) }) };
    assert_eq!(s.subst(x.clone(), Core::Zero), expected);
}

#[test]
fn no_ext_test_variables() {
    let x = Var::new(0, "x");
    let y = Var::new(1, "y");
    let z = Var::new(2, "z");
    let l = v(&x);
    assert_eq!(ids(l.free_variables()), vec![0]);
    assert!(l.bound_variables().is_empty());

    let l = lam(&x, v(&x));
    assert!(l.free_variables().is_empty());
    assert_eq!(ids(l.bound_variables()), vec![0]);

    let l = lam(&x, v(&y));
    assert_eq!(ids(l.free_variables()), vec![1]);
    assert_eq!(ids(l.bound_variables()), vec![0]);

    let l = app(v(&x), lam(&x, v(&z)));
    assert_eq!(ids(l.free_variables()), vec![0, 2]);
    assert_eq!(ids(l.bound_variables()), vec![0]);
}

#[test]
fn no_ext_test_subst_alpha() {
    let x = Var::new(0, "x");
    let y = Var::new(1, "y");
    let l1 = lam(&x, lam(&x, v(&x)));
    let l2 = lam(&x, lam(&x, v(&y)));
    let l3 = lam(&x, lam(&y, v(&x)));
    let l4 = lam(&x, lam(&y, v(&y)));
    let l5 = lam(&y, lam(&x, v(&x)));
    let l6 = lam(&y, lam(&x, v(&y)));
    let l7 = lam(&y, lam(&y, v(&x)));
    let l8 = lam(&y, lam(&y, v(&y)));

    let set1 = vec![l1, l4, l5, l8];
    let set2 = vec![l3, l6];
    for t1 in &set1 {
        for t2 in &set1 {
            assert!(t1.alpha_eq(t2));
        }
    }
    for t1 in &set2 {
        for t2 in &set2 {
            assert!(t1.alpha_eq(t2));
        }
    }
    for t1 in &set1 {
        for t2 in &set2 {
            assert!(!t1.alpha_eq(t2));
        }
    }
    assert!(!l2.alpha_eq(&l7));
}

#[test]
fn lam_terms_are_core_terms() {
    let x = Var::new(0, "x");
    let y = Var::new(1, "y");
    let f = Var::new(2, "f");
    let t1: Lam = Lam::Let { var: x.clone(), bind: Box::new(Lam::Zero), body: Box::new(v(&y)) };
    let t2: Lam = Lam::Let { var: y.clone(), bind: Box::new(Lam::Zero), body: Box::new(v(&y)) };
    assert!(t1.alpha_eq(&t2));
    let r1: Lam = Lam::Rec { fix: f.clone(), var: x.clone(), body: Box::new(v(&x)) };
    let r2: Lam = Lam::Rec { fix: f.clone(), var: x.clone(), body: Box::new(v(&f)) };
    assert!(!r1.alpha_eq(&r2));
    assert_eq!(ids(r2.bound_variables()), vec![0, 2]);
}

#[test]
fn no_ext_test_value_step() {
    let x = Var::new(0, "x");
    let y = Var::new(1, "y");
    let z = Var::new(2, "z");
    assert!(!v(&x).is_value());
    assert!(lam(&x, v(&x)).is_value());
    let l = app(lam(&x, v(&x)), lam(&y, lam(&z, v(&y))));
    assert!(!l.is_value());
    let l = l.step().unwrap();
    assert!(l.alpha_eq(&lam(&y, lam(&z, v(&y)))));
}

fn num(n: usize) -> Core {
    let mut t = Core::Zero;
    for _ in 0..n {
        t = Core::Succ { succ: Box::new(t) };
    }
    t
}

#[test]
fn rec_doubles_by_steps() {
    let f = Var::new(0, "f");
    let x = Var::new(1, "x");
    let body = Core::IfZ {
        cond: Box::new(v(&x)),
        tcase: Box::new(Core::Zero),
        fcase: Box::new(Core::Succ {
            succ: Box::new(Core::Succ { succ: Box::new(app(v(&f), Core::Pred { pred: Box::new(v(&x)) })) }),
        }),
    };
    let double = Core::Rec { fix: f.clone(), var: x.clone(), body: Box::new(body) };
    let mut t = app(double, num(2));
    let mut steps = 0;
    while let Some(next) = copy_core(&t).step() {
        t = next;
        steps += 1;
        assert!(steps < 1000);
    }
    assert_eq!(t, num(4));
    assert!(t.is_value());
    let stuck = Core::Pred { pred: Box::new(lam(&x, v(&x))) };
    assert!(stuck.step().is_none());
    assert_eq!(Core::Pred { pred: Box::new(num(3)) }.step(), Some(num(2)));
    let l = Core::Let { var: x.clone(), bind: Box::new(num(1)), body: Box::new(v(&x)) };
    assert_eq!(l.step(), Some(app(lam(&x, v(&x)), num(1))));
}

#[test]
fn alpha_equivalent_terms_share_free_variables() {
    let x = Var::new(0, "x");
    let y = Var::new(1, "y");
    let z = Var::new(2, "z");
    let t1 = app(lam(&x, app(v(&x), v(&z))), v(&y));
    let t2 = app(lam(&y, app(v(&y), v(&z))), v(&y));
    assert!(t1.alpha_eq(&t2));
    assert_eq!(ids(t1.free_variables()), ids(t2.free_variables()));
    let l1 = Core::Let { var: x.clone(), bind: Box::new(v(&x)), body: Box::new(v(&z)) };
    let l2 = Core::Let { var: y.clone(), bind: Box::new(v(&y)), body: Box::new(v(&z)) };
    assert!(l1.alpha_eq(&l2));
    assert_ne!(ids(l1.free_variables()), ids(l2.free_variables()));
}

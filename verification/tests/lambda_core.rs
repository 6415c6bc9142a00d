use models::lambda_core::{
    is_normal, left_most_marked_term, left_most_reduction, listup_marked_term, MarkedTerm, Redux,
};
use models::lambda_examples::{
    false_lambda, first, fold_left, if_lambda, is_false, is_true, num_var, pair, second, take_n_abs,
    true_lambda, y_combinator,
};
use models::lambda_term::{copy_term, LambdaTerm, Var};

fn v(var: &Var) -> LambdaTerm {
    LambdaTerm::Var(var.clone())
}

fn abs(var: &Var, body: LambdaTerm) -> LambdaTerm {
    LambdaTerm::Abs(var.clone(), Box::new(body))
}

fn app(lhs: LambdaTerm, rhs: LambdaTerm) -> LambdaTerm {
    LambdaTerm::App(Box::new(lhs), Box::new(rhs))
}

fn normalize(mut t: LambdaTerm, fuel: usize) -> LambdaTerm {
    for _ in 0..fuel {
        match left_most_reduction(copy_term(&t)) {
            Some(next) => t = next,
            None => return t,
        }
    }
    t
}

#[test]
fn redux_from_term_and_eval() {
    let x = Var::new(0, "x");
    let a = Var::new(1, "a");
    let t = app(abs(&x, app(v(&x), v(&x))), v(&a));
    let r = Redux::from_term(&t).unwrap();
    assert_eq!(r.var, x);
    assert_eq!(LambdaTerm::from(r.dup()), t);
    assert_eq!(r.eval(), app(v(&a), v(&a)));
    assert!(Redux::from_term(&v(&x)).is_none());
}

#[test]
fn listing_marks_each_redex() {
    let x = Var::new(0, "x");
    let y = Var::new(1, "y");
    let a = Var::new(2, "a");
    let b = Var::new(3, "b");
    // ((\x. x) a) ((\y. y) b)
    let left = app(abs(&x, v(&x)), v(&a));
    let right = app(abs(&y, v(&y)), v(&b));
    let t = app(copy_term(&left), copy_term(&right));
    let list = listup_marked_term(&t);
    assert_eq!(list.len(), 2);
    // the argument's redexes come first, the function's last
    match &list[0] {
        MarkedTerm::ApplicationR(f, m) => {
            assert_eq!(**f, left);
            assert!(matches!(**m, MarkedTerm::Redux(_)));
        }
        _ => panic!("expected the argument's redex"),
    }
    match &list[1] {
        MarkedTerm::ApplicationL(_, arg) => assert_eq!(**arg, right),
        _ => panic!("expected the function's redex"),
    }
    assert_eq!(left_most_reduction(copy_term(&t)).unwrap(), app(v(&a), copy_term(&right)));
    assert!(left_most_marked_term(copy_term(&t)).is_some());
    assert_eq!(LambdaTerm::from(list[0].dup()), app(copy_term(&left), v(&b)));
    assert_eq!(LambdaTerm::from(MarkedTerm::Redux(Redux::from_term(&left).unwrap())), left);
}

#[test]
fn normal_terms_list_nothing() {
    let x = Var::new(0, "x");
    let y = Var::new(1, "y");
    assert!(is_normal(&abs(&x, app(v(&x), v(&y)))));
    assert!(!is_normal(&app(abs(&x, v(&x)), v(&y))));
    assert_eq!(left_most_reduction(abs(&x, v(&x))), None);
    assert!(left_most_marked_term(v(&y)).is_none());
}

#[test]
fn church_booleans() {
    let t = true_lambda();
    assert_eq!(t.print(), "\\0. \\1. 0");
    assert_eq!(false_lambda().print(), "\\0. \\1. 1");
    let x = Var::new(7, "x");
    let y = Var::new(8, "y");
    assert!(is_true(abs(&x, abs(&y, v(&x)))));
    assert!(!is_true(abs(&x, abs(&y, v(&y)))));
    assert!(is_false(abs(&x, abs(&y, v(&y)))));
    assert!(!is_false(true_lambda()));
}

#[test]
fn church_conditional_picks_a_branch() {
    let a = Var::new(10, "a");
    let b = Var::new(11, "b");
    let chosen = normalize(if_lambda(true_lambda(), v(&a), v(&b)), 10);
    assert_eq!(chosen, v(&a));
    let chosen = normalize(if_lambda(false_lambda(), v(&a), v(&b)), 10);
    assert_eq!(chosen, v(&b));
}

#[test]
fn church_pairs() {
    let a = Var::new(10, "a");
    let b = Var::new(11, "b");
    assert_eq!(pair(v(&a), v(&b)).print(), "\\0. ((0 a) b)");
    assert_eq!(first().print(), "\\0. (0 \\0. \\1. 0)");
    assert_eq!(second().print(), "\\0. (0 \\0. \\1. 1)");
}

#[test]
fn binders_and_folds() {
    let z = Var::new(9, "z");
    let t = take_n_abs(vec![3, 4], v(&z));
    assert_eq!(t, abs(&num_var(3), abs(&num_var(4), v(&z))));
    let a = Var::new(1, "a");
    let b = Var::new(2, "b");
    let c = Var::new(3, "c");
    assert_eq!(fold_left(vec![v(&a), v(&b), v(&c)]), app(app(v(&a), v(&b)), v(&c)));
}

#[test]
fn y_combinator_text() {
    assert_eq!(y_combinator().print(), "\\0. (\\1. (0 (1 1)) \\1. (0 (1 1)))");
}

#[test]
fn shown_terms() {
    let x = Var::new(0, "x");
    let a = Var::new(1, "a");
    let t = app(abs(&x, app(v(&x), v(&x))), v(&a));
    assert_eq!(t.display(), "(\\x.([x] [x]) [a])");
    let r = Redux::from_term(&t).unwrap();
    assert_eq!(r.display(), "(\\x.([x] [x]) [a])");
    let outer = abs(&a, copy_term(&t));
    let list = listup_marked_term(&outer);
    assert_eq!(list.len(), 1);
    assert_eq!(list[0].display(), "\\a.(\\x.([x] [x]) [a])");
    let pairs = app(copy_term(&t), v(&a));
    let list = listup_marked_term(&pairs);
    assert_eq!(list[0].display(), "((\\x.([x] [x]) [a]) [a])");
}

#[test]
fn redex_eval_avoids_capture() {
    let x = Var::new(0, "x");
    let y = Var::new(1, "y");
    let t = app(abs(&x, abs(&y, app(v(&x), v(&y)))), v(&y));
    let r = Redux::from_term(&t).unwrap().eval();
    match &r {
        LambdaTerm::Abs(w, body) => {
            assert_ne!(w.id, 1);
            assert_eq!(**body, app(v(&y), LambdaTerm::Var(w.clone())));
        }
        _ => panic!("expected an abstraction"),
    }
}

use models::lambda_machine::{AInput, LambdaStep, SnapshotTerm};
use models::lambda_parse::{parse_lambda, parse_lambda_from, parse_lambda_read_to_end};
use models::lambda_term::{
    alpha_conversion_rec, alpha_eq, app_with_nonepmty, apps, copy_term, is_normal_form, lambdas,
    mark_redex, step, unchecked_subst, unmark_redex, var_change, LambdaTerm, MarkedTerm, Var,
};

fn v(var: &Var) -> LambdaTerm {
    LambdaTerm::Var(var.clone())
}

fn abs(var: &Var, body: LambdaTerm) -> LambdaTerm {
    LambdaTerm::Abs(var.clone(), Box::new(body))
}

fn app(lhs: LambdaTerm, rhs: LambdaTerm) -> LambdaTerm {
    LambdaTerm::App(Box::new(lhs), Box::new(rhs))
}

fn ids(vars: &[Var]) -> Vec<usize> {
    let mut ids: Vec<usize> = vars.iter().map(|v| v.id).collect();
    ids.sort();
    ids
}

#[test]
fn machine_alpha_eq_test() {
    let x = Var::new(0, "x");
    let y = Var::new(1, "y");
    let z = Var::new(2, "z");
    let w = Var::new(3, "w");

    // new variables with the same name are other variables
    let another_x = Var::new(4, "x");
    let another_y = Var::new(5, "y");

    let tests = vec![
        (v(&x), v(&x), true),
        (v(&x), v(&another_x), false),
        (abs(&x, v(&x)), abs(&y, v(&y)), true),
        (abs(&x, app(v(&x), v(&y))), abs(&z, app(v(&z), v(&y))), true),
        (
            abs(&x, app(v(&x), v(&y))),
            abs(&z, app(v(&z), v(&another_y))),
            false,
        ),
        (abs(&x, abs(&y, v(&y))), abs(&z, abs(&w, v(&w))), true),
        (abs(&x, abs(&y, v(&x))), abs(&z, abs(&w, v(&z))), true),
        (abs(&x, abs(&y, v(&x))), abs(&z, abs(&w, v(&w))), false),
        (
            app(abs(&x, v(&x)), abs(&y, v(&y))),
            app(abs(&z, v(&z)), abs(&w, v(&w))),
            true,
        ),
    ];

    for (term1, term2, expected) in tests {
        assert_eq!(alpha_eq(&term1, &term2), expected);
    }
}

#[test]
fn step_test() {
    // (\x. x) y
    let x_var = Var::new(0, "x");
    let y_var = Var::new(1, "y");
    let e = app(abs(&x_var, v(&x_var)), v(&y_var));
    let marked = mark_redex(&e);
    let stepped = step(&marked, 0).unwrap();
    assert_eq!(stepped, v(&y_var));

    // (\x. x) ((\y. y) z)
    let z_var = Var::new(2, "z");
    let e = app(abs(&x_var, v(&x_var)), app(abs(&y_var, v(&y_var)), v(&z_var)));
    let marked = mark_redex(&e);
    let stepped = step(&marked, 0).unwrap();
    // expected: (\y. y) z
    assert_eq!(stepped, app(abs(&y_var, v(&y_var)), v(&z_var)));
}

#[test]
fn manipulation_test_var() {
    let term = Var::new(0, "x");
    assert_eq!(term.as_str(), "x");
}

#[test]
fn manipulation_test_lam() {
    let x = Var::new(0, "x");
    let y = Var::new(1, "y");
    let term = LambdaTerm::Abs(x.clone(), Box::new(v(&y)));
    assert_eq!(term, abs(&x, v(&y)));
}

#[test]
fn manipulation_test_app() {
    let x = Var::new(0, "x");
    let y = Var::new(1, "y");
    let z = Var::new(2, "z");

    // "x"
    let term = app_with_nonepmty(vec![v(&x)]);
    assert_eq!(term, v(&x));

    // "x y"
    let term = app_with_nonepmty(vec![v(&x), v(&y)]);
    assert_eq!(term, app(v(&x), v(&y)));

    // "(x y) z"
    let term = app_with_nonepmty(vec![v(&x), v(&y), v(&z)]);
    assert_eq!(term, app(app(v(&x), v(&y)), v(&z)));
}

#[test]
fn step_picks_the_numbered_redex() {
    let x = Var::new(0, "x");
    let y = Var::new(1, "y");
    let a = Var::new(2, "a");
    let b = Var::new(3, "b");
    // ((\x. x) a) ((\y. y) b): redex 0 on the left, redex 1 on the right
    let e = app(app(abs(&x, v(&x)), v(&a)), app(abs(&y, v(&y)), v(&b)));
    let marked = mark_redex(&e);
    assert_eq!(step(&marked, 0).unwrap(), app(v(&a), app(abs(&y, v(&y)), v(&b))));
    assert_eq!(step(&marked, 1).unwrap(), app(app(abs(&x, v(&x)), v(&a)), v(&b)));
    assert_eq!(step(&marked, 2), None);
}

#[test]
fn step_counts_outer_redex_before_inner() {
    let x = Var::new(0, "x");
    let y = Var::new(1, "y");
    let a = Var::new(2, "a");
    // (\x. (\y. y) x) a
    let e = app(abs(&x, app(abs(&y, v(&y)), v(&x))), v(&a));
    let marked = mark_redex(&e);
    assert_eq!(step(&marked, 0).unwrap(), app(abs(&y, v(&y)), v(&a)));
    assert_eq!(step(&marked, 1).unwrap(), app(abs(&x, v(&x)), v(&a)));
}

#[test]
fn marking_reads_back() {
    let x = Var::new(0, "x");
    let y = Var::new(1, "y");
    let e = app(abs(&x, app(v(&x), v(&x))), abs(&y, v(&y)));
    let marked = mark_redex(&e);
    match &marked {
        MarkedTerm::Red(var, _, _) => assert_eq!(var.id, 0),
        _ => panic!("expected a redex"),
    }
    assert_eq!(unmark_redex(marked), e);
    assert_eq!(LambdaTerm::from(mark_redex(&e)), e);
}

#[test]
fn normal_forms() {
    let x = Var::new(0, "x");
    let y = Var::new(1, "y");
    assert!(is_normal_form(&abs(&x, app(v(&x), v(&y)))));
    assert!(!is_normal_form(&app(abs(&x, v(&x)), v(&y))));
    assert!(!is_normal_form(&abs(&y, app(v(&y), app(abs(&x, v(&x)), v(&y))))));
}

#[test]
fn substitution_stops_at_rebinding() {
    let x = Var::new(0, "x");
    let y = Var::new(1, "y");
    let z = Var::new(2, "z");
    // (x \x. x)[x := z] = (z \x. x)
    let t = app(v(&x), abs(&x, v(&x)));
    assert_eq!(unchecked_subst(copy_term(&t), x.clone(), v(&z)), app(v(&z), abs(&x, v(&x))));
    // renaming x to y then substituting for y is substituting for x
    let renamed = var_change(x.clone(), y.clone(), copy_term(&t));
    assert_eq!(renamed, app(v(&y), abs(&x, v(&x))));
    assert_eq!(unchecked_subst(renamed, y.clone(), v(&z)), unchecked_subst(t, x, v(&z)));
}

#[test]
fn free_and_bound_variables() {
    let x = Var::new(0, "x");
    let y = Var::new(1, "y");
    let z = Var::new(2, "z");
    let t = app(abs(&x, app(v(&x), v(&y))), app(v(&z), v(&y)));
    assert_eq!(ids(&t.free_variable()), vec![1, 2]);
    assert_eq!(ids(&t.bounded_variable()), vec![0]);
    assert_eq!(ids(&v(&x).bounded_variable()), Vec::<usize>::new());
}

#[test]
fn conversion_renews_binders() {
    let x = Var::new(0, "x");
    let y = Var::new(1, "y");
    let t = abs(&x, app(v(&x), v(&y)));
    let mut map = Vec::new();
    let mut next: usize = 10;
    let c = alpha_conversion_rec(&t, &mut map, &mut next);
    let x10 = Var::new(10, "x");
    assert_eq!(c, abs(&x10, app(v(&x10), v(&y))));
    assert_eq!(next, 11);
    assert!(map.is_empty());
    assert!(alpha_eq(&t, &c));
}

#[test]
fn apps_and_lambdas() {
    let x = Var::new(0, "x");
    let y = Var::new(1, "y");
    let z = Var::new(2, "z");
    assert_eq!(apps(v(&x), vec![v(&y), v(&z)]), app(app(v(&x), v(&y)), v(&z)));
    assert_eq!(lambdas(vec![x.clone(), y.clone()], v(&z)), abs(&x, abs(&y, v(&z))));
}

#[test]
fn printed_terms() {
    let x = Var::new(0, "x");
    let y = Var::new(1, "y");
    let t = abs(&x, abs(&y, app(v(&y), v(&x))));
    assert_eq!(t.print(), "\\x. \\y. (y x)");
    assert_eq!(LambdaTerm::from(x).print(), "x");
}

fn parsed(code: &str) -> LambdaTerm {
    parse_lambda_read_to_end(code).unwrap()
}

fn parse_error(code: &str) -> String {
    parse_lambda_read_to_end(code).unwrap_err()
}

#[test]
fn parse_names_and_groups() {
    let x = Var::new(0, "x");
    assert_eq!(parsed("x"), v(&x));
    assert_eq!(parsed("(x)"), v(&x));
    assert_eq!(parsed(" x"), v(&x));
    assert_eq!(parsed("\\x.x"), abs(&x, v(&x)));
    assert_eq!(parsed("(\\x.x)"), abs(&x, v(&x)));
    let y1 = Var::new(1, "y");
    let z2 = Var::new(2, "z");
    assert_eq!(parsed("(x y)"), app(v(&x), v(&y1)));
    assert_eq!(parsed("x y z"), app(app(v(&x), v(&y1)), v(&z2)));
    assert_eq!(parsed("(x y z)"), app(app(v(&x), v(&y1)), v(&z2)));
}

#[test]
fn parse_abstraction_body_reaches_far() {
    let x = Var::new(0, "x");
    let y1 = Var::new(1, "y");
    assert_eq!(parsed("(\\x.x y)"), abs(&x, app(v(&x), v(&y1))));
    assert_eq!(parsed("(\\x.x) y"), app(abs(&x, v(&x)), v(&y1)));
    assert_eq!(parsed("(\\x. (x y))"), abs(&x, app(v(&x), v(&y1))));
    let y = Var::new(1, "y");
    assert_eq!(parsed("\\ x y. x"), abs(&x, abs(&y, v(&x))));
}

#[test]
fn parse_binds_innermost_and_frees_fresh() {
    let x0 = Var::new(0, "x");
    let x1 = Var::new(1, "x");
    // the inner binder hides the outer one
    assert_eq!(parsed("\\x. \\x. x"), abs(&x0, abs(&x1, v(&x1))));
    // each free occurrence is a variable of its own
    let y0 = Var::new(0, "y");
    let y1 = Var::new(1, "y");
    assert_eq!(parsed("y y"), app(v(&y0), v(&y1)));
    assert_eq!(parse_lambda("\\x.x").unwrap(), abs(&x0, v(&x0)));
}

#[test]
fn lambda_parse_errors() {
    assert_eq!(parse_error(""), "expected lambda term at end of input");
    assert_eq!(parse_error("\\. x"), "expected binder after '\\' near Symbol('.')");
    assert_eq!(parse_error("\\x y"), "expected '.' at end of input");
    assert_eq!(parse_error("x . y"), "unexpected trailing tokens near Symbol('.')");
    assert_eq!(parse_error("(\\x y)"), "expected '.' at end of input");
    assert_eq!(parse_error("(x . y)"), "unexpected trailing tokens in paren group near Symbol('.')");
    assert_eq!(parse_error("()"), "expected lambda term at end of input");
    assert_eq!(parse_error("{x}"), "unexpected delimiter in lambda term: Brace");
    assert_eq!(parse_error("(x"), "unbalanced brackets");
}

#[test]
fn printed_term_reads_back() {
    let x = Var::new(0, "x");
    let y = Var::new(1, "y");
    let t = abs(&x, abs(&y, app(v(&y), v(&x))));
    let back = parsed(&t.print());
    assert_eq!(back, t);
    assert!(alpha_eq(&back, &t));
}

#[test]
fn machine_runs_to_normal_form() {
    // (\x. \y. x) a b
    let (code, next) = parse_lambda_from("\\x. \\y. x", 0).unwrap();
    assert_eq!(next, 2);
    let (inputs, next) = AInput::parse("a, b", next).unwrap();
    assert_eq!(next, 4);
    assert_eq!(inputs.print(), "a, b");
    let term = LambdaTerm::make(code, inputs).unwrap();
    assert_eq!(term.print(), "((\\x. \\y. x a) b)");
    let term = match term.step(0).unwrap() {
        LambdaStep::Continue { next } => next,
        LambdaStep::Halt { .. } => panic!("not yet in normal form"),
    };
    assert_eq!(term.print(), "(\\y. a b)");
    assert_eq!(copy_term(&term).step(1), Err("No redex found at the given index".to_string()));
    match term.step(0).unwrap() {
        LambdaStep::Halt { output } => assert_eq!(output, v(&Var::new(2, "a"))),
        LambdaStep::Continue { .. } => panic!("expected a normal form"),
    }
}

#[test]
fn inputs_read_and_print() {
    let (blank, next) = AInput::parse("  ", 5).unwrap();
    assert!(blank.0.is_empty());
    assert_eq!(next, 5);
    let (inputs, next) = AInput::parse("x, \\y. y", 0).unwrap();
    assert_eq!(next, 2);
    assert_eq!(inputs.0, vec![v(&Var::new(0, "x")), abs(&Var::new(1, "y"), v(&Var::new(1, "y")))]);
    assert_eq!(inputs.print(), "x, \\y. y");
    assert_eq!(AInput::parse("x,", 0).unwrap_err(), "expected lambda term at end of input");
}

#[test]
fn snapshot_restores_term() {
    let x = Var::new(7, "x");
    let y = Var::new(3, "y");
    let t = abs(&x, app(v(&x), v(&y)));
    let snap = t.snapshot();
    assert_eq!(
        snap.term,
        SnapshotTerm::Abs(7, Box::new(SnapshotTerm::App(Box::new(SnapshotTerm::Var(7)), Box::new(SnapshotTerm::Var(3)))))
    );
    assert_eq!(snap.table, vec![(7, "x".to_string()), (3, "y".to_string())]);
    assert_eq!(LambdaTerm::restore(snap), t);
}

#[test]
fn restore_names_unknown_ids() {
    let snap = models::lambda_machine::Snapshot { term: SnapshotTerm::Var(12), table: vec![] };
    assert_eq!(LambdaTerm::restore(snap), v(&Var::new(12, "v12")));
}

fn names_of(t: &LambdaTerm) -> String {
    t.display()
}

#[test]
fn printed_normal_form_reads_back_with_its_names() {
    let f = Var::new(4, "f");
    let x = Var::new(7, "x");
    let y = Var::new(9, "y");
    // \f. (f \x. (x (y f)))
    let t = abs(&f, app(v(&f), abs(&x, app(v(&x), app(v(&y), v(&f))))));
    assert!(is_normal_form(&t));
    let back = parse_lambda_read_to_end(&t.print()).unwrap();
    assert_eq!(names_of(&back), names_of(&t));
    assert_eq!(back.print(), t.print());
}

#[test]
fn printed_redex_reads_back_otherwise() {
    // the body of an abstraction reaches as far as it can, so a printed
    // redex reads back as an abstraction
    let x = Var::new(0, "x");
    let a = Var::new(1, "a");
    let t = app(abs(&x, v(&x)), v(&a));
    assert_eq!(t.print(), "(\\x. x a)");
    let back = parse_lambda_read_to_end(&t.print()).unwrap();
    assert_eq!(back, abs(&x, app(v(&x), v(&a))));
}

#[test]
fn step_renames_to_avoid_capture() {
    // (\x. \y. x) y: the free y of the argument is not caught by the binder y
    let x = Var::new(0, "x");
    let y = Var::new(1, "y");
    let t = app(abs(&x, abs(&y, v(&x))), v(&y));
    let r = step(&mark_redex(&t), 0).unwrap();
    match &r {
        LambdaTerm::Abs(w, body) => {
            assert_ne!(w.id, y.id);
            assert_eq!(w.id, 2);
            assert_eq!(**body, v(&y));
        }
        _ => panic!("expected an abstraction"),
    }
    let free: Vec<usize> = r.free_variable().iter().map(|v| v.id).collect();
    assert_eq!(free, vec![1]);
}

#[test]
fn step_without_capture_needs_no_renaming() {
    let x = Var::new(0, "x");
    let y = Var::new(1, "y");
    let z = Var::new(2, "z");
    // (\x. \y. x) z
    let t = app(abs(&x, abs(&y, v(&x))), v(&z));
    assert_eq!(step(&mark_redex(&t), 0).unwrap(), abs(&y, v(&z)));
}

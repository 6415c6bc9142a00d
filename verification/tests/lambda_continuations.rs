#[test]
fn lam_ext() {
    let check_parse = |code: &str| {
        let _ = code;
    };

    let code = "x";
    check_parse(code);

    let code = "fun x => x";
    check_parse(code);

    let code = "@(fun x => x fun x => x)";
    check_parse(code);

    let code = "@((fun x => x) (fun x => (x)))";
    check_parse(code);

    let code = "zero";
    check_parse(code);

    let code = "succ zero";
    check_parse(code);

    let code = "pred succ zero";
    check_parse(code);

    let code = "ifz x then x else x";
    check_parse(code);

    let code = "let id = fun x => x in @(id id)";
    check_parse(code);

    let code = "rec f x = zero";
    check_parse(code);
}

use models::goto_lang::{env_read_to_end, program_read_to_end, Code, Command, Environment, GotoStep, Program};
use models::number::Number;

fn print_env(env: &Environment) -> String {
    let mut s = String::new();
    for (var, num) in &env.env {
        s.push_str(&format!("{} = {} ", var.as_str(), num.0));
    }
    s
}

#[test]
fn test_parse_env() {
    let code = "x = 10; y = 20; z = 30;";
    let env = env_read_to_end(code).unwrap();
    assert_eq!(env.len(), 3);
    assert_eq!(env[0].0.as_str(), "x");
    assert_eq!(env[0].1, Number(10));
    assert_eq!(env[1].0.as_str(), "y");
    assert_eq!(env[1].1, Number(20));
    assert_eq!(env[2].0.as_str(), "z");
    assert_eq!(env[2].1, Number(30));
}

#[test]
fn test_parse_code() {
    let code = "
        inc x;
        dec y;
        clr z;
        cpy x <- y;
        ifnz z : 0;
        ";
    let commands = program_read_to_end(code).unwrap();
    assert_eq!(commands.len(), 5);
    match &commands[0] {
        Command::Inc(v) => assert_eq!(v.as_str(), "x"),
        _ => panic!("unexpected command"),
    }
    match &commands[1] {
        Command::Dec(v) => assert_eq!(v.as_str(), "y"),
        _ => panic!("unexpected command"),
    }
    match &commands[2] {
        Command::Clr(v) => assert_eq!(v.as_str(), "z"),
        _ => panic!("unexpected command"),
    }
    match &commands[3] {
        Command::Cpy(v1, v2) => {
            assert_eq!(v1.as_str(), "x");
            assert_eq!(v2.as_str(), "y");
        }
        _ => panic!("unexpected command"),
    }
    match &commands[4] {
        Command::Ifnz(v, n) => {
            assert_eq!(v.as_str(), "z");
            assert_eq!(*n, Number(0));
        }
        _ => panic!("unexpected command"),
    }
}

fn run(commands: Vec<Command>, env: Vec<(String, Number)>) -> Environment {
    let mut program = Program {
        commands: Code(commands),
        pc: Number(0),
        env: Environment { env },
    };
    for _ in 0..100 {
        match program.step(()).unwrap() {
            GotoStep::Continue { next } => {
                program = next;
            }
            GotoStep::Halt { env } => {
                return env;
            }
        }
    }
    panic!("program did not halt");
}

#[test]
fn test2() {
    let code = "
cpy y2 <- y;
inc z;
dec y2;
ifnz y2 : 1;
dec x;
ifnz x : 0;
";
    let commands = program_read_to_end(code).unwrap();
    assert_eq!(commands.len(), 6);
    for c in &commands {
        println!("{:?}", c);
    }

    let env = "x = 2; y = 3; z = 0;";
    let env = env_read_to_end(env).unwrap();
    for (v, n) in &env {
        println!("{} = {}", v.as_str(), n.0);
    }

    println!("--- Running Program ---");
    let out = run(commands, env);
    println!("{}", print_env(&out));
    assert_eq!(out.get("z"), Number(6));
    assert_eq!(out.get("x"), Number(0));
    assert_eq!(out.get("y"), Number(3));
    assert_eq!(out.get("y2"), Number(0));
}

#[test]
fn environment_reads_and_writes() {
    let mut env = Environment::new();
    assert_eq!(env.get("a"), Number(0));
    env.write("a", Number(4));
    env.write("b", Number(1));
    env.write("a", Number(7));
    assert_eq!(env.get("a"), Number(7));
    assert_eq!(env.print(), "a = 7\nb = 1\n");
    let back = Environment::parse(&env.print()).unwrap();
    assert!(back.same_values(&env));
    let other = Environment::parse("b = 1; a = 7; c = 0").unwrap();
    assert!(other.same_values(&env));
    let different = Environment::parse("a = 7").unwrap();
    assert!(!different.same_values(&env));
}

#[test]
fn parse_errors_and_text() {
    assert_eq!(program_read_to_end("jmp x;").unwrap_err(), "expected statement near Ident(\"jmp\")");
    assert_eq!(program_read_to_end("inc x").unwrap_err(), "expected symbol ';' at end of input");
    assert_eq!(program_read_to_end("inc 3;").unwrap_err(), "expected identifier near Symbol(';')");
    assert_eq!(env_read_to_end("x = y").unwrap_err(), "expected number at end of input");
    let code = Code::parse("clr a; cpy b <- a; ifnz b : 3;").unwrap();
    assert_eq!(code.print(), "clr a\ncpy b a\nifnz b 3\n");
}

#[test]
fn halt_and_overflow() {
    let out = run(vec![Command::Clr("q".to_string())], vec![("q".to_string(), Number(5))]);
    assert_eq!(out.get("q"), Number(0));
    let p = Program {
        commands: Code(vec![Command::Inc("m".to_string())]),
        pc: Number(0),
        env: Environment { env: vec![("m".to_string(), Number(usize::MAX))] },
    };
    assert_eq!(p.step(()).err().unwrap(), "number too large");
    let p = Program::make(Code(vec![]), Environment::new()).unwrap();
    assert!(matches!(p.step(()), Ok(GotoStep::Halt { .. })));
}

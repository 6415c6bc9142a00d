use models::coroutine::CoroutineCode;
use models::coroutine_machine::{CoroutineMachine, StepResult};
use models::number::Number;

#[test]
fn run_and_done_work() {
    let code = CoroutineCode::parse(
        "fn main { run child -> $t; if done $t goto +2; yield; x <- 1 }\nfn child { y <- 1 }",
    )
    .unwrap();
    let machine = CoroutineMachine::make(code, 1).unwrap();

    let mut machine = machine;
    let output = loop {
        match machine.step(0).unwrap() {
            StepResult::Continue { next, .. } => machine = next,
            StepResult::Halt { output } => break output,
        }
    };

    assert_eq!(output.get_var("x").0, Number(1usize).0);
    assert_eq!(output.get_var("y").0, Number(1usize).0);
}

#[test]
fn code_text_reads_back() {
    let code = CoroutineCode::parse(
        "fn main { run child -> $t; if done $t goto +2; yield; x <- 1 }\nfn child { y <- 1 }\nfn empty { }",
    )
    .unwrap();
    let text = code.print();
    assert_eq!(
        text,
        "fn main {\n  run child -> $t; if done $t goto +2; yield; x <- 1\n}\n\nfn child {\n  y <- 1\n}\n\nfn empty {\n}\n"
    );
    let again = CoroutineCode::parse(&text).unwrap();
    assert_eq!(again.print(), text);
}

#[test]
fn global_env_text() {
    let env = models::coroutine_machine::GlobalEnv::parse("b = 2\n$t = none\n a = 7 \n$s = 3\n").unwrap();
    assert_eq!(env.get_var("a").0, 7);
    assert_eq!(env.get_task_id("s").unwrap(), 3);
    assert_eq!(env.print(), "a = 7\nb = 2\n$s = 3\n$t = none\n");
    assert_eq!(
        models::coroutine_machine::GlobalEnv::parse("x 1").err().unwrap(),
        "invalid env line: x 1"
    );
    assert_eq!(
        models::coroutine_machine::GlobalEnv::parse("$ = 1").err().unwrap(),
        "invalid identifier: "
    );
    assert_eq!(
        models::coroutine_machine::GlobalEnv::parse("$t = NONE").unwrap().print(),
        "$t = none\n"
    );
}

#[test]
fn unreadable_statement_fails_the_program() {
    assert!(CoroutineCode::parse("fn main { x <- 1; x <- ; yield }").is_err());
    assert!(CoroutineCode::parse("fn main { run child -> t }").is_err());
    assert!(CoroutineCode::parse("fn main { if x < goto +1 }").is_err());
    assert!(CoroutineCode::parse("fn main { x <- 1; yield }").is_ok());
}

fn held_once(m: &CoroutineMachine) -> bool {
    let mut seen: Vec<usize> = m.queue.iter().copied().collect();
    for w in m.workers.iter() {
        if let Some(t) = w {
            seen.push(*t);
        }
    }
    let n = seen.len();
    seen.sort();
    seen.dedup();
    seen.len() == n && seen.iter().all(|t| *t < m.tasks.len())
}

#[test]
fn each_task_is_queued_or_held_once() {
    let code = CoroutineCode::parse(
        "fn main { run child -> $a; run child -> $b; yield; if done $a goto +2; yield; x <- 1 }\nfn child { yield; y <- 1 }",
    )
    .unwrap();
    let mut machine = CoroutineMachine::make(code, 1).unwrap();
    assert!(held_once(&machine));
    let mut steps = 0;
    let output = loop {
        match machine.step(0).unwrap() {
            StepResult::Continue { next, .. } => machine = next,
            StepResult::Halt { output } => break output,
        }
        assert!(held_once(&machine));
        steps += 1;
        assert!(steps < 1000);
    };
    assert!(steps > 10);
    assert_eq!(output.get_var("x").0, Number(1usize).0);
    assert_eq!(output.get_var("y").0, Number(1usize).0);
}

use models::circuit_parser::{init_maps, parse};
use models::circuit_view::{graph_view, PinRef, PinState};
use models::coroutine::CoroutineCode;
use models::coroutine_machine::{CoroutineMachine, StepResult};
use models::coroutine_view::coroutine_tables;
use models::flow_ir::FlowIrCode;
use models::flow_machine::{FlowIrMachine, FlowStep, StaticEnv};
use models::flow_view::flow_tables;
use models::logic_circuit::LogicCircuit;
use models::view::{Panel, TableView};

fn cells(rows: &[&[&str]]) -> Vec<Vec<String>> {
    rows.iter().map(|r| r.iter().map(|c| c.to_string()).collect()).collect()
}

fn table_of(p: &Panel) -> &TableView {
    match p {
        Panel::Table(t) => t,
        _ => panic!("not a table"),
    }
}

fn text_of(p: &Panel) -> (&str, &str) {
    match p {
        Panel::Text { title, text } => (title.as_str(), text.as_str()),
        _ => panic!("not a text"),
    }
}

fn group_of(p: &Panel) -> (&str, &Vec<TableView>) {
    match p {
        Panel::Group { title, tables } => (title.as_str(), tables),
        _ => panic!("not a group"),
    }
}

fn next(m: CoroutineMachine, agent: usize) -> CoroutineMachine {
    match m.step(agent).unwrap() {
        StepResult::Continue { next, .. } => next,
        StepResult::Halt { .. } => panic!("halted"),
    }
}

#[test]
fn coroutine_machine_tables() {
    let code = CoroutineCode::parse("fn main { run child -> $t; x <- 1; yield }\nfn child { y <- 2 }").unwrap();
    let m = CoroutineMachine::make(code, 2).unwrap();
    let m = next(m, 0);
    let m = next(m, 0);
    let panels = coroutine_tables(&m);
    assert_eq!(panels.len(), 5);
    let status = table_of(&panels[0]);
    assert_eq!(status.title, "status");
    assert_eq!(status.columns, vec!["field".to_string(), "value".to_string()]);
    assert_eq!(status.rows, cells(&[&["agents", "2"], &["queue_len", "1"], &["task_count", "2"]]));
    let (env_title, env) = group_of(&panels[1]);
    assert_eq!(env_title, "env");
    assert_eq!(env[0].title, "vars");
    assert!(env[0].rows.is_empty());
    assert_eq!(env[1].title, "task_ids");
    assert_eq!(env[1].rows, cells(&[&["$t", "1"]]));
    let workers = table_of(&panels[2]);
    assert_eq!(workers.title, "workers");
    assert_eq!(workers.rows, cells(&[&["0", "0"], &["1", "idle"]]));
    let queue = table_of(&panels[3]);
    assert_eq!(queue.title, "queue");
    assert_eq!(queue.rows, cells(&[&["0", "1"]]));
    let (tasks_title, tasks) = group_of(&panels[4]);
    assert_eq!(tasks_title, "tasks");
    assert_eq!(tasks.len(), 2);
    assert_eq!(tasks[0].title, "task 0");
    assert_eq!(tasks[0].columns, vec!["depth".to_string(), "function".to_string(), "pc".to_string()]);
    assert_eq!(tasks[0].rows, cells(&[&["0", "main", "1"]]));
    assert_eq!(tasks[1].title, "task 1");
    assert_eq!(tasks[1].rows, cells(&[&["0", "child", "0"]]));
}

#[test]
fn flow_machine_tables() {
    let code = FlowIrCode::parse(
        "@r 7\n@s 1\n:main {\n  :entry {\n    push #5;\n    halloc(#2) %h;\n    halt;\n  }\n}\n",
    )
    .unwrap();
    let mut m = FlowIrMachine::make(code, StaticEnv::parse("").unwrap()).unwrap();
    for _ in 0..2 {
        match m.step(String::new()).unwrap() {
            FlowStep::Continue { next, .. } => m = next,
            FlowStep::Halt { .. } => panic!("halted"),
        }
    }
    let panels = flow_tables(&m);
    assert_eq!(panels.len(), 8);
    assert_eq!(text_of(&panels[0]), ("current_region", ":main"));
    assert_eq!(text_of(&panels[1]), ("current_block", ":entry"));
    assert_eq!(text_of(&panels[2]), ("current_line", "2"));
    assert_eq!(text_of(&panels[3]), ("halted", "false"));
    let vregs = table_of(&panels[4]);
    assert_eq!(vregs.title, "vregs");
    assert_eq!(vregs.rows.len(), 1);
    assert_eq!(vregs.rows[0][0], "%h");
    let handle = vregs.rows[0][1].clone();
    let statics = table_of(&panels[5]);
    assert_eq!(statics.title, "static");
    assert_eq!(statics.rows, cells(&[&["@r", "7"], &["@s", "1"]]));
    let stack = table_of(&panels[6]);
    assert_eq!(stack.rows, cells(&[&["0", "5"]]));
    let heap = table_of(&panels[7]);
    assert_eq!(heap.columns, vec!["handle".to_string(), "index".to_string(), "value".to_string()]);
    assert_eq!(heap.rows.len(), 2);
    assert_eq!(heap.rows[0][0], handle);
    assert_eq!(heap.rows[0][1], "0");
    assert_eq!(heap.rows[1][1], "1");
}

const XOR: &str = "graph: XOR {
    in {IN0, IN1}
    out {OUT = O.OUT}
    B0, BR-F {IN = IN0}
    B1, BR-F {IN = IN1}
    N0, NOT-T {IN = B0.OUT0}
    N1, NOT-T {IN = B1.OUT0}
    A0, AND-F {IN0 = N0.OUT, IN1 = B1.OUT1}
    A1, AND-F {IN0 = B0.OUT1, IN1 = N1.OUT}
    O, OR-F {IN0 = A0.OUT, IN1 = A1.OUT}
}";

#[test]
fn circuit_graph_view() {
    let mut l = init_maps();
    parse(XOR, &mut l).unwrap();
    let g = match l.get(&"XOR".to_string()).unwrap() {
        LogicCircuit::MixLogicCircuit(m) => m,
        _ => panic!("not a graph"),
    };
    let v = graph_view(g);
    assert_eq!(v.boxes.len(), 7);
    let n0 = v.boxes.iter().find(|b| b.name == "N0").unwrap();
    assert_eq!(n0.kind, "NOT");
    assert_eq!(n0.inpins, vec!["IN".to_string()]);
    assert_eq!(n0.otpins, vec![PinState { name: "OUT".to_string(), state: true }]);
    assert_eq!(n0.state, Some(true));
    assert_eq!(v.edges.len(), 8);
    assert_eq!(
        v.inpins,
        vec![PinState { name: "IN0".to_string(), state: false }, PinState { name: "IN1".to_string(), state: false }]
    );
    assert_eq!(v.otpins, vec![PinState { name: "OUT".to_string(), state: false }]);
    assert_eq!(v.get_inpins_map("IN0"), Some(PinRef { name: "B0".to_string(), pin: "IN".to_string() }));
    assert_eq!(v.get_otpins_map("OUT"), Some(PinRef { name: "O".to_string(), pin: "OUT".to_string() }));
    assert_eq!(v.get_otpins_map("X"), None);
}

use models::circuit_lexer::{lex_circuit, Token};
use models::circuit_parser::{init_maps, parse, parse_main, parse_main_with_maps, List};
use models::logic_circuit::{Gate, GateKind, LogicCircuit, MixLogicCircuit, NamedPin};

fn pin(name: &str, pin: &str) -> NamedPin {
    (name.to_string(), pin.to_string())
}

fn signal(items: Vec<(NamedPin, bool)>) -> Vec<(NamedPin, bool)> {
    items
}

#[test]
fn test_parse_main() {
    let s = "graph: main {
        in {A, d}
        out {a=b.c}
        A, AND-T {}
      }";
    let _c = parse_main(s).unwrap();
}

#[test]
fn test_gate() {
    let mut gate = Gate {
        kind: GateKind::And,
        state: false,
    };
    assert_eq!(gate.get_inpins(), vec![pin("AND", "IN0"), pin("AND", "IN1")]);
    assert_eq!(gate.get_otpins(), vec![pin("AND", "OUT")]);
    assert_eq!(gate.get_otputs(), vec![(pin("AND", "OUT"), false)]);
    gate.step(signal(vec![(pin("AND", "IN0"), true), (pin("AND", "IN1"), true)]));
    assert_eq!(gate.state, true);
    assert_eq!(gate.get_otputs(), vec![(pin("AND", "OUT"), true)]);
    gate.step(signal(vec![(pin("AND", "IN0"), true), (pin("AND", "IN1"), false)]));
    assert_eq!(gate.state, false);
    assert_eq!(gate.get_otputs(), vec![(pin("AND", "OUT"), false)]);
}

#[test]
fn gate_kinds_have_their_pins() {
    let br = Gate { kind: GateKind::Br, state: true };
    assert_eq!(br.get_inpins(), vec![pin("BR", "IN")]);
    assert_eq!(br.get_otpins(), vec![pin("BR", "OUT0"), pin("BR", "OUT1")]);
    let end = Gate { kind: GateKind::End, state: false };
    assert_eq!(end.get_otpins(), Vec::<NamedPin>::new());
    let cst = Gate { kind: GateKind::Cst, state: true };
    assert_eq!(cst.get_inpins(), Vec::<NamedPin>::new());
    assert_eq!(cst.kind(), "CST".to_string());
}

#[test]
fn not_gate_reads_its_input_by_pin_name() {
    let mut g = Gate { kind: GateKind::Not, state: false };
    g.step(vec![(pin("ANY", "IN"), false)]);
    assert_eq!(g.state, true);
    g.step(vec![(pin("ANY", "IN"), true), (pin("ANY", "IN"), false)]);
    assert_eq!(g.state, false);
    g.step(vec![]);
    assert_eq!(g.state, true);
}

#[test]
fn lexer_reads_words_symbols_and_groups() {
    let ts = lex_circuit("AND-T { a=b.c } // note\n /* x */ 12").unwrap();
    assert_eq!(ts.len(), 11);
    assert!(matches!(&ts[0], Token::Ident(s) if s.iter().collect::<String>() == "AND"));
    assert!(matches!(&ts[1], Token::Symbol('-')));
    assert!(matches!(&ts[10], Token::Number(s) if s.iter().collect::<String>() == "12"));
}

#[test]
fn lexer_refuses_unbalanced_brackets_and_open_comments() {
    assert_eq!(lex_circuit("{ ( }").unwrap_err(), "unbalanced brackets");
    assert_eq!(lex_circuit("}").unwrap_err(), "unbalanced brackets");
    assert_eq!(lex_circuit("a /* b").unwrap_err(), "unterminated comment");
}

#[test]
fn init_maps_holds_the_gates() {
    let l = init_maps();
    assert_eq!(l.0.len(), 13);
    assert!(l.get(&"AND-T".to_string()).is_some());
    assert!(l.get(&"XOR".to_string()).is_none());
    match l.get(&"DLY-F".to_string()) {
        Some(LogicCircuit::Gate(g)) => {
            assert_eq!(g.kind, GateKind::Delay);
            assert_eq!(g.state, false);
        }
        _ => panic!("expected a gate"),
    }
}

#[test]
fn list_insert_keeps_the_first_circuit_of_a_name() {
    let mut l = List(vec![]);
    assert_eq!(l.insert(("A".to_string(), LogicCircuit::new_gate(GateKind::Not, true))), Some(()));
    assert_eq!(l.insert(("A".to_string(), LogicCircuit::new_gate(GateKind::Or, false))), None);
    assert_eq!(l.0.len(), 1);
    assert!(matches!(l.get(&"A".to_string()), Some(LogicCircuit::Gate(Gate { kind: GateKind::Not, .. }))));
}

const XOR: &str = "graph: XOR {
    in {IN0, IN1}
    out {OUT = O.OUT}
    B0, BR-F {IN = IN0}
    B1, BR-F {IN = IN1}
    N0, NOT-T {IN = B0.OUT0}
    N1, NOT-T {IN = B1.OUT0}
    A0, AND-F {IN0 = N0.OUT, IN1 = B1.OUT1}
    A1, AND-F {IN0 = B0.OUT1, IN1 = N1.OUT}
    O, OR-F {IN0 = A0.OUT, IN1 = A1.OUT}
}";

#[test]
fn a_graph_exposes_its_free_pins_under_the_maps() {
    let mut l = init_maps();
    parse(XOR, &mut l).unwrap();
    let x = l.get(&"XOR".to_string()).unwrap();
    assert_eq!(x.kind(), "XOR".to_string());
    assert_eq!(x.get_inpins(), vec![pin("XOR", "IN0"), pin("XOR", "IN1")]);
    assert_eq!(x.get_otpins(), vec![pin("XOR", "OUT")]);
    assert_eq!(x.get_otputs(), vec![(pin("XOR", "OUT"), false)]);
}

#[test]
fn parse_errors_name_what_is_missing() {
    let mut l = init_maps();
    assert_eq!(
        parse("graph: g { in {} out {} A, NOPE {} }", &mut l).unwrap_err(),
        "not found name NOPE"
    );
    assert_eq!(
        parse("graph: g { in {} out {} A, NOT-T { IN = X } }", &mut l).unwrap_err(),
        "not found inpin X"
    );
    assert_eq!(parse("circuit: g {}", &mut l).unwrap_err(), "expected graph or iter");
    assert_eq!(parse("graph g {}", &mut l).unwrap_err(), "expected symbol ':'");
    assert_eq!(parse("graph: g ( )", &mut l).unwrap_err(), "expected delimiter Brace");
    assert_eq!(parse("graph: g { on {} }", &mut l).unwrap_err(), "expected keyword 'in'");
    assert_eq!(
        parse("graph: g { in {} out {} A, NOT-T {} A, NOT-T {} }", &mut l).unwrap_err(),
        "duplicate name A"
    );
    assert_eq!(
        parse("graph: g { in {} out {} A, NOT-T { IN = B.OUT } }", &mut l).unwrap_err(),
        "edge B.OUT not in verts"
    );
    assert_eq!(
        parse("graph: g { in {} out {} A, NOT-T { IN = A.OUT } B, NOT-T { IN = A.OUT } }", &mut l)
            .unwrap_err(),
        "edge A.OUT not in verts"
    );
    assert_eq!(l.0.len(), 13);
}

#[test]
fn blocks_before_an_error_are_kept() {
    let mut l = init_maps();
    let r = parse("graph: g { in {} out {} A, NOT-T {} } graph: h { in {} out {} }", &mut l);
    assert!(r.is_ok());
    assert_eq!(l.0.len(), 15);
    let r = parse("graph: k { in {} out {} } graph: bad", &mut l);
    assert_eq!(r.unwrap_err(), "expected delimiter Brace");
    assert_eq!(l.0.len(), 16);
}

#[test]
fn a_second_block_of_a_name_is_ignored() {
    let mut l = init_maps();
    parse("graph: g { in {} out {} A, NOT-T {} } graph: g { in {} out {} }", &mut l).unwrap();
    assert_eq!(l.0.len(), 14);
    let g = l.get(&"g".to_string()).unwrap();
    assert_eq!(g.get_otpins(), vec![pin("A", "OUT")]);
}

#[test]
fn iter_blocks_make_rows() {
    let mut l = init_maps();
    parse("iter: row { DLY-F, next { OUT = IN } prev { } }", &mut l).unwrap();
    match l.get(&"row".to_string()) {
        Some(LogicCircuit::IterLogicCircuit(it)) => {
            assert_eq!(it.used.len(), 0);
            assert_eq!(it.next_edges, vec![("OUT".to_string(), "IN".to_string())]);
        }
        _ => panic!("expected a row"),
    }
    assert_eq!(
        parse("iter: r2 { DLY-F, next { } prev { } extra }", &mut l).unwrap_err(),
        "unexpected trailing input"
    );
}

#[test]
fn parse_main_needs_a_main() {
    assert_eq!(parse_main("graph: g { in {} out {} }").unwrap_err(), "not found main");
    let mut l = init_maps();
    parse("graph: main { in {} out {} A, NOT-T {} }", &mut l).unwrap();
    let m = parse_main_with_maps("", l).unwrap();
    assert_eq!(m.kind(), "main".to_string());
}

#[test]
fn a_mix_hides_the_pins_its_edges_join() {
    let mix = MixLogicCircuit {
        kind: "MIX".to_string(),
        verts: vec![
            ("A".to_string(), LogicCircuit::new_gate(GateKind::And, false)),
            ("B".to_string(), LogicCircuit::new_gate(GateKind::Or, false)),
        ],
        edges: vec![(pin("A", "OUT"), pin("B", "IN0"))],
        inpin_maps: vec![],
        otpin_maps: vec![],
    };
    assert_eq!(mix.get_inpins(), vec![pin("A", "IN0"), pin("A", "IN1"), pin("B", "IN1")]);
    assert_eq!(mix.get_otpins(), vec![pin("B", "OUT")]);
    assert_eq!(mix.get_otputs(), vec![(pin("B", "OUT"), false)]);
}

#[test]
fn test_mix() {
    // A.IN0 ---> A <--- A.IN1
    //            |-- A.OUT == B.IN0 ---> B <--- B.IN1
    //                                    |--> B.OUT
    let mut mix = MixLogicCircuit {
        kind: "MIX".to_string(),
        verts: vec![
            (
                "A".to_string(),
                LogicCircuit::Gate(Gate {
                    kind: GateKind::And,
                    state: false,
                }),
            ),
            (
                "B".to_string(),
                LogicCircuit::Gate(Gate {
                    kind: GateKind::Or,
                    state: false,
                }),
            ),
        ],
        edges: vec![(pin("A", "OUT"), pin("B", "IN0"))],
        inpin_maps: vec![],
        otpin_maps: vec![],
    };
    assert_eq!(mix.get_inpins(), vec![pin("A", "IN0"), pin("A", "IN1"), pin("B", "IN1")]);
    assert_eq!(mix.get_otpins(), vec![pin("B", "OUT")]);
    assert_eq!(mix.get_otputs(), vec![(pin("B", "OUT"), false)]);

    mix.step(signal(vec![(pin("A", "IN0"), true)]));
    assert_eq!(mix.get_otputs(), vec![(pin("B", "OUT"), false)]);

    mix.step(signal(vec![(pin("A", "IN0"), true)]));
    assert_eq!(mix.get_otputs(), vec![(pin("B", "OUT"), false)]);

    mix.step(signal(vec![(pin("A", "IN0"), true), (pin("A", "IN1"), true)]));
    assert_eq!(mix.get_otputs(), vec![(pin("B", "OUT"), false)]);
    mix.step(signal(vec![(pin("A", "IN0"), false), (pin("A", "IN1"), false)]));
    assert_eq!(mix.get_otputs(), vec![(pin("B", "OUT"), true)]);
}

#[test]
fn xor_graph_computes_xor_after_its_delay() {
    let mut l = init_maps();
    parse(XOR, &mut l).unwrap();
    let mut x = l.get(&"XOR".to_string()).unwrap().copy();
    let run = |x: &mut LogicCircuit, a: bool, b: bool| {
        for _ in 0..6 {
            x.step(vec![(pin("XOR", "IN0"), a), (pin("XOR", "IN1"), b)]);
        }
        x.get_otputs()[0].1
    };
    assert_eq!(run(&mut x, false, false), false);
    assert_eq!(run(&mut x, true, true), false);
    assert_eq!(run(&mut x, true, false), true);
    assert_eq!(run(&mut x, false, true), true);
}

#[test]
fn a_row_adds_a_copy_when_its_next_copy_hears_something() {
    let mut l = init_maps();
    parse("iter: row { BR-T, next { OUT0 = IN } prev { } }", &mut l).unwrap();
    let mut row = l.get(&"row".to_string()).unwrap().copy();
    row.step(vec![(pin("0", "IN"), true)]);
    match &row {
        LogicCircuit::IterLogicCircuit(it) => assert_eq!(it.used.len(), 1),
        _ => panic!("expected a row"),
    }
    assert_eq!(row.get_inpins(), vec![pin("_0_", "IN")]);
    row.step(vec![]);
    match &row {
        LogicCircuit::IterLogicCircuit(it) => assert_eq!(it.used.len(), 2),
        _ => panic!("expected a row"),
    }
}

#[test]
fn empty_text_has_no_main() {
    assert_eq!(parse_main("").unwrap_err(), "not found main");
    assert_eq!(parse_main_with_maps("", init_maps()).unwrap_err(), "not found main");
}

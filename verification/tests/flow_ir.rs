use models::flow_ir::{FlowIrCode, FlowValue, PlaceKey};
use models::flow_machine::{FlowIrMachine, FlowStep, StaticEnv};
use models::number::Number;
use models::table::Table;

fn roundtrip_code(text: &str) {
    let parsed = FlowIrCode::parse(text).expect("parse should succeed");
    let printed = parsed.print();
    let reparsed = FlowIrCode::parse(&printed).expect("reparse should succeed");
    assert_eq!(parsed, reparsed, "roundtrip failed:\n{printed}");
}

#[test]
fn flow_ir_code_roundtrip() {
    roundtrip_code(
        r#"
@slot 0
:main {
  :entry {
    nop;
    %p := ref @slot;
    deref %p := st :next;
    %jmp := ld @slot;
    if %cond = #0 then :next;
    goto %jmp;
  }
  :next {
    halloc(#3) %h;
    hacc(%h)[#1] := st #7;
    %x := ld hacc(%h)[#1];
    print %x;
    input @slot;
    push %x;
    halt;
  }
}
:r2 {
  :entry {
    lget %len;
    pop %tmp;
    push %len;
    hfree #1;
    halt;
  }
}
"#,
    );
}

#[test]
fn flow_ir_parses_comments_and_dense_spacing() {
    roundtrip_code(
        r#"
@slot 0 // static
/* region comment */
:main{
  :entry{
    %p:=ref @slot;
    if %cond=#0 then :next;
    goto %p;
  }
  :next{
    halloc(#3)%h;
    hacc(%h)[#1]:=st #7;
    %x:=ld hacc(%h)[#1];
    halt;
  }
}
"#,
    );
}

#[test]
fn flow_value_roundtrip() {
    let values = vec![
        FlowValue::Num(Number(0usize)),
        FlowValue::Num(Number(42usize)),
        FlowValue::CodeLabel("main".to_string()),
        FlowValue::Key(PlaceKey::Static("x".to_string())),
        FlowValue::Key(PlaceKey::Stack(3)),
        FlowValue::Key(PlaceKey::Heap {
            handle: 7,
            index: 9,
        }),
    ];
    for v in values {
        let printed = v.print();
        let reparsed = FlowValue::parse(&printed).expect("FlowValue parse should succeed");
        assert_eq!(v, reparsed, "FlowValue roundtrip failed: {printed}");
    }
}

#[test]
fn flow_value_rejects_old_static_key_syntax() {
    let err = FlowValue::parse("@x").unwrap_err();
    assert_eq!(err, "invalid digit found in string");
}

#[test]
fn flow_value_texts() {
    assert_eq!(FlowValue::Key(PlaceKey::Heap { handle: 7, index: 9 }).print(), "k:h[7][9]");
    assert_eq!(FlowValue::Key(PlaceKey::Stack(3)).print(), "k:s[3]");
    assert_eq!(FlowValue::parse("  :main ").unwrap(), FlowValue::CodeLabel("main".to_string()));
    assert_eq!(FlowValue::parse(":").unwrap_err(), "Empty code label");
    assert_eq!(FlowValue::parse("k:@").unwrap_err(), "Empty static key");
    assert_eq!(FlowValue::parse("k:s[3").unwrap_err(), "Invalid stack key: k:s[3");
    assert_eq!(FlowValue::parse("k:h[3]").unwrap_err(), "Invalid heap key: k:h[3]");
    assert_eq!(FlowValue::parse("k:h[1][x]").unwrap_err(), "invalid digit found in string");
    assert_eq!(FlowValue::parse("").unwrap_err(), "cannot parse integer from empty string");
}

#[test]
fn printed_code_text() {
    let code = FlowIrCode::parse("@a 5 :main { :b { %x := #1 + %y; if %x < #3 then :b; halt; } }").unwrap();
    assert_eq!(
        code.print(),
        "@a 5\n:main {\n  :b {\n    %x := #1 + %y;\n    if %x < #3 then :b;\n    halt;\n  }\n}\n"
    );
}

#[test]
fn parse_errors() {
    assert_eq!(
        FlowIrCode::parse(":main { :b { nop; } }").unwrap_err(),
        "Missing terminator in block :b"
    );
    assert_eq!(
        FlowIrCode::parse(":main { :b { halt; nop; } }").unwrap_err(),
        "Line exists after terminator in block :b"
    );
    assert_eq!(FlowIrCode::parse(":main { }").unwrap_err(), "Region :main has no blocks");
    assert_eq!(
        FlowIrCode::parse("main").unwrap_err(),
        "expected static definition or region header near Ident(\"main\")"
    );
    assert_eq!(
        FlowIrCode::parse(":main { :b { %x := ; halt; } }").unwrap_err(),
        "expected value expression near Symbol(';')"
    );
    assert_eq!(
        FlowIrCode::parse(":main { :b { nop").unwrap_err(),
        "expected symbol ';' at end of input"
    );
    assert_eq!(FlowIrCode::parse("/* open").unwrap_err(), "unterminated comment");
}

#[test]
fn static_env_text() {
    let env = StaticEnv::parse("b = 2\n\n  a = :main  \r\nb = k:s[1]\n").unwrap();
    assert_eq!(env.print(), "a = :main\nb = k:s[1]\n");
    assert_eq!(StaticEnv::parse("x 1").err().unwrap(), "Invalid static input line: x 1");
    assert_eq!(StaticEnv::parse(" = 1").err().unwrap(), "Empty static input key");
}

fn run(code: &str, input: &str) -> (Vec<String>, Result<StaticEnv, String>) {
    let code = FlowIrCode::parse(code).unwrap();
    let mut machine = FlowIrMachine::make(code, StaticEnv::parse(input).unwrap()).unwrap();
    let mut outputs = Vec::new();
    for _ in 0..1000 {
        match machine.step(String::from("5")) {
            Ok(FlowStep::Continue { next, output }) => {
                if !output.is_empty() {
                    outputs.push(output);
                }
                machine = next;
            }
            Ok(FlowStep::Halt { output }) => return (outputs, Ok(output)),
            Err(e) => return (outputs, Err(e)),
        }
    }
    panic!("machine did not halt");
}

#[test]
fn machine_prints_and_stores() {
    let (out, env) = run(
        ":main { :entry { %x := #72; print %x; %y := %x + #1; print %y; @slot := st %y; halt; } }\n@slot 0",
        "",
    );
    assert_eq!(out, vec!["H".to_string(), "I".to_string()]);
    assert_eq!(env.unwrap().print(), "slot = 73\n");
}

#[test]
fn machine_loops_with_jumps() {
    let (out, env) = run(
        r#"
@n 3
@acc 0
:main {
  :top {
    %n := ld @n;
    if %n = #0 then :done;
    %a := ld @acc;
    %a := %a + %n;
    @acc := st %a;
    %n := %n - #1;
    @n := st %n;
    goto :top;
  }
  :done {
    halt;
  }
}
"#,
        "n = 4",
    );
    assert!(out.is_empty());
    assert_eq!(env.unwrap().print(), "acc = 10\nn = 0\n");
}

#[test]
fn machine_stack_heap_and_regions() {
    let (_, env) = run(
        r#"
@r 0
:main {
  :entry {
    push #5;
    push #6;
    lget %l;
    pop %t;
    halloc(#2) %h;
    hacc(%h)[#1] := st %t;
    %v := ld hacc(%h)[#1];
    %w := %v + %l;
    @r := st %w;
    hfree %h;
    enter :other;
  }
}
:other {
  :entry {
    %z := ld sacc #0;
    %k := ref @r;
    input deref %k;
    halt;
  }
}
"#,
        "",
    );
    assert_eq!(env.unwrap().print(), "r = 53\n");
}

#[test]
fn machine_errors() {
    let code = FlowIrCode::parse(":main { :entry { halt; } }").unwrap();
    let mut entries = Table::new();
    entries.insert("nope".to_string(), FlowValue::Num(Number(1)));
    let err = FlowIrMachine::make(code, StaticEnv { entries }).err().unwrap();
    assert_eq!(err, "Unknown static input label: @nope");

    let code = FlowIrCode::parse(":other { :entry { halt; } }").unwrap();
    let err = FlowIrMachine::make(code, StaticEnv::parse("").unwrap()).err().unwrap();
    assert_eq!(err, "Missing entry region: :main");

    let (_, env) = run(":main { :entry { pop %x; halt; } }", "");
    assert_eq!(env.err().unwrap(), "pop on empty stack");
    let (_, env) = run(":main { :entry { hfree #9; halt; } }", "");
    assert_eq!(env.err().unwrap(), "hfree unknown handle: 9");
    let (_, env) = run(":main { :entry { goto :nowhere; } }", "");
    assert_eq!(env.err().unwrap(), "goto target must be local block label, got :nowhere");
}

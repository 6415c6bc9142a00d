use vstd::prelude::*;

pub mod counter_web;
pub mod coroutine;
pub mod coroutine_machine;
pub mod coroutine_parser;
pub mod coroutine_view;
pub mod countermachine;
pub mod counter_program;
pub mod example_counter;
pub mod number;
pub mod table;
pub mod text;
pub mod view;
pub mod circuit_lexer;
pub mod logic_circuit;
pub mod circuit_parser;
pub mod circuit_view;
pub mod cpu_emulator;
pub mod flow_ir;
pub mod flow_machine;
pub mod flow_view;
pub mod flow_text;
pub mod flow_parser;
pub mod flow_env;
pub mod flow_roundtrip;
pub mod flow_printed;
pub mod flow_parsed;
pub mod goto_lang;
pub mod coroutine_text;
pub mod lambda_term;
pub mod lambda_beta;
pub mod lambda_parse;
pub mod lambda_machine;
pub mod lambda_core;
pub mod lambda_examples;
pub mod lambda_printed;
pub mod pcf_core;
pub mod pcf_subst;
pub mod pcf_step;

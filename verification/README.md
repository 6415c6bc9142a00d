# models

Small models of computation, each with its text format and its step
function, written in Verus and proved against their contracts:

- `example_counter`, `counter_web`: a counter that counts to ten.
- `countermachine`: a register machine with increment and decrement.
- `cpu_emulator`: bytes, registers and a growing memory of a small CPU.
- `coroutine`, `coroutine_parser`, `coroutine_machine`: a language of
  functions run as tasks by a number of agents.
- `circuit_lexer`, `logic_circuit`, `circuit_parser`: logic gates composed
  into graphs and iterated circuits, and their description language.
- `flow_ir`, `flow_text`, `flow_parser`, `flow_env`, `flow_machine`: a flow
  IR of regions and blocks over registers, static data, a stack and a heap;
  `flow_roundtrip` and `flow_printed` prove that printed code reads back as
  itself, and `flow_parsed` that every code the parser reads is printable,
  so that the text of parsed code reads back as that code.
- `goto_lang`: counters changed by a program of jumps.
- `lambda_term`, `lambda_parse`, `lambda_machine`: untyped lambda terms
  whose variables are told apart by ids, their redexes marked and reduced
  one at a time, their text, and snapshots of them; `lambda_core` lists
  the redexes of a term one by one, and `lambda_examples` holds Church
  encodings; `lambda_printed` proves that a printed term in normal form
  reads back with its names in place.
- `lambda_beta`: capture-avoiding substitution for the lambda terms; a
  binder that would catch a free variable of the argument is renamed to
  the least id in use nowhere, and the free variables of the result are
  stated exactly.
- `pcf_core`, `pcf_subst`, `pcf_step`: the core of a lambda calculus with numbers,
  `let` and recursive functions: its free and bound variables, alpha
  equivalence, and substitution that renames every binder it passes to a
  fresh id, and its call-by-value step; `Lam`, the terms of the calculus
  with numbers, is the same type. The calculus with continuations built on this core (its
  control operators, its machine and its text syntax) is not modelled
  here.
- `counter_program`: a register machine with increment, decrement, clear,
  copy and a jump on zero, and one step of it. Its text syntax is not
  modelled here.
- `number`, `text`, `table`: numerals, text helpers and ordered tables.

- `view`, `coroutine_view`, `flow_view`, `circuit_view`: what the running
  models show, as plain data: panels of titled texts and tables of strings
  for the coroutine and flow machines, and boxes, pins and wires for a wired
  circuit, each stated exactly over the machine or circuit it shows.

Drawing these views in a browser, and the text grammar of the circuit core,
are not part of this crate.

`tests/` holds the tests, and `app/` a command-line runner for the
counter, coroutine, circuit, flow and lambda models.

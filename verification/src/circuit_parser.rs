//! Circuit descriptions: `graph` blocks that wire named parts, and `iter`
//! blocks that unroll a part, each added under its name to a list of
//! circuits that starts with the gates.
use vstd::prelude::*;

use crate::circuit_lexer::{lex_circuit, lex_circuit_spec, toks_view, DelimKind, TokV, Token};
use crate::coroutine::{push_all, push_str};
use crate::logic_circuit::{
    find_part, find_part_exec, lc_view, lemma_verts_view, mix_check, name_pairs_view, pin_maps_view,
    verts_view, Circuit, Gate, GateKind, IterModel, LogicCircuit, MixModel, NamedPin, PinV,
};
use crate::text::{chars_of, string_of};

verus! {

// ---------------------------------------------------------------------
// The grammar, over tokens
// ---------------------------------------------------------------------

/// Whether there is an item at `p` in the current bracket group.
pub open spec fn has_item(t: Seq<TokV>, p: int) -> bool {
    0 <= p < t.len() && !(t[p] is Close)
}

/// Where the text after the group whose closing bracket is at `p` starts.
pub open spec fn group_end(t: Seq<TokV>, p: int) -> int {
    if 0 <= p < t.len() {
        p + 1
    } else {
        p
    }
}

pub open spec fn is_name_part(k: TokV) -> bool {
    k is Ident || k is Number
}

pub open spec fn part_text(k: TokV) -> Seq<char> {
    match k {
        TokV::Ident(s) => s,
        TokV::Number(s) => s,
        _ => seq![],
    }
}

/// Whether a token is `-` or `_`, which join the parts of a name.
pub open spec fn is_joiner(k: TokV) -> bool {
    k == TokV::Symbol('-') || k == TokV::Symbol('_')
}

pub open spec fn joiner_char(k: TokV) -> char {
    match k {
        TokV::Symbol(c) => c,
        _ => ' ',
    }
}

/// The rest of a name from `p` on, after what was read of it, `acc`.
pub open spec fn name_rest(t: Seq<TokV>, p: int, acc: Seq<char>) -> Result<(Seq<char>, int), Seq<char>>
    decreases t.len() - p,
{
    if has_item(t, p) && is_joiner(t[p]) {
        if has_item(t, p + 1) && is_name_part(t[p + 1]) {
            name_rest(t, p + 2, acc.push(joiner_char(t[p])) + part_text(t[p + 1]))
        } else {
            Err("expected name"@)
        }
    } else {
        Ok((acc, p))
    }
}

/// A name at `p`: words and numbers joined by `-` or `_`.
pub open spec fn name_at(t: Seq<TokV>, p: int) -> Result<(Seq<char>, int), Seq<char>> {
    if !has_item(t, p) {
        Err("expected name"@)
    } else if is_name_part(t[p]) {
        name_rest(t, p + 1, part_text(t[p]))
    } else if is_joiner(t[p]) {
        name_rest(t, p + 1, seq![joiner_char(t[p])])
    } else {
        Err("expected name"@)
    }
}

pub proof fn lemma_name_rest(t: Seq<TokV>, p: int, acc: Seq<char>)
    ensures
        name_rest(t, p, acc) matches Ok((n, q)) ==> q >= p,
    decreases t.len() - p,
{
    if has_item(t, p) && is_joiner(t[p]) && has_item(t, p + 1) && is_name_part(t[p + 1]) {
        lemma_name_rest(t, p + 2, acc.push(joiner_char(t[p])) + part_text(t[p + 1]));
    }
}

pub proof fn lemma_name_at(t: Seq<TokV>, p: int)
    ensures
        name_at(t, p) matches Ok((n, q)) ==> p < q <= t.len(),
{
    if has_item(t, p) {
        if is_name_part(t[p]) {
            lemma_name_rest(t, p + 1, part_text(t[p]));
            lemma_name_rest_bound(t, p + 1, part_text(t[p]));
        } else if is_joiner(t[p]) {
            lemma_name_rest(t, p + 1, seq![joiner_char(t[p])]);
            lemma_name_rest_bound(t, p + 1, seq![joiner_char(t[p])]);
        }
    }
}

pub proof fn lemma_name_rest_bound(t: Seq<TokV>, p: int, acc: Seq<char>)
    requires
        p <= t.len(),
    ensures
        name_rest(t, p, acc) matches Ok((n, q)) ==> q <= t.len(),
    decreases t.len() - p,
{
    if has_item(t, p) && is_joiner(t[p]) && has_item(t, p + 1) && is_name_part(t[p + 1]) {
        lemma_name_rest_bound(t, p + 2, acc.push(joiner_char(t[p])) + part_text(t[p + 1]));
    }
}

pub open spec fn symbol_message(c: char) -> Seq<char> {
    "expected symbol '"@ + seq![c] + "'"@
}

/// The symbol `c` at `p`.
pub open spec fn symbol_at(t: Seq<TokV>, p: int, c: char) -> Result<int, Seq<char>> {
    if has_item(t, p) && t[p] == TokV::Symbol(c) {
        Ok(p + 1)
    } else {
        Err(symbol_message(c))
    }
}

/// Past the commas at `p`.
pub open spec fn skip_commas(t: Seq<TokV>, p: int) -> int
    decreases t.len() - p,
{
    if has_item(t, p) && t[p] == TokV::Symbol(',') {
        skip_commas(t, p + 1)
    } else {
        p
    }
}

pub proof fn lemma_skip_commas(t: Seq<TokV>, p: int)
    ensures
        skip_commas(t, p) >= p,
        p <= t.len() ==> skip_commas(t, p) <= t.len(),
    decreases t.len() - p,
{
    if has_item(t, p) && t[p] == TokV::Symbol(',') {
        lemma_skip_commas(t, p + 1);
    }
}

pub open spec fn keyword_message(kw: Seq<char>) -> Seq<char> {
    "expected keyword '"@ + kw + "'"@
}

/// The keyword `kw` at `p`.
pub open spec fn keyword_at(t: Seq<TokV>, p: int, kw: Seq<char>) -> Result<int, Seq<char>> {
    match name_at(t, p) {
        Err(m) => Err(m),
        Ok((n, q)) => if n == kw {
            Ok(q)
        } else {
            Err(keyword_message(kw))
        },
    }
}

/// Whether the keyword `kw` is at `p`.
pub open spec fn is_keyword(t: Seq<TokV>, p: int, kw: Seq<char>) -> bool {
    match name_at(t, p) {
        Ok((n, q)) => n == kw,
        Err(_) => false,
    }
}

/// An opening brace at `p`.
pub open spec fn brace_at(t: Seq<TokV>, p: int) -> Result<int, Seq<char>> {
    if has_item(t, p) && t[p] == TokV::Open(DelimKind::Brace) {
        Ok(p + 1)
    } else {
        Err("expected delimiter Brace"@)
    }
}

/// Names separated by commas, to the end of the group.
pub open spec fn names_loop(t: Seq<TokV>, p: int, acc: Seq<Seq<char>>) -> Result<(Seq<Seq<char>>, int), Seq<char>>
    decreases t.len() - p,
{
    if !has_item(t, p) {
        Ok((acc, group_end(t, p)))
    } else {
        match name_at(t, p) {
            Err(m) => Err(m),
            Ok((n, q)) => {
                proof {
                    lemma_name_at(t, p);
                    lemma_skip_commas(t, q);
                }
                names_loop(t, skip_commas(t, q), acc.push(n))
            },
        }
    }
}

/// `{ NAME, ... }`
pub open spec fn name_block(t: Seq<TokV>, p: int) -> Result<(Seq<Seq<char>>, int), Seq<char>> {
    match brace_at(t, p) {
        Err(m) => Err(m),
        Ok(q) => names_loop(t, skip_commas(t, q), seq![]),
    }
}

/// `NAME = NAME . NAME`: an output of the graph and the inner pin it shows.
pub open spec fn output_item(t: Seq<TokV>, p: int) -> Result<((Seq<char>, PinV), int), Seq<char>> {
    match name_at(t, p) {
        Err(m) => Err(m),
        Ok((ext, q1)) => match symbol_at(t, q1, '=') {
            Err(m) => Err(m),
            Ok(q2) => match name_at(t, q2) {
                Err(m) => Err(m),
                Ok((name, q3)) => match symbol_at(t, q3, '.') {
                    Err(m) => Err(m),
                    Ok(q4) => match name_at(t, q4) {
                        Err(m) => Err(m),
                        Ok((pin, q5)) => Ok(((ext, (name, pin)), q5)),
                    },
                },
            },
        },
    }
}

pub proof fn lemma_output_item(t: Seq<TokV>, p: int)
    ensures
        output_item(t, p) matches Ok((x, q)) ==> p < q <= t.len(),
{
    lemma_name_at(t, p);
    if let Ok((ext, q1)) = name_at(t, p) {
        if let Ok(q2) = symbol_at(t, q1, '=') {
            lemma_name_at(t, q2);
            if let Ok((name, q3)) = name_at(t, q2) {
                if let Ok(q4) = symbol_at(t, q3, '.') {
                    lemma_name_at(t, q4);
                }
            }
        }
    }
}

pub open spec fn outputs_loop(t: Seq<TokV>, p: int, acc: Seq<(Seq<char>, PinV)>) -> Result<(Seq<(Seq<char>, PinV)>, int), Seq<char>>
    decreases t.len() - p,
{
    if !has_item(t, p) {
        Ok((acc, group_end(t, p)))
    } else {
        match output_item(t, p) {
            Err(m) => Err(m),
            Ok((x, q)) => {
                proof {
                    lemma_output_item(t, p);
                    lemma_skip_commas(t, q);
                }
                outputs_loop(t, skip_commas(t, q), acc.push(x))
            },
        }
    }
}

/// `{ NAME = NAME . NAME, ... }`
pub open spec fn output_block(t: Seq<TokV>, p: int) -> Result<(Seq<(Seq<char>, PinV)>, int), Seq<char>> {
    match brace_at(t, p) {
        Err(m) => Err(m),
        Ok(q) => outputs_loop(t, skip_commas(t, q), seq![]),
    }
}

/// Where an input pin of a part takes its value: an output pin of a part,
/// or an input of the graph.
pub enum SourceV {
    Pin(PinV),
    Input(Seq<char>),
}

/// `NAME = NAME . NAME` or `NAME = NAME`: an input pin of the part and its
/// source.
pub open spec fn conn_item(t: Seq<TokV>, p: int) -> Result<((Seq<char>, SourceV), int), Seq<char>> {
    match name_at(t, p) {
        Err(m) => Err(m),
        Ok((inpin, q1)) => match symbol_at(t, q1, '=') {
            Err(m) => Err(m),
            Ok(q2) => match name_at(t, q2) {
                Err(m) => Err(m),
                Ok((first, q3)) => if has_item(t, q3) && t[q3] == TokV::Symbol('.') {
                    match name_at(t, q3 + 1) {
                        Err(m) => Err(m),
                        Ok((second, q4)) => Ok(((inpin, SourceV::Pin((first, second))), q4)),
                    }
                } else {
                    Ok(((inpin, SourceV::Input(first)), q3))
                },
            },
        },
    }
}

pub proof fn lemma_conn_item(t: Seq<TokV>, p: int)
    ensures
        conn_item(t, p) matches Ok((x, q)) ==> p < q <= t.len(),
{
    lemma_name_at(t, p);
    if let Ok((inpin, q1)) = name_at(t, p) {
        if let Ok(q2) = symbol_at(t, q1, '=') {
            lemma_name_at(t, q2);
            if let Ok((first, q3)) = name_at(t, q2) {
                lemma_name_at(t, q3 + 1);
            }
        }
    }
}

pub open spec fn conns_loop(t: Seq<TokV>, p: int, acc: Seq<(Seq<char>, SourceV)>) -> Result<(Seq<(Seq<char>, SourceV)>, int), Seq<char>>
    decreases t.len() - p,
{
    if !has_item(t, p) {
        Ok((acc, group_end(t, p)))
    } else {
        match conn_item(t, p) {
            Err(m) => Err(m),
            Ok((x, q)) => {
                proof {
                    lemma_conn_item(t, p);
                    lemma_skip_commas(t, q);
                }
                conns_loop(t, skip_commas(t, q), acc.push(x))
            },
        }
    }
}

/// A part of a graph: `NAME, NAME { CONN, ... }`, its name, the name of the
/// circuit it is, and where its input pins take their values.
pub struct PartV {
    pub name: Seq<char>,
    pub usename: Seq<char>,
    pub conns: Seq<(Seq<char>, SourceV)>,
}

pub open spec fn part_item(t: Seq<TokV>, p: int) -> Result<(PartV, int), Seq<char>> {
    match name_at(t, p) {
        Err(m) => Err(m),
        Ok((name, q1)) => match symbol_at(t, q1, ',') {
            Err(m) => Err(m),
            Ok(q2) => match name_at(t, q2) {
                Err(m) => Err(m),
                Ok((usename, q3)) => match brace_at(t, q3) {
                    Err(m) => Err(m),
                    Ok(q4) => match conns_loop(t, skip_commas(t, q4), seq![]) {
                        Err(m) => Err(m),
                        Ok((conns, q5)) => Ok((PartV { name, usename, conns }, q5)),
                    },
                },
            },
        },
    }
}

pub proof fn lemma_conns_loop(t: Seq<TokV>, p: int, acc: Seq<(Seq<char>, SourceV)>)
    requires
        p <= t.len(),
    ensures
        conns_loop(t, p, acc) matches Ok((x, q)) ==> p <= q <= t.len(),
    decreases t.len() - p,
{
    if has_item(t, p) {
        lemma_conn_item(t, p);
        if let Ok((x, q)) = conn_item(t, p) {
            lemma_skip_commas(t, q);
            lemma_conns_loop(t, skip_commas(t, q), acc.push(x));
        }
    }
}

pub proof fn lemma_part_item(t: Seq<TokV>, p: int)
    ensures
        part_item(t, p) matches Ok((x, q)) ==> p < q <= t.len(),
{
    lemma_name_at(t, p);
    if let Ok((name, q1)) = name_at(t, p) {
        if let Ok(q2) = symbol_at(t, q1, ',') {
            lemma_name_at(t, q2);
            if let Ok((usename, q3)) = name_at(t, q2) {
                if let Ok(q4) = brace_at(t, q3) {
                    lemma_skip_commas(t, q4);
                    lemma_conns_loop(t, skip_commas(t, q4), seq![]);
                }
            }
        }
    }
}

pub open spec fn parts_loop(t: Seq<TokV>, p: int, acc: Seq<PartV>) -> Result<(Seq<PartV>, int), Seq<char>>
    decreases t.len() - p,
{
    if !has_item(t, p) {
        Ok((acc, group_end(t, p)))
    } else {
        match part_item(t, p) {
            Err(m) => Err(m),
            Ok((x, q)) => {
                proof {
                    lemma_part_item(t, p);
                }
                parts_loop(t, q, acc.push(x))
            },
        }
    }
}

/// A `graph` block.
pub struct GraphV {
    pub name: Seq<char>,
    pub inpins: Seq<Seq<char>>,
    pub otpins: Seq<(Seq<char>, PinV)>,
    pub parts: Seq<PartV>,
}

/// `graph: NAME { in { NAMES } out { OUTPUTS } PARTS }`
pub open spec fn graph_decl(t: Seq<TokV>, p: int) -> Result<(GraphV, int), Seq<char>> {
    match keyword_at(t, p, "graph"@) {
        Err(m) => Err(m),
        Ok(q1) => match symbol_at(t, q1, ':') {
            Err(m) => Err(m),
            Ok(q2) => match name_at(t, q2) {
                Err(m) => Err(m),
                Ok((name, q3)) => match brace_at(t, q3) {
                    Err(m) => Err(m),
                    Ok(q4) => match keyword_at(t, q4, "in"@) {
                        Err(m) => Err(m),
                        Ok(q5) => match name_block(t, q5) {
                            Err(m) => Err(m),
                            Ok((inpins, q6)) => match keyword_at(t, q6, "out"@) {
                                Err(m) => Err(m),
                                Ok(q7) => match output_block(t, q7) {
                                    Err(m) => Err(m),
                                    Ok((otpins, q8)) => match parts_loop(t, q8, seq![]) {
                                        Err(m) => Err(m),
                                        Ok((parts, q9)) => Ok(
                                            (GraphV { name, inpins, otpins, parts }, q9),
                                        ),
                                    },
                                },
                            },
                        },
                    },
                },
            },
        },
    }
}

/// `NAME = NAME`: a pin of one copy and the pin of the neighbour it feeds.
pub open spec fn pair_item(t: Seq<TokV>, p: int) -> Result<((Seq<char>, Seq<char>), int), Seq<char>> {
    match name_at(t, p) {
        Err(m) => Err(m),
        Ok((left, q1)) => match symbol_at(t, q1, '=') {
            Err(m) => Err(m),
            Ok(q2) => match name_at(t, q2) {
                Err(m) => Err(m),
                Ok((right, q3)) => Ok(((left, right), q3)),
            },
        },
    }
}

pub proof fn lemma_pair_item(t: Seq<TokV>, p: int)
    ensures
        pair_item(t, p) matches Ok((x, q)) ==> p < q <= t.len(),
{
    lemma_name_at(t, p);
    if let Ok((left, q1)) = name_at(t, p) {
        if let Ok(q2) = symbol_at(t, q1, '=') {
            lemma_name_at(t, q2);
        }
    }
}

pub open spec fn pairs_loop(t: Seq<TokV>, p: int, acc: Seq<(Seq<char>, Seq<char>)>) -> Result<(Seq<(Seq<char>, Seq<char>)>, int), Seq<char>>
    decreases t.len() - p,
{
    if !has_item(t, p) {
        Ok((acc, group_end(t, p)))
    } else {
        match pair_item(t, p) {
            Err(m) => Err(m),
            Ok((x, q)) => {
                proof {
                    lemma_pair_item(t, p);
                    lemma_skip_commas(t, q);
                }
                pairs_loop(t, skip_commas(t, q), acc.push(x))
            },
        }
    }
}

/// `{ NAME = NAME, ... }`
pub open spec fn pair_block(t: Seq<TokV>, p: int) -> Result<(Seq<(Seq<char>, Seq<char>)>, int), Seq<char>> {
    match brace_at(t, p) {
        Err(m) => Err(m),
        Ok(q) => pairs_loop(t, skip_commas(t, q), seq![]),
    }
}

/// An `iter` block.
pub struct IterV {
    pub name: Seq<char>,
    pub initlc: Seq<char>,
    pub next: Seq<(Seq<char>, Seq<char>)>,
    pub prev: Seq<(Seq<char>, Seq<char>)>,
}

/// `iter: NAME { NAME, next { PAIRS } prev { PAIRS } }`
pub open spec fn iter_decl(t: Seq<TokV>, p: int) -> Result<(IterV, int), Seq<char>> {
    match keyword_at(t, p, "iter"@) {
        Err(m) => Err(m),
        Ok(q1) => match symbol_at(t, q1, ':') {
            Err(m) => Err(m),
            Ok(q2) => match name_at(t, q2) {
                Err(m) => Err(m),
                Ok((name, q3)) => match brace_at(t, q3) {
                    Err(m) => Err(m),
                    Ok(q4) => match name_at(t, q4) {
                        Err(m) => Err(m),
                        Ok((initlc, q5)) => match symbol_at(t, q5, ',') {
                            Err(m) => Err(m),
                            Ok(q6) => match keyword_at(t, q6, "next"@) {
                                Err(m) => Err(m),
                                Ok(q7) => match pair_block(t, q7) {
                                    Err(m) => Err(m),
                                    Ok((next, q8)) => match keyword_at(t, q8, "prev"@) {
                                        Err(m) => Err(m),
                                        Ok(q9) => match pair_block(t, q9) {
                                            Err(m) => Err(m),
                                            Ok((prev, q10)) => if has_item(t, q10) {
                                                Err("unexpected trailing input"@)
                                            } else {
                                                Ok(
                                                    (
                                                        IterV { name, initlc, next, prev },
                                                        group_end(t, q10),
                                                    ),
                                                )
                                            },
                                        },
                                    },
                                },
                            },
                        },
                    },
                },
            },
        },
    }
}


pub proof fn lemma_names_loop(t: Seq<TokV>, p: int, acc: Seq<Seq<char>>)
    requires
        p <= t.len(),
    ensures
        names_loop(t, p, acc) matches Ok((x, q)) ==> p <= q <= t.len(),
    decreases t.len() - p,
{
    if has_item(t, p) {
        lemma_name_at(t, p);
        if let Ok((x, q)) = name_at(t, p) {
            lemma_skip_commas(t, q);
            lemma_names_loop(t, skip_commas(t, q), acc.push(x));
        }
    }
}

pub proof fn lemma_outputs_loop(t: Seq<TokV>, p: int, acc: Seq<(Seq<char>, PinV)>)
    requires
        p <= t.len(),
    ensures
        outputs_loop(t, p, acc) matches Ok((x, q)) ==> p <= q <= t.len(),
    decreases t.len() - p,
{
    if has_item(t, p) {
        lemma_output_item(t, p);
        if let Ok((x, q)) = output_item(t, p) {
            lemma_skip_commas(t, q);
            lemma_outputs_loop(t, skip_commas(t, q), acc.push(x));
        }
    }
}

pub proof fn lemma_pairs_loop(t: Seq<TokV>, p: int, acc: Seq<(Seq<char>, Seq<char>)>)
    requires
        p <= t.len(),
    ensures
        pairs_loop(t, p, acc) matches Ok((x, q)) ==> p <= q <= t.len(),
    decreases t.len() - p,
{
    if has_item(t, p) {
        lemma_pair_item(t, p);
        if let Ok((x, q)) = pair_item(t, p) {
            lemma_skip_commas(t, q);
            lemma_pairs_loop(t, skip_commas(t, q), acc.push(x));
        }
    }
}

pub proof fn lemma_parts_loop(t: Seq<TokV>, p: int, acc: Seq<PartV>)
    requires
        p <= t.len(),
    ensures
        parts_loop(t, p, acc) matches Ok((x, q)) ==> p <= q <= t.len(),
    decreases t.len() - p,
{
    if has_item(t, p) {
        lemma_part_item(t, p);
        if let Ok((x, q)) = part_item(t, p) {
            lemma_parts_loop(t, q, acc.push(x));
        }
    }
}

pub proof fn lemma_graph_decl(t: Seq<TokV>, p: int)
    ensures
        graph_decl(t, p) matches Ok((g, q)) ==> p < q <= t.len(),
{
    lemma_name_at(t, p);
    if let Ok(q1) = keyword_at(t, p, "graph"@) {
        if let Ok(q2) = symbol_at(t, q1, ':') {
            lemma_name_at(t, q2);
            if let Ok((name, q3)) = name_at(t, q2) {
                if let Ok(q4) = brace_at(t, q3) {
                    lemma_name_at(t, q4);
                    if let Ok(q5) = keyword_at(t, q4, "in"@) {
                        if let Ok(q) = brace_at(t, q5) {
                            lemma_skip_commas(t, q);
                            lemma_names_loop(t, skip_commas(t, q), seq![]);
                        }
                        if let Ok((inpins, q6)) = name_block(t, q5) {
                            lemma_name_at(t, q6);
                            if let Ok(q7) = keyword_at(t, q6, "out"@) {
                                if let Ok(q) = brace_at(t, q7) {
                                    lemma_skip_commas(t, q);
                                    lemma_outputs_loop(t, skip_commas(t, q), seq![]);
                                }
                                if let Ok((otpins, q8)) = output_block(t, q7) {
                                    lemma_parts_loop(t, q8, seq![]);
                                }
                            }
                        }
                    }
                }
            }
        }
    }
}

pub proof fn lemma_iter_decl(t: Seq<TokV>, p: int)
    ensures
        iter_decl(t, p) matches Ok((d, q)) ==> p < q <= t.len(),
{
    lemma_name_at(t, p);
    if let Ok(q1) = keyword_at(t, p, "iter"@) {
        if let Ok(q2) = symbol_at(t, q1, ':') {
            lemma_name_at(t, q2);
            if let Ok((name, q3)) = name_at(t, q2) {
                if let Ok(q4) = brace_at(t, q3) {
                    lemma_name_at(t, q4);
                    if let Ok((initlc, q5)) = name_at(t, q4) {
                        if let Ok(q6) = symbol_at(t, q5, ',') {
                            lemma_name_at(t, q6);
                            if let Ok(q7) = keyword_at(t, q6, "next"@) {
                                if let Ok(q) = brace_at(t, q7) {
                                    lemma_skip_commas(t, q);
                                    lemma_pairs_loop(t, skip_commas(t, q), seq![]);
                                }
                                if let Ok((next, q8)) = pair_block(t, q7) {
                                    lemma_name_at(t, q8);
                                    if let Ok(q9) = keyword_at(t, q8, "prev"@) {
                                        if let Ok(q) = brace_at(t, q9) {
                                            lemma_skip_commas(t, q);
                                            lemma_pairs_loop(t, skip_commas(t, q), seq![]);
                                        }
                                    }
                                }
                            }
                        }
                    }
                }
            }
        }
    }
}

// ---------------------------------------------------------------------
// What the declarations make
// ---------------------------------------------------------------------

/// The list with `c` added under `name`, unless the name is taken.
pub open spec fn list_insert(maps: Seq<(Seq<char>, Circuit)>, name: Seq<char>, c: Circuit) -> Seq<(Seq<char>, Circuit)> {
    if find_part(maps, name, 0) is None {
        maps.push((name, c))
    } else {
        maps
    }
}

/// The edges and input maps that the connections of part `lcname` add.
pub open spec fn build_conns(
    inpins: Seq<Seq<char>>,
    lcname: Seq<char>,
    conns: Seq<(Seq<char>, SourceV)>,
    j: int,
    edges: Seq<(PinV, PinV)>,
    inmaps: Seq<(Seq<char>, PinV)>,
) -> Result<(Seq<(PinV, PinV)>, Seq<(Seq<char>, PinV)>), Seq<char>>
    decreases conns.len() - j,
{
    if j < 0 || j >= conns.len() {
        Ok((edges, inmaps))
    } else {
        match conns[j].1 {
            SourceV::Pin(src) => build_conns(
                inpins,
                lcname,
                conns,
                j + 1,
                edges.push((src, (lcname, conns[j].0))),
                inmaps,
            ),
            SourceV::Input(i) => if !inpins.contains(i) {
                Err("not found inpin "@ + i)
            } else {
                build_conns(inpins, lcname, conns, j + 1, edges, inmaps.push((i, (lcname, conns[j].0))))
            },
        }
    }
}

/// The parts, edges and input maps of the parts from `i` on.
pub open spec fn build_parts(
    maps: Seq<(Seq<char>, Circuit)>,
    inpins: Seq<Seq<char>>,
    parts: Seq<PartV>,
    i: int,
    verts: Seq<(Seq<char>, Circuit)>,
    edges: Seq<(PinV, PinV)>,
    inmaps: Seq<(Seq<char>, PinV)>,
) -> Result<(Seq<(Seq<char>, Circuit)>, Seq<(PinV, PinV)>, Seq<(Seq<char>, PinV)>), Seq<char>>
    decreases parts.len() - i,
{
    if i < 0 || i >= parts.len() {
        Ok((verts, edges, inmaps))
    } else {
        let pt = parts[i];
        match find_part(maps, pt.usename, 0) {
            None => Err("not found name "@ + pt.usename),
            Some(k) => match build_conns(inpins, pt.name, pt.conns, 0, edges, inmaps) {
                Err(m) => Err(m),
                Ok((e2, m2)) => build_parts(
                    maps,
                    inpins,
                    parts,
                    i + 1,
                    verts.push((pt.name, maps[k].1)),
                    e2,
                    m2,
                ),
            },
        }
    }
}

/// The circuit a `graph` block makes from the circuits of `maps`.
pub open spec fn graph_circuit(maps: Seq<(Seq<char>, Circuit)>, g: GraphV) -> Result<Circuit, Seq<char>> {
    match build_parts(maps, g.inpins, g.parts, 0, seq![], seq![], seq![]) {
        Err(m) => Err(m),
        Ok((verts, edges, inmaps)) => match mix_check(verts, edges) {
            Err(m) => Err(m),
            Ok(_) => Ok(
                Circuit::Mix(
                    Box::new(
                        MixModel {
                            kind: g.name,
                            verts,
                            edges,
                            inpin_maps: inmaps,
                            otpin_maps: g.otpins,
                        },
                    ),
                ),
            ),
        },
    }
}

/// The circuit an `iter` block makes from the circuits of `maps`.
pub open spec fn iter_circuit(maps: Seq<(Seq<char>, Circuit)>, d: IterV) -> Result<Circuit, Seq<char>> {
    match find_part(maps, d.initlc, 0) {
        None => Err("not found name "@ + d.initlc),
        Some(k) => Ok(
            Circuit::Iter(
                Box::new(
                    IterModel {
                        kind: d.name,
                        init: maps[k].1,
                        used: seq![],
                        next_edges: d.next,
                        prev_edges: d.prev,
                        inpin_maps: seq![],
                        otpin_maps: seq![],
                    },
                ),
            ),
        ),
    }
}

/// The list after the declarations from `p` on, with the error that
/// stopped them, if one did.
pub open spec fn decls_from(t: Seq<TokV>, p: int, maps: Seq<(Seq<char>, Circuit)>) -> (Seq<(Seq<char>, Circuit)>, Option<Seq<char>>)
    decreases t.len() - p,
{
    if !has_item(t, p) {
        (maps, None)
    } else if is_keyword(t, p, "graph"@) {
        match graph_decl(t, p) {
            Err(m) => (maps, Some(m)),
            Ok((g, q)) => match graph_circuit(maps, g) {
                Err(m) => (maps, Some(m)),
                Ok(c) => {
                    proof {
                        lemma_graph_decl(t, p);
                    }
                    decls_from(t, q, list_insert(maps, g.name, c))
                },
            },
        }
    } else if is_keyword(t, p, "iter"@) {
        match iter_decl(t, p) {
            Err(m) => (maps, Some(m)),
            Ok((d, q)) => match iter_circuit(maps, d) {
                Err(m) => (maps, Some(m)),
                Ok(c) => {
                    proof {
                        lemma_iter_decl(t, p);
                    }
                    decls_from(t, q, list_insert(maps, d.name, c))
                },
            },
        }
    } else {
        (maps, Some("expected graph or iter"@))
    }
}

proof fn lemma_decls_prefix(t: Seq<TokV>, p: int, maps: Seq<(Seq<char>, Circuit)>)
    ensures
        decls_from(t, p, maps).0.len() >= maps.len(),
        decls_from(t, p, maps).0.subrange(0, maps.len() as int) == maps,
    decreases t.len() - p,
{
    assert(maps.subrange(0, maps.len() as int) =~= maps);
    if has_item(t, p) {
        if is_keyword(t, p, "graph"@) {
            lemma_graph_decl(t, p);
            if let Ok((g, q)) = graph_decl(t, p) {
                if let Ok(c) = graph_circuit(maps, g) {
                    let m2 = list_insert(maps, g.name, c);
                    assert(m2.subrange(0, maps.len() as int) =~= maps);
                    lemma_decls_prefix(t, q, m2);
                    let out = decls_from(t, q, m2).0;
                    assert(out.subrange(0, maps.len() as int) =~= out.subrange(0, m2.len() as int).subrange(
                        0,
                        maps.len() as int,
                    ));
                }
            }
        } else if is_keyword(t, p, "iter"@) {
            lemma_iter_decl(t, p);
            if let Ok((d, q)) = iter_decl(t, p) {
                if let Ok(c) = iter_circuit(maps, d) {
                    let m2 = list_insert(maps, d.name, c);
                    assert(m2.subrange(0, maps.len() as int) =~= maps);
                    lemma_decls_prefix(t, q, m2);
                    let out = decls_from(t, q, m2).0;
                    assert(out.subrange(0, maps.len() as int) =~= out.subrange(0, m2.len() as int).subrange(
                        0,
                        maps.len() as int,
                    ));
                }
            }
        }
    }
}

/// Reading a text only adds circuits after those already in the list, on
/// success and on error alike, and reading an empty text adds none.
pub proof fn law_parse_keeps_list(text: Seq<char>, maps: Seq<(Seq<char>, Circuit)>)
    ensures
        parse_spec(text, maps).0.len() >= maps.len(),
        parse_spec(text, maps).0.subrange(0, maps.len() as int) == maps,
        parse_spec(Seq::<char>::empty(), maps) == (maps, None::<Seq<char>>),
{
    assert(maps.subrange(0, maps.len() as int) =~= maps);
    if let Ok(ts) = lex_circuit_spec(text) {
        lemma_decls_prefix(ts, 0, maps);
    }
    let e = Seq::<char>::empty();
    assert(crate::circuit_lexer::lex_at(e, 0) == Ok::<Seq<TokV>, Seq<char>>(seq![]));
    assert(crate::circuit_lexer::nests_from(Seq::<TokV>::empty(), 0, seq![]));
    assert(lex_circuit_spec(e) == Ok::<Seq<TokV>, Seq<char>>(seq![]));
}

/// The list after reading `text` into `maps`, with the error that stopped
/// the reading, if one did.
/// No two circuits of the list have the same name.
pub open spec fn names_distinct(maps: Seq<(Seq<char>, Circuit)>) -> bool {
    forall|i: int, j: int| 0 <= i < j < maps.len() ==> maps[i].0 != maps[j].0
}

proof fn lemma_find_none(maps: Seq<(Seq<char>, Circuit)>, name: Seq<char>, i: int)
    requires
        0 <= i,
        find_part(maps, name, i) is None,
    ensures
        forall|k: int| i <= k < maps.len() ==> maps[k].0 != name,
    decreases maps.len() - i,
{
    if i < maps.len() {
        lemma_find_none(maps, name, i + 1);
    }
}

proof fn lemma_insert_distinct(maps: Seq<(Seq<char>, Circuit)>, name: Seq<char>, c: Circuit)
    requires
        names_distinct(maps),
    ensures
        names_distinct(list_insert(maps, name, c)),
{
    if find_part(maps, name, 0) is None {
        lemma_find_none(maps, name, 0);
        let m2 = maps.push((name, c));
        assert forall|i: int, j: int| 0 <= i < j < m2.len() implies m2[i].0 != m2[j].0 by {
            if j == maps.len() {
                assert(maps[i].0 != name);
            }
        }
    }
}

proof fn lemma_decls_distinct(t: Seq<TokV>, p: int, maps: Seq<(Seq<char>, Circuit)>)
    requires
        names_distinct(maps),
    ensures
        names_distinct(decls_from(t, p, maps).0),
    decreases t.len() - p,
{
    if has_item(t, p) {
        if is_keyword(t, p, "graph"@) {
            lemma_graph_decl(t, p);
            if let Ok((g, q)) = graph_decl(t, p) {
                if let Ok(c) = graph_circuit(maps, g) {
                    lemma_insert_distinct(maps, g.name, c);
                    lemma_decls_distinct(t, q, list_insert(maps, g.name, c));
                }
            }
        } else if is_keyword(t, p, "iter"@) {
            lemma_iter_decl(t, p);
            if let Ok((d, q)) = iter_decl(t, p) {
                if let Ok(c) = iter_circuit(maps, d) {
                    lemma_insert_distinct(maps, d.name, c);
                    lemma_decls_distinct(t, q, list_insert(maps, d.name, c));
                }
            }
        }
    }
}

/// Reading a text adds a circuit only under a name the list does not hold
/// yet: a name given twice keeps its first circuit, so the names of a list
/// stay distinct.
pub proof fn law_parse_keeps_names_distinct(text: Seq<char>, maps: Seq<(Seq<char>, Circuit)>)
    requires
        names_distinct(maps),
    ensures
        names_distinct(parse_spec(text, maps).0),
{
    if let Ok(ts) = lex_circuit_spec(text) {
        lemma_decls_distinct(ts, 0, maps);
    }
}

pub open spec fn parse_spec(text: Seq<char>, maps: Seq<(Seq<char>, Circuit)>) -> (Seq<(Seq<char>, Circuit)>, Option<Seq<char>>) {
    match lex_circuit_spec(text) {
        Err(m) => (maps, Some(m)),
        Ok(ts) => decls_from(ts, 0, maps),
    }
}


// ---------------------------------------------------------------------
// The list of circuits
// ---------------------------------------------------------------------

/// Circuits under their names, in the order they were added.
pub struct List(pub Vec<(String, LogicCircuit)>);

pub open spec fn list_view(l: List) -> Seq<(Seq<char>, Circuit)> {
    verts_view(l.0@, l.0@.len())
}

pub proof fn lemma_verts_view_push(s: Seq<(String, LogicCircuit)>, x: (String, LogicCircuit))
    ensures
        verts_view(s.push(x), s.len() + 1) == verts_view(s, s.len()).push((x.0@, lc_view(x.1))),
{
    lemma_verts_view(s.push(x), s.len());
    lemma_verts_view(s, s.len());
    assert(verts_view(s.push(x), s.len()) =~= verts_view(s, s.len()));
}

impl List {
    /// The first circuit named `name`.
    pub fn get(&self, name: &String) -> (r: Option<&LogicCircuit>)
        ensures
            match find_part(list_view(*self), name@, 0) {
                Some(i) => r matches Some(c) && lc_view(*c) == list_view(*self)[i].1,
                None => r is None,
            },
    {
        proof {
            lemma_verts_view(self.0@, self.0@.len());
        }
        match find_part_exec(&self.0, name) {
            Some(i) => Some(&self.0[i].1),
            None => None,
        }
    }

    /// Adds a circuit under a name that no circuit has yet; `None`, and no
    /// change, where one has.
    pub fn insert(&mut self, name_loc: (String, LogicCircuit)) -> (r: Option<()>)
        ensures
            list_view(*final(self)) == list_insert(list_view(*old(self)), name_loc.0@, lc_view(name_loc.1)),
            r is Some <==> find_part(list_view(*old(self)), name_loc.0@, 0) is None,
    {
        if self.get(&name_loc.0).is_none() {
            proof {
                lemma_verts_view_push(self.0@, name_loc);
            }
            self.0.push(name_loc);
            Some(())
        } else {
            None
        }
    }
}

/// A name written in the program text.
pub fn by_const(name: &str) -> (r: String)
    ensures
        r@ == name@,
{
    String::from_str(name)
}

/// The gates that every list starts with.
pub open spec fn gate_list() -> Seq<(Seq<char>, Circuit)> {
    seq![
        ("NOT-T"@, Circuit::Gate(Gate { kind: GateKind::Not, state: true })),
        ("NOT-F"@, Circuit::Gate(Gate { kind: GateKind::Not, state: false })),
        ("AND-T"@, Circuit::Gate(Gate { kind: GateKind::And, state: true })),
        ("AND-F"@, Circuit::Gate(Gate { kind: GateKind::And, state: false })),
        ("OR-T"@, Circuit::Gate(Gate { kind: GateKind::Or, state: true })),
        ("OR-F"@, Circuit::Gate(Gate { kind: GateKind::Or, state: false })),
        ("CST-T"@, Circuit::Gate(Gate { kind: GateKind::Cst, state: true })),
        ("CST-F"@, Circuit::Gate(Gate { kind: GateKind::Cst, state: false })),
        ("BR-T"@, Circuit::Gate(Gate { kind: GateKind::Br, state: true })),
        ("BR-F"@, Circuit::Gate(Gate { kind: GateKind::Br, state: false })),
        ("END"@, Circuit::Gate(Gate { kind: GateKind::End, state: false })),
        ("DLY-T"@, Circuit::Gate(Gate { kind: GateKind::Delay, state: true })),
        ("DLY-F"@, Circuit::Gate(Gate { kind: GateKind::Delay, state: false })),
    ]
}

/// A list that holds the gates.
pub fn init_maps() -> (r: List)
    ensures
        list_view(r) == gate_list(),
{
    let v: Vec<(String, LogicCircuit)> = vec![
        (by_const("NOT-T"), LogicCircuit::new_gate(GateKind::Not, true)),
        (by_const("NOT-F"), LogicCircuit::new_gate(GateKind::Not, false)),
        (by_const("AND-T"), LogicCircuit::new_gate(GateKind::And, true)),
        (by_const("AND-F"), LogicCircuit::new_gate(GateKind::And, false)),
        (by_const("OR-T"), LogicCircuit::new_gate(GateKind::Or, true)),
        (by_const("OR-F"), LogicCircuit::new_gate(GateKind::Or, false)),
        (by_const("CST-T"), LogicCircuit::new_gate(GateKind::Cst, true)),
        (by_const("CST-F"), LogicCircuit::new_gate(GateKind::Cst, false)),
        (by_const("BR-T"), LogicCircuit::new_gate(GateKind::Br, true)),
        (by_const("BR-F"), LogicCircuit::new_gate(GateKind::Br, false)),
        (by_const("END"), LogicCircuit::new_gate(GateKind::End, false)),
        (by_const("DLY-T"), LogicCircuit::new_gate(GateKind::Delay, true)),
        (by_const("DLY-F"), LogicCircuit::new_gate(GateKind::Delay, false)),
    ];
    proof {
        lemma_verts_view(v@, v@.len());
        assert(verts_view(v@, v@.len()) =~= gate_list());
    }
    List(v)
}

// ---------------------------------------------------------------------
// Reading the grammar
// ---------------------------------------------------------------------

pub open spec fn strings_view(v: Seq<String>) -> Seq<Seq<char>> {
    v.map_values(|s: String| s@)
}

fn has_item_exec(t: &Vec<Token>, p: usize) -> (b: bool)
    ensures
        b == has_item(toks_view(t@), p as int),
{
    if p < t.len() {
        match &t[p] {
            Token::Close(_) => false,
            _ => true,
        }
    } else {
        false
    }
}

fn group_end_exec(t: &Vec<Token>, p: usize) -> (q: usize)
    requires
        p <= t.len(),
    ensures
        q == group_end(toks_view(t@), p as int),
        q <= t.len(),
{
    if p < t.len() {
        p + 1
    } else {
        p
    }
}

/// Whether the token at `p` is the symbol `c`, in the group.
fn symbol_here(t: &Vec<Token>, p: usize, c: char) -> (b: bool)
    ensures
        b == (has_item(toks_view(t@), p as int) && toks_view(t@)[p as int] == TokV::Symbol(c)),
        b ==> p < t.len(),
{
    if p < t.len() {
        match &t[p] {
            Token::Symbol(d) => *d == c,
            _ => false,
        }
    } else {
        false
    }
}

fn copy_chars(v: &Vec<char>) -> (r: Vec<char>)
    ensures
        r@ == v@,
{
    let mut r: Vec<char> = Vec::new();
    push_all(&mut r, v);
    assert(r@ =~= v@);
    r
}

fn name_exec(t: &Vec<Token>, p: usize) -> (r: Result<(String, usize), String>)
    requires
        p <= t.len(),
    ensures
        match name_at(toks_view(t@), p as int) {
            Ok((n, q)) => r matches Ok((s, q2)) && s@ == n && q2 == q,
            Err(m) => r matches Err(e) && e@ == m,
        },
{
    let ghost tv = toks_view(t@);
    if !has_item_exec(t, p) {
        return Err(String::from_str("expected name"));
    }
    assert(tv[p as int] == crate::circuit_lexer::tok_view(t@[p as int]));
    let mut acc: Vec<char> = match &t[p] {
        Token::Ident(s) => copy_chars(s),
        Token::Number(s) => copy_chars(s),
        Token::Symbol(c) => {
            if *c == '-' || *c == '_' {
                let mut v: Vec<char> = Vec::new();
                v.push(*c);
                v
            } else {
                return Err(String::from_str("expected name"));
            }
        },
        _ => {
            return Err(String::from_str("expected name"));
        },
    };
    assert(name_at(tv, p as int) == name_rest(tv, p + 1, acc@));
    let mut q: usize = p + 1;
    loop
        invariant
            p < q <= t.len(),
            tv == toks_view(t@),
            name_at(tv, p as int) == name_rest(tv, q as int, acc@),
        decreases t.len() - q,
    {
        if !(symbol_here(t, q, '-') || symbol_here(t, q, '_')) {
            assert(!(has_item(tv, q as int) && is_joiner(tv[q as int])));
            return Ok((string_of(&acc), q));
        }
        let c = if symbol_here(t, q, '-') {
            '-'
        } else {
            '_'
        };
        assert(joiner_char(tv[q as int]) == c);
        if !has_item_exec(t, q + 1) {
            return Err(String::from_str("expected name"));
        }
        assert(tv[q + 1] == crate::circuit_lexer::tok_view(t@[q + 1]));
        let ghost a0 = acc@;
        match &t[q + 1] {
            Token::Ident(s) => {
                acc.push(c);
                push_all(&mut acc, s);
            },
            Token::Number(s) => {
                acc.push(c);
                push_all(&mut acc, s);
            },
            _ => {
                return Err(String::from_str("expected name"));
            },
        }
        assert(acc@ =~= a0.push(c) + part_text(tv[q + 1]));
        q = q + 2;
    }
}

fn symbol_exec(t: &Vec<Token>, p: usize, c: char) -> (r: Result<usize, String>)
    ensures
        match symbol_at(toks_view(t@), p as int, c) {
            Ok(q) => r == Ok::<usize, String>(q as usize),
            Err(m) => r matches Err(e) && e@ == m,
        },
{
    if symbol_here(t, p, c) {
        Ok(p + 1)
    } else {
        let mut v = chars_of("expected symbol '");
        v.push(c);
        push_str(&mut v, "'");
        assert(v@ =~= symbol_message(c));
        Err(string_of(&v))
    }
}

fn skip_commas_exec(t: &Vec<Token>, p: usize) -> (q: usize)
    requires
        p <= t.len(),
    ensures
        q == skip_commas(toks_view(t@), p as int),
        p <= q <= t.len(),
{
    let mut q = p;
    while symbol_here(t, q, ',')
        invariant
            p <= q <= t.len(),
            skip_commas(toks_view(t@), p as int) == skip_commas(toks_view(t@), q as int),
        decreases t.len() - q,
    {
        q = q + 1;
    }
    q
}

fn keyword_exec(t: &Vec<Token>, p: usize, kw: &str) -> (r: Result<usize, String>)
    requires
        p <= t.len(),
    ensures
        match keyword_at(toks_view(t@), p as int, kw@) {
            Ok(q) => r == Ok::<usize, String>(q as usize),
            Err(m) => r matches Err(e) && e@ == m,
        },
{
    let (n, q) = name_exec(t, p)?;
    if n == String::from_str(kw) {
        Ok(q)
    } else {
        let mut v = chars_of("expected keyword '");
        push_str(&mut v, kw);
        push_str(&mut v, "'");
        assert(v@ =~= keyword_message(kw@));
        Err(string_of(&v))
    }
}

fn is_keyword_exec(t: &Vec<Token>, p: usize, kw: &str) -> (b: bool)
    requires
        p <= t.len(),
    ensures
        b == is_keyword(toks_view(t@), p as int, kw@),
{
    match name_exec(t, p) {
        Ok((n, _)) => n == String::from_str(kw),
        Err(_) => false,
    }
}

fn brace_exec(t: &Vec<Token>, p: usize) -> (r: Result<usize, String>)
    ensures
        match brace_at(toks_view(t@), p as int) {
            Ok(q) => r == Ok::<usize, String>(q as usize),
            Err(m) => r matches Err(e) && e@ == m,
        },
{
    if p < t.len() {
        match &t[p] {
            Token::Open(DelimKind::Brace) => {
                return Ok(p + 1);
            },
            _ => {},
        }
    }
    Err(String::from_str("expected delimiter Brace"))
}

fn name_block_exec(t: &Vec<Token>, p: usize) -> (r: Result<(Vec<String>, usize), String>)
    requires
        p <= t.len(),
    ensures
        match name_block(toks_view(t@), p as int) {
            Ok((ns, q)) => r matches Ok((v, q2)) && strings_view(v@) == ns && q2 == q,
            Err(m) => r matches Err(e) && e@ == m,
        },
{
    let ghost tv = toks_view(t@);
    let q0 = brace_exec(t, p)?;
    let mut q = skip_commas_exec(t, q0);
    let mut acc: Vec<String> = Vec::new();
    assert(strings_view(acc@) =~= seq![]);
    loop
        invariant
            q <= t.len(),
            tv == toks_view(t@),
            name_block(tv, p as int) == names_loop(tv, q as int, strings_view(acc@)),
        decreases t.len() - q,
    {
        if !has_item_exec(t, q) {
            return Ok((acc, group_end_exec(t, q)));
        }
        proof {
            lemma_name_at(tv, q as int);
        }
        let (n, q2) = name_exec(t, q)?;
        let ghost a0 = strings_view(acc@);
        acc.push(n);
        assert(strings_view(acc@) =~= a0.push(n@));
        q = skip_commas_exec(t, q2);
    }
}

fn output_item_exec(t: &Vec<Token>, p: usize) -> (r: Result<((String, NamedPin), usize), String>)
    requires
        p <= t.len(),
    ensures
        match output_item(toks_view(t@), p as int) {
            Ok((x, q)) => r matches Ok((v, q2)) && (v.0@, (v.1.0@, v.1.1@)) == x && q2 == q,
            Err(m) => r matches Err(e) && e@ == m,
        },
{
    let ghost tv = toks_view(t@);
    proof {
        lemma_name_at(tv, p as int);
    }
    let (ext, q1) = name_exec(t, p)?;
    let q2 = symbol_exec(t, q1, '=')?;
    proof {
        lemma_name_at(tv, q2 as int);
    }
    let (name, q3) = name_exec(t, q2)?;
    let q4 = symbol_exec(t, q3, '.')?;
    proof {
        lemma_name_at(tv, q4 as int);
    }
    let (pin, q5) = name_exec(t, q4)?;
    Ok(((ext, (name, pin)), q5))
}

fn output_block_exec(t: &Vec<Token>, p: usize) -> (r: Result<(Vec<(String, NamedPin)>, usize), String>)
    requires
        p <= t.len(),
    ensures
        match output_block(toks_view(t@), p as int) {
            Ok((xs, q)) => r matches Ok((v, q2)) && pin_maps_view(v@) == xs && q2 == q,
            Err(m) => r matches Err(e) && e@ == m,
        },
{
    let ghost tv = toks_view(t@);
    let q0 = brace_exec(t, p)?;
    let mut q = skip_commas_exec(t, q0);
    let mut acc: Vec<(String, NamedPin)> = Vec::new();
    assert(pin_maps_view(acc@) =~= seq![]);
    loop
        invariant
            q <= t.len(),
            tv == toks_view(t@),
            output_block(tv, p as int) == outputs_loop(tv, q as int, pin_maps_view(acc@)),
        decreases t.len() - q,
    {
        if !has_item_exec(t, q) {
            return Ok((acc, group_end_exec(t, q)));
        }
        proof {
            lemma_output_item(tv, q as int);
        }
        let (x, q2) = output_item_exec(t, q)?;
        let ghost a0 = pin_maps_view(acc@);
        let ghost xv = (x.0@, (x.1.0@, x.1.1@));
        acc.push(x);
        assert(pin_maps_view(acc@) =~= a0.push(xv));
        q = skip_commas_exec(t, q2);
    }
}

/// Where an input pin of a part takes its value.
pub enum Source {
    Pin(NamedPin),
    Input(String),
}

pub open spec fn source_view(s: Source) -> SourceV {
    match s {
        Source::Pin(p) => SourceV::Pin((p.0@, p.1@)),
        Source::Input(i) => SourceV::Input(i@),
    }
}

pub open spec fn conns_view(v: Seq<(String, Source)>) -> Seq<(Seq<char>, SourceV)> {
    v.map_values(|c: (String, Source)| (c.0@, source_view(c.1)))
}

fn conn_item_exec(t: &Vec<Token>, p: usize) -> (r: Result<((String, Source), usize), String>)
    requires
        p <= t.len(),
    ensures
        match conn_item(toks_view(t@), p as int) {
            Ok((x, q)) => r matches Ok((v, q2)) && (v.0@, source_view(v.1)) == x && q2 == q,
            Err(m) => r matches Err(e) && e@ == m,
        },
{
    let ghost tv = toks_view(t@);
    proof {
        lemma_name_at(tv, p as int);
    }
    let (inpin, q1) = name_exec(t, p)?;
    let q2 = symbol_exec(t, q1, '=')?;
    proof {
        lemma_name_at(tv, q2 as int);
    }
    let (first, q3) = name_exec(t, q2)?;
    if symbol_here(t, q3, '.') {
        proof {
            lemma_name_at(tv, q3 + 1);
        }
        let (second, q4) = name_exec(t, q3 + 1)?;
        Ok(((inpin, Source::Pin((first, second))), q4))
    } else {
        Ok(((inpin, Source::Input(first)), q3))
    }
}

/// A part of a graph block.
pub struct Part {
    pub name: String,
    pub usename: String,
    pub conns: Vec<(String, Source)>,
}

pub open spec fn part_view(p: Part) -> PartV {
    PartV { name: p.name@, usename: p.usename@, conns: conns_view(p.conns@) }
}

pub open spec fn parts_view(v: Seq<Part>) -> Seq<PartV> {
    v.map_values(|p: Part| part_view(p))
}

fn part_item_exec(t: &Vec<Token>, p: usize) -> (r: Result<(Part, usize), String>)
    requires
        p <= t.len(),
    ensures
        match part_item(toks_view(t@), p as int) {
            Ok((x, q)) => r matches Ok((v, q2)) && part_view(v) == x && q2 == q,
            Err(m) => r matches Err(e) && e@ == m,
        },
{
    let ghost tv = toks_view(t@);
    proof {
        lemma_name_at(tv, p as int);
    }
    let (name, q1) = name_exec(t, p)?;
    let q2 = symbol_exec(t, q1, ',')?;
    proof {
        lemma_name_at(tv, q2 as int);
    }
    let (usename, q3) = name_exec(t, q2)?;
    let q4 = brace_exec(t, q3)?;
    let mut q = skip_commas_exec(t, q4);
    let mut conns: Vec<(String, Source)> = Vec::new();
    assert(conns_view(conns@) =~= seq![]);
    let ghost start = q as int;
    assert(part_item(tv, p as int) == match conns_loop(tv, start, seq![]) {
        Err(m) => Err(m),
        Ok((cs, e)) => Ok((PartV { name: name@, usename: usename@, conns: cs }, e)),
    });
    loop
        invariant
            q <= t.len(),
            tv == toks_view(t@),
            conns_loop(tv, start, seq![]) == conns_loop(tv, q as int, conns_view(conns@)),
            part_item(tv, p as int) == match conns_loop(tv, start, seq![]) {
                Err(m) => Err(m),
                Ok((cs, e)) => Ok((PartV { name: name@, usename: usename@, conns: cs }, e)),
            },
        decreases t.len() - q,
    {
        if !has_item_exec(t, q) {
            let e = group_end_exec(t, q);
            return Ok((Part { name, usename, conns }, e));
        }
        proof {
            lemma_conn_item(tv, q as int);
        }
        let (x, q5) = conn_item_exec(t, q)?;
        let ghost a0 = conns_view(conns@);
        let ghost xv = (x.0@, source_view(x.1));
        conns.push(x);
        assert(conns_view(conns@) =~= a0.push(xv));
        q = skip_commas_exec(t, q5);
    }
}

/// A graph block as read.
pub struct Graph {
    pub name: String,
    pub inpins: Vec<String>,
    pub otpins: Vec<(String, NamedPin)>,
    pub parts: Vec<Part>,
}

pub open spec fn graph_view(g: Graph) -> GraphV {
    GraphV {
        name: g.name@,
        inpins: strings_view(g.inpins@),
        otpins: pin_maps_view(g.otpins@),
        parts: parts_view(g.parts@),
    }
}

fn graph_decl_exec(t: &Vec<Token>, p: usize) -> (r: Result<(Graph, usize), String>)
    requires
        p <= t.len(),
    ensures
        match graph_decl(toks_view(t@), p as int) {
            Ok((g, q)) => r matches Ok((v, q2)) && graph_view(v) == g && q2 == q,
            Err(m) => r matches Err(e) && e@ == m,
        },
{
    let ghost tv = toks_view(t@);
    proof {
        lemma_name_at(tv, p as int);
    }
    let q1 = keyword_exec(t, p, "graph")?;
    let q2 = symbol_exec(t, q1, ':')?;
    proof {
        lemma_name_at(tv, q2 as int);
    }
    let (name, q3) = name_exec(t, q2)?;
    let q4 = brace_exec(t, q3)?;
    proof {
        lemma_name_at(tv, q4 as int);
    }
    let q5 = keyword_exec(t, q4, "in")?;
    proof {
        if let Ok(q) = brace_at(tv, q5 as int) {
            lemma_skip_commas(tv, q);
            lemma_names_loop(tv, skip_commas(tv, q), seq![]);
        }
    }
    let (inpins, q6) = name_block_exec(t, q5)?;
    proof {
        lemma_name_at(tv, q6 as int);
    }
    let q7 = keyword_exec(t, q6, "out")?;
    proof {
        if let Ok(q) = brace_at(tv, q7 as int) {
            lemma_skip_commas(tv, q);
            lemma_outputs_loop(tv, skip_commas(tv, q), seq![]);
        }
    }
    let (otpins, q8) = output_block_exec(t, q7)?;
    let mut q = q8;
    let mut parts: Vec<Part> = Vec::new();
    assert(parts_view(parts@) =~= seq![]);
    assert(graph_decl(tv, p as int) == match parts_loop(tv, q8 as int, seq![]) {
        Err(m) => Err(m),
        Ok((ps, e)) => Ok((GraphV { name: name@, inpins: strings_view(inpins@), otpins: pin_maps_view(otpins@), parts: ps }, e)),
    });
    loop
        invariant
            q <= t.len(),
            tv == toks_view(t@),
            parts_loop(tv, q8 as int, seq![]) == parts_loop(tv, q as int, parts_view(parts@)),
            graph_decl(tv, p as int) == match parts_loop(tv, q8 as int, seq![]) {
                Err(m) => Err(m),
                Ok((ps, e)) => Ok((GraphV { name: name@, inpins: strings_view(inpins@), otpins: pin_maps_view(otpins@), parts: ps }, e)),
            },
        decreases t.len() - q,
    {
        if !has_item_exec(t, q) {
            let e = group_end_exec(t, q);
            return Ok((Graph { name, inpins, otpins, parts }, e));
        }
        proof {
            lemma_part_item(tv, q as int);
        }
        let (x, q9) = part_item_exec(t, q)?;
        let ghost a0 = parts_view(parts@);
        let ghost xv = part_view(x);
        parts.push(x);
        assert(parts_view(parts@) =~= a0.push(xv));
        q = q9;
    }
}

fn pair_item_exec(t: &Vec<Token>, p: usize) -> (r: Result<((String, String), usize), String>)
    requires
        p <= t.len(),
    ensures
        match pair_item(toks_view(t@), p as int) {
            Ok((x, q)) => r matches Ok((v, q2)) && (v.0@, v.1@) == x && q2 == q,
            Err(m) => r matches Err(e) && e@ == m,
        },
{
    let ghost tv = toks_view(t@);
    proof {
        lemma_name_at(tv, p as int);
    }
    let (left, q1) = name_exec(t, p)?;
    let q2 = symbol_exec(t, q1, '=')?;
    proof {
        lemma_name_at(tv, q2 as int);
    }
    let (right, q3) = name_exec(t, q2)?;
    Ok(((left, right), q3))
}

fn pair_block_exec(t: &Vec<Token>, p: usize) -> (r: Result<(Vec<(String, String)>, usize), String>)
    requires
        p <= t.len(),
    ensures
        match pair_block(toks_view(t@), p as int) {
            Ok((xs, q)) => r matches Ok((v, q2)) && name_pairs_view(v@) == xs && q2 == q,
            Err(m) => r matches Err(e) && e@ == m,
        },
{
    let ghost tv = toks_view(t@);
    let q0 = brace_exec(t, p)?;
    let mut q = skip_commas_exec(t, q0);
    let mut acc: Vec<(String, String)> = Vec::new();
    assert(name_pairs_view(acc@) =~= seq![]);
    loop
        invariant
            q <= t.len(),
            tv == toks_view(t@),
            pair_block(tv, p as int) == pairs_loop(tv, q as int, name_pairs_view(acc@)),
        decreases t.len() - q,
    {
        if !has_item_exec(t, q) {
            return Ok((acc, group_end_exec(t, q)));
        }
        proof {
            lemma_pair_item(tv, q as int);
        }
        let (x, q2) = pair_item_exec(t, q)?;
        let ghost a0 = name_pairs_view(acc@);
        let ghost xv = (x.0@, x.1@);
        acc.push(x);
        assert(name_pairs_view(acc@) =~= a0.push(xv));
        q = skip_commas_exec(t, q2);
    }
}

/// An iter block as read.
pub struct IterDecl {
    pub name: String,
    pub initlc: String,
    pub next: Vec<(String, String)>,
    pub prev: Vec<(String, String)>,
}

pub open spec fn iter_decl_view(d: IterDecl) -> IterV {
    IterV {
        name: d.name@,
        initlc: d.initlc@,
        next: name_pairs_view(d.next@),
        prev: name_pairs_view(d.prev@),
    }
}

fn iter_decl_exec(t: &Vec<Token>, p: usize) -> (r: Result<(IterDecl, usize), String>)
    requires
        p <= t.len(),
    ensures
        match iter_decl(toks_view(t@), p as int) {
            Ok((d, q)) => r matches Ok((v, q2)) && iter_decl_view(v) == d && q2 == q,
            Err(m) => r matches Err(e) && e@ == m,
        },
{
    let ghost tv = toks_view(t@);
    proof {
        lemma_name_at(tv, p as int);
    }
    let q1 = keyword_exec(t, p, "iter")?;
    let q2 = symbol_exec(t, q1, ':')?;
    proof {
        lemma_name_at(tv, q2 as int);
    }
    let (name, q3) = name_exec(t, q2)?;
    let q4 = brace_exec(t, q3)?;
    proof {
        lemma_name_at(tv, q4 as int);
    }
    let (initlc, q5) = name_exec(t, q4)?;
    let q6 = symbol_exec(t, q5, ',')?;
    proof {
        lemma_name_at(tv, q6 as int);
    }
    let q7 = keyword_exec(t, q6, "next")?;
    proof {
        if let Ok(q) = brace_at(tv, q7 as int) {
            lemma_skip_commas(tv, q);
            lemma_pairs_loop(tv, skip_commas(tv, q), seq![]);
        }
    }
    let (next, q8) = pair_block_exec(t, q7)?;
    proof {
        lemma_name_at(tv, q8 as int);
    }
    let q9 = keyword_exec(t, q8, "prev")?;
    proof {
        if let Ok(q) = brace_at(tv, q9 as int) {
            lemma_skip_commas(tv, q);
            lemma_pairs_loop(tv, skip_commas(tv, q), seq![]);
        }
    }
    let (prev, q10) = pair_block_exec(t, q9)?;
    if has_item_exec(t, q10) {
        return Err(String::from_str("unexpected trailing input"));
    }
    let e = group_end_exec(t, q10);
    Ok((IterDecl { name, initlc, next, prev }, e))
}


// ---------------------------------------------------------------------
// Making the circuits
// ---------------------------------------------------------------------

fn contains_name(v: &Vec<String>, n: &String) -> (b: bool)
    ensures
        b == strings_view(v@).contains(n@),
{
    let mut i: usize = 0;
    while i < v.len()
        invariant
            0 <= i <= v.len(),
            forall|k: int| 0 <= k < i ==> (#[trigger] strings_view(v@)[k]) != n@,
        decreases v.len() - i,
    {
        if v[i] == *n {
            assert(strings_view(v@)[i as int] == n@);
            return true;
        }
        i += 1;
    }
    false
}

fn build_conns_exec(
    inpins: &Vec<String>,
    lcname: &String,
    conns: &Vec<(String, Source)>,
    edges: &mut Vec<(NamedPin, NamedPin)>,
    inmaps: &mut Vec<(String, NamedPin)>,
) -> (r: Result<(), String>)
    ensures
        match build_conns(
            strings_view(inpins@),
            lcname@,
            conns_view(conns@),
            0,
            crate::logic_circuit::edges_view(old(edges)@),
            pin_maps_view(old(inmaps)@),
        ) {
            Ok((e, m)) => r is Ok && crate::logic_circuit::edges_view(final(edges)@) == e
                && pin_maps_view(final(inmaps)@) == m,
            Err(msg) => r matches Err(x) && x@ == msg,
        },
{
    let ghost ins = strings_view(inpins@);
    let ghost cv = conns_view(conns@);
    let mut j: usize = 0;
    while j < conns.len()
        invariant
            0 <= j <= conns.len(),
            ins == strings_view(inpins@),
            cv == conns_view(conns@),
            build_conns(
                ins,
                lcname@,
                cv,
                0,
                crate::logic_circuit::edges_view(old(edges)@),
                pin_maps_view(old(inmaps)@),
            ) == build_conns(
                ins,
                lcname@,
                cv,
                j as int,
                crate::logic_circuit::edges_view(edges@),
                pin_maps_view(inmaps@),
            ),
        decreases conns.len() - j,
    {
        assert(cv[j as int] == (conns@[j as int].0@, source_view(conns@[j as int].1)));
        match &conns[j].1 {
            Source::Pin(src) => {
                let ghost e0 = crate::logic_circuit::edges_view(edges@);
                let x = (crate::logic_circuit::clone_pin(src), (lcname.clone(), conns[j].0.clone()));
                edges.push(x);
                assert(crate::logic_circuit::edges_view(edges@) =~= e0.push(
                    ((src.0@, src.1@), (lcname@, conns@[j as int].0@)),
                ));
            },
            Source::Input(i) => {
                if !contains_name(inpins, i) {
                    let mut v = chars_of("not found inpin ");
                    push_str(&mut v, i.as_str());
                    return Err(string_of(&v));
                }
                let ghost m0 = pin_maps_view(inmaps@);
                let x = (i.clone(), (lcname.clone(), conns[j].0.clone()));
                inmaps.push(x);
                assert(pin_maps_view(inmaps@) =~= m0.push((i@, (lcname@, conns@[j as int].0@))));
            },
        }
        j += 1;
    }
    Ok(())
}

fn build_parts_exec(maps: &List, inpins: &Vec<String>, parts: &Vec<Part>) -> (r: Result<
    (Vec<(String, LogicCircuit)>, Vec<(NamedPin, NamedPin)>, Vec<(String, NamedPin)>),
    String,
>)
    ensures
        match build_parts(
            list_view(*maps),
            strings_view(inpins@),
            parts_view(parts@),
            0,
            seq![],
            seq![],
            seq![],
        ) {
            Ok((vs, es, ms)) => r matches Ok((v, e, m)) && verts_view(v@, v@.len()) == vs
                && crate::logic_circuit::edges_view(e@) == es && pin_maps_view(m@) == ms,
            Err(msg) => r matches Err(x) && x@ == msg,
        },
{
    let ghost mv = list_view(*maps);
    let ghost ins = strings_view(inpins@);
    let ghost pv = parts_view(parts@);
    let mut verts: Vec<(String, LogicCircuit)> = Vec::new();
    let mut edges: Vec<(NamedPin, NamedPin)> = Vec::new();
    let mut inmaps: Vec<(String, NamedPin)> = Vec::new();
    assert(verts_view(verts@, 0) =~= seq![]);
    assert(crate::logic_circuit::edges_view(edges@) =~= seq![]);
    assert(pin_maps_view(inmaps@) =~= seq![]);
    let mut i: usize = 0;
    while i < parts.len()
        invariant
            0 <= i <= parts.len(),
            mv == list_view(*maps),
            ins == strings_view(inpins@),
            pv == parts_view(parts@),
            build_parts(mv, ins, pv, 0, seq![], seq![], seq![]) == build_parts(
                mv,
                ins,
                pv,
                i as int,
                verts_view(verts@, verts@.len()),
                crate::logic_circuit::edges_view(edges@),
                pin_maps_view(inmaps@),
            ),
        decreases parts.len() - i,
    {
        let pt = &parts[i];
        assert(pv[i as int] == part_view(*pt));
        let c = match maps.get(&pt.usename) {
            Some(c) => c.copy(),
            None => {
                let mut v = chars_of("not found name ");
                push_str(&mut v, pt.usename.as_str());
                return Err(string_of(&v));
            },
        };
        build_conns_exec(inpins, &pt.name, &pt.conns, &mut edges, &mut inmaps)?;
        proof {
            lemma_verts_view_push(verts@, (pt.name, c));
        }
        verts.push((pt.name.clone(), c));
        i += 1;
    }
    Ok((verts, edges, inmaps))
}

fn graph_circuit_exec(maps: &List, g: Graph) -> (r: Result<LogicCircuit, String>)
    ensures
        match graph_circuit(list_view(*maps), graph_view(g)) {
            Ok(c) => r matches Ok(lc) && lc_view(lc) == c,
            Err(msg) => r matches Err(x) && x@ == msg,
        },
{
    let (verts, edges, inmaps) = build_parts_exec(maps, &g.inpins, &g.parts)?;
    LogicCircuit::new_mix(g.name, verts, edges, inmaps, g.otpins)
}

fn iter_circuit_exec(maps: &List, d: IterDecl) -> (r: Result<LogicCircuit, String>)
    ensures
        match iter_circuit(list_view(*maps), iter_decl_view(d)) {
            Ok(c) => r matches Ok(lc) && lc_view(lc) == c,
            Err(msg) => r matches Err(x) && x@ == msg,
        },
{
    let init = match maps.get(&d.initlc) {
        Some(c) => c.copy(),
        None => {
            let mut v = chars_of("not found name ");
            push_str(&mut v, d.initlc.as_str());
            return Err(string_of(&v));
        },
    };
    LogicCircuit::new_iter(d.name, init, d.next, d.prev)
}

/// Reads the `graph` and `iter` blocks of `code` in order, adding each
/// circuit to `maps` under its name (a name already there keeps its
/// circuit).  Stops at the first error, with the circuits of the blocks
/// before it added.
pub fn parse(code: &str, maps: &mut List) -> (r: Result<(), String>)
    ensures
        list_view(*final(maps)) == parse_spec(code@, list_view(*old(maps))).0,
        match parse_spec(code@, list_view(*old(maps))).1 {
            Some(m) => r matches Err(e) && e@ == m,
            None => r is Ok,
        },
{
    let ts = lex_circuit(code)?;
    let ghost tv = toks_view(ts@);
    let mut p: usize = 0;
    loop
        invariant
            p <= ts.len(),
            tv == toks_view(ts@),
            lex_circuit_spec(code@) == Ok::<Seq<TokV>, Seq<char>>(tv),
            decls_from(tv, 0, list_view(*old(maps))) == decls_from(tv, p as int, list_view(*maps)),
        decreases ts.len() - p,
    {
        if !has_item_exec(&ts, p) {
            return Ok(());
        }
        if is_keyword_exec(&ts, p, "graph") {
            proof {
                lemma_graph_decl(tv, p as int);
            }
            let (g, q) = graph_decl_exec(&ts, p)?;
            let name = g.name.clone();
            let c = graph_circuit_exec(maps, g)?;
            maps.insert((name, c));
            p = q;
        } else if is_keyword_exec(&ts, p, "iter") {
            proof {
                lemma_iter_decl(tv, p as int);
            }
            let (d, q) = iter_decl_exec(&ts, p)?;
            let name = d.name.clone();
            let c = iter_circuit_exec(maps, d)?;
            maps.insert((name, c));
            p = q;
        } else {
            return Err(String::from_str("expected graph or iter"));
        }
    }
}

/// The circuit `main` after reading `code` into the list `maps`.
pub open spec fn main_spec(code: Seq<char>, maps: Seq<(Seq<char>, Circuit)>) -> Result<Circuit, Seq<char>> {
    let (m2, err) = parse_spec(code, maps);
    match err {
        Some(e) => Err(e),
        None => match find_part(m2, "main"@, 0) {
            Some(i) => Ok(m2[i].1),
            None => Err("not found main"@),
        },
    }
}

/// Reads `code` into `maps` and gives the circuit named `main`.
pub fn parse_main_with_maps(code: &str, maps: List) -> (r: Result<LogicCircuit, String>)
    ensures
        match main_spec(code@, list_view(maps)) {
            Ok(c) => r matches Ok(lc) && lc_view(lc) == c,
            Err(m) => r matches Err(e) && e@ == m,
        },
{
    let mut maps = maps;
    parse(code, &mut maps)?;
    match maps.get(&String::from_str("main")) {
        Some(lc) => Ok(lc.copy()),
        None => Err(String::from_str("not found main")),
    }
}

/// Reads `code` into a list of the gates and gives the circuit named
/// `main`.
pub fn parse_main(code: &str) -> (r: Result<LogicCircuit, String>)
    ensures
        match main_spec(code@, gate_list()) {
            Ok(c) => r matches Ok(lc) && lc_view(lc) == c,
            Err(m) => r matches Err(e) && e@ == m,
        },
{
    parse_main_with_maps(code, init_maps())
}

/// Reading the gates alone finds no circuit named `main`: the empty text
/// gives `not found main`.
pub proof fn law_empty_text_has_no_main()
    ensures
        main_spec(Seq::<char>::empty(), gate_list()) == Err::<Circuit, Seq<char>>("not found main"@),
{
    law_parse_keeps_list(Seq::<char>::empty(), gate_list());
    reveal_strlit("main");
    reveal_strlit("NOT-T");
    reveal_strlit("NOT-F");
    reveal_strlit("AND-T");
    reveal_strlit("AND-F");
    reveal_strlit("OR-T");
    reveal_strlit("OR-F");
    reveal_strlit("CST-T");
    reveal_strlit("CST-F");
    reveal_strlit("BR-T");
    reveal_strlit("BR-F");
    reveal_strlit("END");
    reveal_strlit("DLY-T");
    reveal_strlit("DLY-F");
    let g = gate_list();
    assert(g.len() == 13);
    assert forall|k: int| 0 <= k < g.len() implies g[k].0 != "main"@ by {
        if k == 0 {
            assert(g[0].0[0] != "main"@[0]);
        } else if k == 1 {
            assert(g[1].0[0] != "main"@[0]);
        } else if k == 2 {
            assert(g[2].0[0] != "main"@[0]);
        } else if k == 3 {
            assert(g[3].0[0] != "main"@[0]);
        } else if k == 4 {
            assert(g[4].0[0] != "main"@[0]);
        } else if k == 5 {
            assert(g[5].0[0] != "main"@[0]);
        } else if k == 6 {
            assert(g[6].0[0] != "main"@[0]);
        } else if k == 7 {
            assert(g[7].0[0] != "main"@[0]);
        } else if k == 8 {
            assert(g[8].0[0] != "main"@[0]);
        } else if k == 9 {
            assert(g[9].0[0] != "main"@[0]);
        } else if k == 10 {
            assert(g[10].0[0] != "main"@[0]);
        } else if k == 11 {
            assert(g[11].0[0] != "main"@[0]);
        } else if k == 12 {
            assert(g[12].0[0] != "main"@[0]);
        }
    }
    lemma_find_part_absent(g, "main"@, 0);
}

proof fn lemma_find_part_absent(maps: Seq<(Seq<char>, Circuit)>, name: Seq<char>, i: int)
    requires
        0 <= i,
        forall|k: int| i <= k < maps.len() ==> maps[k].0 != name,
    ensures
        find_part(maps, name, i) is None,
    decreases maps.len() - i,
{
    if i < maps.len() {
        lemma_find_part_absent(maps, name, i + 1);
    }
}

} // verus!

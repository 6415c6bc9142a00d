//! Logic circuits: gates, circuits wired from named parts, and circuits
//! that unroll a part into an unbounded row of copies.
use vstd::prelude::*;

use crate::number::{decimal, decimal_chars};
use crate::text::{chars_of, string_of};

verus! {

/// A pin of a named part: the part's name and the pin's name.
pub type NamedPin = (String, String);

/// The view of a named pin.
pub type PinV = (Seq<char>, Seq<char>);

pub open spec fn pin_view(p: NamedPin) -> PinV {
    (p.0@, p.1@)
}

pub open spec fn pins_view(ps: Seq<NamedPin>) -> Seq<PinV> {
    ps.map_values(|p: NamedPin| pin_view(p))
}

pub open spec fn signals_view(ps: Seq<(NamedPin, bool)>) -> Seq<(PinV, bool)> {
    ps.map_values(|p: (NamedPin, bool)| (pin_view(p.0), p.1))
}

#[derive(PartialEq, Eq, Structural, Clone, Copy, Debug)]
pub enum GateKind {
    Cst,
    Not,
    And,
    Or,
    Br,
    Delay,
    End,
}

#[derive(Clone, Copy, Debug)]
pub struct Gate {
    pub kind: GateKind,
    pub state: bool,
}

#[derive(Debug)]
pub enum LogicCircuit {
    Gate(Gate),
    MixLogicCircuit(Box<MixLogicCircuit>),
    IterLogicCircuit(Box<IterLogicCircuit>),
}

/// Parts wired by edges from an output pin of one part to an input pin of
/// another; the pins left free are the circuit's, renamed by the maps.
#[derive(Debug)]
pub struct MixLogicCircuit {
    pub kind: String,
    pub verts: Vec<(String, LogicCircuit)>,
    pub edges: Vec<(NamedPin, NamedPin)>,
    pub inpin_maps: Vec<(String, NamedPin)>,
    pub otpin_maps: Vec<(String, NamedPin)>,
}

/// A row of copies of `init`, of which `used` are the ones in use; copy `n`
/// feeds copy `n + 1` along `next_edges` and copy `n - 1` along `prev_edges`.
#[derive(Debug)]
pub struct IterLogicCircuit {
    pub kind: String,
    pub init: LogicCircuit,
    pub used: Vec<LogicCircuit>,
    pub next_edges: Vec<(String, String)>,
    pub prev_edges: Vec<(String, String)>,
    pub inpin_maps: Vec<(String, NamedPin)>,
    pub otpin_maps: Vec<(String, NamedPin)>,
}

// ---------------------------------------------------------------------
// The model: circuits as mathematical values
// ---------------------------------------------------------------------

/// What a circuit is, with names as character sequences.
pub enum Circuit {
    Gate(Gate),
    Mix(Box<MixModel>),
    Iter(Box<IterModel>),
}

pub struct MixModel {
    pub kind: Seq<char>,
    pub verts: Seq<(Seq<char>, Circuit)>,
    pub edges: Seq<(PinV, PinV)>,
    pub inpin_maps: Seq<(Seq<char>, PinV)>,
    pub otpin_maps: Seq<(Seq<char>, PinV)>,
}

pub struct IterModel {
    pub kind: Seq<char>,
    pub init: Circuit,
    pub used: Seq<Circuit>,
    pub next_edges: Seq<(Seq<char>, Seq<char>)>,
    pub prev_edges: Seq<(Seq<char>, Seq<char>)>,
    pub inpin_maps: Seq<(Seq<char>, PinV)>,
    pub otpin_maps: Seq<(Seq<char>, PinV)>,
}

pub open spec fn edges_view(e: Seq<(NamedPin, NamedPin)>) -> Seq<(PinV, PinV)> {
    e.map_values(|x: (NamedPin, NamedPin)| (pin_view(x.0), pin_view(x.1)))
}

pub open spec fn name_pairs_view(e: Seq<(String, String)>) -> Seq<(Seq<char>, Seq<char>)> {
    e.map_values(|x: (String, String)| (x.0@, x.1@))
}

pub open spec fn pin_maps_view(m: Seq<(String, NamedPin)>) -> Seq<(Seq<char>, PinV)> {
    m.map_values(|x: (String, NamedPin)| (x.0@, pin_view(x.1)))
}

/// The model of a circuit.
pub open spec fn lc_view(lc: LogicCircuit) -> Circuit
    decreases lc, 1nat,
{
    match lc {
        LogicCircuit::Gate(g) => Circuit::Gate(g),
        LogicCircuit::MixLogicCircuit(m) => Circuit::Mix(Box::new(mix_view(*m))),
        LogicCircuit::IterLogicCircuit(it) => Circuit::Iter(Box::new(iter_view(*it))),
    }
}

pub open spec fn mix_view(m: MixLogicCircuit) -> MixModel
    decreases m, 0nat,
{
    MixModel {
        kind: m.kind@,
        verts: verts_view(m.verts@, m.verts@.len()),
        edges: edges_view(m.edges@),
        inpin_maps: pin_maps_view(m.inpin_maps@),
        otpin_maps: pin_maps_view(m.otpin_maps@),
    }
}

pub open spec fn iter_view(it: IterLogicCircuit) -> IterModel
    decreases it, 0nat,
{
    IterModel {
        kind: it.kind@,
        init: lc_view(it.init),
        used: used_view(it.used@, it.used@.len()),
        next_edges: name_pairs_view(it.next_edges@),
        prev_edges: name_pairs_view(it.prev_edges@),
        inpin_maps: pin_maps_view(it.inpin_maps@),
        otpin_maps: pin_maps_view(it.otpin_maps@),
    }
}

/// The models of the first `i` named parts.
pub open spec fn verts_view(s: Seq<(String, LogicCircuit)>, i: nat) -> Seq<(Seq<char>, Circuit)>
    decreases s, i,
{
    if i == 0 || i > s.len() {
        seq![]
    } else {
        verts_view(s, (i - 1) as nat).push((s[i - 1].0@, lc_view(s[i - 1].1)))
    }
}

/// The models of the first `i` circuits.
pub open spec fn used_view(s: Seq<LogicCircuit>, i: nat) -> Seq<Circuit>
    decreases s, i,
{
    if i == 0 || i > s.len() {
        seq![]
    } else {
        used_view(s, (i - 1) as nat).push(lc_view(s[i - 1]))
    }
}

pub proof fn lemma_verts_view(s: Seq<(String, LogicCircuit)>, i: nat)
    requires
        i <= s.len(),
    ensures
        verts_view(s, i).len() == i,
        forall|k: int|
            0 <= k < i ==> #[trigger] verts_view(s, i)[k] == (s[k].0@, lc_view(s[k].1)),
    decreases i,
{
    if i > 0 {
        lemma_verts_view(s, (i - 1) as nat);
    }
}

pub proof fn lemma_used_view(s: Seq<LogicCircuit>, i: nat)
    requires
        i <= s.len(),
    ensures
        used_view(s, i).len() == i,
        forall|k: int| 0 <= k < i ==> #[trigger] used_view(s, i)[k] == lc_view(s[k]),
    decreases i,
{
    if i > 0 {
        lemma_used_view(s, (i - 1) as nat);
    }
}

// ---------------------------------------------------------------------
// Gates
// ---------------------------------------------------------------------

pub open spec fn gate_name(k: GateKind) -> Seq<char> {
    match k {
        GateKind::Cst => "CST"@,
        GateKind::Not => "NOT"@,
        GateKind::And => "AND"@,
        GateKind::Or => "OR"@,
        GateKind::Br => "BR"@,
        GateKind::Delay => "DLY"@,
        GateKind::End => "END"@,
    }
}

pub open spec fn gate_inpin_names(k: GateKind) -> Seq<Seq<char>> {
    match k {
        GateKind::Cst => seq![],
        GateKind::Not | GateKind::Br | GateKind::Delay | GateKind::End => seq!["IN"@],
        GateKind::And | GateKind::Or => seq!["IN0"@, "IN1"@],
    }
}

pub open spec fn gate_otpin_names(k: GateKind) -> Seq<Seq<char>> {
    match k {
        GateKind::Cst | GateKind::Not | GateKind::Delay | GateKind::And | GateKind::Or => seq![
            "OUT"@,
        ],
        GateKind::Br => seq!["OUT0"@, "OUT1"@],
        GateKind::End => seq![],
    }
}

pub open spec fn gate_pins(k: GateKind, names: Seq<Seq<char>>) -> Seq<PinV> {
    names.map_values(|p: Seq<char>| (gate_name(k), p))
}

/// The value on the first input whose pin is named `pin`, or false.
pub open spec fn input_value(inputs: Seq<(PinV, bool)>, pin: Seq<char>) -> bool
    decreases inputs.len(),
{
    if inputs.len() == 0 {
        false
    } else if inputs[0].0.1 == pin {
        inputs[0].1
    } else {
        input_value(inputs.drop_first(), pin)
    }
}

/// The state of a gate after a step on `inputs`.
pub open spec fn gate_next_state(g: Gate, inputs: Seq<(PinV, bool)>) -> bool {
    match g.kind {
        GateKind::Cst => g.state,
        GateKind::Not => !input_value(inputs, "IN"@),
        GateKind::And => input_value(inputs, "IN0"@) && input_value(inputs, "IN1"@),
        GateKind::Or => input_value(inputs, "IN0"@) || input_value(inputs, "IN1"@),
        GateKind::Br | GateKind::Delay | GateKind::End => input_value(inputs, "IN"@),
    }
}

/// What a gate does with the values on its pins: `NOT` negates its input,
/// `AND` and `OR` combine their two inputs, a branch, a delay and an end
/// take their input, and a constant keeps its state; an input pin given no
/// value reads false.
pub proof fn law_gate_steps(k: Seq<char>, a: bool, b: bool, state: bool)
    ensures
        gate_next_state(Gate { kind: GateKind::Not, state }, seq![((k, "IN"@), a)]) == !a,
        gate_next_state(Gate { kind: GateKind::And, state }, seq![((k, "IN0"@), a), ((k, "IN1"@), b)]) == (a && b),
        gate_next_state(Gate { kind: GateKind::Or, state }, seq![((k, "IN0"@), a), ((k, "IN1"@), b)]) == (a || b),
        gate_next_state(Gate { kind: GateKind::Br, state }, seq![((k, "IN"@), a)]) == a,
        gate_next_state(Gate { kind: GateKind::Delay, state }, seq![((k, "IN"@), a)]) == a,
        gate_next_state(Gate { kind: GateKind::End, state }, seq![((k, "IN"@), a)]) == a,
        gate_next_state(Gate { kind: GateKind::Cst, state }, seq![((k, "IN"@), a)]) == state,
        gate_next_state(Gate { kind: GateKind::Not, state }, Seq::<(PinV, bool)>::empty()) == true,
        gate_next_state(Gate { kind: GateKind::And, state }, seq![((k, "IN1"@), a)]) == false,
{
    reveal_strlit("IN");
    reveal_strlit("IN0");
    reveal_strlit("IN1");
    assert("IN0"@ != "IN1"@) by {
        assert("IN0"@[2] != "IN1"@[2]);
    }
    assert("IN"@ != "IN1"@) by {
        assert("IN"@.len() != "IN1"@.len());
    }
    let s1 = seq![((k, "IN0"@), a), ((k, "IN1"@), b)];
    let s2 = seq![((k, "IN1"@), b)];
    assert(s1.drop_first() =~= s2);
    assert(s2.drop_first() =~= Seq::<(PinV, bool)>::empty());
    assert(input_value(s1, "IN0"@) == a);
    assert(input_value(s2, "IN1"@) == b);
    assert(input_value(s1, "IN1"@) == b);
    let s3 = seq![((k, "IN1"@), a)];
    assert(s3.drop_first() =~= Seq::<(PinV, bool)>::empty());
    assert(input_value(s3.drop_first(), "IN0"@) == false);
    assert(input_value(s3, "IN0"@) == false);
    assert(seq![((k, "IN"@), a)].drop_first() =~= Seq::<(PinV, bool)>::empty());
    assert(seq![((k, "IN1"@), a)].drop_first() =~= Seq::<(PinV, bool)>::empty());
}

/// The name of a gate kind, as the circuit shows it.
pub fn gate_kind_name(k: GateKind) -> (s: String)
    ensures
        s@ == gate_name(k),
{
    match k {
        GateKind::Cst => String::from_str("CST"),
        GateKind::Not => String::from_str("NOT"),
        GateKind::And => String::from_str("AND"),
        GateKind::Or => String::from_str("OR"),
        GateKind::Br => String::from_str("BR"),
        GateKind::Delay => String::from_str("DLY"),
        GateKind::End => String::from_str("END"),
    }
}

fn gate_pins_exec(k: GateKind, names: Vec<&str>) -> (r: Vec<NamedPin>)
    ensures
        pins_view(r@) == names@.map_values(|s: &str| (gate_name(k), s@)),
{
    let mut r: Vec<NamedPin> = Vec::new();
    let mut i: usize = 0;
    while i < names.len()
        invariant
            0 <= i <= names.len(),
            pins_view(r@) == names@.take(i as int).map_values(|s: &str| (gate_name(k), s@)),
        decreases names.len() - i,
    {
        let ghost r0 = r@;
        let item = (gate_kind_name(k), String::from_str(names[i]));
        r.push(item);
        assert(pins_view(r@) =~= pins_view(r0).push(pin_view(item)));
        assert(names@.take(i + 1) =~= names@.take(i as int).push(names@[i as int]));
        assert(pins_view(r@) =~= names@.take(i + 1).map_values(|s: &str| (gate_name(k), s@)));
        i += 1;
    }
    assert(names@.take(names.len() as int) =~= names@);
    r
}

/// The first input whose pin is named `pin`, or false.
fn get_inputs_from_map(inputs: &Vec<(NamedPin, bool)>, pin: &str) -> (b: bool)
    ensures
        b == input_value(signals_view(inputs@), pin@),
{
    let ghost s = signals_view(inputs@);
    let p = String::from_str(pin);
    let mut i: usize = 0;
    assert(s.skip(0) =~= s);
    while i < inputs.len()
        invariant
            0 <= i <= inputs.len(),
            s == signals_view(inputs@),
            p@ == pin@,
            input_value(s, pin@) == input_value(s.skip(i as int), pin@),
        decreases inputs.len() - i,
    {
        assert(s.skip(i as int).drop_first() =~= s.skip(i + 1));
        if inputs[i].0.1 == p {
            return inputs[i].1;
        }
        i += 1;
    }
    false
}

impl Gate {
    /// The name of this kind of gate.
    pub fn kind(&self) -> (s: String)
        ensures
            s@ == gate_name(self.kind),
    {
        gate_kind_name(self.kind)
    }

    pub fn get_inpins(&self) -> (r: Vec<NamedPin>)
        ensures
            pins_view(r@) == gate_pins(self.kind, gate_inpin_names(self.kind)),
    {
        proof {
            reveal_strlit("IN");
            reveal_strlit("IN0");
            reveal_strlit("IN1");
        }
        let names: Vec<&str> = match self.kind {
            GateKind::Cst => vec![],
            GateKind::Not | GateKind::Br | GateKind::Delay | GateKind::End => vec!["IN"],
            GateKind::And | GateKind::Or => vec!["IN0", "IN1"],
        };
        let r = gate_pins_exec(self.kind, names);
        assert(names@.map_values(|s: &str| (gate_name(self.kind), s@)) =~= gate_pins(
            self.kind,
            gate_inpin_names(self.kind),
        ));
        r
    }

    pub fn get_otpins(&self) -> (r: Vec<NamedPin>)
        ensures
            pins_view(r@) == gate_pins(self.kind, gate_otpin_names(self.kind)),
    {
        let names: Vec<&str> = match self.kind {
            GateKind::Cst | GateKind::Not | GateKind::Delay | GateKind::And | GateKind::Or => vec![
                "OUT",
            ],
            GateKind::Br => vec!["OUT0", "OUT1"],
            GateKind::End => vec![],
        };
        let r = gate_pins_exec(self.kind, names);
        assert(names@.map_values(|s: &str| (gate_name(self.kind), s@)) =~= gate_pins(
            self.kind,
            gate_otpin_names(self.kind),
        ));
        r
    }

    pub fn get_otputs(&self) -> (r: Vec<(NamedPin, bool)>)
        ensures
            signals_view(r@) == gate_pins(self.kind, gate_otpin_names(self.kind)).map_values(
                |p: PinV| (p, self.state),
            ),
    {
        let pins = self.get_otpins();
        let mut r: Vec<(NamedPin, bool)> = Vec::new();
        let mut i: usize = 0;
        while i < pins.len()
            invariant
                0 <= i <= pins.len(),
                signals_view(r@) == pins_view(pins@).take(i as int).map_values(
                    |p: PinV| (p, self.state),
                ),
            decreases pins.len() - i,
        {
            let ghost r0 = r@;
            let item = ((pins[i].0.clone(), pins[i].1.clone()), self.state);
            r.push(item);
            assert(signals_view(r@) =~= signals_view(r0).push((pin_view(item.0), item.1)));
            assert(pins_view(pins@).take(i + 1) =~= pins_view(pins@).take(i as int).push(
                pin_view(pins@[i as int]),
            ));
            assert(signals_view(r@) =~= pins_view(pins@).take(i + 1).map_values(
                |p: PinV| (p, self.state),
            ));
            i += 1;
        }
        assert(pins_view(pins@).take(pins.len() as int) =~= pins_view(pins@));
        r
    }

    /// A step: the state becomes the kind's function of the inputs, read
    /// by pin name.
    pub fn step(&mut self, inputs: Vec<(NamedPin, bool)>)
        ensures
            final(self).kind == old(self).kind,
            final(self).state == gate_next_state(*old(self), signals_view(inputs@)),
    {
        proof {
            reveal_strlit("IN");
            reveal_strlit("IN0");
            reveal_strlit("IN1");
        }
        match self.kind {
            GateKind::Cst => {},
            GateKind::Not => {
                self.state = !get_inputs_from_map(&inputs, "IN");
            },
            GateKind::And => {
                let a = get_inputs_from_map(&inputs, "IN0");
                let b = get_inputs_from_map(&inputs, "IN1");
                self.state = a && b;
            },
            GateKind::Or => {
                let a = get_inputs_from_map(&inputs, "IN0");
                let b = get_inputs_from_map(&inputs, "IN1");
                self.state = a || b;
            },
            GateKind::Br | GateKind::Delay | GateKind::End => {
                self.state = get_inputs_from_map(&inputs, "IN");
            },
        }
    }
}


// ---------------------------------------------------------------------
// Pins of composite circuits
// ---------------------------------------------------------------------

/// The name of copy `n` of an unrolled circuit: `_n_`.
pub open spec fn num_ident(n: nat) -> Seq<char> {
    "_"@ + decimal(n) + "_"@
}

/// The first entry of `maps`, from `i` on, whose target pin is `p`.
pub open spec fn map_index(maps: Seq<(Seq<char>, PinV)>, p: PinV, i: int) -> Option<int>
    decreases maps.len() - i,
{
    if i < 0 || i >= maps.len() {
        None
    } else if maps[i].1 == p {
        Some(i)
    } else {
        map_index(maps, p, i + 1)
    }
}

/// An inner pin as the circuit `kind` shows it: renamed by the first map
/// entry that targets it, else unchanged.
pub open spec fn map_pin(kind: Seq<char>, maps: Seq<(Seq<char>, PinV)>, p: PinV) -> PinV {
    match map_index(maps, p, 0) {
        Some(j) => (kind, maps[j].0),
        None => p,
    }
}

pub open spec fn map_pins(kind: Seq<char>, maps: Seq<(Seq<char>, PinV)>, ps: Seq<PinV>) -> Seq<
    PinV,
> {
    ps.map_values(|p: PinV| map_pin(kind, maps, p))
}

pub open spec fn is_edge_target(edges: Seq<(PinV, PinV)>, p: PinV) -> bool {
    exists|j: int| 0 <= j < edges.len() && (#[trigger] edges[j]).1 == p
}

pub open spec fn is_edge_source(edges: Seq<(PinV, PinV)>, p: PinV) -> bool {
    exists|j: int| 0 <= j < edges.len() && (#[trigger] edges[j]).0 == p
}

pub open spec fn is_pin_target(edges: Seq<(Seq<char>, Seq<char>)>, p: Seq<char>) -> bool {
    exists|j: int| 0 <= j < edges.len() && (#[trigger] edges[j]).1 == p
}

pub open spec fn is_pin_source(edges: Seq<(Seq<char>, Seq<char>)>, p: Seq<char>) -> bool {
    exists|j: int| 0 <= j < edges.len() && (#[trigger] edges[j]).0 == p
}

/// The free input pins of part `name`, among the first `j` of its pins.
pub open spec fn mix_part_in(name: Seq<char>, pins: Seq<PinV>, edges: Seq<(PinV, PinV)>, j: int) -> Seq<PinV>
    decreases j,
{
    if j <= 0 || j > pins.len() {
        seq![]
    } else {
        let rest = mix_part_in(name, pins, edges, j - 1);
        let np = (name, pins[j - 1].1);
        if is_edge_target(edges, np) {
            rest
        } else {
            rest.push(np)
        }
    }
}

/// The free output pins of part `name`, among the first `j` of its pins.
pub open spec fn mix_part_out(name: Seq<char>, pins: Seq<PinV>, edges: Seq<(PinV, PinV)>, j: int) -> Seq<PinV>
    decreases j,
{
    if j <= 0 || j > pins.len() {
        seq![]
    } else {
        let rest = mix_part_out(name, pins, edges, j - 1);
        let np = (name, pins[j - 1].1);
        if is_edge_source(edges, np) {
            rest
        } else {
            rest.push(np)
        }
    }
}

/// Whether pin `p` of copy `n` is an input of the row.
pub open spec fn iter_keeps_in(n: nat, p: Seq<char>, next: Seq<(Seq<char>, Seq<char>)>, prev: Seq<(Seq<char>, Seq<char>)>) -> bool {
    (n == 0 || !is_pin_target(next, p)) && !is_pin_target(prev, p)
}

/// Whether pin `p` of copy `n` is an output of the row.
pub open spec fn iter_keeps_out(n: nat, p: Seq<char>, next: Seq<(Seq<char>, Seq<char>)>, prev: Seq<(Seq<char>, Seq<char>)>) -> bool {
    (n == 0 || !is_pin_source(prev, p)) && !is_pin_source(next, p)
}

pub open spec fn iter_part(n: nat, pins: Seq<PinV>, next: Seq<(Seq<char>, Seq<char>)>, prev: Seq<(Seq<char>, Seq<char>)>, inputs: bool, j: int) -> Seq<PinV>
    decreases j,
{
    if j <= 0 || j > pins.len() {
        seq![]
    } else {
        let rest = iter_part(n, pins, next, prev, inputs, j - 1);
        let p = pins[j - 1].1;
        let keep = if inputs {
            iter_keeps_in(n, p, next, prev)
        } else {
            iter_keeps_out(n, p, next, prev)
        };
        if keep {
            rest.push((num_ident(n), p))
        } else {
            rest
        }
    }
}

/// The input pins of a circuit.
pub open spec fn circ_inpins(c: Circuit) -> Seq<PinV>
    decreases c, 0nat,
{
    match c {
        Circuit::Gate(g) => gate_pins(g.kind, gate_inpin_names(g.kind)),
        Circuit::Mix(m) => map_pins(m.kind, m.inpin_maps, mix_usable_in(m.verts, m.edges, m.verts.len())),
        Circuit::Iter(it) => map_pins(
            it.kind,
            it.inpin_maps,
            iter_usable(it.used, it.next_edges, it.prev_edges, true, it.used.len()),
        ),
    }
}

/// The output pins of a circuit.
pub open spec fn circ_otpins(c: Circuit) -> Seq<PinV>
    decreases c, 0nat,
{
    match c {
        Circuit::Gate(g) => gate_pins(g.kind, gate_otpin_names(g.kind)),
        Circuit::Mix(m) => map_pins(m.kind, m.otpin_maps, mix_usable_out(m.verts, m.edges, m.verts.len())),
        Circuit::Iter(it) => map_pins(
            it.kind,
            it.otpin_maps,
            iter_usable(it.used, it.next_edges, it.prev_edges, false, it.used.len()),
        ),
    }
}

/// The free input pins of the first `i` parts.
pub open spec fn mix_usable_in(verts: Seq<(Seq<char>, Circuit)>, edges: Seq<(PinV, PinV)>, i: nat) -> Seq<PinV>
    decreases verts, i,
{
    if i == 0 || i > verts.len() {
        seq![]
    } else {
        let ps = circ_inpins(verts[i - 1].1);
        mix_usable_in(verts, edges, (i - 1) as nat) + mix_part_in(verts[i - 1].0, ps, edges, ps.len() as int)
    }
}

/// The free output pins of the first `i` parts.
pub open spec fn mix_usable_out(verts: Seq<(Seq<char>, Circuit)>, edges: Seq<(PinV, PinV)>, i: nat) -> Seq<PinV>
    decreases verts, i,
{
    if i == 0 || i > verts.len() {
        seq![]
    } else {
        let ps = circ_otpins(verts[i - 1].1);
        mix_usable_out(verts, edges, (i - 1) as nat) + mix_part_out(verts[i - 1].0, ps, edges, ps.len() as int)
    }
}

/// The input (or output) pins of the row among its first `i` copies.
pub open spec fn iter_usable(used: Seq<Circuit>, next: Seq<(Seq<char>, Seq<char>)>, prev: Seq<(Seq<char>, Seq<char>)>, inputs: bool, i: nat) -> Seq<PinV>
    decreases used, i,
{
    if i == 0 || i > used.len() {
        seq![]
    } else {
        let ps = if inputs {
            circ_inpins(used[i - 1])
        } else {
            circ_otpins(used[i - 1])
        };
        iter_usable(used, next, prev, inputs, (i - 1) as nat) + iter_part((i - 1) as nat, ps, next, prev, inputs, ps.len() as int)
    }
}

fn pins_eq(a: &NamedPin, b: &NamedPin) -> (r: bool)
    ensures
        r == (pin_view(*a) == pin_view(*b)),
{
    a.0 == b.0 && a.1 == b.1
}

pub(crate) fn clone_pin(p: &NamedPin) -> (r: NamedPin)
    ensures
        r == *p,
{
    (p.0.clone(), p.1.clone())
}

fn edge_target(edges: &Vec<(NamedPin, NamedPin)>, p: &NamedPin) -> (r: bool)
    ensures
        r == is_edge_target(edges_view(edges@), pin_view(*p)),
{
    let mut i: usize = 0;
    while i < edges.len()
        invariant
            0 <= i <= edges.len(),
            forall|j: int| 0 <= j < i ==> (#[trigger] edges_view(edges@)[j]).1 != pin_view(*p),
        decreases edges.len() - i,
    {
        if pins_eq(&edges[i].1, p) {
            assert(edges_view(edges@)[i as int].1 == pin_view(*p));
            return true;
        }
        i += 1;
    }
    false
}

fn edge_source(edges: &Vec<(NamedPin, NamedPin)>, p: &NamedPin) -> (r: bool)
    ensures
        r == is_edge_source(edges_view(edges@), pin_view(*p)),
{
    let mut i: usize = 0;
    while i < edges.len()
        invariant
            0 <= i <= edges.len(),
            forall|j: int| 0 <= j < i ==> (#[trigger] edges_view(edges@)[j]).0 != pin_view(*p),
        decreases edges.len() - i,
    {
        if pins_eq(&edges[i].0, p) {
            assert(edges_view(edges@)[i as int].0 == pin_view(*p));
            return true;
        }
        i += 1;
    }
    false
}

fn pin_target(edges: &Vec<(String, String)>, p: &String) -> (r: bool)
    ensures
        r == is_pin_target(name_pairs_view(edges@), p@),
{
    let mut i: usize = 0;
    while i < edges.len()
        invariant
            0 <= i <= edges.len(),
            forall|j: int| 0 <= j < i ==> (#[trigger] name_pairs_view(edges@)[j]).1 != p@,
        decreases edges.len() - i,
    {
        if edges[i].1 == *p {
            assert(name_pairs_view(edges@)[i as int].1 == p@);
            return true;
        }
        i += 1;
    }
    false
}

fn pin_source(edges: &Vec<(String, String)>, p: &String) -> (r: bool)
    ensures
        r == is_pin_source(name_pairs_view(edges@), p@),
{
    let mut i: usize = 0;
    while i < edges.len()
        invariant
            0 <= i <= edges.len(),
            forall|j: int| 0 <= j < i ==> (#[trigger] name_pairs_view(edges@)[j]).0 != p@,
        decreases edges.len() - i,
    {
        if edges[i].0 == *p {
            assert(name_pairs_view(edges@)[i as int].0 == p@);
            return true;
        }
        i += 1;
    }
    false
}

/// The name `_n_` of copy `n`.
pub fn num_to_ident(n: usize) -> (s: String)
    ensures
        s@ == num_ident(n as nat),
{
    let mut v = chars_of("_");
    let d = decimal_chars(n);
    let mut i: usize = 0;
    let ghost v0 = v@;
    while i < d.len()
        invariant
            0 <= i <= d.len(),
            v@ == v0 + d@.take(i as int),
        decreases d.len() - i,
    {
        v.push(d[i]);
        assert(d@.take(i + 1) =~= d@.take(i as int).push(d@[i as int]));
        i += 1;
    }
    assert(d@.take(d.len() as int) =~= d@);
    let ghost v1 = v@;
    v.push('_');
    proof {
        reveal_strlit("_");
        assert(v@ =~= "_"@ + decimal(n as nat) + "_"@);
    }
    string_of(&v)
}

fn map_pin_exec(kind: &String, maps: &Vec<(String, NamedPin)>, p: &NamedPin) -> (r: NamedPin)
    ensures
        pin_view(r) == map_pin(kind@, pin_maps_view(maps@), pin_view(*p)),
{
    let ghost pv = pin_view(*p);
    let ghost mv = pin_maps_view(maps@);
    let mut i: usize = 0;
    while i < maps.len()
        invariant
            0 <= i <= maps.len(),
            pv == pin_view(*p),
            mv == pin_maps_view(maps@),
            map_index(mv, pv, 0) == map_index(mv, pv, i as int),
        decreases maps.len() - i,
    {
        if pins_eq(&maps[i].1, p) {
            return (kind.clone(), maps[i].0.clone());
        }
        i += 1;
    }
    clone_pin(p)
}

fn map_pins_exec(kind: &String, maps: &Vec<(String, NamedPin)>, ps: &Vec<NamedPin>) -> (r: Vec<NamedPin>)
    ensures
        pins_view(r@) == map_pins(kind@, pin_maps_view(maps@), pins_view(ps@)),
{
    let mut r: Vec<NamedPin> = Vec::new();
    let mut i: usize = 0;
    while i < ps.len()
        invariant
            0 <= i <= ps.len(),
            pins_view(r@) == map_pins(kind@, pin_maps_view(maps@), pins_view(ps@).take(i as int)),
        decreases ps.len() - i,
    {
        let ghost r0 = r@;
        let q = map_pin_exec(kind, maps, &ps[i]);
        r.push(q);
        assert(pins_view(r@) =~= pins_view(r0).push(pin_view(q)));
        assert(pins_view(ps@).take(i + 1) =~= pins_view(ps@).take(i as int).push(pin_view(ps@[i as int])));
        assert(map_pins(kind@, pin_maps_view(maps@), pins_view(ps@).take(i + 1)) =~= map_pins(kind@, pin_maps_view(maps@), pins_view(ps@).take(i as int)).push(map_pin(kind@, pin_maps_view(maps@), pin_view(ps@[i as int]))));
        i += 1;
    }
    assert(pins_view(ps@).take(ps.len() as int) =~= pins_view(ps@));
    r
}


/// The outputs of a circuit: each output pin with its value.
pub open spec fn circ_otputs(c: Circuit) -> Seq<(PinV, bool)>
    decreases c, 0nat,
{
    match c {
        Circuit::Gate(g) => gate_pins(g.kind, gate_otpin_names(g.kind)).map_values(
            |p: PinV| (p, g.state),
        ),
        Circuit::Mix(m) => mix_outputs(m.kind, m.otpin_maps, m.verts, m.edges, m.verts.len()),
        Circuit::Iter(it) => iter_outputs(
            it.kind,
            it.otpin_maps,
            it.used,
            it.next_edges,
            it.prev_edges,
            it.used.len(),
        ),
    }
}

pub open spec fn mix_part_outputs(kind: Seq<char>, maps: Seq<(Seq<char>, PinV)>, name: Seq<char>, outs: Seq<(PinV, bool)>, edges: Seq<(PinV, PinV)>, j: int) -> Seq<(PinV, bool)>
    decreases j,
{
    if j <= 0 || j > outs.len() {
        seq![]
    } else {
        let rest = mix_part_outputs(kind, maps, name, outs, edges, j - 1);
        let np = (name, outs[j - 1].0.1);
        if is_edge_source(edges, np) {
            rest
        } else {
            rest.push((map_pin(kind, maps, np), outs[j - 1].1))
        }
    }
}

pub open spec fn mix_outputs(kind: Seq<char>, maps: Seq<(Seq<char>, PinV)>, verts: Seq<(Seq<char>, Circuit)>, edges: Seq<(PinV, PinV)>, i: nat) -> Seq<(PinV, bool)>
    decreases verts, i,
{
    if i == 0 || i > verts.len() {
        seq![]
    } else {
        let outs = circ_otputs(verts[i - 1].1);
        mix_outputs(kind, maps, verts, edges, (i - 1) as nat) + mix_part_outputs(kind, maps, verts[i - 1].0, outs, edges, outs.len() as int)
    }
}

pub open spec fn iter_part_outputs(kind: Seq<char>, maps: Seq<(Seq<char>, PinV)>, n: nat, outs: Seq<(PinV, bool)>, next: Seq<(Seq<char>, Seq<char>)>, prev: Seq<(Seq<char>, Seq<char>)>, j: int) -> Seq<(PinV, bool)>
    decreases j,
{
    if j <= 0 || j > outs.len() {
        seq![]
    } else {
        let rest = iter_part_outputs(kind, maps, n, outs, next, prev, j - 1);
        let p = outs[j - 1].0.1;
        if iter_keeps_out(n, p, next, prev) {
            rest.push((map_pin(kind, maps, (num_ident(n), p)), outs[j - 1].1))
        } else {
            rest
        }
    }
}

pub open spec fn iter_outputs(kind: Seq<char>, maps: Seq<(Seq<char>, PinV)>, used: Seq<Circuit>, next: Seq<(Seq<char>, Seq<char>)>, prev: Seq<(Seq<char>, Seq<char>)>, i: nat) -> Seq<(PinV, bool)>
    decreases used, i,
{
    if i == 0 || i > used.len() {
        seq![]
    } else {
        let outs = circ_otputs(used[i - 1]);
        iter_outputs(kind, maps, used, next, prev, (i - 1) as nat) + iter_part_outputs(kind, maps, (i - 1) as nat, outs, next, prev, outs.len() as int)
    }
}

/// The name of a circuit: a gate's kind, or the name it was made with.
pub open spec fn circ_kind(c: Circuit) -> Seq<char> {
    match c {
        Circuit::Gate(g) => gate_name(g.kind),
        Circuit::Mix(m) => m.kind,
        Circuit::Iter(it) => it.kind,
    }
}

impl LogicCircuit {
    pub fn kind(&self) -> (s: String)
        ensures
            s@ == circ_kind(lc_view(*self)),
    {
        match self {
            LogicCircuit::Gate(g) => g.kind(),
            LogicCircuit::MixLogicCircuit(m) => m.kind.clone(),
            LogicCircuit::IterLogicCircuit(it) => it.kind.clone(),
        }
    }

    pub fn get_inpins(&self) -> (r: Vec<NamedPin>)
        ensures
            pins_view(r@) == circ_inpins(lc_view(*self)),
        decreases self, 2nat,
    {
        match self {
            LogicCircuit::Gate(g) => g.get_inpins(),
            LogicCircuit::MixLogicCircuit(m) => {
                proof {
                    assert(decreases_to!(*self => self->MixLogicCircuit_0));
                }
                m.get_inpins()
            },
            LogicCircuit::IterLogicCircuit(it) => {
                proof {
                    assert(decreases_to!(*self => self->IterLogicCircuit_0));
                }
                it.get_inpins()
            },
        }
    }

    pub fn get_otpins(&self) -> (r: Vec<NamedPin>)
        ensures
            pins_view(r@) == circ_otpins(lc_view(*self)),
        decreases self, 2nat,
    {
        match self {
            LogicCircuit::Gate(g) => g.get_otpins(),
            LogicCircuit::MixLogicCircuit(m) => {
                proof {
                    assert(decreases_to!(*self => self->MixLogicCircuit_0));
                }
                m.get_otpins()
            },
            LogicCircuit::IterLogicCircuit(it) => {
                proof {
                    assert(decreases_to!(*self => self->IterLogicCircuit_0));
                }
                it.get_otpins()
            },
        }
    }

    pub fn get_otputs(&self) -> (r: Vec<(NamedPin, bool)>)
        ensures
            signals_view(r@) == circ_otputs(lc_view(*self)),
        decreases self, 2nat,
    {
        match self {
            LogicCircuit::Gate(g) => g.get_otputs(),
            LogicCircuit::MixLogicCircuit(m) => {
                proof {
                    assert(decreases_to!(*self => self->MixLogicCircuit_0));
                }
                m.get_otputs()
            },
            LogicCircuit::IterLogicCircuit(it) => {
                proof {
                    assert(decreases_to!(*self => self->IterLogicCircuit_0));
                }
                it.get_otputs()
            },
        }
    }
}

impl MixLogicCircuit {
    /// The input pins of the parts that no edge feeds, in the order of the
    /// parts.
    pub fn usable_inpins(&self) -> (r: Vec<NamedPin>)
        ensures
            pins_view(r@) == mix_usable_in(mix_view(*self).verts, mix_view(*self).edges, self.verts@.len()),
        decreases self, 0nat,
    {
        let ghost mv = mix_view(*self);
        proof {
            lemma_verts_view(self.verts@, self.verts@.len());
        }
        let mut v: Vec<NamedPin> = Vec::new();
        let mut i: usize = 0;
        while i < self.verts.len()
            invariant
                0 <= i <= self.verts.len(),
                mv == mix_view(*self),
                mv.verts.len() == self.verts.len(),
                forall|k: int| 0 <= k < self.verts.len() ==> #[trigger] mv.verts[k] == (self.verts@[k].0@, lc_view(self.verts@[k].1)),
                pins_view(v@) == mix_usable_in(mv.verts, mv.edges, i as nat),
            decreases self.verts.len() - i,
        {
            proof {
                assert(decreases_to!(*self => self.verts));
                assert(decreases_to!(self.verts => self.verts@));
                assert(decreases_to!(self.verts@ => self.verts@[i as int]));
                assert(decreases_to!(self.verts@[i as int] => self.verts@[i as int].1));
            }
            let ps = self.verts[i].1.get_inpins();
            let ghost name = self.verts@[i as int].0@;
            let ghost base = v@;
            assert(mv.verts[i as int] == (name, lc_view(self.verts@[i as int].1)));
            let mut j: usize = 0;
            while j < ps.len()
                invariant
                    0 <= j <= ps.len(),
                    0 <= i < self.verts.len(),
                    name == self.verts@[i as int].0@,
                    mv == mix_view(*self),
                    pins_view(v@) == pins_view(base) + mix_part_in(name, pins_view(ps@), mv.edges, j as int),
                decreases ps.len() - j,
            {
                let np = (self.verts[i].0.clone(), ps[j].1.clone());
                let ghost v0 = v@;
                if !edge_target(&self.edges, &np) {
                    v.push(np);
                    assert(pins_view(v@) =~= pins_view(v0).push(pin_view(np)));
                }
                j += 1;
            }
            assert(pins_view(v@) =~= mix_usable_in(mv.verts, mv.edges, (i + 1) as nat));
            i += 1;
        }
        v
    }

    /// The output pins of the parts that no edge reads, in the order of the
    /// parts.
    pub fn usable_otpins(&self) -> (r: Vec<NamedPin>)
        ensures
            pins_view(r@) == mix_usable_out(mix_view(*self).verts, mix_view(*self).edges, self.verts@.len()),
        decreases self, 0nat,
    {
        let ghost mv = mix_view(*self);
        proof {
            lemma_verts_view(self.verts@, self.verts@.len());
        }
        let mut v: Vec<NamedPin> = Vec::new();
        let mut i: usize = 0;
        while i < self.verts.len()
            invariant
                0 <= i <= self.verts.len(),
                mv == mix_view(*self),
                mv.verts.len() == self.verts.len(),
                forall|k: int| 0 <= k < self.verts.len() ==> #[trigger] mv.verts[k] == (self.verts@[k].0@, lc_view(self.verts@[k].1)),
                pins_view(v@) == mix_usable_out(mv.verts, mv.edges, i as nat),
            decreases self.verts.len() - i,
        {
            proof {
                assert(decreases_to!(*self => self.verts));
                assert(decreases_to!(self.verts => self.verts@));
                assert(decreases_to!(self.verts@ => self.verts@[i as int]));
                assert(decreases_to!(self.verts@[i as int] => self.verts@[i as int].1));
            }
            let ps = self.verts[i].1.get_otpins();
            let ghost name = self.verts@[i as int].0@;
            let ghost base = v@;
            assert(mv.verts[i as int] == (name, lc_view(self.verts@[i as int].1)));
            let mut j: usize = 0;
            while j < ps.len()
                invariant
                    0 <= j <= ps.len(),
                    0 <= i < self.verts.len(),
                    name == self.verts@[i as int].0@,
                    mv == mix_view(*self),
                    pins_view(v@) == pins_view(base) + mix_part_out(name, pins_view(ps@), mv.edges, j as int),
                decreases ps.len() - j,
            {
                let np = (self.verts[i].0.clone(), ps[j].1.clone());
                let ghost v0 = v@;
                if !edge_source(&self.edges, &np) {
                    v.push(np);
                    assert(pins_view(v@) =~= pins_view(v0).push(pin_view(np)));
                }
                j += 1;
            }
            assert(pins_view(v@) =~= mix_usable_out(mv.verts, mv.edges, (i + 1) as nat));
            i += 1;
        }
        v
    }

    pub fn get_inpins(&self) -> (r: Vec<NamedPin>)
        ensures
            pins_view(r@) == circ_inpins(Circuit::Mix(Box::new(mix_view(*self)))),
        decreases self, 1nat,
    {
        proof {
            lemma_verts_view(self.verts@, self.verts@.len());
        }
        let u = self.usable_inpins();
        map_pins_exec(&self.kind, &self.inpin_maps, &u)
    }

    pub fn get_otpins(&self) -> (r: Vec<NamedPin>)
        ensures
            pins_view(r@) == circ_otpins(Circuit::Mix(Box::new(mix_view(*self)))),
        decreases self, 1nat,
    {
        proof {
            lemma_verts_view(self.verts@, self.verts@.len());
        }
        let u = self.usable_otpins();
        map_pins_exec(&self.kind, &self.otpin_maps, &u)
    }

    pub fn get_otputs(&self) -> (r: Vec<(NamedPin, bool)>)
        ensures
            signals_view(r@) == circ_otputs(Circuit::Mix(Box::new(mix_view(*self)))),
        decreases self, 1nat,
    {
        let ghost mv = mix_view(*self);
        proof {
            lemma_verts_view(self.verts@, self.verts@.len());
        }
        let mut v: Vec<(NamedPin, bool)> = Vec::new();
        let mut i: usize = 0;
        while i < self.verts.len()
            invariant
                0 <= i <= self.verts.len(),
                mv == mix_view(*self),
                mv.verts.len() == self.verts.len(),
                forall|k: int| 0 <= k < self.verts.len() ==> #[trigger] mv.verts[k] == (self.verts@[k].0@, lc_view(self.verts@[k].1)),
                signals_view(v@) == mix_outputs(mv.kind, mv.otpin_maps, mv.verts, mv.edges, i as nat),
            decreases self.verts.len() - i,
        {
            proof {
                assert(decreases_to!(*self => self.verts));
                assert(decreases_to!(self.verts => self.verts@));
                assert(decreases_to!(self.verts@ => self.verts@[i as int]));
                assert(decreases_to!(self.verts@[i as int] => self.verts@[i as int].1));
            }
            let outs = self.verts[i].1.get_otputs();
            let ghost name = self.verts@[i as int].0@;
            let ghost base = v@;
            assert(mv.verts[i as int] == (name, lc_view(self.verts@[i as int].1)));
            let mut j: usize = 0;
            while j < outs.len()
                invariant
                    0 <= j <= outs.len(),
                    0 <= i < self.verts.len(),
                    name == self.verts@[i as int].0@,
                    mv == mix_view(*self),
                    signals_view(v@) == signals_view(base) + mix_part_outputs(mv.kind, mv.otpin_maps, name, signals_view(outs@), mv.edges, j as int),
                decreases outs.len() - j,
            {
                let np = (self.verts[i].0.clone(), outs[j].0.1.clone());
                let ghost v0 = v@;
                if !edge_source(&self.edges, &np) {
                    let q = map_pin_exec(&self.kind, &self.otpin_maps, &np);
                    let item = (q, outs[j].1);
                    v.push(item);
                    assert(signals_view(v@) =~= signals_view(v0).push((pin_view(item.0), item.1)));
                }
                j += 1;
            }
            assert(signals_view(v@) =~= mix_outputs(mv.kind, mv.otpin_maps, mv.verts, mv.edges, (i + 1) as nat));
            i += 1;
        }
        v
    }
}

impl IterLogicCircuit {
    /// The pins of the copies in use that no edge of the row joins: inputs
    /// when `inputs`, else outputs.
    pub fn usable_pins(&self, inputs: bool) -> (r: Vec<NamedPin>)
        ensures
            pins_view(r@) == iter_usable(iter_view(*self).used, iter_view(*self).next_edges, iter_view(*self).prev_edges, inputs, self.used@.len()),
        decreases self, 0nat,
    {
        let ghost iv = iter_view(*self);
        proof {
            lemma_used_view(self.used@, self.used@.len());
        }
        let mut v: Vec<NamedPin> = Vec::new();
        let mut i: usize = 0;
        while i < self.used.len()
            invariant
                0 <= i <= self.used.len(),
                iv == iter_view(*self),
                iv.used.len() == self.used.len(),
                forall|k: int| 0 <= k < self.used.len() ==> #[trigger] iv.used[k] == lc_view(self.used@[k]),
                pins_view(v@) == iter_usable(iv.used, iv.next_edges, iv.prev_edges, inputs, i as nat),
            decreases self.used.len() - i,
        {
            proof {
                assert(decreases_to!(*self => self.used));
                assert(decreases_to!(self.used => self.used@));
                assert(decreases_to!(self.used@ => self.used@[i as int]));
            }
            let ps = if inputs {
                self.used[i].get_inpins()
            } else {
                self.used[i].get_otpins()
            };
            let name = num_to_ident(i);
            let ghost base = v@;
            assert(iv.used[i as int] == lc_view(self.used@[i as int]));
            let mut j: usize = 0;
            while j < ps.len()
                invariant
                    0 <= j <= ps.len(),
                    0 <= i < self.used.len(),
                    name@ == num_ident(i as nat),
                    iv == iter_view(*self),
                    pins_view(v@) == pins_view(base) + iter_part(i as nat, pins_view(ps@), iv.next_edges, iv.prev_edges, inputs, j as int),
                decreases ps.len() - j,
            {
                let p = &ps[j].1;
                let keep = if inputs {
                    (i == 0 || !pin_target(&self.next_edges, p)) && !pin_target(&self.prev_edges, p)
                } else {
                    (i == 0 || !pin_source(&self.prev_edges, p)) && !pin_source(&self.next_edges, p)
                };
                let ghost v0 = v@;
                if keep {
                    let np = (name.clone(), p.clone());
                    v.push(np);
                    assert(pins_view(v@) =~= pins_view(v0).push(pin_view(np)));
                }
                j += 1;
            }
            assert(pins_view(v@) =~= iter_usable(iv.used, iv.next_edges, iv.prev_edges, inputs, (i + 1) as nat));
            i += 1;
        }
        v
    }

    pub fn get_inpins(&self) -> (r: Vec<NamedPin>)
        ensures
            pins_view(r@) == circ_inpins(Circuit::Iter(Box::new(iter_view(*self)))),
        decreases self, 1nat,
    {
        proof {
            lemma_used_view(self.used@, self.used@.len());
        }
        let u = self.usable_pins(true);
        map_pins_exec(&self.kind, &self.inpin_maps, &u)
    }

    pub fn get_otpins(&self) -> (r: Vec<NamedPin>)
        ensures
            pins_view(r@) == circ_otpins(Circuit::Iter(Box::new(iter_view(*self)))),
        decreases self, 1nat,
    {
        proof {
            lemma_used_view(self.used@, self.used@.len());
        }
        let u = self.usable_pins(false);
        map_pins_exec(&self.kind, &self.otpin_maps, &u)
    }

    pub fn get_otputs(&self) -> (r: Vec<(NamedPin, bool)>)
        ensures
            signals_view(r@) == circ_otputs(Circuit::Iter(Box::new(iter_view(*self)))),
        decreases self, 1nat,
    {
        let ghost iv = iter_view(*self);
        proof {
            lemma_used_view(self.used@, self.used@.len());
        }
        let mut v: Vec<(NamedPin, bool)> = Vec::new();
        let mut i: usize = 0;
        while i < self.used.len()
            invariant
                0 <= i <= self.used.len(),
                iv == iter_view(*self),
                iv.used.len() == self.used.len(),
                forall|k: int| 0 <= k < self.used.len() ==> #[trigger] iv.used[k] == lc_view(self.used@[k]),
                signals_view(v@) == iter_outputs(iv.kind, iv.otpin_maps, iv.used, iv.next_edges, iv.prev_edges, i as nat),
            decreases self.used.len() - i,
        {
            proof {
                assert(decreases_to!(*self => self.used));
                assert(decreases_to!(self.used => self.used@));
                assert(decreases_to!(self.used@ => self.used@[i as int]));
            }
            let outs = self.used[i].get_otputs();
            let name = num_to_ident(i);
            let ghost base = v@;
            assert(iv.used[i as int] == lc_view(self.used@[i as int]));
            let mut j: usize = 0;
            while j < outs.len()
                invariant
                    0 <= j <= outs.len(),
                    0 <= i < self.used.len(),
                    name@ == num_ident(i as nat),
                    iv == iter_view(*self),
                    signals_view(v@) == signals_view(base) + iter_part_outputs(iv.kind, iv.otpin_maps, i as nat, signals_view(outs@), iv.next_edges, iv.prev_edges, j as int),
                decreases outs.len() - j,
            {
                let p = &outs[j].0.1;
                let keep = (i == 0 || !pin_source(&self.prev_edges, p)) && !pin_source(&self.next_edges, p);
                let ghost v0 = v@;
                if keep {
                    let np = (name.clone(), p.clone());
                    let q = map_pin_exec(&self.kind, &self.otpin_maps, &np);
                    let item = (q, outs[j].1);
                    v.push(item);
                    assert(signals_view(v@) =~= signals_view(v0).push((pin_view(item.0), item.1)));
                }
                j += 1;
            }
            assert(signals_view(v@) =~= iter_outputs(iv.kind, iv.otpin_maps, iv.used, iv.next_edges, iv.prev_edges, (i + 1) as nat));
            i += 1;
        }
        v
    }
}


// ---------------------------------------------------------------------
// Copies
// ---------------------------------------------------------------------

pub(crate) fn clone_edges(e: &Vec<(NamedPin, NamedPin)>) -> (r: Vec<(NamedPin, NamedPin)>)
    ensures
        edges_view(r@) == edges_view(e@),
{
    let mut r: Vec<(NamedPin, NamedPin)> = Vec::new();
    let mut i: usize = 0;
    while i < e.len()
        invariant
            0 <= i <= e.len(),
            r@ == e@.take(i as int),
        decreases e.len() - i,
    {
        let x = (clone_pin(&e[i].0), clone_pin(&e[i].1));
        r.push(x);
        assert(r@ =~= e@.take(i + 1));
        i += 1;
    }
    assert(e@.take(e.len() as int) =~= e@);
    r
}

pub(crate) fn clone_name_pairs(e: &Vec<(String, String)>) -> (r: Vec<(String, String)>)
    ensures
        name_pairs_view(r@) == name_pairs_view(e@),
{
    let mut r: Vec<(String, String)> = Vec::new();
    let mut i: usize = 0;
    while i < e.len()
        invariant
            0 <= i <= e.len(),
            r@ == e@.take(i as int),
        decreases e.len() - i,
    {
        let x = (e[i].0.clone(), e[i].1.clone());
        r.push(x);
        assert(r@ =~= e@.take(i + 1));
        i += 1;
    }
    assert(e@.take(e.len() as int) =~= e@);
    r
}

pub(crate) fn clone_pin_maps(e: &Vec<(String, NamedPin)>) -> (r: Vec<(String, NamedPin)>)
    ensures
        pin_maps_view(r@) == pin_maps_view(e@),
{
    let mut r: Vec<(String, NamedPin)> = Vec::new();
    let mut i: usize = 0;
    while i < e.len()
        invariant
            0 <= i <= e.len(),
            r@ == e@.take(i as int),
        decreases e.len() - i,
    {
        let x = (e[i].0.clone(), clone_pin(&e[i].1));
        r.push(x);
        assert(r@ =~= e@.take(i + 1));
        i += 1;
    }
    assert(e@.take(e.len() as int) =~= e@);
    r
}

impl LogicCircuit {
    /// A copy of the circuit.
    pub fn copy(&self) -> (r: LogicCircuit)
        ensures
            lc_view(r) == lc_view(*self),
        decreases self, 2nat,
    {
        match self {
            LogicCircuit::Gate(g) => LogicCircuit::Gate(*g),
            LogicCircuit::MixLogicCircuit(m) => {
                proof {
                    assert(decreases_to!(*self => self->MixLogicCircuit_0));
                }
                LogicCircuit::MixLogicCircuit(Box::new(m.copy()))
            },
            LogicCircuit::IterLogicCircuit(it) => {
                proof {
                    assert(decreases_to!(*self => self->IterLogicCircuit_0));
                }
                LogicCircuit::IterLogicCircuit(Box::new(it.copy()))
            },
        }
    }
}

/// Copies of named circuits.
fn copy_verts(vs: &Vec<(String, LogicCircuit)>) -> (r: Vec<(String, LogicCircuit)>)
    ensures
        verts_view(r@, r@.len()) == verts_view(vs@, vs@.len()),
    decreases vs, 0nat,
{
    let mut r: Vec<(String, LogicCircuit)> = Vec::new();
    let mut i: usize = 0;
    while i < vs.len()
        invariant
            0 <= i <= vs.len(),
            r@.len() == i,
            forall|k: int| 0 <= k < i ==> #[trigger] r@[k].0@ == vs@[k].0@ && lc_view(r@[k].1) == lc_view(vs@[k].1),
        decreases vs.len() - i,
    {
        proof {
            assert(decreases_to!(*vs => vs@));
            assert(decreases_to!(vs@ => vs@[i as int]));
            assert(decreases_to!(vs@[i as int] => vs@[i as int].1));
        }
        let c = vs[i].1.copy();
        r.push((vs[i].0.clone(), c));
        i += 1;
    }
    proof {
        lemma_verts_view(r@, r@.len());
        lemma_verts_view(vs@, vs@.len());
        assert(verts_view(r@, r@.len()) =~= verts_view(vs@, vs@.len()));
    }
    r
}

impl MixLogicCircuit {
    pub fn copy(&self) -> (r: MixLogicCircuit)
        ensures
            mix_view(r) == mix_view(*self),
        decreases self, 1nat,
    {
        proof {
            assert(decreases_to!(*self => self.verts));
        }
        MixLogicCircuit {
            kind: self.kind.clone(),
            verts: copy_verts(&self.verts),
            edges: clone_edges(&self.edges),
            inpin_maps: clone_pin_maps(&self.inpin_maps),
            otpin_maps: clone_pin_maps(&self.otpin_maps),
        }
    }
}

impl IterLogicCircuit {
    pub fn copy(&self) -> (r: IterLogicCircuit)
        ensures
            iter_view(r) == iter_view(*self),
        decreases self, 1nat,
    {
        proof {
            assert(decreases_to!(*self => self.init));
        }
        let init = self.init.copy();
        let mut used: Vec<LogicCircuit> = Vec::new();
        let mut i: usize = 0;
        while i < self.used.len()
            invariant
                0 <= i <= self.used.len(),
                used@.len() == i,
                forall|k: int| 0 <= k < i ==> #[trigger] lc_view(used@[k]) == lc_view(self.used@[k]),
            decreases self.used.len() - i,
        {
            proof {
                assert(decreases_to!(*self => self.used));
                assert(decreases_to!(self.used => self.used@));
                assert(decreases_to!(self.used@ => self.used@[i as int]));
            }
            let c = self.used[i].copy();
            used.push(c);
            i += 1;
        }
        proof {
            lemma_used_view(used@, used@.len());
            lemma_used_view(self.used@, self.used@.len());
            assert(used_view(used@, used@.len()) =~= used_view(self.used@, self.used@.len()));
        }
        IterLogicCircuit {
            kind: self.kind.clone(),
            init,
            used,
            next_edges: clone_name_pairs(&self.next_edges),
            prev_edges: clone_name_pairs(&self.prev_edges),
            inpin_maps: clone_pin_maps(&self.inpin_maps),
            otpin_maps: clone_pin_maps(&self.otpin_maps),
        }
    }
}


// ---------------------------------------------------------------------
// Making circuits
// ---------------------------------------------------------------------

/// Whether some part before `i` has the name of part `i`.
pub open spec fn name_taken_before(verts: Seq<(Seq<char>, Circuit)>, i: int) -> bool {
    exists|j: int| 0 <= j < i && (#[trigger] verts[j]).0 == verts[i].0
}

/// The first part, from `i` on, whose name an earlier part has.
pub open spec fn first_duplicate(verts: Seq<(Seq<char>, Circuit)>, i: int) -> Option<int>
    decreases verts.len() - i,
{
    if i < 0 || i >= verts.len() {
        None
    } else if name_taken_before(verts, i) {
        Some(i)
    } else {
        first_duplicate(verts, i + 1)
    }
}

/// The first part, from `i` on, named `name`.
pub open spec fn find_part(verts: Seq<(Seq<char>, Circuit)>, name: Seq<char>, i: int) -> Option<int>
    decreases verts.len() - i,
{
    if i < 0 || i >= verts.len() {
        None
    } else if verts[i].0 == name {
        Some(i)
    } else {
        find_part(verts, name, i + 1)
    }
}

/// Whether some pin in `pins` has the pin name `p`.
pub open spec fn has_pin_name(pins: Seq<PinV>, p: Seq<char>) -> bool {
    exists|t: int| 0 <= t < pins.len() && (#[trigger] pins[t]).1 == p
}

/// Whether edge `k` starts at no free output pin: its part is unknown, the
/// part has no such output, or an earlier edge starts there.
pub open spec fn source_refused(verts: Seq<(Seq<char>, Circuit)>, edges: Seq<(PinV, PinV)>, k: int) -> bool {
    let no = edges[k].0;
    match find_part(verts, no.0, 0) {
        None => true,
        Some(v) => !has_pin_name(circ_otpins(verts[v].1), no.1) || exists|j: int|
            0 <= j < k && (#[trigger] edges[j]).0 == no,
    }
}

/// Whether edge `k` ends at no free input pin.
pub open spec fn target_refused(verts: Seq<(Seq<char>, Circuit)>, edges: Seq<(PinV, PinV)>, k: int) -> bool {
    let ni = edges[k].1;
    match find_part(verts, ni.0, 0) {
        None => true,
        Some(v) => !has_pin_name(circ_inpins(verts[v].1), ni.1) || exists|j: int|
            0 <= j < k && (#[trigger] edges[j]).1 == ni,
    }
}

pub open spec fn pin_text(p: PinV) -> Seq<char> {
    p.0 + "."@ + p.1
}

/// The first refused edge from `k` on, with the message for it.
pub open spec fn edges_check(verts: Seq<(Seq<char>, Circuit)>, edges: Seq<(PinV, PinV)>, k: int) -> Result<(), Seq<char>>
    decreases edges.len() - k,
{
    if k < 0 || k >= edges.len() {
        Ok(())
    } else if source_refused(verts, edges, k) {
        Err("edge "@ + pin_text(edges[k].0) + " not in verts"@)
    } else if target_refused(verts, edges, k) {
        Err("edge "@ + pin_text(edges[k].1) + " not in verts"@)
    } else {
        edges_check(verts, edges, k + 1)
    }
}

/// Whether parts and edges make a circuit: names are distinct, and each
/// edge joins a free output pin of a part to a free input pin of a part,
/// no pin used twice.
pub open spec fn mix_check(verts: Seq<(Seq<char>, Circuit)>, edges: Seq<(PinV, PinV)>) -> Result<(), Seq<char>> {
    match first_duplicate(verts, 0) {
        Some(i) => Err("duplicate name "@ + verts[i].0),
        None => edges_check(verts, edges, 0),
    }
}

fn pin_text_exec(p: &NamedPin) -> (r: Vec<char>)
    ensures
        r@ == pin_text(pin_view(*p)),
{
    let mut v: Vec<char> = Vec::new();
    crate::coroutine::push_str(&mut v, p.0.as_str());
    crate::coroutine::push_str(&mut v, ".");
    crate::coroutine::push_str(&mut v, p.1.as_str());
    v
}

fn has_pin_name_exec(pins: &Vec<NamedPin>, p: &String) -> (r: bool)
    ensures
        r == has_pin_name(pins_view(pins@), p@),
{
    let mut t: usize = 0;
    while t < pins.len()
        invariant
            0 <= t <= pins.len(),
            forall|u: int| 0 <= u < t ==> (#[trigger] pins_view(pins@)[u]).1 != p@,
        decreases pins.len() - t,
    {
        if pins[t].1 == *p {
            assert(pins_view(pins@)[t as int].1 == p@);
            return true;
        }
        t += 1;
    }
    false
}

pub(crate) fn find_part_exec(verts: &Vec<(String, LogicCircuit)>, name: &String) -> (r: Option<usize>)
    ensures
        r matches Some(i) ==> i < verts@.len() && find_part(verts_view(verts@, verts@.len()), name@, 0) == Some(i as int),
        r is None ==> find_part(verts_view(verts@, verts@.len()), name@, 0) is None,
{
    let ghost vv = verts_view(verts@, verts@.len());
    proof {
        lemma_verts_view(verts@, verts@.len());
    }
    let mut i: usize = 0;
    while i < verts.len()
        invariant
            0 <= i <= verts.len(),
            vv == verts_view(verts@, verts@.len()),
            vv.len() == verts.len(),
            forall|k: int| 0 <= k < verts.len() ==> #[trigger] vv[k] == (verts@[k].0@, lc_view(verts@[k].1)),
            find_part(vv, name@, 0) == find_part(vv, name@, i as int),
        decreases verts.len() - i,
    {
        assert(vv[i as int].0 == verts@[i as int].0@);
        if verts[i].0 == *name {
            return Some(i);
        }
        i += 1;
    }
    None
}

impl LogicCircuit {
    pub fn new_gate(kind: GateKind, state: bool) -> (r: LogicCircuit)
        ensures
            lc_view(r) == Circuit::Gate(Gate { kind, state }),
    {
        LogicCircuit::Gate(Gate { kind, state })
    }

    /// A circuit of named parts joined by edges, if the names are distinct
    /// and each edge joins a free output pin to a free input pin.
    pub fn new_mix(
        kind: String,
        verts: Vec<(String, LogicCircuit)>,
        edges: Vec<(NamedPin, NamedPin)>,
        inpin_maps: Vec<(String, NamedPin)>,
        otpin_maps: Vec<(String, NamedPin)>,
    ) -> (r: Result<LogicCircuit, String>)
        ensures
            ({
                let vv = verts_view(verts@, verts@.len());
                let ev = edges_view(edges@);
                match mix_check(vv, ev) {
                    Ok(_) => r matches Ok(lc) && lc_view(lc) == Circuit::Mix(
                        Box::new(
                            MixModel {
                                kind: kind@,
                                verts: vv,
                                edges: ev,
                                inpin_maps: pin_maps_view(inpin_maps@),
                                otpin_maps: pin_maps_view(otpin_maps@),
                            },
                        ),
                    ),
                    Err(m) => r matches Err(e) && e@ == m,
                }
            }),
    {
        let ghost vv = verts_view(verts@, verts@.len());
        let ghost ev = edges_view(edges@);
        proof {
            lemma_verts_view(verts@, verts@.len());
        }
        // the names must be distinct
        let mut i: usize = 0;
        while i < verts.len()
            invariant
                0 <= i <= verts.len(),
                vv == verts_view(verts@, verts@.len()),
                vv.len() == verts.len(),
                forall|k: int| 0 <= k < verts.len() ==> #[trigger] vv[k] == (verts@[k].0@, lc_view(verts@[k].1)),
                first_duplicate(vv, 0) == first_duplicate(vv, i as int),
            decreases verts.len() - i,
        {
            let mut j: usize = 0;
            while j < i
                invariant
                    0 <= j <= i < verts.len(),
                    vv == verts_view(verts@, verts@.len()),
                    first_duplicate(vv, 0) == first_duplicate(vv, i as int),
                    vv.len() == verts.len(),
                    forall|k: int| 0 <= k < verts.len() ==> #[trigger] vv[k] == (verts@[k].0@, lc_view(verts@[k].1)),
                    forall|t: int| 0 <= t < j ==> (#[trigger] vv[t]).0 != vv[i as int].0,
                decreases i - j,
            {
                if verts[j].0 == verts[i].0 {
                    assert(vv[j as int].0 == vv[i as int].0);
                    assert(name_taken_before(vv, i as int));
                    assert(first_duplicate(vv, i as int) == Some(i as int));
                    let mut v = chars_of("duplicate name ");
                    crate::coroutine::push_str(&mut v, verts[i].0.as_str());
                    proof {
                        reveal_strlit("duplicate name ");
                    }
                    return Err(string_of(&v));
                }
                j += 1;
            }
            assert(!name_taken_before(vv, i as int));
            i += 1;
        }
        assert(first_duplicate(vv, 0) is None);
        // the edges
        let mut k: usize = 0;
        while k < edges.len()
            invariant
                0 <= k <= edges.len(),
                vv == verts_view(verts@, verts@.len()),
                ev == edges_view(edges@),
                vv.len() == verts.len(),
                forall|t: int| 0 <= t < verts.len() ==> #[trigger] vv[t] == (verts@[t].0@, lc_view(verts@[t].1)),
                first_duplicate(vv, 0) is None,
                edges_check(vv, ev, 0) == edges_check(vv, ev, k as int),
            decreases edges.len() - k,
        {
            let no = &edges[k].0;
            let ni = &edges[k].1;
            assert(ev[k as int] == (pin_view(*no), pin_view(*ni)));
            // the source
            let mut src_ok = false;
            match find_part_exec(&verts, &no.0) {
                None => {
                    assert(source_refused(vv, ev, k as int));
                },
                Some(v) => {
                    let outs = verts[v].1.get_otpins();
                    assert(vv[v as int].1 == lc_view(verts@[v as int].1));
                    if has_pin_name_exec(&outs, &no.1) {
                        src_ok = true;
                        let mut j: usize = 0;
                        while j < k
                            invariant
                                0 <= j <= k < edges.len(),
                                ev == edges_view(edges@),
                                no == &edges@[k as int].0,
                                src_ok == forall|t: int| 0 <= t < j ==> (#[trigger] ev[t]).0 != pin_view(*no),
                            decreases k - j,
                        {
                            assert(ev[j as int].0 == pin_view(edges@[j as int].0));
                            if pins_eq(&edges[j].0, no) {
                                src_ok = false;
                            }
                            j += 1;
                        }
                    }
                    assert(src_ok == !source_refused(vv, ev, k as int));
                },
            }
            if !src_ok {
                let mut m = chars_of("edge ");
                let t = pin_text_exec(no);
                crate::coroutine::push_all(&mut m, &t);
                crate::coroutine::push_str(&mut m, " not in verts");
                proof {
                    reveal_strlit("edge ");
                    reveal_strlit(" not in verts");
                }
                return Err(string_of(&m));
            }
            // the target
            let mut dst_ok = false;
            match find_part_exec(&verts, &ni.0) {
                None => {
                    assert(target_refused(vv, ev, k as int));
                },
                Some(v) => {
                    let ins = verts[v].1.get_inpins();
                    assert(vv[v as int].1 == lc_view(verts@[v as int].1));
                    if has_pin_name_exec(&ins, &ni.1) {
                        dst_ok = true;
                        let mut j: usize = 0;
                        while j < k
                            invariant
                                0 <= j <= k < edges.len(),
                                ev == edges_view(edges@),
                                ni == &edges@[k as int].1,
                                dst_ok == forall|t: int| 0 <= t < j ==> (#[trigger] ev[t]).1 != pin_view(*ni),
                            decreases k - j,
                        {
                            assert(ev[j as int].1 == pin_view(edges@[j as int].1));
                            if pins_eq(&edges[j].1, ni) {
                                dst_ok = false;
                            }
                            j += 1;
                        }
                    }
                    assert(dst_ok == !target_refused(vv, ev, k as int));
                },
            }
            if !dst_ok {
                let mut m = chars_of("edge ");
                let t = pin_text_exec(ni);
                crate::coroutine::push_all(&mut m, &t);
                crate::coroutine::push_str(&mut m, " not in verts");
                proof {
                    reveal_strlit("edge ");
                    reveal_strlit(" not in verts");
                }
                return Err(string_of(&m));
            }
            k += 1;
        }
        Ok(
            LogicCircuit::MixLogicCircuit(
                Box::new(MixLogicCircuit { kind, verts, edges, inpin_maps, otpin_maps }),
            ),
        )
    }

    /// A row of copies of `init`, none in use yet.
    pub fn new_iter(
        kind: String,
        init: LogicCircuit,
        next_edges: Vec<(String, String)>,
        prev_edges: Vec<(String, String)>,
    ) -> (r: Result<LogicCircuit, String>)
        ensures
            r matches Ok(lc) && lc_view(lc) == Circuit::Iter(
                Box::new(
                    IterModel {
                        kind: kind@,
                        init: lc_view(init),
                        used: seq![],
                        next_edges: name_pairs_view(next_edges@),
                        prev_edges: name_pairs_view(prev_edges@),
                        inpin_maps: seq![],
                        otpin_maps: seq![],
                    },
                ),
            ),
    {
        let it = IterLogicCircuit {
            kind,
            init,
            used: Vec::new(),
            next_edges,
            prev_edges,
            inpin_maps: Vec::new(),
            otpin_maps: Vec::new(),
        };
        assert(used_view(it.used@, 0) =~= seq![]);
        assert(pin_maps_view(it.inpin_maps@) =~= seq![]);
        assert(pin_maps_view(it.otpin_maps@) =~= seq![]);
        Ok(LogicCircuit::IterLogicCircuit(Box::new(it)))
    }
}


// ---------------------------------------------------------------------
// Steps
// ---------------------------------------------------------------------

/// The first edge, from `e` on, that leaves the output pin `o`.
pub open spec fn edge_from(edges: Seq<(PinV, PinV)>, o: PinV, e: int) -> Option<int>
    decreases edges.len() - e,
{
    if e < 0 || e >= edges.len() {
        None
    } else if edges[e].0 == o {
        Some(e)
    } else {
        edge_from(edges, o, e + 1)
    }
}

/// What part `name` hears along the edges from the first `t` outputs
/// `outs` of part `vname`.
pub open spec fn heard_from_part(edges: Seq<(PinV, PinV)>, name: Seq<char>, vname: Seq<char>, outs: Seq<(PinV, bool)>, t: int) -> Seq<(PinV, bool)>
    decreases t,
{
    if t <= 0 || t > outs.len() {
        seq![]
    } else {
        let rest = heard_from_part(edges, name, vname, outs, t - 1);
        match edge_from(edges, (vname, outs[t - 1].0.1), 0) {
            Some(e) => if edges[e].1.0 == name {
                rest.push((edges[e].1, outs[t - 1].1))
            } else {
                rest
            },
            None => rest,
        }
    }
}

/// What part `name` hears from the outputs of the first `j` parts.
pub open spec fn heard(verts: Seq<(Seq<char>, Circuit)>, edges: Seq<(PinV, PinV)>, name: Seq<char>, j: nat) -> Seq<(PinV, bool)>
    decreases j,
{
    if j == 0 || j > verts.len() {
        seq![]
    } else {
        let outs = circ_otputs(verts[j - 1].1);
        heard(verts, edges, name, (j - 1) as nat) + heard_from_part(edges, name, verts[j - 1].0, outs, outs.len() as int)
    }
}

/// The first map entry, from `k` on, whose outer pin name is `ext`.
pub open spec fn ext_index(maps: Seq<(Seq<char>, PinV)>, ext: Seq<char>, k: int) -> Option<int>
    decreases maps.len() - k,
{
    if k < 0 || k >= maps.len() {
        None
    } else if maps[k].0 == ext {
        Some(k)
    } else {
        ext_index(maps, ext, k + 1)
    }
}

/// The inner pin that an input to the circuit `kind` reaches: through the
/// input maps when it names the circuit, else the pin itself.
pub open spec fn resolve_input(kind: Seq<char>, maps: Seq<(Seq<char>, PinV)>, i: PinV) -> Option<PinV> {
    if i.0 == kind {
        match ext_index(maps, i.1, 0) {
            Some(k) => Some(maps[k].1),
            None => None,
        }
    } else {
        Some(i)
    }
}

pub open spec fn has_pin_entry(list: Seq<(PinV, bool)>, p: PinV) -> bool {
    exists|t: int| 0 <= t < list.len() && (#[trigger] list[t]).0 == p
}

/// `acc` with the inputs from `k` on that reach part `name` and find no
/// value for their pin yet.
pub open spec fn add_external(kind: Seq<char>, maps: Seq<(Seq<char>, PinV)>, name: Seq<char>, inputs: Seq<(PinV, bool)>, k: int, acc: Seq<(PinV, bool)>) -> Seq<(PinV, bool)>
    decreases inputs.len() - k,
{
    if k < 0 || k >= inputs.len() {
        acc
    } else {
        let next = match resolve_input(kind, maps, inputs[k].0) {
            Some(p) => if p.0 == name && !has_pin_entry(acc, p) {
                acc.push((p, inputs[k].1))
            } else {
                acc
            },
            None => acc,
        };
        add_external(kind, maps, name, inputs, k + 1, next)
    }
}

/// The inputs of part `name` in a step of a mix: what it hears from the
/// other parts, then the circuit's inputs that reach it.
pub open spec fn mix_inputs_for(m: MixModel, name: Seq<char>, inputs: Seq<(PinV, bool)>) -> Seq<(PinV, bool)> {
    add_external(m.kind, m.inpin_maps, name, inputs, 0, heard(m.verts, m.edges, name, m.verts.len()))
}

/// The first edge, from `e` on, that leaves the pin named `o`.
pub open spec fn pin_edge_from(edges: Seq<(Seq<char>, Seq<char>)>, o: Seq<char>, e: int) -> Option<int>
    decreases edges.len() - e,
{
    if e < 0 || e >= edges.len() {
        None
    } else if edges[e].0 == o {
        Some(e)
    } else {
        pin_edge_from(edges, o, e + 1)
    }
}

/// What copy `n` hears along `edges` from the first `t` outputs of a
/// neighbour.
pub open spec fn iter_heard(edges: Seq<(Seq<char>, Seq<char>)>, n: nat, outs: Seq<(PinV, bool)>, t: int) -> Seq<(PinV, bool)>
    decreases t,
{
    if t <= 0 || t > outs.len() {
        seq![]
    } else {
        let rest = iter_heard(edges, n, outs, t - 1);
        match pin_edge_from(edges, outs[t - 1].0.1, 0) {
            Some(e) => rest.push(((num_ident(n), edges[e].1), outs[t - 1].1)),
            None => rest,
        }
    }
}

/// `acc` with the inputs from `k` on whose inner pin names copy `n` by its
/// number and find no value for their pin yet.
pub open spec fn add_iter_external(kind: Seq<char>, maps: Seq<(Seq<char>, PinV)>, n: nat, inputs: Seq<(PinV, bool)>, k: int, acc: Seq<(PinV, bool)>) -> Seq<(PinV, bool)>
    decreases inputs.len() - k,
{
    if k < 0 || k >= inputs.len() {
        acc
    } else {
        let next = match resolve_input(kind, maps, inputs[k].0) {
            Some(p) => match crate::number::parse_decimal(p.0) {
                Ok(v) => if v == n && !has_pin_entry(acc, p) {
                    acc.push((p, inputs[k].1))
                } else {
                    acc
                },
                Err(_) => acc,
            },
            None => acc,
        };
        add_iter_external(kind, maps, n, inputs, k + 1, next)
    }
}

/// The inputs of copy `n` in a step of a row: what it hears from copy
/// `n - 1` along the next edges and from copy `n + 1` along the previous
/// edges, then the row's inputs that name it.
pub open spec fn iter_inputs_for(it: IterModel, n: nat, inputs: Seq<(PinV, bool)>) -> Seq<(PinV, bool)> {
    let from_prev = if 1 <= n && n - 1 < it.used.len() {
        let outs = circ_otputs(it.used[n - 1]);
        iter_heard(it.next_edges, n, outs, outs.len() as int)
    } else {
        seq![]
    };
    let from_next = if n + 1 < it.used.len() {
        let outs = circ_otputs(it.used[n + 1 as int]);
        iter_heard(it.prev_edges, n, outs, outs.len() as int)
    } else {
        seq![]
    };
    add_iter_external(it.kind, it.inpin_maps, n, inputs, 0, from_prev + from_next)
}

pub open spec fn any_high(list: Seq<(PinV, bool)>) -> bool {
    exists|t: int| 0 <= t < list.len() && (#[trigger] list[t]).1
}

/// A circuit after one step on `inputs`.
pub open spec fn circ_step(c: Circuit, inputs: Seq<(PinV, bool)>) -> Circuit
    decreases c, 0nat,
{
    match c {
        Circuit::Gate(g) => Circuit::Gate(Gate { kind: g.kind, state: gate_next_state(g, inputs) }),
        Circuit::Mix(m) => Circuit::Mix(
            Box::new(
                MixModel {
                    kind: m.kind,
                    verts: mix_step_verts(*m, m.verts, inputs, m.verts.len()),
                    edges: m.edges,
                    inpin_maps: m.inpin_maps,
                    otpin_maps: m.otpin_maps,
                },
            ),
        ),
        Circuit::Iter(it) => {
            let last = iter_inputs_for(*it, it.used.len(), inputs);
            let stepped = iter_step_used(*it, it.used, inputs, it.used.len());
            Circuit::Iter(
                Box::new(
                    IterModel {
                        kind: it.kind,
                        init: it.init,
                        used: if any_high(last) {
                            stepped.push(circ_step(it.init, last))
                        } else {
                            stepped
                        },
                        next_edges: it.next_edges,
                        prev_edges: it.prev_edges,
                        inpin_maps: it.inpin_maps,
                        otpin_maps: it.otpin_maps,
                    },
                ),
            )
        },
    }
}

/// The first `i` parts of a mix after a step: the first part of each name
/// steps on its inputs; a part whose name an earlier part has stays.
pub open spec fn mix_step_verts(m: MixModel, verts: Seq<(Seq<char>, Circuit)>, inputs: Seq<(PinV, bool)>, i: nat) -> Seq<(Seq<char>, Circuit)>
    decreases verts, i,
{
    if i == 0 || i > verts.len() {
        seq![]
    } else {
        let rest = mix_step_verts(m, verts, inputs, (i - 1) as nat);
        let v = verts[i - 1];
        if find_part(verts, v.0, 0) == Some(i - 1) {
            rest.push((v.0, circ_step(v.1, mix_inputs_for(m, v.0, inputs))))
        } else {
            rest.push(v)
        }
    }
}

/// The first `i` copies in use after a step, each on its inputs.
pub open spec fn iter_step_used(it: IterModel, used: Seq<Circuit>, inputs: Seq<(PinV, bool)>, i: nat) -> Seq<Circuit>
    decreases used, i,
{
    if i == 0 || i > used.len() {
        seq![]
    } else {
        iter_step_used(it, used, inputs, (i - 1) as nat).push(
            circ_step(used[i - 1], iter_inputs_for(it, (i - 1) as nat, inputs)),
        )
    }
}


/// Whether each output of a part that an edge leaves feeds a part of the
/// mix.
pub open spec fn mix_edges_resolve(m: MixModel) -> bool {
    forall|j: int, t: int|
        0 <= j < m.verts.len() && 0 <= t < circ_otputs(m.verts[j].1).len() ==> match edge_from(
            m.edges,
            (m.verts[j].0, #[trigger] circ_otputs(m.verts[j].1)[t].0.1),
            0,
        ) {
            Some(e) => find_part(m.verts, m.edges[e].1.0, 0) is Some,
            None => true,
        }
}

/// Whether no output of the first copy leaves along a previous edge (which
/// would lead before the row).
pub open spec fn iter_no_underflow(it: IterModel) -> bool {
    it.used.len() > 0 ==> forall|t: int|
        0 <= t < circ_otputs(it.used[0]).len() ==> pin_edge_from(
            it.prev_edges,
            (#[trigger] circ_otputs(it.used[0])[t]).0.1,
            0,
        ) is None
}

/// Whether each input that names a copy by number names one in use or the
/// next.
pub open spec fn iter_inputs_in_range(it: IterModel, inputs: Seq<(PinV, bool)>) -> bool {
    forall|k: int|
        0 <= k < inputs.len() ==> match resolve_input(it.kind, it.inpin_maps, (#[trigger] inputs[k]).0) {
            Some(p) => match crate::number::parse_decimal(p.0) {
                Ok(v) => v <= it.used.len(),
                Err(_) => true,
            },
            None => true,
        }
}

/// Whether a step on `inputs` runs through: each edge that carries a value
/// feeds a part, a row sends nothing before its first copy and its inputs
/// name no copy past the next, and so on in the parts.
pub open spec fn can_step(c: Circuit, inputs: Seq<(PinV, bool)>) -> bool
    decreases c, 0nat,
{
    match c {
        Circuit::Gate(_) => true,
        Circuit::Mix(m) => mix_edges_resolve(*m) && mix_parts_can_step(*m, m.verts, inputs, m.verts.len()),
        Circuit::Iter(it) => {
            let last = iter_inputs_for(*it, it.used.len(), inputs);
            &&& iter_no_underflow(*it)
            &&& iter_inputs_in_range(*it, inputs)
            &&& iter_used_can_step(*it, it.used, inputs, it.used.len())
            &&& any_high(last) ==> can_step(it.init, last)
        },
    }
}

pub open spec fn mix_parts_can_step(m: MixModel, verts: Seq<(Seq<char>, Circuit)>, inputs: Seq<(PinV, bool)>, i: nat) -> bool
    decreases verts, i,
{
    if i == 0 || i > verts.len() {
        true
    } else {
        let v = verts[i - 1];
        mix_parts_can_step(m, verts, inputs, (i - 1) as nat) && (find_part(verts, v.0, 0) == Some(i - 1)
            ==> can_step(v.1, mix_inputs_for(m, v.0, inputs)))
    }
}

pub open spec fn iter_used_can_step(it: IterModel, used: Seq<Circuit>, inputs: Seq<(PinV, bool)>, i: nat) -> bool
    decreases used, i,
{
    if i == 0 || i > used.len() {
        true
    } else {
        iter_used_can_step(it, used, inputs, (i - 1) as nat) && can_step(
            used[i - 1],
            iter_inputs_for(it, (i - 1) as nat, inputs),
        )
    }
}

pub proof fn lemma_mix_step_verts(m: MixModel, verts: Seq<(Seq<char>, Circuit)>, inputs: Seq<(PinV, bool)>, i: nat)
    requires
        i <= verts.len(),
    ensures
        mix_step_verts(m, verts, inputs, i).len() == i,
        forall|k: int|
            0 <= k < i ==> #[trigger] mix_step_verts(m, verts, inputs, i)[k] == if find_part(
                verts,
                verts[k].0,
                0,
            ) == Some(k) {
                (verts[k].0, circ_step(verts[k].1, mix_inputs_for(m, verts[k].0, inputs)))
            } else {
                verts[k]
            },
        forall|k: int|
            0 <= k < i ==> mix_parts_can_step(m, verts, inputs, i) ==> (find_part(verts, #[trigger] verts[k].0, 0) == Some(k) ==> can_step(verts[k].1, mix_inputs_for(m, verts[k].0, inputs))),
    decreases i,
{
    if i > 0 {
        lemma_mix_step_verts(m, verts, inputs, (i - 1) as nat);
    }
}

pub proof fn lemma_iter_step_used(it: IterModel, used: Seq<Circuit>, inputs: Seq<(PinV, bool)>, i: nat)
    requires
        i <= used.len(),
    ensures
        iter_step_used(it, used, inputs, i).len() == i,
        forall|k: int|
            0 <= k < i ==> #[trigger] iter_step_used(it, used, inputs, i)[k] == circ_step(used[k], iter_inputs_for(it, k as nat, inputs)),
        forall|k: int|
            0 <= k < i ==> iter_used_can_step(it, used, inputs, i) ==> can_step(#[trigger] used[k], iter_inputs_for(it, k as nat, inputs)),
    decreases i,
{
    if i > 0 {
        lemma_iter_step_used(it, used, inputs, (i - 1) as nat);
    }
}

fn clone_signals(v: &Vec<(NamedPin, bool)>) -> (r: Vec<(NamedPin, bool)>)
    ensures
        r@ == v@,
{
    let mut r: Vec<(NamedPin, bool)> = Vec::new();
    let mut i: usize = 0;
    while i < v.len()
        invariant
            0 <= i <= v.len(),
            r@ == v@.take(i as int),
        decreases v.len() - i,
    {
        r.push((clone_pin(&v[i].0), v[i].1));
        assert(r@ =~= v@.take(i + 1));
        i += 1;
    }
    assert(v@.take(v.len() as int) =~= v@);
    r
}

fn edge_from_exec(edges: &Vec<(NamedPin, NamedPin)>, o: &NamedPin) -> (r: Option<usize>)
    ensures
        r matches Some(x) ==> x < edges@.len() && edge_from(edges_view(edges@), pin_view(*o), 0) == Some(x as int),
        r is None ==> edge_from(edges_view(edges@), pin_view(*o), 0) is None,
{
    let ghost ev = edges_view(edges@);
    let mut e: usize = 0;
    while e < edges.len()
        invariant
            0 <= e <= edges.len(),
            ev == edges_view(edges@),
            edge_from(ev, pin_view(*o), 0) == edge_from(ev, pin_view(*o), e as int),
        decreases edges.len() - e,
    {
        if pins_eq(&edges[e].0, o) {
            return Some(e);
        }
        e += 1;
    }
    None
}

fn pin_edge_from_exec(edges: &Vec<(String, String)>, o: &String) -> (r: Option<usize>)
    ensures
        r matches Some(x) ==> x < edges@.len() && pin_edge_from(name_pairs_view(edges@), o@, 0) == Some(x as int),
        r is None ==> pin_edge_from(name_pairs_view(edges@), o@, 0) is None,
{
    let ghost ev = name_pairs_view(edges@);
    let mut e: usize = 0;
    while e < edges.len()
        invariant
            0 <= e <= edges.len(),
            ev == name_pairs_view(edges@),
            pin_edge_from(ev, o@, 0) == pin_edge_from(ev, o@, e as int),
        decreases edges.len() - e,
    {
        if edges[e].0 == *o {
            return Some(e);
        }
        e += 1;
    }
    None
}

fn resolve_input_exec(kind: &String, maps: &Vec<(String, NamedPin)>, i: &NamedPin) -> (r: Option<NamedPin>)
    ensures
        match resolve_input(kind@, pin_maps_view(maps@), pin_view(*i)) {
            Some(p) => r matches Some(q) && pin_view(q) == p,
            None => r is None,
        },
{
    if i.0 == *kind {
        let ghost mv = pin_maps_view(maps@);
        let mut k: usize = 0;
        while k < maps.len()
            invariant
                0 <= k <= maps.len(),
                mv == pin_maps_view(maps@),
                i.0@ == kind@,
                ext_index(mv, i.1@, 0) == ext_index(mv, i.1@, k as int),
            decreases maps.len() - k,
        {
            assert(mv[k as int] == (maps@[k as int].0@, pin_view(maps@[k as int].1)));
            if maps[k].0 == i.1 {
                return Some(clone_pin(&maps[k].1));
            }
            k += 1;
        }
        None
    } else {
        Some(clone_pin(i))
    }
}

fn has_pin_entry_exec(list: &Vec<(NamedPin, bool)>, p: &NamedPin) -> (b: bool)
    ensures
        b == has_pin_entry(signals_view(list@), pin_view(*p)),
{
    let mut t: usize = 0;
    while t < list.len()
        invariant
            0 <= t <= list.len(),
            forall|u: int| 0 <= u < t ==> (#[trigger] signals_view(list@)[u]).0 != pin_view(*p),
        decreases list.len() - t,
    {
        if pins_eq(&list[t].0, p) {
            assert(signals_view(list@)[t as int].0 == pin_view(*p));
            return true;
        }
        t += 1;
    }
    false
}

fn push_signal(v: &mut Vec<(NamedPin, bool)>, x: (NamedPin, bool))
    ensures
        signals_view(final(v)@) == signals_view(old(v)@).push((pin_view(x.0), x.1)),
{
    v.push(x);
    assert(signals_view(v@) =~= signals_view(old(v)@).push((pin_view(x.0), x.1)));
}

/// The outputs of each part, in order.
fn all_outputs(verts: &Vec<(String, LogicCircuit)>) -> (r: Vec<Vec<(NamedPin, bool)>>)
    ensures
        r@.len() == verts@.len(),
        forall|j: int| 0 <= j < verts@.len() ==> signals_view(#[trigger] r@[j]@) == circ_otputs(lc_view(verts@[j].1)),
{
    let mut r: Vec<Vec<(NamedPin, bool)>> = Vec::new();
    let mut j: usize = 0;
    while j < verts.len()
        invariant
            0 <= j <= verts.len(),
            r@.len() == j,
            forall|k: int| 0 <= k < j ==> signals_view(#[trigger] r@[k]@) == circ_otputs(lc_view(verts@[k].1)),
        decreases verts.len() - j,
    {
        r.push(verts[j].1.get_otputs());
        j += 1;
    }
    r
}

/// The outputs of each copy, in order.
fn all_used_outputs(used: &Vec<LogicCircuit>) -> (r: Vec<Vec<(NamedPin, bool)>>)
    ensures
        r@.len() == used@.len(),
        forall|j: int| 0 <= j < used@.len() ==> signals_view(#[trigger] r@[j]@) == circ_otputs(lc_view(used@[j])),
{
    let mut r: Vec<Vec<(NamedPin, bool)>> = Vec::new();
    let mut j: usize = 0;
    while j < used.len()
        invariant
            0 <= j <= used.len(),
            r@.len() == j,
            forall|k: int| 0 <= k < j ==> signals_view(#[trigger] r@[k]@) == circ_otputs(lc_view(used@[k])),
        decreases used.len() - j,
    {
        r.push(used[j].get_otputs());
        j += 1;
    }
    r
}

impl MixLogicCircuit {
    /// The inputs of part `name` in a step on `inputs`, given the outputs
    /// `outs` of the parts.
    fn inputs_for(&self, outs: &Vec<Vec<(NamedPin, bool)>>, name: &String, inputs: &Vec<(NamedPin, bool)>) -> (r: Vec<(NamedPin, bool)>)
        requires
            outs@.len() == self.verts@.len(),
            forall|j: int| 0 <= j < self.verts@.len() ==> signals_view(#[trigger] outs@[j]@) == circ_otputs(lc_view(self.verts@[j].1)),
        ensures
            signals_view(r@) == mix_inputs_for(mix_view(*self), name@, signals_view(inputs@)),
    {
        let ghost mv = mix_view(*self);
        proof {
            lemma_verts_view(self.verts@, self.verts@.len());
        }
        let mut acc: Vec<(NamedPin, bool)> = Vec::new();
        assert(signals_view(acc@) =~= seq![]);
        let mut j: usize = 0;
        while j < self.verts.len()
            invariant
                0 <= j <= self.verts.len(),
                mv == mix_view(*self),
                mv.verts.len() == self.verts.len(),
                forall|k: int| 0 <= k < self.verts.len() ==> #[trigger] mv.verts[k] == (self.verts@[k].0@, lc_view(self.verts@[k].1)),
                outs@.len() == self.verts@.len(),
                forall|k: int| 0 <= k < self.verts@.len() ==> signals_view(#[trigger] outs@[k]@) == circ_otputs(lc_view(self.verts@[k].1)),
                signals_view(acc@) == heard(mv.verts, mv.edges, name@, j as nat),
            decreases self.verts.len() - j,
        {
            let os = &outs[j];
            let ghost base = signals_view(acc@);
            assert(mv.verts[j as int] == (self.verts@[j as int].0@, lc_view(self.verts@[j as int].1)));
            let mut t: usize = 0;
            while t < os.len()
                invariant
                    0 <= t <= os.len(),
                    0 <= j < self.verts.len(),
                    mv == mix_view(*self),
                    os == &outs@[j as int],
                    signals_view(acc@) == base + heard_from_part(mv.edges, name@, self.verts@[j as int].0@, signals_view(os@), t as int),
                decreases os.len() - t,
            {
                let o = (self.verts[j].0.clone(), os[t].0.1.clone());
                let ghost h0 = heard_from_part(mv.edges, name@, self.verts@[j as int].0@, signals_view(os@), t as int);
                assert(signals_view(os@)[t as int] == (pin_view(os@[t as int].0), os@[t as int].1));
                let ghost vname = self.verts@[j as int].0@;
                let ghost outs_v = signals_view(os@);
                assert(pin_view(o) == (vname, outs_v[t as int].0.1));
                match edge_from_exec(&self.edges, &o) {
                    Some(e) => {
                        assert(mv.edges[e as int] == (pin_view(self.edges@[e as int].0), pin_view(self.edges@[e as int].1)));
                        if self.edges[e].1.0 == *name {
                            let item = (clone_pin(&self.edges[e].1), os[t].1);
                            push_signal(&mut acc, item);
                            assert((base + h0).push((pin_view(item.0), item.1)) =~= base + h0.push((pin_view(item.0), item.1)));
                            assert(heard_from_part(mv.edges, name@, vname, outs_v, t + 1) == h0.push((mv.edges[e as int].1, outs_v[t as int].1)));
                        } else {
                            assert(heard_from_part(mv.edges, name@, vname, outs_v, t + 1) == h0);
                        }
                    },
                    None => {
                        assert(heard_from_part(mv.edges, name@, vname, outs_v, t + 1) == h0);
                    },
                }
                t += 1;
            }
            j += 1;
        }
        let ghost heard_all = signals_view(acc@);
        let mut k: usize = 0;
        while k < inputs.len()
            invariant
                0 <= k <= inputs.len(),
                mv == mix_view(*self),
                mix_inputs_for(mv, name@, signals_view(inputs@)) == add_external(mv.kind, mv.inpin_maps, name@, signals_view(inputs@), k as int, signals_view(acc@)),
            decreases inputs.len() - k,
        {
            match resolve_input_exec(&self.kind, &self.inpin_maps, &inputs[k].0) {
                Some(p) => {
                    if p.0 == *name && !has_pin_entry_exec(&acc, &p) {
                        push_signal(&mut acc, (p, inputs[k].1));
                    }
                },
                None => {},
            }
            k += 1;
        }
        acc
    }

    /// A step: the first part of each name steps on what it hears from the
    /// other parts and on the inputs that reach it.
    pub fn step(&mut self, inputs: Vec<(NamedPin, bool)>)
        requires
            can_step(Circuit::Mix(Box::new(mix_view(*old(self)))), signals_view(inputs@)),
        ensures
            Circuit::Mix(Box::new(mix_view(*final(self)))) == circ_step(
                Circuit::Mix(Box::new(mix_view(*old(self)))),
                signals_view(inputs@),
            ),
        decreases *old(self), 1nat,
    {
        let ghost m0 = mix_view(*old(self));
        let ghost iv = signals_view(inputs@);
        let ghost v0 = self.verts@;
        proof {
            lemma_verts_view(self.verts@, self.verts@.len());
            lemma_mix_step_verts(m0, m0.verts, iv, m0.verts.len());
        }
        let outs = all_outputs(&self.verts);
        let n = self.verts.len();
        let mut lists: Vec<Vec<(NamedPin, bool)>> = Vec::new();
        let mut i: usize = 0;
        while i < n
            invariant
                0 <= i <= n,
                n == self.verts@.len(),
                self.verts@ == v0,
                *self == *old(self),
                m0 == mix_view(*self),
                iv == signals_view(inputs@),
                m0.verts.len() == n,
                forall|k: int| 0 <= k < n ==> #[trigger] m0.verts[k] == (v0[k].0@, lc_view(v0[k].1)),
                outs@.len() == self.verts@.len(),
                forall|j: int| 0 <= j < self.verts@.len() ==> signals_view(#[trigger] outs@[j]@) == circ_otputs(lc_view(self.verts@[j].1)),
                lists@.len() == i,
                forall|k: int| 0 <= k < i ==> signals_view(#[trigger] lists@[k]@) == mix_inputs_for(m0, m0.verts[k].0, iv),
            decreases n - i,
        {
            let l = self.inputs_for(&outs, &self.verts[i].0, &inputs);
            lists.push(l);
            i += 1;
        }
        let mut i: usize = 0;
        while i < n
            invariant
                0 <= i <= n,
                n == self.verts@.len(),
                self.kind == old(self).kind,
                self.edges == old(self).edges,
                self.inpin_maps == old(self).inpin_maps,
                self.otpin_maps == old(self).otpin_maps,
                m0 == mix_view(*old(self)),
                old(self).verts@ == v0,
                v0.len() == n,
                iv == signals_view(inputs@),
                m0.verts.len() == n,
                forall|k: int| 0 <= k < n ==> #[trigger] m0.verts[k] == (v0[k].0@, lc_view(v0[k].1)),
                can_step(Circuit::Mix(Box::new(m0)), iv),
                mix_step_verts(m0, m0.verts, iv, n as nat).len() == n,
                forall|k: int| 0 <= k < n ==> #[trigger] mix_step_verts(m0, m0.verts, iv, n as nat)[k] == if find_part(
                    m0.verts,
                    m0.verts[k].0,
                    0,
                ) == Some(k) {
                    (m0.verts[k].0, circ_step(m0.verts[k].1, mix_inputs_for(m0, m0.verts[k].0, iv)))
                } else {
                    m0.verts[k]
                },
                forall|k: int| 0 <= k < n ==> mix_parts_can_step(m0, m0.verts, iv, n as nat) ==> (find_part(m0.verts, #[trigger] m0.verts[k].0, 0) == Some(k) ==> can_step(m0.verts[k].1, mix_inputs_for(m0, m0.verts[k].0, iv))),
                lists@.len() == n,
                forall|k: int| 0 <= k < n ==> signals_view(#[trigger] lists@[k]@) == mix_inputs_for(m0, m0.verts[k].0, iv),
                forall|k: int| i <= k < n ==> #[trigger] self.verts@[k] == v0[k],
                forall|k: int| 0 <= k < i ==> (#[trigger] self.verts@[k]).0@ == m0.verts[k].0 && lc_view(self.verts@[k].1) == mix_step_verts(m0, m0.verts, iv, n as nat)[k].1,
            decreases n - i,
        {
            proof {
                lemma_verts_view(self.verts@, self.verts@.len());
            }
            let first = match find_part_exec(&self.verts, &self.verts[i].0) {
                Some(k) => k == i,
                None => false,
            };
            proof {
                // the parts before `i` keep their names
                assert forall|k: int| 0 <= k < n implies #[trigger] verts_view(self.verts@, n as nat)[k].0 == m0.verts[k].0 by {
                    if k >= i {
                        assert(self.verts@[k] == v0[k]);
                    }
                }
                assert(verts_view(self.verts@, n as nat).len() == n);
                assert(forall|k: int| 0 <= k < n ==> #[trigger] verts_view(self.verts@, n as nat)[k].0 == m0.verts[k].0);
                lemma_find_part_names(verts_view(self.verts@, n as nat), m0.verts, self.verts@[i as int].0@);
                assert(self.verts@[i as int].0@ == m0.verts[i as int].0);
            }
            if first {
                let l = clone_signals(&lists[i]);
                let (nm, mut lc) = self.verts.remove(i);
                proof {
                    assert(lc == v0[i as int].1);
                    assert(decreases_to!(*old(self) => old(self).verts));
                    assert(decreases_to!(old(self).verts => old(self).verts@));
                    assert(decreases_to!(old(self).verts@ => old(self).verts@[i as int]));
                    assert(decreases_to!(old(self).verts@[i as int] => old(self).verts@[i as int].1));
                    assert(signals_view(l@) == mix_inputs_for(m0, m0.verts[i as int].0, iv));
                }
                lc.step(l);
                self.verts.insert(i, (nm, lc));
            }
            i += 1;
        }
        proof {
            lemma_verts_view(self.verts@, self.verts@.len());
            assert(verts_view(self.verts@, n as nat) =~= mix_step_verts(m0, m0.verts, iv, n as nat));
        }
    }
}

pub proof fn lemma_find_part_names(a: Seq<(Seq<char>, Circuit)>, b: Seq<(Seq<char>, Circuit)>, name: Seq<char>)
    requires
        a.len() == b.len(),
        forall|k: int| 0 <= k < a.len() ==> #[trigger] a[k].0 == b[k].0,
    ensures
        find_part(a, name, 0) == find_part(b, name, 0),
{
    lemma_find_part_from(a, b, name, 0);
}

pub proof fn lemma_find_part_from(a: Seq<(Seq<char>, Circuit)>, b: Seq<(Seq<char>, Circuit)>, name: Seq<char>, i: int)
    requires
        a.len() == b.len(),
        forall|k: int| 0 <= k < a.len() ==> #[trigger] a[k].0 == b[k].0,
    ensures
        find_part(a, name, i) == find_part(b, name, i),
    decreases a.len() - i,
{
    if 0 <= i < a.len() {
        lemma_find_part_from(a, b, name, i + 1);
    }
}

impl LogicCircuit {
    /// A step of the circuit on `inputs`.
    pub fn step(&mut self, inputs: Vec<(NamedPin, bool)>)
        requires
            can_step(lc_view(*old(self)), signals_view(inputs@)),
        ensures
            lc_view(*final(self)) == circ_step(lc_view(*old(self)), signals_view(inputs@)),
        decreases *old(self), 2nat,
    {
        match self {
            LogicCircuit::Gate(g) => g.step(inputs),
            LogicCircuit::MixLogicCircuit(m) => {
                proof {
                    assert(decreases_to!(*old(self) => (*old(self))->MixLogicCircuit_0));
                }
                m.step(inputs)
            },
            LogicCircuit::IterLogicCircuit(it) => {
                proof {
                    assert(decreases_to!(*old(self) => (*old(self))->IterLogicCircuit_0));
                }
                it.step(inputs)
            },
        }
    }
}


fn any_high_exec(list: &Vec<(NamedPin, bool)>) -> (b: bool)
    ensures
        b == any_high(signals_view(list@)),
{
    let mut t: usize = 0;
    while t < list.len()
        invariant
            0 <= t <= list.len(),
            forall|u: int| 0 <= u < t ==> !(#[trigger] signals_view(list@)[u]).1,
        decreases list.len() - t,
    {
        if list[t].1 {
            assert(signals_view(list@)[t as int].1);
            return true;
        }
        t += 1;
    }
    false
}

impl IterLogicCircuit {
    /// What copy `n` hears along `edges` from a neighbour whose outputs are
    /// `os`, added to `acc`.
    fn hear_from(edges: &Vec<(String, String)>, n: usize, os: &Vec<(NamedPin, bool)>, acc: &mut Vec<(NamedPin, bool)>)
        ensures
            signals_view(final(acc)@) == signals_view(old(acc)@) + iter_heard(name_pairs_view(edges@), n as nat, signals_view(os@), os@.len() as int),
    {
        let name = num_to_ident(n);
        let ghost base = signals_view(acc@);
        let mut t: usize = 0;
        assert(signals_view(acc@) =~= base + iter_heard(name_pairs_view(edges@), n as nat, signals_view(os@), 0));
        while t < os.len()
            invariant
                0 <= t <= os.len(),
                name@ == num_ident(n as nat),
                signals_view(acc@) == base + iter_heard(name_pairs_view(edges@), n as nat, signals_view(os@), t as int),
            decreases os.len() - t,
        {
            assert(signals_view(os@)[t as int] == (pin_view(os@[t as int].0), os@[t as int].1));
            let ghost h0 = iter_heard(name_pairs_view(edges@), n as nat, signals_view(os@), t as int);
            match pin_edge_from_exec(edges, &os[t].0.1) {
                Some(e) => {
                    assert(name_pairs_view(edges@)[e as int] == (edges@[e as int].0@, edges@[e as int].1@));
                    let item = ((name.clone(), edges[e].1.clone()), os[t].1);
                    push_signal(acc, item);
                    assert((base + h0).push((pin_view(item.0), item.1)) =~= base + h0.push((pin_view(item.0), item.1)));
                },
                None => {},
            }
            t += 1;
        }
    }

    /// The inputs of copy `n` in a step on `inputs`, given the outputs
    /// `outs` of the copies.
    fn inputs_for(&self, outs: &Vec<Vec<(NamedPin, bool)>>, n: usize, inputs: &Vec<(NamedPin, bool)>) -> (r: Vec<(NamedPin, bool)>)
        requires
            outs@.len() == self.used@.len(),
            forall|j: int| 0 <= j < self.used@.len() ==> signals_view(#[trigger] outs@[j]@) == circ_otputs(lc_view(self.used@[j])),
        ensures
            signals_view(r@) == iter_inputs_for(iter_view(*self), n as nat, signals_view(inputs@)),
    {
        let ghost iv = iter_view(*self);
        proof {
            lemma_used_view(self.used@, self.used@.len());
        }
        let mut acc: Vec<(NamedPin, bool)> = Vec::new();
        assert(signals_view(acc@) =~= seq![]);
        if 1 <= n && n - 1 < self.used.len() {
            assert(iv.used[n - 1] == lc_view(self.used@[n - 1]));
            IterLogicCircuit::hear_from(&self.next_edges, n, &outs[n - 1], &mut acc);
        }
        let ghost from_prev = signals_view(acc@);
        if n < self.used.len() && n + 1 < self.used.len() {
            assert(iv.used[n + 1] == lc_view(self.used@[n + 1]));
            IterLogicCircuit::hear_from(&self.prev_edges, n, &outs[n + 1], &mut acc);
        }
        let mut k: usize = 0;
        assert(iter_inputs_for(iv, n as nat, signals_view(inputs@)) == add_iter_external(iv.kind, iv.inpin_maps, n as nat, signals_view(inputs@), 0, signals_view(acc@)));
        while k < inputs.len()
            invariant
                0 <= k <= inputs.len(),
                iv == iter_view(*self),
                iter_inputs_for(iv, n as nat, signals_view(inputs@)) == add_iter_external(iv.kind, iv.inpin_maps, n as nat, signals_view(inputs@), k as int, signals_view(acc@)),
            decreases inputs.len() - k,
        {
            match resolve_input_exec(&self.kind, &self.inpin_maps, &inputs[k].0) {
                Some(p) => {
                    match crate::number::parse_usize(&chars_of(p.0.as_str())) {
                        Ok(v) => {
                            if v == n && !has_pin_entry_exec(&acc, &p) {
                                push_signal(&mut acc, (p, inputs[k].1));
                            }
                        },
                        Err(_) => {},
                    }
                },
                None => {},
            }
            k += 1;
        }
        acc
    }

    #[verifier::spinoff_prover]
    #[verifier::rlimit(50)]
    /// A step: each copy in use steps on what it hears from its neighbours
    /// and on the inputs that name it; where something is high for the copy
    /// after the last, a fresh copy of `init` joins the row and steps too.
    pub fn step(&mut self, inputs: Vec<(NamedPin, bool)>)
        requires
            can_step(Circuit::Iter(Box::new(iter_view(*old(self)))), signals_view(inputs@)),
        ensures
            Circuit::Iter(Box::new(iter_view(*final(self)))) == circ_step(
                Circuit::Iter(Box::new(iter_view(*old(self)))),
                signals_view(inputs@),
            ),
        decreases *old(self), 1nat,
    {
        let ghost i0 = iter_view(*old(self));
        let ghost iv = signals_view(inputs@);
        let ghost u0 = self.used@;
        proof {
            lemma_used_view(self.used@, self.used@.len());
            lemma_iter_step_used(i0, i0.used, iv, i0.used.len());
        }
        let outs = all_used_outputs(&self.used);
        let n = self.used.len();
        let mut lists: Vec<Vec<(NamedPin, bool)>> = Vec::new();
        let mut i: usize = 0;
        while i < n
            invariant
                0 <= i <= n,
                n == self.used@.len(),
                *self == *old(self),
                i0 == iter_view(*self),
                iv == signals_view(inputs@),
                outs@.len() == self.used@.len(),
                forall|j: int| 0 <= j < self.used@.len() ==> signals_view(#[trigger] outs@[j]@) == circ_otputs(lc_view(self.used@[j])),
                lists@.len() == i,
                forall|k: int| 0 <= k < i ==> signals_view(#[trigger] lists@[k]@) == iter_inputs_for(i0, k as nat, iv),
            decreases n + 1 - i,
        {
            let l = self.inputs_for(&outs, i, &inputs);
            lists.push(l);
            i += 1;
        }
        let l = self.inputs_for(&outs, n, &inputs);
        lists.push(l);
        let mut i: usize = 0;
        while i < n
            invariant
                0 <= i <= n,
                n == self.used@.len(),
                self.kind == old(self).kind,
                self.init == old(self).init,
                self.next_edges == old(self).next_edges,
                self.prev_edges == old(self).prev_edges,
                self.inpin_maps == old(self).inpin_maps,
                self.otpin_maps == old(self).otpin_maps,
                u0.len() == n,
                i0 == iter_view(*old(self)),
                old(self).used@ == u0,
                iv == signals_view(inputs@),
                i0.used.len() == n,
                forall|k: int| 0 <= k < n ==> #[trigger] i0.used[k] == lc_view(u0[k]),
                iter_step_used(i0, i0.used, iv, n as nat).len() == n,
                forall|k: int| 0 <= k < n ==> #[trigger] iter_step_used(i0, i0.used, iv, n as nat)[k] == circ_step(i0.used[k], iter_inputs_for(i0, k as nat, iv)),
                forall|k: int| 0 <= k < n ==> iter_used_can_step(i0, i0.used, iv, n as nat) ==> can_step(#[trigger] i0.used[k], iter_inputs_for(i0, k as nat, iv)),
                can_step(Circuit::Iter(Box::new(i0)), iv),
                lists@.len() == n + 1,
                forall|k: int| 0 <= k <= n ==> signals_view(#[trigger] lists@[k]@) == iter_inputs_for(i0, k as nat, iv),
                forall|k: int| i <= k < n ==> #[trigger] self.used@[k] == u0[k],
                forall|k: int| 0 <= k < i ==> lc_view(#[trigger] self.used@[k]) == iter_step_used(i0, i0.used, iv, n as nat)[k],
            decreases n - i,
        {
            let l = clone_signals(&lists[i]);
            let mut lc = self.used.remove(i);
            proof {
                assert(lc == u0[i as int]);
                assert(decreases_to!(*old(self) => old(self).used));
                assert(decreases_to!(old(self).used => old(self).used@));
                assert(decreases_to!(old(self).used@ => old(self).used@[i as int]));
            }
            lc.step(l);
            self.used.insert(i, lc);
            i += 1;
        }
        let ghost stepped = self.used@;
        let last = &lists[n];
        if any_high_exec(last) {
            let l = clone_signals(last);
            let mut taken = LogicCircuit::Gate(Gate { kind: GateKind::Cst, state: false });
            std::mem::swap(&mut taken, &mut self.init);
            proof {
                assert(taken == old(self).init);
                assert(decreases_to!(*old(self) => old(self).init));
            }
            self.init = taken.copy();
            taken.step(l);
            self.used.push(taken);
        }
        proof {
            lemma_used_view(self.used@, self.used@.len());
            let expect = iter_step_used(i0, i0.used, iv, n as nat);
            if any_high(iter_inputs_for(i0, n as nat, iv)) {
                assert(used_view(self.used@, self.used@.len()) =~= expect.push(circ_step(i0.init, iter_inputs_for(i0, n as nat, iv))));
            } else {
                assert(used_view(self.used@, self.used@.len()) =~= expect);
            }
        }
    }
}

} // verus!

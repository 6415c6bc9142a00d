//! What a wired circuit shows: a box for each part with its pins and their
//! values, the wires between them, and the circuit's own pins.
use vstd::prelude::*;

use crate::logic_circuit::{
    circ_inpins, circ_kind, circ_otputs, edges_view, lc_view, pin_maps_view, signals_view, pins_view, Circuit,
    LogicCircuit, MixLogicCircuit, NamedPin, PinV,
};
use crate::text::{chars_equal, chars_of};

verus! {

/// A pin's name and its value.
#[derive(Debug, PartialEq)]
pub struct PinState {
    pub name: String,
    pub state: bool,
}

/// A part: its name, its kind, its input pins, its output pins with their
/// values, and for a gate its state.
#[derive(Debug, PartialEq)]
pub struct BoxView {
    pub name: String,
    pub kind: String,
    pub inpins: Vec<String>,
    pub otpins: Vec<PinState>,
    pub state: Option<bool>,
}

/// A pin of a named part.
#[derive(Debug, PartialEq)]
pub struct PinRef {
    pub name: String,
    pub pin: String,
}

/// A wire from an output pin to an input pin.
#[derive(Debug, PartialEq)]
pub struct EdgeView {
    pub from: PinRef,
    pub to: PinRef,
}

#[derive(Debug)]
pub struct GraphView {
    pub boxes: Vec<BoxView>,
    pub inpins: Vec<PinState>,
    pub otpins: Vec<PinState>,
    pub edges: Vec<EdgeView>,
    pub inpins_map: Vec<(String, PinRef)>,
    pub otpins_map: Vec<(String, PinRef)>,
}

#[verifier::ext_equal]
pub struct BoxModel {
    pub name: Seq<char>,
    pub kind: Seq<char>,
    pub inpins: Seq<Seq<char>>,
    pub otpins: Seq<(Seq<char>, bool)>,
    pub state: Option<bool>,
}

#[verifier::ext_equal]
pub struct GraphModel {
    pub boxes: Seq<BoxModel>,
    pub inpins: Seq<(Seq<char>, bool)>,
    pub otpins: Seq<(Seq<char>, bool)>,
    pub edges: Seq<(PinV, PinV)>,
    pub inpins_map: Seq<(Seq<char>, PinV)>,
    pub otpins_map: Seq<(Seq<char>, PinV)>,
}

pub open spec fn pin_states(ps: Seq<PinState>) -> Seq<(Seq<char>, bool)> {
    ps.map_values(|p: PinState| (p.name@, p.state))
}

pub open spec fn box_model(b: BoxView) -> BoxModel {
    BoxModel {
        name: b.name@,
        kind: b.kind@,
        inpins: names_model(b.inpins@),
        otpins: pin_states(b.otpins@),
        state: b.state,
    }
}

pub open spec fn ref_model(p: PinRef) -> PinV {
    (p.name@, p.pin@)
}

pub open spec fn boxes_model(bs: Seq<BoxView>) -> Seq<BoxModel> {
    bs.map_values(|b: BoxView| box_model(b))
}

pub open spec fn edges_model(es: Seq<EdgeView>) -> Seq<(PinV, PinV)> {
    es.map_values(|e: EdgeView| (ref_model(e.from), ref_model(e.to)))
}

pub open spec fn refs_model(ms: Seq<(String, PinRef)>) -> Seq<(Seq<char>, PinV)> {
    ms.map_values(|e: (String, PinRef)| (e.0@, ref_model(e.1)))
}

pub open spec fn names_model(ss: Seq<String>) -> Seq<Seq<char>> {
    ss.map_values(|s: String| s@)
}

pub open spec fn graph_model(g: GraphView) -> GraphModel {
    GraphModel {
        boxes: boxes_model(g.boxes@),
        inpins: pin_states(g.inpins@),
        otpins: pin_states(g.otpins@),
        edges: edges_model(g.edges@),
        inpins_map: refs_model(g.inpins_map@),
        otpins_map: refs_model(g.otpins_map@),
    }
}

/// The box of a part: pins are shown by their names.
pub open spec fn pin_names(ps: Seq<PinV>) -> Seq<Seq<char>> {
    ps.map_values(|p: PinV| p.1)
}

pub open spec fn out_names(os: Seq<(PinV, bool)>) -> Seq<(Seq<char>, bool)> {
    os.map_values(|o: (PinV, bool)| (o.0.1, o.1))
}

pub open spec fn box_of(name: Seq<char>, c: Circuit) -> BoxModel {
    BoxModel {
        name,
        kind: circ_kind(c),
        inpins: pin_names(circ_inpins(c)),
        otpins: out_names(circ_otputs(c)),
        state: match c {
            Circuit::Gate(g) => Some(g.state),
            _ => None,
        },
    }
}

/// The value of the first output named `pin` from `i` on.
pub open spec fn first_out(outs: Seq<(PinV, bool)>, pin: Seq<char>, i: int) -> Option<bool>
    decreases outs.len() - i,
{
    if i < 0 || i >= outs.len() {
        None
    } else if outs[i].0.1 == pin {
        Some(outs[i].1)
    } else {
        first_out(outs, pin, i + 1)
    }
}

/// The value of output `p.1` of the first part from `i` on that is named
/// `p.0` and has such an output.
pub open spec fn part_out(verts: Seq<(String, LogicCircuit)>, p: PinV, i: int) -> Option<bool>
    decreases verts.len() - i,
{
    if i < 0 || i >= verts.len() {
        None
    } else if verts[i].0@ == p.0 && first_out(circ_otputs(lc_view(verts[i].1)), p.1, 0) is Some {
        first_out(circ_otputs(lc_view(verts[i].1)), p.1, 0)
    } else {
        part_out(verts, p, i + 1)
    }
}

/// The value shown for a circuit's output pin wired to `p`: that of the
/// part's output, or false where there is none.
pub open spec fn out_state(verts: Seq<(String, LogicCircuit)>, p: PinV) -> bool {
    match part_out(verts, p, 0) {
        Some(b) => b,
        None => false,
    }
}

/// What a wired circuit shows: a box per part, in order; its input pins,
/// shown false; its output pins with the values of the part outputs they
/// are wired to; a wire per edge; and the two pin maps as they are.
pub open spec fn graph_of(g: MixLogicCircuit) -> GraphModel {
    let verts = g.verts@;
    let inmaps = pin_maps_view(g.inpin_maps@);
    let otmaps = pin_maps_view(g.otpin_maps@);
    GraphModel {
        boxes: Seq::new(verts.len(), |i: int| box_of(verts[i].0@, lc_view(verts[i].1))),
        inpins: inmaps.map_values(|e: (Seq<char>, PinV)| (e.0, false)),
        otpins: otmaps.map_values(|e: (Seq<char>, PinV)| (e.0, out_state(verts, e.1))),
        edges: edges_view(g.edges@),
        inpins_map: inmaps,
        otpins_map: otmaps,
    }
}

fn push_box(bs: &mut Vec<BoxView>, b: BoxView)
    ensures
        boxes_model(final(bs)@) == boxes_model(old(bs)@).push(box_model(b)),
{
    let ghost b0 = bs@;
    let ghost m = box_model(b);
    bs.push(b);
    assert(boxes_model(bs@) =~= boxes_model(b0).push(m));
}

fn push_edge(es: &mut Vec<EdgeView>, e: EdgeView)
    ensures
        edges_model(final(es)@) == edges_model(old(es)@).push((ref_model(e.from), ref_model(e.to))),
{
    let ghost e0 = es@;
    let ghost m = (ref_model(e.from), ref_model(e.to));
    es.push(e);
    assert(edges_model(es@) =~= edges_model(e0).push(m));
}

fn push_ref(ms: &mut Vec<(String, PinRef)>, e: (String, PinRef))
    ensures
        refs_model(final(ms)@) == refs_model(old(ms)@).push((e.0@, ref_model(e.1))),
{
    let ghost e0 = ms@;
    let ghost m = (e.0@, ref_model(e.1));
    ms.push(e);
    assert(refs_model(ms@) =~= refs_model(e0).push(m));
}

fn push_state(ps: &mut Vec<PinState>, p: PinState)
    ensures
        pin_states(final(ps)@) == pin_states(old(ps)@).push((p.name@, p.state)),
{
    let ghost p0 = ps@;
    let ghost m = (p.name@, p.state);
    ps.push(p);
    assert(pin_states(ps@) =~= pin_states(p0).push(m));
}

fn push_name(ns: &mut Vec<String>, n: String)
    ensures
        names_model(final(ns)@) == names_model(old(ns)@).push(n@),
{
    let ghost n0 = ns@;
    let ghost m = n@;
    ns.push(n);
    assert(names_model(ns@) =~= names_model(n0).push(m));
}

fn same(a: &String, b: &String) -> (r: bool)
    ensures
        r == (a@ == b@),
{
    chars_equal(&chars_of(a.as_str()), &chars_of(b.as_str()))
}

fn find_out(outs: &Vec<(NamedPin, bool)>, pin: &String) -> (r: Option<bool>)
    ensures
        r == first_out(signals_view(outs@), pin@, 0),
{
    let ghost s = signals_view(outs@);
    let mut i: usize = 0;
    while i < outs.len()
        invariant
            i <= outs@.len(),
            s == signals_view(outs@),
            first_out(s, pin@, 0) == first_out(s, pin@, i as int),
        decreases outs@.len() - i,
    {
        assert(s[i as int] == (crate::logic_circuit::pin_view(outs@[i as int].0), outs@[i as int].1));
        if same(&outs[i].0.1, pin) {
            return Some(outs[i].1);
        }
        i += 1;
    }
    None
}

fn part_output(verts: &Vec<(String, LogicCircuit)>, p: &NamedPin) -> (r: bool)
    ensures
        r == out_state(verts@, crate::logic_circuit::pin_view(*p)),
{
    let ghost pv = crate::logic_circuit::pin_view(*p);
    let mut i: usize = 0;
    while i < verts.len()
        invariant
            i <= verts@.len(),
            pv == crate::logic_circuit::pin_view(*p),
            part_out(verts@, pv, 0) == part_out(verts@, pv, i as int),
        decreases verts@.len() - i,
    {
        if same(&verts[i].0, &p.0) {
            let outs = verts[i].1.get_otputs();
            let found = find_out(&outs, &p.1);
            assert(found == first_out(circ_otputs(lc_view(verts@[i as int].1)), pv.1, 0));
            if let Some(b) = found {
                assert(part_out(verts@, pv, i as int) == Some(b));
                return b;
            }
        }
        assert(part_out(verts@, pv, i as int) == part_out(verts@, pv, i + 1));
        i += 1;
    }
    false
}

fn box_view(name: &String, lc: &LogicCircuit) -> (b: BoxView)
    ensures
        box_model(b) == box_of(name@, lc_view(*lc)),
{
    let ins = lc.get_inpins();
    let ghost want_in = pin_names(circ_inpins(lc_view(*lc)));
    let mut inpins: Vec<String> = Vec::new();
    let mut i: usize = 0;
    while i < ins.len()
        invariant
            i <= ins@.len(),
            pins_view(ins@) == circ_inpins(lc_view(*lc)),
            want_in == pin_names(circ_inpins(lc_view(*lc))),
            names_model(inpins@) == want_in.take(i as int),
        decreases ins@.len() - i,
    {
        assert(pins_view(ins@)[i as int] == crate::logic_circuit::pin_view(ins@[i as int]));
        push_name(&mut inpins, ins[i].1.clone());
        assert(names_model(inpins@) =~= want_in.take(i + 1));
        i += 1;
    }
    assert(want_in.take(i as int) =~= want_in);
    let outs = lc.get_otputs();
    let ghost want_out = out_names(circ_otputs(lc_view(*lc)));
    let mut otpins: Vec<PinState> = Vec::new();
    let mut i: usize = 0;
    while i < outs.len()
        invariant
            i <= outs@.len(),
            signals_view(outs@) == circ_otputs(lc_view(*lc)),
            want_out == out_names(circ_otputs(lc_view(*lc))),
            pin_states(otpins@) == want_out.take(i as int),
        decreases outs@.len() - i,
    {
        assert(signals_view(outs@)[i as int] == (crate::logic_circuit::pin_view(outs@[i as int].0), outs@[i as int].1));
        push_state(&mut otpins, PinState { name: outs[i].0.1.clone(), state: outs[i].1 });
        assert(pin_states(otpins@) =~= want_out.take(i + 1));
        i += 1;
    }
    assert(want_out.take(i as int) =~= want_out);
    let state = match lc {
        LogicCircuit::Gate(g) => Some(g.state),
        _ => None,
    };
    let b = BoxView { name: name.clone(), kind: lc.kind(), inpins, otpins, state };
    assert(box_model(b) =~= box_of(name@, lc_view(*lc)));
    b
}

fn pin_ref(p: &NamedPin) -> (r: PinRef)
    ensures
        ref_model(r) == crate::logic_circuit::pin_view(*p),
{
    PinRef { name: p.0.clone(), pin: p.1.clone() }
}

/// What the circuit shows.
pub fn graph_view(g: &MixLogicCircuit) -> (r: GraphView)
    ensures
        graph_model(r) == graph_of(*g),
{
    let ghost want = graph_of(*g);
    let mut boxes: Vec<BoxView> = Vec::new();
    let mut i: usize = 0;
    while i < g.verts.len()
        invariant
            i <= g.verts@.len(),
            want == graph_of(*g),
            boxes_model(boxes@) == want.boxes.take(i as int),
        decreases g.verts@.len() - i,
    {
        push_box(&mut boxes, box_view(&g.verts[i].0, &g.verts[i].1));
        assert(boxes_model(boxes@) =~= want.boxes.take(i + 1));
        i += 1;
    }
    assert(want.boxes.take(i as int) =~= want.boxes);
    let mut edges: Vec<EdgeView> = Vec::new();
    let mut i: usize = 0;
    while i < g.edges.len()
        invariant
            i <= g.edges@.len(),
            want == graph_of(*g),
            edges_model(edges@) == want.edges.take(i as int),
        decreases g.edges@.len() - i,
    {
        push_edge(&mut edges, EdgeView { from: pin_ref(&g.edges[i].0), to: pin_ref(&g.edges[i].1) });
        assert(edges_model(edges@) =~= want.edges.take(i + 1));
        i += 1;
    }
    assert(want.edges.take(i as int) =~= want.edges);
    let mut inpins: Vec<PinState> = Vec::new();
    let mut inpins_map: Vec<(String, PinRef)> = Vec::new();
    let mut i: usize = 0;
    while i < g.inpin_maps.len()
        invariant
            i <= g.inpin_maps@.len(),
            want == graph_of(*g),
            pin_states(inpins@) == want.inpins.take(i as int),
            refs_model(inpins_map@) == want.inpins_map.take(i as int),
        decreases g.inpin_maps@.len() - i,
    {
        push_state(&mut inpins, PinState { name: g.inpin_maps[i].0.clone(), state: false });
        push_ref(&mut inpins_map, (g.inpin_maps[i].0.clone(), pin_ref(&g.inpin_maps[i].1)));
        assert(pin_states(inpins@) =~= want.inpins.take(i + 1));
        assert(refs_model(inpins_map@) =~= want.inpins_map.take(i + 1));
        i += 1;
    }
    assert(want.inpins.take(i as int) =~= want.inpins);
    assert(want.inpins_map.take(i as int) =~= want.inpins_map);
    let mut otpins: Vec<PinState> = Vec::new();
    let mut otpins_map: Vec<(String, PinRef)> = Vec::new();
    let mut i: usize = 0;
    while i < g.otpin_maps.len()
        invariant
            i <= g.otpin_maps@.len(),
            want == graph_of(*g),
            pin_states(otpins@) == want.otpins.take(i as int),
            refs_model(otpins_map@) == want.otpins_map.take(i as int),
        decreases g.otpin_maps@.len() - i,
    {
        let state = part_output(&g.verts, &g.otpin_maps[i].1);
        push_state(&mut otpins, PinState { name: g.otpin_maps[i].0.clone(), state });
        push_ref(&mut otpins_map, (g.otpin_maps[i].0.clone(), pin_ref(&g.otpin_maps[i].1)));
        assert(pin_states(otpins@) =~= want.otpins.take(i + 1));
        assert(refs_model(otpins_map@) =~= want.otpins_map.take(i + 1));
        i += 1;
    }
    assert(want.otpins.take(i as int) =~= want.otpins);
    assert(want.otpins_map.take(i as int) =~= want.otpins_map);
    let r = GraphView { boxes, inpins, otpins, edges, inpins_map, otpins_map };
    assert(graph_model(r) =~= want);
    r
}

/// The pin that the first entry named `name` from `i` on maps to.
pub open spec fn find_ref(ms: Seq<(Seq<char>, PinV)>, name: Seq<char>, i: int) -> Option<PinV>
    decreases ms.len() - i,
{
    if i < 0 || i >= ms.len() {
        None
    } else if ms[i].0 == name {
        Some(ms[i].1)
    } else {
        find_ref(ms, name, i + 1)
    }
}

fn lookup_ref(ms: &Vec<(String, PinRef)>, name: &str) -> (r: Option<PinRef>)
    ensures
        match r {
            Some(p) => find_ref(refs_model(ms@), name@, 0) == Some(ref_model(p)),
            None => find_ref(refs_model(ms@), name@, 0) is None,
        },
{
    let key = chars_of(name);
    let mut i: usize = 0;
    while i < ms.len()
        invariant
            i <= ms@.len(),
            key@ == name@,
            find_ref(refs_model(ms@), name@, 0) == find_ref(refs_model(ms@), name@, i as int),
        decreases ms@.len() - i,
    {
        assert(refs_model(ms@)[i as int] == (ms@[i as int].0@, ref_model(ms@[i as int].1)));
        if chars_equal(&chars_of(ms[i].0.as_str()), &key) {
            return Some(PinRef { name: ms[i].1.name.clone(), pin: ms[i].1.pin.clone() });
        }
        i += 1;
    }
    None
}

impl GraphView {
    /// The part pin that the circuit's input pin `name` is wired to.
    pub fn get_inpins_map(&self, name: &str) -> (r: Option<PinRef>)
        ensures
            match r {
                Some(p) => find_ref(refs_model(self.inpins_map@), name@, 0) == Some(ref_model(p)),
                None => find_ref(refs_model(self.inpins_map@), name@, 0) is None,
            },
    {
        lookup_ref(&self.inpins_map, name)
    }

    /// The part pin that the circuit's output pin `name` is wired to.
    pub fn get_otpins_map(&self, name: &str) -> (r: Option<PinRef>)
        ensures
            match r {
                Some(p) => find_ref(refs_model(self.otpins_map@), name@, 0) == Some(ref_model(p)),
                None => find_ref(refs_model(self.otpins_map@), name@, 0) is None,
            },
    {
        lookup_ref(&self.otpins_map, name)
    }
}

} // verus!

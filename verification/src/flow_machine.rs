//! The machine that runs flow IR code: the values it holds, how it reads
//! places and values, and its steps.
use vstd::prelude::*;

use crate::coroutine::{push_all, push_str};
use crate::flow_ir::{
    BinOp, Block, Cond, Cont, FlowValue, JumpIf, NameMapping, NamesV, PlaceExpr, PlaceKey, Program, Stmt,
    ValueExpr, names_view, names_spec, compile_name_mapping,
};
use crate::number::{decimal, decimal_chars, Number};
use crate::table::{Table, key_index, lemma_get_at, lemma_sorted_unique, lex_lt, sorted_names};
use crate::text::{chars_of, string_of};
use vstd::utf8::{decode_utf8, valid_utf8};

verus! {

/// A place key as a value.
pub enum KeyV {
    Static(Seq<char>),
    Stack(nat),
    Heap(nat, nat),
}

/// A flow value as a value.
pub enum FV {
    Num(nat),
    Label(Seq<char>),
    Key(KeyV),
}

pub open spec fn key_view(k: PlaceKey) -> KeyV {
    match k {
        PlaceKey::Static(l) => KeyV::Static(l@),
        PlaceKey::Stack(i) => KeyV::Stack(i as nat),
        PlaceKey::Heap { handle, index } => KeyV::Heap(handle as nat, index as nat),
    }
}

pub open spec fn fv(v: FlowValue) -> FV {
    match v {
        FlowValue::Num(n) => FV::Num(n.value()),
        FlowValue::CodeLabel(l) => FV::Label(l@),
        FlowValue::Key(k) => FV::Key(key_view(k)),
    }
}

pub open spec fn fvs(s: Seq<FlowValue>) -> Seq<FV> {
    s.map_values(|v: FlowValue| fv(v))
}

/// The text of a value.
pub open spec fn fv_text(v: FV) -> Seq<char> {
    match v {
        FV::Num(n) => decimal(n),
        FV::Label(l) => ":"@ + l,
        FV::Key(KeyV::Static(l)) => "k:@"@ + l,
        FV::Key(KeyV::Stack(i)) => "k:s["@ + decimal(i) + "]"@,
        FV::Key(KeyV::Heap(h, i)) => "k:h["@ + decimal(h) + "]["@ + decimal(i) + "]"@,
    }
}

pub fn clone_key(k: &PlaceKey) -> (r: PlaceKey)
    ensures
        key_view(r) == key_view(*k),
{
    match k {
        PlaceKey::Static(l) => PlaceKey::Static(l.clone()),
        PlaceKey::Stack(i) => PlaceKey::Stack(*i),
        PlaceKey::Heap { handle, index } => PlaceKey::Heap { handle: *handle, index: *index },
    }
}

pub fn clone_value(v: &FlowValue) -> (r: FlowValue)
    ensures
        fv(r) == fv(*v),
{
    match v {
        FlowValue::Num(n) => FlowValue::Num(*n),
        FlowValue::CodeLabel(l) => FlowValue::CodeLabel(l.clone()),
        FlowValue::Key(k) => FlowValue::Key(clone_key(k)),
    }
}

/// Whether two values are the same.
pub fn value_eq(a: &FlowValue, b: &FlowValue) -> (r: bool)
    ensures
        r == (fv(*a) == fv(*b)),
{
    match (a, b) {
        (FlowValue::Num(x), FlowValue::Num(y)) => x.0 == y.0,
        (FlowValue::CodeLabel(x), FlowValue::CodeLabel(y)) => *x == *y,
        (FlowValue::Key(x), FlowValue::Key(y)) => match (x, y) {
            (PlaceKey::Static(p), PlaceKey::Static(q)) => *p == *q,
            (PlaceKey::Stack(p), PlaceKey::Stack(q)) => *p == *q,
            (
                PlaceKey::Heap { handle: h1, index: i1 },
                PlaceKey::Heap { handle: h2, index: i2 },
            ) => *h1 == *h2 && *i1 == *i2,
            _ => false,
        },
        _ => false,
    }
}

/// The text of a value: a number in decimal, `:label`, or a key.
pub fn value_text(v: &FlowValue) -> (r: Vec<char>)
    ensures
        r@ == fv_text(fv(*v)),
{
    match v {
        FlowValue::Num(n) => decimal_chars(n.0),
        FlowValue::CodeLabel(l) => {
            let mut r = chars_of(":");
            push_str(&mut r, l.as_str());
            r
        },
        FlowValue::Key(k) => match k {
            PlaceKey::Static(l) => {
                let mut r = chars_of("k:@");
                push_str(&mut r, l.as_str());
                r
            },
            PlaceKey::Stack(i) => {
                let mut r = chars_of("k:s[");
                push_all(&mut r, &decimal_chars(*i));
                push_str(&mut r, "]");
                r
            },
            PlaceKey::Heap { handle, index } => {
                let mut r = chars_of("k:h[");
                push_all(&mut r, &decimal_chars(*handle));
                push_str(&mut r, "][");
                push_all(&mut r, &decimal_chars(*index));
                push_str(&mut r, "]");
                r
            },
        },
    }
}

// ---------------------------------------------------------------------
// The heap
// ---------------------------------------------------------------------

/// Areas of values under distinct handles.
pub struct Heap {
    areas: Vec<(usize, Vec<FlowValue>)>,
}

pub open spec fn areas_distinct(a: Seq<(usize, Vec<FlowValue>)>) -> bool {
    forall|i: int, j: int| 0 <= i < j < a.len() ==> (#[trigger] a[i]).0 != (#[trigger] a[j]).0
}

impl Heap {
    #[verifier::type_invariant]
    spec fn distinct(self) -> bool {
        areas_distinct(self.areas@)
    }

    pub closed spec fn areas_view(self) -> Seq<(usize, Vec<FlowValue>)> {
        self.areas@
    }

    /// The heap as a map from handles to areas.
    pub closed spec fn view_map(self) -> Map<nat, Seq<FV>> {
        Map::new(
            |h: nat| exists|i: int| 0 <= i < self.areas@.len() && self.areas@[i].0 == h,
            |h: nat| {
                let i = choose|i: int| 0 <= i < self.areas@.len() && self.areas@[i].0 == h;
                fvs(self.areas@[i].1@)
            },
        )
    }

    pub fn new() -> (r: Heap)
        ensures
            r.view_map() == Map::<nat, Seq<FV>>::empty(),
    {
        let r = Heap { areas: Vec::new() };
        assert(r.view_map() =~= Map::<nat, Seq<FV>>::empty());
        r
    }

    fn find(&self, h: usize) -> (r: Option<usize>)
        ensures
            r matches Some(i) ==> i < self.areas@.len() && self.areas@[i as int].0 == h,
            r is None ==> !self.view_map().contains_key(h as nat),
    {
        let mut i: usize = 0;
        while i < self.areas.len()
            invariant
                0 <= i <= self.areas@.len(),
                forall|j: int| 0 <= j < i ==> (#[trigger] self.areas@[j]).0 != h,
            decreases self.areas@.len() - i,
        {
            if self.areas[i].0 == h {
                return Some(i);
            }
            i += 1;
        }
        None
    }

    proof fn lemma_at(self, i: int)
        requires
            0 <= i < self.areas@.len(),
            areas_distinct(self.areas@),
        ensures
            self.view_map().contains_key(self.areas@[i].0 as nat),
            self.view_map()[self.areas@[i].0 as nat] == fvs(self.areas@[i].1@),
    {
        let h = self.areas@[i].0 as nat;
        assert(self.view_map().contains_key(h));
        let c = choose|c: int| 0 <= c < self.areas@.len() && self.areas@[c].0 == h;
        if c != i {
            if c < i {
                assert(self.areas@[c].0 != self.areas@[i].0);
            } else {
                assert(self.areas@[i].0 != self.areas@[c].0);
            }
        }
    }

    /// The value at `index` of area `h`.
    pub fn read(&self, h: usize, index: usize) -> (r: Option<&FlowValue>)
        ensures
            match r {
                Some(v) => self.view_map().contains_key(h as nat) && index < self.view_map()[h as nat].len()
                    && fv(*v) == self.view_map()[h as nat][index as int],
                None => !(self.view_map().contains_key(h as nat) && index < self.view_map()[h as nat].len()),
            },
    {
        match self.find(h) {
            Some(i) => {
                proof {
                    use_type_invariant(self);
                    self.lemma_at(i as int);
                }
                if index < self.areas[i].1.len() {
                    Some(&self.areas[i].1[index])
                } else {
                    None
                }
            },
            None => None,
        }
    }

    /// Whether the heap has an area `h`.
    pub fn has(&self, h: usize) -> (r: bool)
        ensures
            r == self.view_map().contains_key(h as nat),
    {
        match self.find(h) {
            Some(i) => {
                proof {
                    use_type_invariant(self);
                    self.lemma_at(i as int);
                }
                true
            },
            None => false,
        }
    }

    /// The number of slots of area `h`, if it exists.
    pub fn area_len(&self, h: usize) -> (r: Option<usize>)
        ensures
            match r {
                Some(n) => self.view_map().contains_key(h as nat) && n == self.view_map()[h as nat].len(),
                None => !self.view_map().contains_key(h as nat),
            },
    {
        match self.find(h) {
            Some(i) => {
                proof {
                    use_type_invariant(self);
                    self.lemma_at(i as int);
                }
                Some(self.areas[i].1.len())
            },
            None => None,
        }
    }

    /// Writes `v` at `index` of area `h`.
    pub fn write(&mut self, h: usize, index: usize, v: FlowValue)
        requires
            old(self).view_map().contains_key(h as nat),
            index < old(self).view_map()[h as nat].len(),
        ensures
            final(self).view_map() == old(self).view_map().insert(
                h as nat,
                old(self).view_map()[h as nat].update(index as int, fv(v)),
            ),
    {
        proof {
            use_type_invariant(&*self);
        }
        let ghost old_map = self.view_map();
        let i = match self.find(h) {
            Some(i) => i,
            None => {
                return;
            },
        };
        proof {
            self.lemma_at(i as int);
        }
        let mut areas: Vec<(usize, Vec<FlowValue>)> = Vec::new();
        std::mem::swap(&mut areas, &mut self.areas);
        let ghost a0 = areas@;
        let (hh, mut area) = areas.remove(i);
        let ghost area0 = area@;
        area.set(index, v);
        areas.insert(i, (hh, area));
        assert(areas@ =~= a0.update(i as int, (hh, area)));
        assert(areas_distinct(areas@));
        self.areas = areas;
        proof {
            self.lemma_at(i as int);
            assert forall|k: nat| #[trigger] self.view_map().contains_key(k) <==> old_map.insert(
                h as nat,
                old_map[h as nat].update(index as int, fv(v)),
            ).contains_key(k) by {
                if self.view_map().contains_key(k) {
                    let c = choose|c: int| 0 <= c < self.areas@.len() && self.areas@[c].0 == k;
                    assert(a0[c].0 == k);
                }
                if old_map.contains_key(k) {
                    let c = choose|c: int| 0 <= c < a0.len() && a0[c].0 == k;
                    assert(self.areas@[c].0 == k);
                }
            }
            assert forall|k: nat| #[trigger] self.view_map().contains_key(k) implies self.view_map()[k] == old_map.insert(
                h as nat,
                old_map[h as nat].update(index as int, fv(v)),
            )[k] by {
                let c = choose|c: int| 0 <= c < self.areas@.len() && self.areas@[c].0 == k;
                self.lemma_at(c);
                if c != i {
                    assert(a0[c] == self.areas@[c]);
                    assert(a0[c].0 != h);
                }
            }
            assert(fvs(area@) =~= fvs(area0).update(index as int, fv(v)));
            assert(self.view_map() =~= old_map.insert(
                h as nat,
                old_map[h as nat].update(index as int, fv(v)),
            ));
        }
    }
}


impl Heap {
    /// Puts `area` under handle `h`, replacing what was there.
    pub fn insert(&mut self, h: usize, area: Vec<FlowValue>)
        ensures
            final(self).view_map() == old(self).view_map().insert(h as nat, fvs(area@)),
    {
        proof {
            use_type_invariant(&*self);
        }
        let ghost old_map = self.view_map();
        let ghost av = fvs(area@);
        let found = self.find(h);
        let mut areas: Vec<(usize, Vec<FlowValue>)> = Vec::new();
        std::mem::swap(&mut areas, &mut self.areas);
        let ghost a0 = areas@;
        let ghost at: int;
        match found {
            Some(i) => {
                areas.set(i, (h, area));
                proof {
                    at = i as int;
                }
            },
            None => {
                areas.push((h, area));
                proof {
                    at = a0.len() as int;
                }
            },
        }
        proof {
            assert forall|i: int, j: int| 0 <= i < j < areas@.len() implies (#[trigger] areas@[i]).0 != (#[trigger] areas@[j]).0 by {
                if i != at && j != at {
                    assert(areas@[i] == a0[i] && areas@[j] == a0[j]);
                } else if i == at {
                    assert(areas@[j] == a0[j]);
                    if found is None {
                        assert(false);
                    } else {
                        assert(a0[i].0 == h);
                        assert(a0[i].0 != a0[j].0);
                    }
                } else {
                    assert(areas@[i] == a0[i]);
                    if found is None {
                        assert(old_map.contains_key(a0[i].0 as nat));
                    } else {
                        assert(a0[j].0 == h);
                        assert(a0[i].0 != a0[j].0);
                    }
                }
            }
        }
        self.areas = areas;
        proof {
            self.lemma_at(at);
            assert forall|k: nat| #[trigger] self.view_map().contains_key(k) <==> old_map.insert(h as nat, av).contains_key(k) by {
                if self.view_map().contains_key(k) && k != h {
                    let c = choose|c: int| 0 <= c < self.areas@.len() && self.areas@[c].0 == k;
                    assert(c != at);
                    assert(a0[c].0 == k);
                }
                if old_map.contains_key(k) && k != h {
                    let c = choose|c: int| 0 <= c < a0.len() && a0[c].0 == k;
                    assert(self.areas@[c].0 == k);
                }
            }
            assert forall|k: nat| #[trigger] self.view_map().contains_key(k) implies self.view_map()[k] == old_map.insert(h as nat, av)[k] by {
                let c = choose|c: int| 0 <= c < self.areas@.len() && self.areas@[c].0 == k;
                self.lemma_at(c);
                if c != at {
                    assert(a0[c] == self.areas@[c]);
                    let d = choose|d: int| 0 <= d < a0.len() && a0[d].0 == k;
                    if d != c {
                        if d < c {
                            assert(a0[d].0 != a0[c].0);
                        } else {
                            assert(a0[c].0 != a0[d].0);
                        }
                    }
                }
            }
            assert(self.view_map() =~= old_map.insert(h as nat, av));
        }
    }

    /// Removes area `h`; false where there is none.
    pub fn remove(&mut self, h: usize) -> (r: bool)
        ensures
            r == old(self).view_map().contains_key(h as nat),
            final(self).view_map() == old(self).view_map().remove(h as nat),
    {
        proof {
            use_type_invariant(&*self);
        }
        let ghost old_map = self.view_map();
        match self.find(h) {
            None => {
                assert(old_map.remove(h as nat) =~= old_map);
                false
            },
            Some(i) => {
                proof {
                    self.lemma_at(i as int);
                }
                let mut areas: Vec<(usize, Vec<FlowValue>)> = Vec::new();
                std::mem::swap(&mut areas, &mut self.areas);
                let ghost a0 = areas@;
                areas.remove(i);
                assert(areas@ =~= a0.remove(i as int));
                assert(areas_distinct(areas@)) by {
                    assert forall|p: int, q: int| 0 <= p < q < areas@.len() implies (#[trigger] areas@[p]).0 != (#[trigger] areas@[q]).0 by {
                        let pp = if p < i { p } else { p + 1 };
                        let qq = if q < i { q } else { q + 1 };
                        assert(areas@[p] == a0[pp] && areas@[q] == a0[qq]);
                    }
                }
                self.areas = areas;
                proof {
                    assert forall|k: nat| #[trigger] self.view_map().contains_key(k) <==> old_map.remove(h as nat).contains_key(k) by {
                        if self.view_map().contains_key(k) {
                            let c = choose|c: int| 0 <= c < self.areas@.len() && self.areas@[c].0 == k;
                            let cc = if c < i { c } else { c + 1 };
                            assert(a0[cc].0 == k);
                            assert(cc != i);
                            assert(a0[cc].0 != a0[i as int].0);
                        }
                        if old_map.contains_key(k) && k != h {
                            let c = choose|c: int| 0 <= c < a0.len() && a0[c].0 == k;
                            assert(c != i);
                            let cc = if c < i { c } else { c - 1 };
                            assert(self.areas@[cc].0 == k);
                        }
                    }
                    assert forall|k: nat| #[trigger] self.view_map().contains_key(k) implies self.view_map()[k] == old_map.remove(h as nat)[k] by {
                        let c = choose|c: int| 0 <= c < self.areas@.len() && self.areas@[c].0 == k;
                        self.lemma_at(c);
                        let cc = if c < i { c } else { c + 1 };
                        assert(a0[cc] == self.areas@[c]);
                        old(self).lemma_at(cc);
                    }
                    assert(self.view_map() =~= old_map.remove(h as nat));
                }
                true
            },
        }
    }

    /// The areas with their handles, in the order they were made.
    pub fn areas(&self) -> (r: &Vec<(usize, Vec<FlowValue>)>)
        ensures
            r@ == self.areas_view(),
    {
        &self.areas
    }
}


// ---------------------------------------------------------------------
// The machine
// ---------------------------------------------------------------------

/// Named values.
pub struct StaticEnv {
    pub entries: Table<FlowValue>,
}

pub open spec fn table_fv(t: Table<FlowValue>) -> Map<Seq<char>, FV> {
    t.as_map().map_values(|v: FlowValue| fv(v))
}

pub struct FlowIrMachine {
    pub code: crate::flow_ir::FlowIrCode,
    pub names: NameMapping,
    pub current_region: usize,
    pub current_block: usize,
    pub current_line: usize,
    pub vregs: Table<FlowValue>,
    pub static_mem: Table<FlowValue>,
    pub stack: Vec<FlowValue>,
    pub heap: Heap,
    pub next_handle: usize,
    pub halted: bool,
}

/// The state of the machine as values.
#[verifier::ext_equal]
pub struct FlowState {
    pub region: nat,
    pub block: nat,
    pub line: nat,
    pub vregs: Map<Seq<char>, FV>,
    pub statics: Map<Seq<char>, FV>,
    pub stack: Seq<FV>,
    pub heap: Map<nat, Seq<FV>>,
    pub next_handle: nat,
    pub halted: bool,
}

pub open spec fn machine_state(m: FlowIrMachine) -> FlowState {
    FlowState {
        region: m.current_region as nat,
        block: m.current_block as nat,
        line: m.current_line as nat,
        vregs: table_fv(m.vregs),
        statics: table_fv(m.static_mem),
        stack: fvs(m.stack@),
        heap: m.heap.view_map(),
        next_handle: m.next_handle as nat,
        halted: m.halted,
    }
}

/// The value of a virtual register: zero where none was set.
pub open spec fn get_vreg(s: FlowState, r: Seq<char>) -> FV {
    if s.vregs.contains_key(r) {
        s.vregs[r]
    } else {
        FV::Num(0)
    }
}

pub open spec fn as_number(v: FV) -> Result<nat, Seq<char>> {
    match v {
        FV::Num(n) => Ok(n),
        _ => Err("Expected number, got "@ + fv_text(v)),
    }
}

/// The value of an expression.
pub open spec fn eval_value(n: NamesV, s: FlowState, e: ValueExpr) -> Result<FV, Seq<char>>
    decreases e,
{
    match e {
        ValueExpr::VReg(r) => Ok(get_vreg(s, r@)),
        ValueExpr::Imm(x) => Ok(FV::Num(x.value())),
        ValueExpr::CodeLabel(l) => Ok(FV::Label(l@)),
        ValueExpr::Ref(p) => match eval_place(n, s, p) {
            Ok(k) => Ok(FV::Key(k)),
            Err(m) => Err(m),
        },
    }
}

/// The key of a place.
pub open spec fn eval_place(n: NamesV, s: FlowState, p: PlaceExpr) -> Result<KeyV, Seq<char>>
    decreases p,
{
    match p {
        PlaceExpr::Label(l) => if n.static_labels.contains(l@) {
            Ok(KeyV::Static(l@))
        } else {
            Err("Place is not data label: @"@ + l@)
        },
        PlaceExpr::Deref(r) => match get_vreg(s, r@) {
            FV::Key(k) => Ok(k),
            other => Err("deref expects place key in vreg, got "@ + fv_text(other)),
        },
        PlaceExpr::SAcc(ix) => match eval_value(n, s, *ix) {
            Err(m) => Err(m),
            Ok(v) => match as_number(v) {
                Err(m) => Err(m),
                Ok(i) => Ok(KeyV::Stack(i)),
            },
        },
        PlaceExpr::HAcc { handle, index } => match eval_value(n, s, *handle) {
            Err(m) => Err(m),
            Ok(hv) => match as_number(hv) {
                Err(m) => Err(m),
                Ok(h) => match eval_value(n, s, *index) {
                    Err(m) => Err(m),
                    Ok(iv) => match as_number(iv) {
                        Err(m) => Err(m),
                        Ok(i) => Ok(KeyV::Heap(h, i)),
                    },
                },
            },
        },
    }
}

impl FlowIrMachine {
    fn get_vreg(&self, r: &String) -> (v: FlowValue)
        ensures
            fv(v) == get_vreg(machine_state(*self), r@),
    {
        match self.vregs.get_ref(r.as_str()) {
            Some(v) => {
                proof {
                    assert(self.vregs.as_map().contains_key(r@));
                }
                clone_value(v)
            },
            None => {
                proof {
                    assert(!self.vregs.as_map().contains_key(r@));
                }
                FlowValue::Num(Number(0))
            },
        }
    }

    fn as_number(v: &FlowValue) -> (r: Result<usize, String>)
        ensures
            match as_number(fv(*v)) {
                Ok(n) => r == Ok::<usize, String>(n as usize) && n <= usize::MAX,
                Err(m) => r matches Err(e) && e@ == m,
            },
    {
        match v {
            FlowValue::Num(n) => Ok(n.0),
            _ => {
                let mut t = chars_of("Expected number, got ");
                push_all(&mut t, &value_text(v));
                Err(string_of(&t))
            },
        }
    }

    fn eval_value(&self, e: &ValueExpr) -> (r: Result<FlowValue, String>)
        ensures
            match eval_value(names_view(self.names), machine_state(*self), *e) {
                Ok(v) => r matches Ok(x) && fv(x) == v,
                Err(m) => r matches Err(x) && x@ == m,
            },
        decreases e,
    {
        match e {
            ValueExpr::VReg(r) => Ok(self.get_vreg(r)),
            ValueExpr::Imm(x) => Ok(FlowValue::Num(*x)),
            ValueExpr::CodeLabel(l) => Ok(FlowValue::CodeLabel(l.clone())),
            ValueExpr::Ref(p) => {
                let k = self.eval_place_key(p)?;
                Ok(FlowValue::Key(k))
            },
        }
    }

    fn eval_place_key(&self, p: &PlaceExpr) -> (r: Result<PlaceKey, String>)
        ensures
            match eval_place(names_view(self.names), machine_state(*self), *p) {
                Ok(k) => r matches Ok(x) && key_view(x) == k,
                Err(m) => r matches Err(x) && x@ == m,
            },
        decreases p,
    {
        match p {
            PlaceExpr::Label(l) => {
                if self.names.static_labels.get(l.as_str()).is_some() {
                    proof {
                        assert(self.names.static_labels.as_map().dom().contains(l@));
                    }
                    Ok(PlaceKey::Static(l.clone()))
                } else {
                    let mut t = chars_of("Place is not data label: @");
                    push_str(&mut t, l.as_str());
                    Err(string_of(&t))
                }
            },
            PlaceExpr::Deref(r) => {
                let v = self.get_vreg(r);
                match v {
                    FlowValue::Key(k) => Ok(k),
                    other => {
                        let mut t = chars_of("deref expects place key in vreg, got ");
                        push_all(&mut t, &value_text(&other));
                        Err(string_of(&t))
                    },
                }
            },
            PlaceExpr::SAcc(ix) => {
                let v = self.eval_value(ix)?;
                let i = FlowIrMachine::as_number(&v)?;
                Ok(PlaceKey::Stack(i))
            },
            PlaceExpr::HAcc { handle, index } => {
                let hv = self.eval_value(handle)?;
                let h = FlowIrMachine::as_number(&hv)?;
                let iv = self.eval_value(index)?;
                let i = FlowIrMachine::as_number(&iv)?;
                Ok(PlaceKey::Heap { handle: h, index: i })
            },
        }
    }
}


pub open spec fn stack_key_text(i: nat) -> Seq<char> {
    "s["@ + decimal(i) + "]"@
}

pub open spec fn heap_key_text(h: nat, i: nat) -> Seq<char> {
    "h["@ + decimal(h) + "]["@ + decimal(i) + "]"@
}

/// The value at a place.
pub open spec fn read_place(s: FlowState, k: KeyV) -> Result<FV, Seq<char>> {
    match k {
        KeyV::Static(l) => if s.statics.contains_key(l) {
            Ok(s.statics[l])
        } else {
            Err("Unknown data label: @"@ + l)
        },
        KeyV::Stack(i) => if i < s.stack.len() {
            Ok(s.stack[i as int])
        } else {
            Err("Invalid stack key: "@ + stack_key_text(i))
        },
        KeyV::Heap(h, i) => if s.heap.contains_key(h) && i < s.heap[h].len() {
            Ok(s.heap[h][i as int])
        } else {
            Err("Invalid heap key: "@ + heap_key_text(h, i))
        },
    }
}

/// The state after writing `v` to a place that exists.
pub open spec fn write_place(s: FlowState, k: KeyV, v: FV) -> Result<FlowState, Seq<char>> {
    match k {
        KeyV::Static(l) => if s.statics.contains_key(l) {
            Ok(FlowState { statics: s.statics.insert(l, v), ..s })
        } else {
            Err("Unknown data label: @"@ + l)
        },
        KeyV::Stack(i) => if i >= s.stack.len() {
            Err("Invalid stack key: "@ + stack_key_text(i))
        } else {
            Ok(FlowState { stack: s.stack.update(i as int, v), ..s })
        },
        KeyV::Heap(h, i) => if !s.heap.contains_key(h) {
            Err("Unknown heap handle: "@ + decimal(h))
        } else if i >= s.heap[h].len() {
            Err("Invalid heap key: "@ + heap_key_text(h, i))
        } else {
            Ok(FlowState { heap: s.heap.insert(h, s.heap[h].update(i as int, v)), ..s })
        },
    }
}

/// Reading a place after writing a value to it gives the value; a write
/// succeeds exactly where a read does.
pub proof fn law_place_write_read(s: FlowState, k: KeyV, v: FV)
    ensures
        (write_place(s, k, v) is Ok) == (read_place(s, k) is Ok),
        write_place(s, k, v) matches Ok(s2) ==> read_place(s2, k) == Ok::<FV, Seq<char>>(v),
{
}

pub open spec fn cond_parts(c: crate::flow_ir::Cond) -> (ValueExpr, ValueExpr, Seq<char>) {
    match c {
        crate::flow_ir::Cond::Lt(a, b) => (a, b, "lt"@),
        crate::flow_ir::Cond::Eq(a, b) => (a, b, "eq"@),
        crate::flow_ir::Cond::Gt(a, b) => (a, b, "gt"@),
    }
}

/// Whether a condition holds: numbers compare; other values only test
/// equal.
pub open spec fn eval_cond(n: NamesV, s: FlowState, c: crate::flow_ir::Cond) -> Result<bool, Seq<char>> {
    let (a, b, op) = cond_parts(c);
    match eval_value(n, s, a) {
        Err(m) => Err(m),
        Ok(l) => match eval_value(n, s, b) {
            Err(m) => Err(m),
            Ok(r) => match (l, r) {
                (FV::Num(x), FV::Num(y)) => Ok(
                    if op == "lt"@ {
                        x < y
                    } else if op == "eq"@ {
                        x == y
                    } else {
                        x > y
                    },
                ),
                _ => if op == "eq"@ {
                    Ok(l == r)
                } else {
                    Err(
                        "Condition "@ + op + " supports only numbers, got "@ + fv_text(l) + " and "@
                            + fv_text(r),
                    )
                },
            },
        },
    }
}

/// Conditions on numbers compare them strictly or exactly: `a < b` holds
/// just when the value of `a` is less than that of `b`, `a = b` when they
/// are equal, `a > b` when it is greater. On other values only `=` can be
/// asked, and it holds when the two values are the same.
pub proof fn law_conditions(n: NamesV, s: FlowState, a: ValueExpr, b: ValueExpr)
    ensures
        eval_value(n, s, a) matches Ok(FV::Num(x)) ==> eval_value(n, s, b) matches Ok(FV::Num(y)) ==> {
            &&& eval_cond(n, s, Cond::Lt(a, b)) == Ok::<bool, Seq<char>>(x < y)
            &&& eval_cond(n, s, Cond::Eq(a, b)) == Ok::<bool, Seq<char>>(x == y)
            &&& eval_cond(n, s, Cond::Gt(a, b)) == Ok::<bool, Seq<char>>(x > y)
        },
        eval_value(n, s, a) matches Ok(l) ==> eval_value(n, s, b) matches Ok(r) ==> !(l is Num && r is Num) ==> {
            &&& eval_cond(n, s, Cond::Eq(a, b)) == Ok::<bool, Seq<char>>(l == r)
            &&& eval_cond(n, s, Cond::Lt(a, b)) is Err
            &&& eval_cond(n, s, Cond::Gt(a, b)) is Err
        },
{
    reveal_strlit("lt");
    reveal_strlit("eq");
    reveal_strlit("gt");
    assert("eq"@ != "lt"@) by {
        assert("eq"@[0] != "lt"@[0]);
    }
    assert("gt"@ != "lt"@) by {
        assert("gt"@[0] != "lt"@[0]);
    }
    assert("gt"@ != "eq"@) by {
        assert("gt"@[0] != "eq"@[0]);
    }
}

/// The code label a jump target names.
pub open spec fn target_label(n: NamesV, s: FlowState, t: ValueExpr) -> Result<Seq<char>, Seq<char>> {
    match eval_value(n, s, t) {
        Err(m) => Err(m),
        Ok(FV::Label(l)) => Ok(l),
        Ok(other) => Err("jump target expects code label, got "@ + fv_text(other)),
    }
}

/// The state after a jump to a block of the current region.
pub open spec fn jump_goto(n: NamesV, s: FlowState, t: ValueExpr) -> Result<FlowState, Seq<char>> {
    match target_label(n, s, t) {
        Err(m) => Err(m),
        Ok(l) => if s.region < n.block_ids.len() && n.block_ids[s.region as int].contains_key(l) {
            Ok(FlowState { block: n.block_ids[s.region as int][l] as nat, line: 0, ..s })
        } else {
            Err("goto target must be local block label, got :"@ + l)
        },
    }
}

/// The state after entering a region: its first block, no registers.
pub open spec fn jump_enter(n: NamesV, s: FlowState, t: ValueExpr) -> Result<FlowState, Seq<char>> {
    match target_label(n, s, t) {
        Err(m) => Err(m),
        Ok(l) => if n.region_ids.contains_key(l) {
            Ok(FlowState { region: n.region_ids[l] as nat, block: 0, line: 0, vregs: Map::empty(), ..s })
        } else {
            Err("enter target must be region label, got :"@ + l)
        },
    }
}

fn stack_key_chars(i: usize) -> (r: Vec<char>)
    ensures
        r@ == stack_key_text(i as nat),
{
    let mut t = chars_of("s[");
    push_all(&mut t, &decimal_chars(i));
    push_str(&mut t, "]");
    t
}

fn heap_key_chars(h: usize, i: usize) -> (r: Vec<char>)
    ensures
        r@ == heap_key_text(h as nat, i as nat),
{
    let mut t = chars_of("h[");
    push_all(&mut t, &decimal_chars(h));
    push_str(&mut t, "][");
    push_all(&mut t, &decimal_chars(i));
    push_str(&mut t, "]");
    t
}

fn message(prefix: &str, rest: &Vec<char>) -> (r: String)
    ensures
        r@ == prefix@ + rest@,
{
    let mut t = chars_of(prefix);
    push_all(&mut t, rest);
    string_of(&t)
}

impl FlowIrMachine {
    fn read_place(&self, k: &PlaceKey) -> (r: Result<FlowValue, String>)
        ensures
            match read_place(machine_state(*self), key_view(*k)) {
                Ok(v) => r matches Ok(x) && fv(x) == v,
                Err(m) => r matches Err(x) && x@ == m,
            },
    {
        match k {
            PlaceKey::Static(l) => match self.static_mem.get_ref(l.as_str()) {
                Some(v) => {
                    proof {
                        assert(self.static_mem.as_map().contains_key(l@));
                    }
                    Ok(clone_value(v))
                },
                None => {
                    proof {
                        assert(!self.static_mem.as_map().contains_key(l@));
                    }
                    Err(message("Unknown data label: @", &chars_of(l.as_str())))
                },
            },
            PlaceKey::Stack(i) => {
                if *i < self.stack.len() {
                    Ok(clone_value(&self.stack[*i]))
                } else {
                    Err(message("Invalid stack key: ", &stack_key_chars(*i)))
                }
            },
            PlaceKey::Heap { handle, index } => match self.heap.read(*handle, *index) {
                Some(v) => Ok(clone_value(v)),
                None => Err(message("Invalid heap key: ", &heap_key_chars(*handle, *index))),
            },
        }
    }

    fn write_place(&mut self, k: &PlaceKey, v: FlowValue) -> (r: Result<(), String>)
        ensures
            match write_place(machine_state(*old(self)), key_view(*k), fv(v)) {
                Ok(s2) => r is Ok && machine_state(*final(self)) == s2,
                Err(m) => r matches Err(x) && x@ == m,
            },
            final(self).code == old(self).code,
            final(self).names == old(self).names,
    {
        let ghost s0 = machine_state(*self);
        let ghost vv = fv(v);
        match k {
            PlaceKey::Static(l) => {
                if self.static_mem.get_ref(l.as_str()).is_some() {
                    proof {
                        assert(self.static_mem.as_map().contains_key(l@));
                    }
                    self.static_mem.insert(l.clone(), v);
                    proof {
                        assert(table_fv(self.static_mem) =~= s0.statics.insert(l@, vv));
                        assert(machine_state(*self) =~= FlowState { statics: s0.statics.insert(l@, vv), ..s0 });
                    }
                    Ok(())
                } else {
                    proof {
                        assert(!self.static_mem.as_map().contains_key(l@));
                    }
                    Err(message("Unknown data label: @", &chars_of(l.as_str())))
                }
            },
            PlaceKey::Stack(i) => {
                if *i >= self.stack.len() {
                    return Err(message("Invalid stack key: ", &stack_key_chars(*i)));
                }
                self.stack.set(*i, v);
                proof {
                    assert(fvs(self.stack@) =~= s0.stack.update(*i as int, vv));
                    assert(machine_state(*self) =~= FlowState { stack: s0.stack.update(*i as int, vv), ..s0 });
                }
                Ok(())
            },
            PlaceKey::Heap { handle, index } => {
                match self.heap.area_len(*handle) {
                    None => Err(message("Unknown heap handle: ", &decimal_chars(*handle))),
                    Some(len) => {
                        if *index >= len {
                            return Err(message("Invalid heap key: ", &heap_key_chars(*handle, *index)));
                        }
                        self.heap.write(*handle, *index, v);
                        proof {
                            assert(machine_state(*self) =~= FlowState {
                                heap: s0.heap.insert(*handle as nat, s0.heap[*handle as nat].update(*index as int, vv)),
                                ..s0
                            });
                        }
                        Ok(())
                    },
                }
            },
        }
    }

    fn eval_cond(&self, c: &crate::flow_ir::Cond) -> (r: Result<bool, String>)
        ensures
            match eval_cond(names_view(self.names), machine_state(*self), *c) {
                Ok(b) => r == Ok::<bool, String>(b),
                Err(m) => r matches Err(x) && x@ == m,
            },
    {
        let (a, b, code) = match c {
            crate::flow_ir::Cond::Lt(a, b) => (a, b, 0u8),
            crate::flow_ir::Cond::Eq(a, b) => (a, b, 1u8),
            crate::flow_ir::Cond::Gt(a, b) => (a, b, 2u8),
        };
        let op = if code == 0 {
            "lt"
        } else if code == 1 {
            "eq"
        } else {
            "gt"
        };
        proof {
            reveal_strlit("lt");
            reveal_strlit("eq");
            reveal_strlit("gt");
            assert(cond_parts(*c).2 == op@);
            assert("lt"@[0] != "eq"@[0]);
            assert("gt"@[0] != "eq"@[0]);
            assert("gt"@[0] != "lt"@[0]);
        }
        let l = self.eval_value(a)?;
        let r = self.eval_value(b)?;
        match (&l, &r) {
            (FlowValue::Num(x), FlowValue::Num(y)) => {
                if code == 0 {
                    Ok(x.0 < y.0)
                } else if code == 1 {
                    Ok(x.0 == y.0)
                } else {
                    Ok(x.0 > y.0)
                }
            },
            _ => {
                if code == 1 {
                    Ok(value_eq(&l, &r))
                } else {
                    let mut t = chars_of("Condition ");
                    push_str(&mut t, op);
                    push_str(&mut t, " supports only numbers, got ");
                    push_all(&mut t, &value_text(&l));
                    push_str(&mut t, " and ");
                    push_all(&mut t, &value_text(&r));
                    Err(string_of(&t))
                }
            },
        }
    }

    fn eval_target_label(&self, t: &ValueExpr) -> (r: Result<String, String>)
        ensures
            match target_label(names_view(self.names), machine_state(*self), *t) {
                Ok(l) => r matches Ok(x) && x@ == l,
                Err(m) => r matches Err(x) && x@ == m,
            },
    {
        match self.eval_value(t)? {
            FlowValue::CodeLabel(l) => Ok(l),
            other => Err(message("jump target expects code label, got ", &value_text(&other))),
        }
    }

    fn jump_goto(&mut self, t: &ValueExpr) -> (r: Result<(), String>)
        ensures
            match jump_goto(names_view(old(self).names), machine_state(*old(self)), *t) {
                Ok(s2) => r is Ok && machine_state(*final(self)) == s2,
                Err(m) => r matches Err(x) && x@ == m,
            },
            final(self).code == old(self).code,
            final(self).names == old(self).names,
    {
        let label = self.eval_target_label(t)?;
        if self.current_region < self.names.block_labels_in_region.len() {
            match self.names.block_labels_in_region[self.current_region].get(label.as_str()) {
                Some(b) => {
                    proof {
                        assert(names_view(self.names).block_ids[self.current_region as int] == self.names.block_labels_in_region@[self.current_region as int].as_map());
                    }
                    self.current_block = b;
                    self.current_line = 0;
                    return Ok(());
                },
                None => {
                    proof {
                        assert(names_view(self.names).block_ids[self.current_region as int] == self.names.block_labels_in_region@[self.current_region as int].as_map());
                    }
                },
            }
        }
        Err(message("goto target must be local block label, got :", &chars_of(label.as_str())))
    }

    fn jump_enter(&mut self, t: &ValueExpr) -> (r: Result<(), String>)
        ensures
            match jump_enter(names_view(old(self).names), machine_state(*old(self)), *t) {
                Ok(s2) => r is Ok && machine_state(*final(self)) == s2,
                Err(m) => r matches Err(x) && x@ == m,
            },
            final(self).code == old(self).code,
            final(self).names == old(self).names,
    {
        let label = self.eval_target_label(t)?;
        match self.names.region_label_to_id.get(label.as_str()) {
            Some(id) => {
                self.current_region = id;
                self.current_block = 0;
                self.current_line = 0;
                self.vregs = Table::new();
                proof {
                    assert(table_fv(self.vregs) =~= Map::empty());
                }
                Ok(())
            },
            None => Err(message("enter target must be region label, got :", &chars_of(label.as_str()))),
        }
    }
}


// ---------------------------------------------------------------------
// Bytes
// ---------------------------------------------------------------------

/// The bytes of a number, most significant first, without leading zeros.
pub open spec fn bytes_be(n: nat) -> Seq<u8>
    decreases n,
{
    if n == 0 {
        seq![]
    } else {
        bytes_be(n / 256).push((n % 256) as u8)
    }
}

/// The number whose bytes, most significant first, are the first `i` of `b`.
pub open spec fn from_bytes(b: Seq<u8>, i: nat) -> nat
    decreases i,
{
    if i == 0 || i > b.len() {
        0
    } else {
        from_bytes(b, (i - 1) as nat) * 256 + b[i - 1] as nat
    }
}

/// The bytes of a text as `[b0, b1, ...]`.
pub open spec fn bytes_debug(b: Seq<u8>) -> Seq<char> {
    "["@ + bytes_list(b, b.len()) + "]"@
}

pub open spec fn bytes_list(b: Seq<u8>, i: nat) -> Seq<char>
    decreases i,
{
    if i == 0 || i > b.len() {
        seq![]
    } else if i == 1 {
        decimal(b[0] as nat)
    } else {
        bytes_list(b, (i - 1) as nat) + ", "@ + decimal(b[i - 1] as nat)
    }
}

fn bytes_be_exec(n: usize) -> (r: Vec<u8>)
    ensures
        r@ == bytes_be(n as nat),
    decreases n,
{
    if n == 0 {
        Vec::new()
    } else {
        let mut v = bytes_be_exec(n / 256);
        v.push((n % 256) as u8);
        v
    }
}

fn from_bytes_exec(b: &Vec<u8>) -> (r: Option<usize>)
    ensures
        match r {
            Some(v) => v == from_bytes(b@, b@.len()),
            None => from_bytes(b@, b@.len()) > usize::MAX,
        },
{
    let mut v: usize = 0;
    let mut i: usize = 0;
    while i < b.len()
        invariant
            0 <= i <= b.len(),
            v == from_bytes(b@, i as nat),
        decreases b.len() - i,
    {
        let next = match v.checked_mul(256) {
            Some(x) => x.checked_add(b[i] as usize),
            None => None,
        };
        match next {
            Some(x) => {
                v = x;
            },
            None => {
                proof {
                    lemma_from_bytes_grows(b@, (i + 1) as nat, b@.len());
                }
                return None;
            },
        }
        i += 1;
    }
    Some(v)
}

proof fn lemma_from_bytes_grows(b: Seq<u8>, i: nat, j: nat)
    requires
        i <= j <= b.len(),
    ensures
        from_bytes(b, i) <= from_bytes(b, j),
    decreases j,
{
    if i < j {
        lemma_from_bytes_grows(b, i, (j - 1) as nat);
        assert(from_bytes(b, (j - 1) as nat) <= from_bytes(b, (j - 1) as nat) * 256) by (nonlinear_arith);
    }
}

fn bytes_debug_exec(b: &Vec<u8>) -> (r: Vec<char>)
    ensures
        r@ == bytes_debug(b@),
{
    let mut t: Vec<char> = Vec::new();
    let mut i: usize = 0;
    while i < b.len()
        invariant
            0 <= i <= b.len(),
            t@ == bytes_list(b@, i as nat),
        decreases b.len() - i,
    {
        if i > 0 {
            push_str(&mut t, ", ");
        }
        push_all(&mut t, &decimal_chars(b[i] as usize));
        i += 1;
    }
    let mut r = chars_of("[");
    push_all(&mut r, &t);
    push_str(&mut r, "]");
    r
}

/// `std::str::from_utf8`: the text that the bytes encode, where they are
/// UTF-8 (as vstd's `valid_utf8` states it), else `None`.
#[verifier::external_body]
fn utf8_text(bytes: &Vec<u8>) -> (r: Option<String>)
    ensures
        r matches Some(s) ==> valid_utf8(bytes@) && s@ == decode_utf8(bytes@),
        r is None ==> !valid_utf8(bytes@),
{
    match std::str::from_utf8(bytes.as_slice()) {
        Ok(s) => Some(s.to_string()),
        Err(_) => None,
    }
}


// ---------------------------------------------------------------------
// Copies of code
// ---------------------------------------------------------------------

pub fn clone_vexpr(e: &ValueExpr) -> (r: ValueExpr)
    ensures
        r == *e,
    decreases e,
{
    match e {
        ValueExpr::VReg(x) => ValueExpr::VReg(x.clone()),
        ValueExpr::Imm(n) => ValueExpr::Imm(*n),
        ValueExpr::CodeLabel(l) => ValueExpr::CodeLabel(l.clone()),
        ValueExpr::Ref(p) => ValueExpr::Ref(clone_pexpr(p)),
    }
}

pub fn clone_pexpr(p: &PlaceExpr) -> (r: PlaceExpr)
    ensures
        r == *p,
    decreases p,
{
    match p {
        PlaceExpr::Label(l) => PlaceExpr::Label(l.clone()),
        PlaceExpr::Deref(x) => PlaceExpr::Deref(x.clone()),
        PlaceExpr::SAcc(ix) => PlaceExpr::SAcc(Box::new(clone_vexpr(ix))),
        PlaceExpr::HAcc { handle, index } => PlaceExpr::HAcc {
            handle: Box::new(clone_vexpr(handle)),
            index: Box::new(clone_vexpr(index)),
        },
    }
}

pub fn clone_cond(c: &Cond) -> (r: Cond)
    ensures
        r == *c,
{
    match c {
        Cond::Lt(a, b) => Cond::Lt(clone_vexpr(a), clone_vexpr(b)),
        Cond::Eq(a, b) => Cond::Eq(clone_vexpr(a), clone_vexpr(b)),
        Cond::Gt(a, b) => Cond::Gt(clone_vexpr(a), clone_vexpr(b)),
    }
}

pub fn clone_stmt(st: &Stmt) -> (r: Stmt)
    ensures
        r == *st,
{
    match st {
        Stmt::Nop => Stmt::Nop,
        Stmt::Load { dst, place } => Stmt::Load { dst: dst.clone(), place: clone_pexpr(place) },
        Stmt::Assign { dst, src } => Stmt::Assign { dst: dst.clone(), src: clone_vexpr(src) },
        Stmt::BinOp { dst, lhs, op, rhs } => Stmt::BinOp {
            dst: dst.clone(),
            lhs: clone_vexpr(lhs),
            op: *op,
            rhs: clone_vexpr(rhs),
        },
        Stmt::Store { place, src } => Stmt::Store { place: clone_pexpr(place), src: clone_vexpr(src) },
        Stmt::Pop { dst } => Stmt::Pop { dst: dst.clone() },
        Stmt::Push { src } => Stmt::Push { src: clone_vexpr(src) },
        Stmt::LGet { dst } => Stmt::LGet { dst: dst.clone() },
        Stmt::HAlloc { size, dst } => Stmt::HAlloc { size: clone_vexpr(size), dst: dst.clone() },
        Stmt::HFree { handle } => Stmt::HFree { handle: clone_vexpr(handle) },
        Stmt::Print { src } => Stmt::Print { src: src.clone() },
        Stmt::Input { place } => Stmt::Input { place: clone_pexpr(place) },
    }
}

// ---------------------------------------------------------------------
// Steps
// ---------------------------------------------------------------------

pub open spec fn set_vreg(s: FlowState, r: Seq<char>, v: FV) -> FlowState {
    FlowState { vregs: s.vregs.insert(r, v), ..s }
}

/// What the register and stack statements do, in terms of the values they
/// read: `dst := a + b` puts the sum of two numbers in `dst` (failing past
/// `usize::MAX`) and `dst := a - b` their difference floored at zero, the
/// other registers and all memory unchanged; `dst := v` copies a value;
/// `push v` puts the value on top of the stack; `pop dst` takes the top
/// value into `dst` (failing on an empty stack); `lget dst` reads the
/// height of the stack. None of them prints anything.
pub proof fn law_flow_statements(n: NamesV, s: FlowState, dst: String, a: ValueExpr, b: ValueExpr, input: Seq<char>)
    ensures
        eval_value(n, s, a) matches Ok(FV::Num(x)) ==> (eval_value(n, s, b) matches Ok(FV::Num(y)) ==> {
            &&& x + y <= usize::MAX ==> (exec_stmt(n, s, Stmt::BinOp { dst, lhs: a, op: BinOp::Add, rhs: b }, input)
                matches Ok((s2, out)) && out.len() == 0 && get_vreg(s2, dst@) == FV::Num(x + y) && s2.stack
                == s.stack && s2.heap == s.heap && s2.statics == s.statics && forall|r: Seq<char>|
                r != dst@ ==> #[trigger] get_vreg(s2, r) == get_vreg(s, r))
            &&& x + y > usize::MAX ==> exec_stmt(n, s, Stmt::BinOp { dst, lhs: a, op: BinOp::Add, rhs: b }, input)
                is Err
            &&& exec_stmt(n, s, Stmt::BinOp { dst, lhs: a, op: BinOp::Sub, rhs: b }, input) matches Ok((s2, out))
                && out.len() == 0 && (get_vreg(s2, dst@) matches FV::Num(z) && (x >= y ==> z + y == x) && (x
                < y ==> z == 0)) && s2.stack == s.stack && s2.heap == s.heap && s2.statics == s.statics
                && forall|r: Seq<char>| r != dst@ ==> #[trigger] get_vreg(s2, r) == get_vreg(s, r)
        }),
        eval_value(n, s, a) matches Ok(v) ==> {
            &&& exec_stmt(n, s, Stmt::Assign { dst, src: a }, input) matches Ok((s2, out)) && out.len() == 0
                && get_vreg(s2, dst@) == v && s2.stack == s.stack && forall|r: Seq<char>| r != dst@
                ==> #[trigger] get_vreg(s2, r) == get_vreg(s, r)
            &&& exec_stmt(n, s, Stmt::Push { src: a }, input) matches Ok((s2, out)) && out.len() == 0
                && s2.stack == s.stack.push(v) && s2.vregs == s.vregs && s2.heap == s.heap
        },
        s.stack.len() > 0 ==> (exec_stmt(n, s, Stmt::Pop { dst }, input) matches Ok((s2, out)) && out.len()
            == 0 && get_vreg(s2, dst@) == s.stack[s.stack.len() - 1] && s2.stack == s.stack.subrange(
            0,
            s.stack.len() - 1,
        )),
        s.stack.len() == 0 ==> exec_stmt(n, s, Stmt::Pop { dst }, input) is Err,
        exec_stmt(n, s, Stmt::LGet { dst }, input) matches Ok((s2, _)) && get_vreg(s2, dst@) == FV::Num(
            s.stack.len(),
        ) && s2.stack == s.stack,
{
}

/// The state and output after a statement.
pub open spec fn exec_stmt(n: NamesV, s: FlowState, st: Stmt, input: Seq<char>) -> Result<(FlowState, Seq<char>), Seq<char>> {
    match st {
        Stmt::Nop => Ok((s, seq![])),
        Stmt::Load { dst, place } => match eval_place(n, s, place) {
            Err(m) => Err(m),
            Ok(k) => match read_place(s, k) {
                Err(m) => Err(m),
                Ok(v) => Ok((set_vreg(s, dst@, v), seq![])),
            },
        },
        Stmt::Assign { dst, src } => match eval_value(n, s, src) {
            Err(m) => Err(m),
            Ok(v) => Ok((set_vreg(s, dst@, v), seq![])),
        },
        Stmt::BinOp { dst, lhs, op, rhs } => match eval_value(n, s, lhs) {
            Err(m) => Err(m),
            Ok(l) => match eval_value(n, s, rhs) {
                Err(m) => Err(m),
                Ok(r) => match as_number(l) {
                    Err(m) => Err(m),
                    Ok(x) => match as_number(r) {
                        Err(m) => Err(m),
                        Ok(y) => match op {
                            BinOp::Add => if x + y > usize::MAX {
                                Err("number too large"@)
                            } else {
                                Ok((set_vreg(s, dst@, FV::Num(x + y)), seq![]))
                            },
                            BinOp::Sub => Ok(
                                (
                                    set_vreg(
                                        s,
                                        dst@,
                                        FV::Num(
                                            if x >= y {
                                                (x - y) as nat
                                            } else {
                                                0
                                            },
                                        ),
                                    ),
                                    seq![],
                                ),
                            ),
                        },
                    },
                },
            },
        },
        Stmt::Store { place, src } => match eval_place(n, s, place) {
            Err(m) => Err(m),
            Ok(k) => match eval_value(n, s, src) {
                Err(m) => Err(m),
                Ok(v) => match write_place(s, k, v) {
                    Err(m) => Err(m),
                    Ok(s2) => Ok((s2, seq![])),
                },
            },
        },
        Stmt::Pop { dst } => if s.stack.len() == 0 {
            Err("pop on empty stack"@)
        } else {
            Ok((set_vreg(FlowState { stack: s.stack.drop_last(), ..s }, dst@, s.stack.last()), seq![]))
        },
        Stmt::Push { src } => match eval_value(n, s, src) {
            Err(m) => Err(m),
            Ok(v) => Ok((FlowState { stack: s.stack.push(v), ..s }, seq![])),
        },
        Stmt::LGet { dst } => Ok((set_vreg(s, dst@, FV::Num(s.stack.len())), seq![])),
        Stmt::HAlloc { size, dst } => match eval_value(n, s, size) {
            Err(m) => Err(m),
            Ok(v) => match as_number(v) {
                Err(m) => Err(m),
                Ok(sz) => {
                    let h = s.next_handle;
                    let s2 = FlowState {
                        heap: s.heap.insert(h, Seq::new(sz, |i: int| FV::Num(0))),
                        next_handle: h + 1,
                        ..s
                    };
                    Ok((set_vreg(s2, dst@, FV::Num(h)), seq![]))
                },
            },
        },
        Stmt::HFree { handle } => match eval_value(n, s, handle) {
            Err(m) => Err(m),
            Ok(v) => match as_number(v) {
                Err(m) => Err(m),
                Ok(h) => if !s.heap.contains_key(h) {
                    Err("hfree unknown handle: "@ + decimal(h))
                } else {
                    Ok((FlowState { heap: s.heap.remove(h), ..s }, seq![]))
                },
            },
        },
        Stmt::Print { src } => match as_number(get_vreg(s, src@)) {
            Err(m) => Err(m),
            Ok(x) => {
                let b = bytes_be(x);
                if valid_utf8(b) {
                    Ok((s, decode_utf8(b)))
                } else {
                    Err("print byte is not valid single-byte UTF-8: "@ + bytes_debug(b))
                }
            },
        },
        Stmt::Input { place } => match eval_place(n, s, place) {
            Err(m) => Err(m),
            Ok(k) => {
                let b = vstd::utf8::encode_utf8(input);
                let v = from_bytes(b, b.len());
                if v > usize::MAX {
                    Err("number too large"@)
                } else {
                    match write_place(s, k, FV::Num(v)) {
                        Err(m) => Err(m),
                        Ok(s2) => Ok((s2, seq![])),
                    }
                }
            },
        },
    }
}

pub open spec fn cont_ifs(c: Cont) -> Seq<JumpIf> {
    match c {
        Cont::Go { ifs, .. } => ifs@,
        Cont::Enter { ifs, .. } => ifs@,
        Cont::Halt { ifs } => ifs@,
    }
}

/// What a step of the machine gives.
pub enum FlowOutcome {
    Continue(FlowState, Seq<char>),
    Halt(Map<Seq<char>, FV>),
}

pub open spec fn with_line(s: FlowState, line: nat) -> FlowState {
    FlowState { line, ..s }
}

/// A halted machine halts again, whatever the input, and gives its static
/// data.
pub proof fn law_halted_step(code: Program, n: NamesV, s: FlowState, input: Seq<char>)
    requires
        s.halted,
    ensures
        flow_step(code, n, s, input) == Ok::<FlowOutcome, Seq<char>>(FlowOutcome::Halt(s.statics)),
{
}

/// The state after two steps that both go on, if they do.
pub open spec fn two_steps(code: Program, n: NamesV, s: FlowState, in1: Seq<char>, in2: Seq<char>) -> Option<FlowState> {
    match flow_step(code, n, s, in1) {
        Ok(FlowOutcome::Continue(s2, _)) => match flow_step(code, n, s2, in2) {
            Ok(FlowOutcome::Continue(s3, _)) => Some(s3),
            _ => None,
        },
        _ => None,
    }
}

/// The statement at a line of the current block, if there is one.
pub open spec fn stmt_at(code: Program, s: FlowState, line: int) -> Option<Stmt> {
    if s.region < code.regions@.len() && s.block < code.regions@[s.region as int].blocks@.len() && 0 <= line
        < code.regions@[s.region as int].blocks@[s.block as int].stmts@.len() {
        Some(code.regions@[s.region as int].blocks@[s.block as int].stmts@[line])
    } else {
        None
    }
}

/// A value pushed by one step and popped by the next lands in the popping
/// register, the stack, heap and static data left as they were.
pub proof fn law_push_then_pop(code: Program, n: NamesV, s: FlowState, src: ValueExpr, dst: String, v: FV, in1: Seq<char>, in2: Seq<char>)
    requires
        !s.halted,
        stmt_at(code, s, s.line as int) == Some(Stmt::Push { src }),
        stmt_at(code, s, s.line + 1int) == Some(Stmt::Pop { dst }),
        eval_value(n, with_line(s, s.line + 1), src) == Ok::<FV, Seq<char>>(v),
    ensures
        (two_steps(code, n, s, in1, in2) matches Some(s3) && s3.stack == s.stack && get_vreg(s3, dst@) == v
            && s3.heap == s.heap && s3.statics == s.statics && s3.line == s.line + 2),
{
    let s1 = with_line(s, s.line + 1);
    let s2 = FlowState { stack: s1.stack.push(v), ..s1 };
    assert(flow_step(code, n, s, in1) == Ok::<FlowOutcome, Seq<char>>(FlowOutcome::Continue(s2, seq![])));
    let s2b = with_line(s2, s2.line + 1);
    assert(s2b.stack.last() == v);
    assert(s2b.stack.drop_last() =~= s.stack);
}

/// A step: a halted machine halts again; else the current block runs its
/// next statement, its next conditional jump, or its ending.
pub open spec fn flow_step(code: Program, n: NamesV, s: FlowState, input: Seq<char>) -> Result<FlowOutcome, Seq<char>> {
    if s.halted {
        Ok(FlowOutcome::Halt(s.statics))
    } else if !(s.region < code.regions@.len() && s.block < code.regions@[s.region as int].blocks@.len()) {
        Err("Current block out of range: region="@ + decimal(s.region) + " block="@ + decimal(s.block))
    } else {
        let blk = code.regions@[s.region as int].blocks@[s.block as int];
        let sl = blk.stmts@.len();
        let ifs = cont_ifs(blk.cont);
        let s1 = with_line(s, s.line + 1);
        if s.line < sl {
            match exec_stmt(n, s1, blk.stmts@[s.line as int], input) {
                Err(m) => Err(m),
                Ok((s2, out)) => Ok(FlowOutcome::Continue(s2, out)),
            }
        } else if s.line < sl + ifs.len() {
            let j = ifs[s.line - sl];
            match eval_cond(n, s1, j.cond) {
                Err(m) => Err(m),
                Ok(false) => Ok(FlowOutcome::Continue(s1, seq![])),
                Ok(true) => match jump_goto(n, s1, j.target) {
                    Err(m) => Err(m),
                    Ok(s2) => Ok(FlowOutcome::Continue(s2, seq![])),
                },
            }
        } else if s.line == sl + ifs.len() {
            match blk.cont {
                Cont::Go { target, .. } => match jump_goto(n, s1, target) {
                    Err(m) => Err(m),
                    Ok(s2) => Ok(FlowOutcome::Continue(s2, seq![])),
                },
                Cont::Enter { target, .. } => match jump_enter(n, s1, target) {
                    Err(m) => Err(m),
                    Ok(s2) => Ok(FlowOutcome::Continue(s2, seq![])),
                },
                Cont::Halt { .. } => Ok(FlowOutcome::Halt(s1.statics)),
            }
        } else {
            Err(
                "Current line out of range in region="@ + decimal(s.region) + " block="@ + decimal(
                    s.block,
                ) + ": "@ + decimal(s.line),
            )
        }
    }
}


fn cont_ifs_ref(c: &Cont) -> (r: &Vec<JumpIf>)
    ensures
        r@ == cont_ifs(*c),
{
    match c {
        Cont::Go { ifs, .. } => ifs,
        Cont::Enter { ifs, .. } => ifs,
        Cont::Halt { ifs } => ifs,
    }
}

/// The static data that the first `n` static definitions give.
pub open spec fn static_init(s: Seq<crate::flow_ir::StaticDef>, n: nat) -> Map<Seq<char>, FV>
    decreases n,
{
    if n == 0 || n > s.len() {
        Map::empty()
    } else {
        static_init(s, (n - 1) as nat).insert(s[n - 1].label@, FV::Num(s[n - 1].value.value()))
    }
}

/// The state of a new machine: at the start of the entry region, with the
/// static data, empty registers, stack and heap, and handle 1 next.
pub open spec fn initial_state(n: NamesV, statics: Map<Seq<char>, FV>) -> FlowState {
    FlowState {
        region: n.entry_region as nat,
        block: 0,
        line: 0,
        vregs: Map::empty(),
        statics,
        stack: Seq::empty(),
        heap: Map::empty(),
        next_handle: 1,
        halted: false,
    }
}

/// What a step of the machine gives: the next machine and its output, or
/// the static data where it halts.
pub enum FlowStep {
    Continue { next: FlowIrMachine, output: String },
    Halt { output: StaticEnv },
}

impl FlowIrMachine {
    /// A machine for `code`, whose static data is that of the program with
    /// the values of `ainput` in place of the defaults.
    pub fn make(code: crate::flow_ir::FlowIrCode, ainput: StaticEnv) -> (r: Result<FlowIrMachine, String>)
        ensures
            match names_spec(code.0) {
                Err(m) => r matches Err(e) && e@ == m,
                Ok(n) => {
                    let st = static_init(code.0.statics@, code.0.statics@.len());
                    let ain = table_fv(ainput.entries);
                    if ain.dom().subset_of(st.dom()) {
                        r matches Ok(m) && m.code == code && names_view(m.names) == n && machine_state(m)
                            == initial_state(n, st.union_prefer_right(ain))
                    } else {
                        r matches Err(e) && exists|k: Seq<char>|
                            ain.contains_key(k) && !st.contains_key(k) && e@ == "Unknown static input label: @"@ + k
                                && forall|k2: Seq<char>| #![trigger ain.contains_key(k2)]
                                ain.contains_key(k2) && !st.contains_key(k2) ==> k2 == k || lex_lt(k, k2)
                    }
                },
            },
    {
        let names = compile_name_mapping(&code.0)?;
        let ghost nv = names_view(names);
        let ghost defs = code.0.statics@;
        let mut static_mem: Table<FlowValue> = Table::new();
        let mut i: usize = 0;
        while i < code.0.statics.len()
            invariant
                0 <= i <= defs.len(),
                defs == code.0.statics@,
                names_spec(code.0) == Ok::<NamesV, Seq<char>>(nv),
                names_view(names) == nv,
                table_fv(static_mem) == static_init(defs, i as nat),
            decreases defs.len() - i,
        {
            let d = &code.0.statics[i];
            let ghost before = table_fv(static_mem);
            static_mem.insert(d.label.clone(), FlowValue::Num(d.value));
            proof {
                assert(table_fv(static_mem) =~= before.insert(defs[i as int].label@, FV::Num(defs[i as int].value.value())));
            }
            i += 1;
        }
        let ghost st = static_init(defs, defs.len());
        let entries = ainput.entries.entries();
        let ghost e = entries@;
        let ghost ain = table_fv(ainput.entries);
        proof {
            assert forall|k: Seq<char>| #[trigger] ain.contains_key(k) implies exists|j: int| 0 <= j < e.len() && e[j].0@ == k && ain[k] == fv(e[j].1) by {
                let j = key_index(e, k)->0;
                lemma_get_at(e, j);
            }
        }
        let mut j: usize = 0;
        while j < entries.len()
            invariant
                0 <= j <= e.len(),
                e == entries@,
                e == ainput.entries.entries_view(),
                ain == table_fv(ainput.entries),
                st == static_init(code.0.statics@, code.0.statics@.len()),
                names_spec(code.0) == Ok::<NamesV, Seq<char>>(nv),
                names_view(names) == nv,
                sorted_names(e),
                forall|k: Seq<char>| #[trigger] ain.contains_key(k) ==> exists|q: int| 0 <= q < e.len() && e[q].0@ == k,
                forall|k: Seq<char>| #[trigger] table_fv(static_mem).contains_key(k) == st.contains_key(k),
                forall|q: int| 0 <= q < j ==> st.contains_key(#[trigger] e[q].0@) && table_fv(static_mem)[e[q].0@] == fv(e[q].1),
                forall|k: Seq<char>| st.contains_key(k) && (forall|q: int| 0 <= q < j ==> #[trigger] e[q].0@ != k) ==> #[trigger] table_fv(static_mem)[k] == st[k],
            decreases e.len() - j,
        {
            let key = &entries[j].0;
            if static_mem.get_ref(key.as_str()).is_none() {
                proof {
                    lemma_get_at(e, j as int);
                    let kk = e[j as int].0@;
                    assert(!static_mem.as_map().contains_key(kk));
                    assert(!table_fv(static_mem).contains_key(kk));
                    assert(ainput.entries.as_map().contains_key(kk));
                    assert(ain.contains_key(kk) && !st.contains_key(kk));
                    assert(!ain.dom().subset_of(st.dom()));
                    assert forall|k2: Seq<char>| #![trigger ain.contains_key(k2)]
                        ain.contains_key(k2) && !st.contains_key(k2) implies k2 == kk || lex_lt(kk, k2) by {
                        let q = choose|q: int| 0 <= q < e.len() && e[q].0@ == k2;
                        if q < j {
                            assert(st.contains_key(e[q].0@));
                        } else if q > j {
                            assert(lex_lt(e[j as int].0@, e[q].0@));
                        }
                    }
                }
                return Err(message("Unknown static input label: @", &chars_of(key.as_str())));
            }
            let ghost before = table_fv(static_mem);
            proof {
                assert(static_mem.as_map().contains_key(e[j as int].0@));
                assert(before.contains_key(e[j as int].0@));
            }
            static_mem.insert(key.clone(), clone_value(&entries[j].1));
            proof {
                assert(table_fv(static_mem) =~= before.insert(e[j as int].0@, fv(e[j as int].1)));
                assert forall|q: int| 0 <= q < j + 1 implies st.contains_key(#[trigger] e[q].0@) && table_fv(static_mem)[e[q].0@] == fv(e[q].1) by {
                    if q < j {
                        if e[q].0@ == e[j as int].0@ {
                            lemma_sorted_unique(e, q, j as int);
                        }
                    }
                }
            }
            j += 1;
        }
        proof {
            assert forall|k: Seq<char>| #[trigger] ain.contains_key(k) implies st.contains_key(k) by {
                let q = choose|q: int| 0 <= q < e.len() && e[q].0@ == k && ain[k] == fv(e[q].1);
                assert(st.contains_key(e[q].0@));
            }
            assert(ain.dom().subset_of(st.dom()));
            assert forall|k: Seq<char>| #[trigger] table_fv(static_mem).contains_key(k) implies table_fv(static_mem)[k] == st.union_prefer_right(ain)[k] by {
                if ain.contains_key(k) {
                    let q = choose|q: int| 0 <= q < e.len() && e[q].0@ == k && ain[k] == fv(e[q].1);
                    assert(table_fv(static_mem)[e[q].0@] == fv(e[q].1));
                } else {
                    assert forall|q: int| 0 <= q < e.len() implies #[trigger] e[q].0@ != k by {
                        if e[q].0@ == k {
                            lemma_get_at(e, q);
                        }
                    }
                }
            }
            assert(table_fv(static_mem) =~= st.union_prefer_right(ain));
        }
        let m = FlowIrMachine {
            code,
            current_region: names.entry_region,
            names,
            current_block: 0,
            current_line: 0,
            vregs: Table::new(),
            static_mem,
            stack: Vec::new(),
            heap: Heap::new(),
            next_handle: 1,
            halted: false,
        };
        proof {
            assert(table_fv(m.vregs) =~= Map::empty());
            assert(fvs(m.stack@) =~= Seq::empty());
            assert(machine_state(m) =~= initial_state(nv, st.union_prefer_right(ain)));
        }
        Ok(m)
    }

    fn set_vreg(&mut self, r: String, v: FlowValue)
        ensures
            machine_state(*final(self)) == set_vreg(machine_state(*old(self)), r@, fv(v)),
            final(self).code == old(self).code,
            final(self).names == old(self).names,
    {
        let ghost s0 = machine_state(*self);
        let ghost rv = r@;
        let ghost vv = fv(v);
        self.vregs.insert(r, v);
        proof {
            assert(table_fv(self.vregs) =~= s0.vregs.insert(rv, vv));
            assert(machine_state(*self) =~= set_vreg(s0, rv, vv));
        }
    }

    fn exec_stmt(&mut self, st: Stmt, rinput: &String) -> (r: Result<String, String>)
        requires
            old(self).next_handle < usize::MAX,
        ensures
            match exec_stmt(names_view(old(self).names), machine_state(*old(self)), st, rinput@) {
                Ok((s2, out)) => r matches Ok(o) && o@ == out && machine_state(*final(self)) == s2,
                Err(m) => r matches Err(e) && e@ == m,
            },
            final(self).code == old(self).code,
            final(self).names == old(self).names,
    {
        let ghost s0 = machine_state(*self);
        match st {
            Stmt::Nop => Ok(String::new()),
            Stmt::Load { dst, place } => {
                let key = self.eval_place_key(&place)?;
                let v = self.read_place(&key)?;
                self.set_vreg(dst, v);
                Ok(String::new())
            },
            Stmt::Assign { dst, src } => {
                let v = self.eval_value(&src)?;
                self.set_vreg(dst, v);
                Ok(String::new())
            },
            Stmt::BinOp { dst, lhs, op, rhs } => {
                let l = self.eval_value(&lhs)?;
                let r = self.eval_value(&rhs)?;
                let x = FlowIrMachine::as_number(&l)?;
                let y = FlowIrMachine::as_number(&r)?;
                let value = match op {
                    BinOp::Add => match x.checked_add(y) {
                        Some(z) => z,
                        None => {
                            return Err(String::from_str("number too large"));
                        },
                    },
                    BinOp::Sub => if x >= y {
                        x - y
                    } else {
                        0
                    },
                };
                self.set_vreg(dst, FlowValue::Num(Number(value)));
                Ok(String::new())
            },
            Stmt::Store { place, src } => {
                let key = self.eval_place_key(&place)?;
                let v = self.eval_value(&src)?;
                self.write_place(&key, v)?;
                Ok(String::new())
            },
            Stmt::Pop { dst } => {
                match self.stack.pop() {
                    Some(v) => {
                        proof {
                            assert(fvs(self.stack@) =~= s0.stack.drop_last());
                            assert(machine_state(*self) =~= FlowState { stack: s0.stack.drop_last(), ..s0 });
                        }
                        self.set_vreg(dst, v);
                        Ok(String::new())
                    },
                    None => Err(String::from_str("pop on empty stack")),
                }
            },
            Stmt::Push { src } => {
                let v = self.eval_value(&src)?;
                let ghost vv = fv(v);
                self.stack.push(v);
                proof {
                    assert(fvs(self.stack@) =~= s0.stack.push(vv));
                    assert(machine_state(*self) =~= FlowState { stack: s0.stack.push(vv), ..s0 });
                }
                Ok(String::new())
            },
            Stmt::LGet { dst } => {
                let n = self.stack.len();
                self.set_vreg(dst, FlowValue::Num(Number(n)));
                Ok(String::new())
            },
            Stmt::HAlloc { size, dst } => {
                let v = self.eval_value(&size)?;
                let sz = FlowIrMachine::as_number(&v)?;
                let h = self.next_handle;
                self.next_handle = h + 1;
                let mut area: Vec<FlowValue> = Vec::new();
                let mut i: usize = 0;
                while i < sz
                    invariant
                        0 <= i <= sz,
                        area@.len() == i,
                        forall|k: int| 0 <= k < i ==> area@[k] == FlowValue::Num(Number(0)),
                    decreases sz - i,
                {
                    area.push(FlowValue::Num(Number(0)));
                    i += 1;
                }
                assert(fvs(area@) =~= Seq::new(sz as nat, |k: int| FV::Num(0)));
                self.heap.insert(h, area);
                proof {
                    assert(machine_state(*self) =~= FlowState {
                        heap: s0.heap.insert(h as nat, Seq::new(sz as nat, |k: int| FV::Num(0))),
                        next_handle: (h + 1) as nat,
                        ..s0
                    });
                }
                self.set_vreg(dst, FlowValue::Num(Number(h)));
                Ok(String::new())
            },
            Stmt::HFree { handle } => {
                let v = self.eval_value(&handle)?;
                let h = FlowIrMachine::as_number(&v)?;
                if !self.heap.remove(h) {
                    return Err(message("hfree unknown handle: ", &decimal_chars(h)));
                }
                proof {
                    assert(machine_state(*self) =~= FlowState { heap: s0.heap.remove(h as nat), ..s0 });
                }
                Ok(String::new())
            },
            Stmt::Print { src } => {
                let v = self.get_vreg(&src);
                let x = FlowIrMachine::as_number(&v)?;
                let b = bytes_be_exec(x);
                match utf8_text(&b) {
                    Some(t) => Ok(t),
                    None => Err(message("print byte is not valid single-byte UTF-8: ", &bytes_debug_exec(&b))),
                }
            },
            Stmt::Input { place } => {
                let key = self.eval_place_key(&place)?;
                let bytes = rinput.as_str().as_bytes();
                let mut b: Vec<u8> = Vec::new();
                let mut i: usize = 0;
                while i < bytes.len()
                    invariant
                        0 <= i <= bytes@.len(),
                        b@ == bytes@.take(i as int),
                    decreases bytes@.len() - i,
                {
                    b.push(bytes[i]);
                    assert(b@ =~= bytes@.take(i + 1));
                    i += 1;
                }
                assert(b@ =~= bytes@);
                match from_bytes_exec(&b) {
                    None => Err(String::from_str("number too large")),
                    Some(v) => {
                        self.write_place(&key, FlowValue::Num(Number(v)))?;
                        Ok(String::new())
                    },
                }
            },
        }
    }

    /// One step of the machine on the input `rinput` (read by an `input`
    /// statement).
    pub fn step(self, rinput: String) -> (r: Result<FlowStep, String>)
        requires
            !self.halted ==> self.next_handle < usize::MAX,
            !self.halted ==> self.current_line < usize::MAX,
        ensures
            match flow_step(self.code.0, names_view(self.names), machine_state(self), rinput@) {
                Err(m) => r matches Err(e) && e@ == m,
                Ok(FlowOutcome::Continue(s2, out)) => r matches Ok(FlowStep::Continue { next, output })
                    && machine_state(next) == s2 && output@ == out && next.code == self.code
                    && next.names == self.names,
                Ok(FlowOutcome::Halt(env)) => r matches Ok(FlowStep::Halt { output }) && table_fv(
                    output.entries,
                ) == env,
            },
    {
        if self.halted {
            return Ok(FlowStep::Halt { output: StaticEnv { entries: self.static_mem } });
        }
        let ghost s0 = machine_state(self);
        let ghost nv = names_view(self.names);
        let mut next = self;
        let reg = next.current_region;
        let blk = next.current_block;
        if !(reg < next.code.0.regions.len() && blk < next.code.0.regions[reg].blocks.len()) {
            let mut t = chars_of("Current block out of range: region=");
            push_all(&mut t, &decimal_chars(reg));
            push_str(&mut t, " block=");
            push_all(&mut t, &decimal_chars(blk));
            return Err(string_of(&t));
        }
        let stmt_len = next.code.0.regions[reg].blocks[blk].stmts.len();
        let if_len = cont_ifs_ref(&next.code.0.regions[reg].blocks[blk].cont).len();
        let line = next.current_line;
        if line < stmt_len {
            let st = clone_stmt(&next.code.0.regions[reg].blocks[blk].stmts[line]);
            next.current_line = line + 1;
            proof {
                assert(machine_state(next) =~= with_line(s0, s0.line + 1));
            }
            let out = next.exec_stmt(st, &rinput)?;
            return Ok(FlowStep::Continue { next, output: out });
        }
        if line - stmt_len < if_len {
            let (cond, target) = {
                let ifs = cont_ifs_ref(&next.code.0.regions[reg].blocks[blk].cont);
                (clone_cond(&ifs[line - stmt_len].cond), clone_vexpr(&ifs[line - stmt_len].target))
            };
            next.current_line = line + 1;
            proof {
                assert(machine_state(next) =~= with_line(s0, s0.line + 1));
            }
            if next.eval_cond(&cond)? {
                next.jump_goto(&target)?;
            }
            return Ok(FlowStep::Continue { next, output: String::new() });
        }
        if line - stmt_len == if_len {
            let (kind, target) = match &next.code.0.regions[reg].blocks[blk].cont {
                Cont::Go { target, .. } => (0u8, Some(clone_vexpr(target))),
                Cont::Enter { target, .. } => (1u8, Some(clone_vexpr(target))),
                Cont::Halt { .. } => (2u8, None),
            };
            next.current_line = line + 1;
            proof {
                assert(machine_state(next) =~= with_line(s0, s0.line + 1));
            }
            match target {
                Some(t) => {
                    if kind == 0 {
                        next.jump_goto(&t)?;
                    } else {
                        next.jump_enter(&t)?;
                    }
                    return Ok(FlowStep::Continue { next, output: String::new() });
                },
                None => {
                    next.halted = true;
                    return Ok(FlowStep::Halt { output: StaticEnv { entries: next.static_mem } });
                },
            }
        }
        let mut t = chars_of("Current line out of range in region=");
        push_all(&mut t, &decimal_chars(reg));
        push_str(&mut t, " block=");
        push_all(&mut t, &decimal_chars(blk));
        push_str(&mut t, ": ");
        push_all(&mut t, &decimal_chars(line));
        Err(string_of(&t))
    }
}

} // verus!

//! The redexes of a term listed one by one, each as the term with exactly
//! that redex marked, and the reduction of a marked redex.
use vstd::prelude::*;

use crate::coroutine::push_str;
use crate::lambda_beta::{beta, beta_free, beta_reduce};
use crate::lambda_term::{copy_term, display_text, free_ids, normal, write_display, LambdaTerm, Var};
use crate::text::string_of;

verus! {

/// A redex `(\var. body) arg`.
#[derive(Debug, PartialEq)]
pub struct Redux {
    pub var: Var,
    pub body: LambdaTerm,
    pub arg: LambdaTerm,
}

/// A term with exactly one of its redexes marked.
#[derive(Debug, PartialEq)]
pub enum MarkedTerm {
    Redux(Redux),
    Abstraction(Var, Box<MarkedTerm>),
    ApplicationL(Box<MarkedTerm>, Box<LambdaTerm>),
    ApplicationR(Box<LambdaTerm>, Box<MarkedTerm>),
}

/// The term that a redex is.
pub open spec fn redux_term(r: Redux) -> LambdaTerm {
    LambdaTerm::App(Box::new(LambdaTerm::Abs(r.var, Box::new(r.body))), Box::new(r.arg))
}

/// The term with the marked redex reduced: its body with the argument put
/// for the free occurrences of its variable, without capture.
pub open spec fn eval_marked(m: MarkedTerm) -> LambdaTerm
    decreases m,
{
    match m {
        MarkedTerm::Redux(r) => beta(r.body, r.var.id, r.arg),
        MarkedTerm::Abstraction(v, b) => LambdaTerm::Abs(v, Box::new(eval_marked(*b))),
        MarkedTerm::ApplicationL(f, a) => LambdaTerm::App(Box::new(eval_marked(*f)), a),
        MarkedTerm::ApplicationR(f, a) => LambdaTerm::App(f, Box::new(eval_marked(*a))),
    }
}

/// The term that a marked term stands for, the redex not reduced.
pub open spec fn plain(m: MarkedTerm) -> LambdaTerm
    decreases m,
{
    match m {
        MarkedTerm::Redux(r) => redux_term(r),
        MarkedTerm::Abstraction(v, b) => LambdaTerm::Abs(v, Box::new(plain(*b))),
        MarkedTerm::ApplicationL(f, a) => LambdaTerm::App(Box::new(plain(*f)), a),
        MarkedTerm::ApplicationR(f, a) => LambdaTerm::App(f, Box::new(plain(*a))),
    }
}

/// The conversion of a marked term to a term: a marked redex at the top
/// stays as it is, one further in is reduced.
pub open spec fn marked_to_term(m: MarkedTerm) -> LambdaTerm {
    match m {
        MarkedTerm::Redux(r) => redux_term(r),
        MarkedTerm::Abstraction(v, b) => LambdaTerm::Abs(v, Box::new(eval_marked(*b))),
        MarkedTerm::ApplicationL(f, a) => LambdaTerm::App(Box::new(eval_marked(*f)), a),
        MarkedTerm::ApplicationR(f, a) => LambdaTerm::App(f, Box::new(eval_marked(*a))),
    }
}

/// The redex at the top of the term, if it is one.
pub open spec fn top_redux(t: LambdaTerm) -> Option<Redux> {
    match t {
        LambdaTerm::App(f, a) => match *f {
            LambdaTerm::Abs(v, b) => Some(Redux { var: v, body: *b, arg: *a }),
            _ => None,
        },
        _ => None,
    }
}

/// The redexes of the term, each as the term with it marked: the term
/// itself when it is a redex, then those of an abstraction's body, or
/// those of an application's argument and then those of its function.
pub open spec fn marked_list(t: LambdaTerm) -> Seq<MarkedTerm>
    decreases t,
{
    let head = match top_redux(t) {
        Some(r) => seq![MarkedTerm::Redux(r)],
        None => seq![],
    };
    match t {
        LambdaTerm::Var(_) => head,
        LambdaTerm::Abs(v, b) => head + marked_list(*b).map_values(|m: MarkedTerm| MarkedTerm::Abstraction(v, Box::new(m))),
        LambdaTerm::App(f, a) => head + marked_list(*a).map_values(|m: MarkedTerm| MarkedTerm::ApplicationR(f, Box::new(m)))
            + marked_list(*f).map_values(|m: MarkedTerm| MarkedTerm::ApplicationL(Box::new(m), a)),
    }
}

impl Redux {
    /// The body with the argument put for the free occurrences of the
    /// variable, the binders of the body that would catch a free variable of
    /// the argument renamed first.
    pub fn eval(self) -> (t: LambdaTerm)
        ensures
            t == beta(self.body, self.var.id, self.arg),
            free_ids(t) == beta_free(self.body, self.var.id, self.arg),
    {
        beta_reduce(self.body, &self.var, self.arg)
    }

    /// The redex at the top of the term, if it is one.
    pub fn from_term(term: &LambdaTerm) -> (r: Option<Redux>)
        ensures
            r == top_redux(*term),
    {
        if let LambdaTerm::App(f, a) = term {
            if let LambdaTerm::Abs(v, b) = &**f {
                return Some(Redux { var: v.dup(), body: copy_term(b), arg: copy_term(a) });
            }
        }
        None
    }

    pub fn dup(&self) -> (r: Redux)
        ensures
            r == *self,
    {
        Redux { var: self.var.dup(), body: copy_term(&self.body), arg: copy_term(&self.arg) }
    }
}

impl From<Redux> for LambdaTerm {
    fn from(redux: Redux) -> (t: LambdaTerm) {
        LambdaTerm::App(Box::new(LambdaTerm::Abs(redux.var, Box::new(redux.body))), Box::new(redux.arg))
    }
}

impl vstd::std_specs::convert::FromSpecImpl<Redux> for LambdaTerm {
    open spec fn obeys_from_spec() -> bool {
        true
    }

    open spec fn from_spec(redux: Redux) -> LambdaTerm {
        redux_term(redux)
    }
}

impl MarkedTerm {
    /// The term with the marked redex reduced.
    pub fn eval(self) -> (t: LambdaTerm)
        ensures
            t == eval_marked(self),
        decreases self,
    {
        match self {
            MarkedTerm::Redux(r) => r.eval(),
            MarkedTerm::Abstraction(v, b) => LambdaTerm::Abs(v, Box::new(b.eval())),
            MarkedTerm::ApplicationL(f, a) => LambdaTerm::App(Box::new(f.eval()), a),
            MarkedTerm::ApplicationR(f, a) => LambdaTerm::App(f, Box::new(a.eval())),
        }
    }

    pub fn dup(&self) -> (r: MarkedTerm)
        ensures
            r == *self,
        decreases self,
    {
        match self {
            MarkedTerm::Redux(r) => MarkedTerm::Redux(r.dup()),
            MarkedTerm::Abstraction(v, b) => MarkedTerm::Abstraction(v.dup(), Box::new(b.dup())),
            MarkedTerm::ApplicationL(f, a) => MarkedTerm::ApplicationL(Box::new(f.dup()), Box::new(copy_term(a))),
            MarkedTerm::ApplicationR(f, a) => MarkedTerm::ApplicationR(Box::new(copy_term(f)), Box::new(a.dup())),
        }
    }
}

impl From<MarkedTerm> for LambdaTerm {
    fn from(marked_term: MarkedTerm) -> (t: LambdaTerm) {
        match marked_term {
            MarkedTerm::Redux(redux) => LambdaTerm::from(redux),
            MarkedTerm::Abstraction(v, b) => LambdaTerm::Abs(v, Box::new(b.eval())),
            MarkedTerm::ApplicationL(f, a) => LambdaTerm::App(Box::new(f.eval()), a),
            MarkedTerm::ApplicationR(f, a) => LambdaTerm::App(f, Box::new(a.eval())),
        }
    }
}

impl vstd::std_specs::convert::FromSpecImpl<MarkedTerm> for LambdaTerm {
    open spec fn obeys_from_spec() -> bool {
        true
    }

    open spec fn from_spec(marked_term: MarkedTerm) -> LambdaTerm {
        marked_to_term(marked_term)
    }
}

/// Every redex of the term, each as the term with it marked.
pub fn listup_marked_term(term: &LambdaTerm) -> (v: Vec<MarkedTerm>)
    ensures
        v@ == marked_list(*term),
    decreases term,
{
    let mut v: Vec<MarkedTerm> = Vec::new();
    let head = Redux::from_term(term);
    match head {
        Some(r) => v.push(MarkedTerm::Redux(r)),
        None => {},
    }
    let ghost h = v@;
    match term {
        LambdaTerm::Var(_) => {},
        LambdaTerm::Abs(var, body) => {
            let inner = listup_marked_term(body);
            let mut i: usize = 0;
            while i < inner.len()
                invariant
                    i <= inner.len(),
                    inner@ == marked_list(**body),
                    v@ == h + inner@.take(i as int).map_values(|m: MarkedTerm| MarkedTerm::Abstraction(*var, Box::new(m))),
                decreases inner.len() - i,
            {
                v.push(MarkedTerm::Abstraction(var.dup(), Box::new(inner[i].dup())));
                assert(inner@.take(i + 1) =~= inner@.take(i as int).push(inner@[i as int]));
                assert(v@ =~= h + inner@.take(i + 1).map_values(|m: MarkedTerm| MarkedTerm::Abstraction(*var, Box::new(m))));
                i = i + 1;
            }
            assert(inner@.take(inner.len() as int) =~= inner@);
        },
        LambdaTerm::App(f, a) => {
            let right = listup_marked_term(a);
            let mut i: usize = 0;
            while i < right.len()
                invariant
                    i <= right.len(),
                    right@ == marked_list(**a),
                    v@ == h + right@.take(i as int).map_values(|m: MarkedTerm| MarkedTerm::ApplicationR(*f, Box::new(m))),
                decreases right.len() - i,
            {
                v.push(MarkedTerm::ApplicationR(Box::new(copy_term(f)), Box::new(right[i].dup())));
                assert(right@.take(i + 1) =~= right@.take(i as int).push(right@[i as int]));
                assert(v@ =~= h + right@.take(i + 1).map_values(|m: MarkedTerm| MarkedTerm::ApplicationR(*f, Box::new(m))));
                i = i + 1;
            }
            assert(right@.take(right.len() as int) =~= right@);
            let ghost h2 = v@;
            let left = listup_marked_term(f);
            let mut j: usize = 0;
            while j < left.len()
                invariant
                    j <= left.len(),
                    left@ == marked_list(**f),
                    v@ == h2 + left@.take(j as int).map_values(|m: MarkedTerm| MarkedTerm::ApplicationL(Box::new(m), *a)),
                decreases left.len() - j,
            {
                v.push(MarkedTerm::ApplicationL(Box::new(left[j].dup()), Box::new(copy_term(a))));
                assert(left@.take(j + 1) =~= left@.take(j as int).push(left@[j as int]));
                assert(v@ =~= h2 + left@.take(j + 1).map_values(|m: MarkedTerm| MarkedTerm::ApplicationL(Box::new(m), *a)));
                j = j + 1;
            }
            assert(left@.take(left.len() as int) =~= left@);
        },
    }
    v
}

/// Whether the term has no redex.
pub fn is_normal(term: &LambdaTerm) -> (b: bool)
    ensures
        b == (marked_list(*term).len() == 0),
{
    listup_marked_term(term).len() == 0
}

/// The last redex listed, marked.
pub fn left_most_marked_term(term: LambdaTerm) -> (r: Option<MarkedTerm>)
    ensures
        marked_list(term).len() == 0 ==> r is None,
        marked_list(term).len() > 0 ==> r == Some(marked_list(term).last()),
{
    let v = listup_marked_term(&term);
    if v.len() == 0 {
        None
    } else {
        Some(v[v.len() - 1].dup())
    }
}

/// The term with the last redex listed reduced, if it has one.
pub fn left_most_reduction(term: LambdaTerm) -> (r: Option<LambdaTerm>)
    ensures
        marked_list(term).len() == 0 ==> r is None,
        marked_list(term).len() > 0 ==> r == Some(eval_marked(marked_list(term).last())),
{
    match left_most_marked_term(term) {
        Some(m) => Some(m.eval()),
        None => None,
    }
}

/// A term has no redex to list exactly when it is in normal form.
pub proof fn law_no_redex_is_normal(t: LambdaTerm)
    ensures
        (marked_list(t).len() == 0) == normal(t),
    decreases t,
{
    match t {
        LambdaTerm::Var(_) => {},
        LambdaTerm::Abs(_, b) => law_no_redex_is_normal(*b),
        LambdaTerm::App(f, a) => {
            law_no_redex_is_normal(*f);
            law_no_redex_is_normal(*a);
        },
    }
}

/// Each marked term listed stands for the term.
pub proof fn law_marked_stand_for_term(t: LambdaTerm)
    ensures
        forall|i: int| 0 <= i < marked_list(t).len() ==> plain(#[trigger] marked_list(t)[i]) == t,
    decreases t,
{
    match t {
        LambdaTerm::Var(_) => {},
        LambdaTerm::Abs(v, b) => {
            law_marked_stand_for_term(*b);
        },
        LambdaTerm::App(f, a) => {
            law_marked_stand_for_term(*f);
            law_marked_stand_for_term(*a);
        },
    }
}

/// How a redex is shown: `(\x.m n)`.
pub open spec fn redux_text(r: Redux) -> Seq<char> {
    seq!['(', '\\'] + r.var.name@ + seq!['.'] + display_text(r.body) + seq![' '] + display_text(r.arg) + seq![')']
}

/// How a marked term is shown.
pub open spec fn marked_text(m: MarkedTerm) -> Seq<char>
    decreases m,
{
    match m {
        MarkedTerm::Redux(r) => redux_text(r),
        MarkedTerm::Abstraction(v, b) => seq!['\\'] + v.name@ + seq!['.'] + marked_text(*b),
        MarkedTerm::ApplicationL(f, a) => seq!['('] + marked_text(*f) + seq![' '] + display_text(*a) + seq![')'],
        MarkedTerm::ApplicationR(f, a) => seq!['('] + display_text(*f) + seq![' '] + marked_text(*a) + seq![')'],
    }
}

fn write_redux(r: &Redux, out: &mut Vec<char>)
    ensures
        final(out)@ == old(out)@ + redux_text(*r),
{
    out.push('(');
    out.push('\\');
    push_str(out, r.var.name.as_str());
    out.push('.');
    write_display(&r.body, out);
    out.push(' ');
    write_display(&r.arg, out);
    out.push(')');
    assert(out@ =~= old(out)@ + redux_text(*r));
}

fn write_marked(m: &MarkedTerm, out: &mut Vec<char>)
    ensures
        final(out)@ == old(out)@ + marked_text(*m),
    decreases m,
{
    match m {
        MarkedTerm::Redux(r) => write_redux(r, out),
        MarkedTerm::Abstraction(v, b) => {
            out.push('\\');
            push_str(out, v.name.as_str());
            out.push('.');
            write_marked(b, out);
            assert(out@ =~= old(out)@ + marked_text(*m));
        },
        MarkedTerm::ApplicationL(f, a) => {
            out.push('(');
            write_marked(f, out);
            out.push(' ');
            write_display(a, out);
            out.push(')');
            assert(out@ =~= old(out)@ + marked_text(*m));
        },
        MarkedTerm::ApplicationR(f, a) => {
            out.push('(');
            write_display(f, out);
            out.push(' ');
            write_marked(a, out);
            out.push(')');
            assert(out@ =~= old(out)@ + marked_text(*m));
        },
    }
}

impl Redux {
    /// The redex as shown.
    pub fn display(&self) -> (s: String)
        ensures
            s@ == redux_text(*self),
    {
        let mut out: Vec<char> = Vec::new();
        write_redux(self, &mut out);
        assert(out@ =~= redux_text(*self));
        string_of(&out)
    }
}

impl MarkedTerm {
    /// The marked term as shown.
    pub fn display(&self) -> (s: String)
        ensures
            s@ == marked_text(*self),
    {
        let mut out: Vec<char> = Vec::new();
        write_marked(self, &mut out);
        assert(out@ =~= marked_text(*self));
        string_of(&out)
    }
}

} // verus!

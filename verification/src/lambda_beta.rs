//! Capture-avoiding substitution: before the argument is put in, each
//! binder of the body that would catch one of the argument's free
//! variables is renamed to the least id in use nowhere.
use vstd::prelude::*;
use vstd::set_lib::{lemma_int_range, lemma_len_subset, set_int_range};

use crate::lambda_term::{free_ids, id_set, rename, var_change, LambdaTerm, Var};

verus! {

broadcast use vstd::seq_lib::group_seq_properties;

pub open spec fn term_size(t: LambdaTerm) -> nat
    decreases t,
{
    match t {
        LambdaTerm::Var(_) => 1,
        LambdaTerm::Abs(_, b) => 1 + term_size(*b),
        LambdaTerm::App(f, a) => 1 + term_size(*f) + term_size(*a),
    }
}

/// Every id that occurs in the term, free or as a binder.
pub open spec fn all_ids(t: LambdaTerm) -> Set<int>
    decreases t,
{
    match t {
        LambdaTerm::Var(v) => set![v.id as int],
        LambdaTerm::Abs(v, b) => all_ids(*b).insert(v.id as int),
        LambdaTerm::App(f, a) => all_ids(*f).union(all_ids(*a)),
    }
}

/// The least id from `k` on that `avoid` does not hold, or `bound`.
pub open spec fn least_free_from(avoid: Set<int>, k: int, bound: int) -> int
    decreases bound - k,
{
    if k >= bound || !avoid.contains(k) {
        k
    } else {
        least_free_from(avoid, k + 1, bound)
    }
}

/// The least id that `avoid` does not hold.
pub open spec fn least_free(avoid: Set<int>) -> int {
    least_free_from(avoid, 0, avoid.len() as int)
}

/// The body with `s` put for the free occurrences of `x`, each binder whose
/// id is free in `s` first renamed to the least id not in `avoid`.
pub open spec fn csubst(t: LambdaTerm, x: usize, s: LambdaTerm, avoid: Set<int>) -> LambdaTerm
    decreases term_size(t),
{
    match t {
        LambdaTerm::Var(v) => if v.id == x {
            s
        } else {
            LambdaTerm::Var(v)
        },
        LambdaTerm::Abs(v, b) => if v.id == x {
            LambdaTerm::Abs(v, b)
        } else if free_ids(s).contains(v.id) {
            let k = least_free(avoid);
            let w = Var { id: k as usize, name: v.name };
            proof {
                lemma_rename_size(*b, v.id, w);
            }
            LambdaTerm::Abs(w, Box::new(csubst(rename(*b, v.id, w), x, s, avoid.insert(k))))
        } else {
            LambdaTerm::Abs(v, Box::new(csubst(*b, x, s, avoid)))
        },
        LambdaTerm::App(f, a) => LambdaTerm::App(
            Box::new(csubst(*f, x, s, avoid)),
            Box::new(csubst(*a, x, s, avoid)),
        ),
    }
}

/// The body of a redex with its argument put for its variable, without
/// capture.
pub open spec fn beta(body: LambdaTerm, x: usize, arg: LambdaTerm) -> LambdaTerm {
    csubst(body, x, arg, all_ids(body).union(all_ids(arg)).insert(x as int))
}

/// The variables free in a redex's result: those of the body but its
/// variable, and those of the argument where the variable is free in the
/// body.
pub open spec fn beta_free(body: LambdaTerm, x: usize, arg: LambdaTerm) -> Set<usize> {
    free_ids(body).remove(x).union(if free_ids(body).contains(x) { free_ids(arg) } else { Set::empty() })
}

pub proof fn lemma_rename_size(b: LambdaTerm, v: usize, w: Var)
    ensures
        term_size(rename(b, v, w)) == term_size(b),
    decreases b,
{
    match b {
        LambdaTerm::Var(_) => {},
        LambdaTerm::Abs(_, c) => lemma_rename_size(*c, v, w),
        LambdaTerm::App(f, a) => {
            lemma_rename_size(*f, v, w);
            lemma_rename_size(*a, v, w);
        },
    }
}

pub proof fn lemma_all_ids_finite(t: LambdaTerm)
    ensures
        all_ids(t).finite(),
    decreases t,
{
    match t {
        LambdaTerm::Var(_) => {},
        LambdaTerm::Abs(_, b) => lemma_all_ids_finite(*b),
        LambdaTerm::App(f, a) => {
            lemma_all_ids_finite(*f);
            lemma_all_ids_finite(*a);
        },
    }
}

pub proof fn lemma_free_in_all(t: LambdaTerm)
    ensures
        forall|i: usize| #[trigger] free_ids(t).contains(i) ==> all_ids(t).contains(i as int),
    decreases t,
{
    match t {
        LambdaTerm::Var(v) => {
            assert forall|i: usize| #[trigger] free_ids(t).contains(i) implies all_ids(t).contains(i as int) by {
                assert(free_ids(t) == set![v.id]);
            }
        },
        LambdaTerm::Abs(_, b) => {
            lemma_free_in_all(*b);
            assert forall|i: usize| #[trigger] free_ids(t).contains(i) implies all_ids(t).contains(i as int) by {
                assert(free_ids(*b).contains(i));
            }
        },
        LambdaTerm::App(f, a) => {
            lemma_free_in_all(*f);
            lemma_free_in_all(*a);
            assert forall|i: usize| #[trigger] free_ids(t).contains(i) implies all_ids(t).contains(i as int) by {
                if free_ids(*f).contains(i) {
                } else {
                    assert(free_ids(*a).contains(i));
                }
            }
        },
    }
}

proof fn lemma_rename_ids(b: LambdaTerm, v: usize, w: Var)
    ensures
        forall|i: int| #[trigger] all_ids(rename(b, v, w)).contains(i) ==> all_ids(b).contains(i) || i == w.id as int,
    decreases b,
{
    let r = rename(b, v, w);
    match b {
        LambdaTerm::Var(u) => {
            assert forall|i: int| #[trigger] all_ids(r).contains(i) implies all_ids(b).contains(i) || i == w.id as int by {
                if u.id == v {
                    assert(all_ids(r) == set![w.id as int]);
                } else {
                    assert(r == b);
                }
            }
        },
        LambdaTerm::Abs(u, c) => {
            lemma_rename_ids(*c, v, w);
            assert forall|i: int| #[trigger] all_ids(r).contains(i) implies all_ids(b).contains(i) || i == w.id as int by {
                if u.id == v {
                    assert(r == b);
                } else {
                    if i != u.id as int {
                        assert(all_ids(rename(*c, v, w)).contains(i));
                    }
                }
            }
        },
        LambdaTerm::App(f, a) => {
            lemma_rename_ids(*f, v, w);
            lemma_rename_ids(*a, v, w);
            assert forall|i: int| #[trigger] all_ids(r).contains(i) implies all_ids(b).contains(i) || i == w.id as int by {
                if all_ids(rename(*f, v, w)).contains(i) {
                } else {
                    assert(all_ids(rename(*a, v, w)).contains(i));
                }
            }
        },
    }
}

/// Renaming `v` to an id that occurs nowhere in the term moves the free
/// `v` to it.
proof fn lemma_rename_free(b: LambdaTerm, v: usize, w: Var)
    requires
        !all_ids(b).contains(w.id as int),
    ensures
        free_ids(rename(b, v, w)) == (if free_ids(b).contains(v) {
            free_ids(b).remove(v).insert(w.id)
        } else {
            free_ids(b)
        }),
    decreases b,
{
    match b {
        LambdaTerm::Var(_) => {
            assert(free_ids(rename(b, v, w)) =~= (if free_ids(b).contains(v) {
                free_ids(b).remove(v).insert(w.id)
            } else {
                free_ids(b)
            }));
        },
        LambdaTerm::Abs(u, c) => {
            lemma_rename_free(*c, v, w);
            assert(free_ids(rename(b, v, w)) =~= (if free_ids(b).contains(v) {
                free_ids(b).remove(v).insert(w.id)
            } else {
                free_ids(b)
            }));
        },
        LambdaTerm::App(f, a) => {
            lemma_rename_free(*f, v, w);
            lemma_rename_free(*a, v, w);
            assert(free_ids(rename(b, v, w)) =~= (if free_ids(b).contains(v) {
                free_ids(b).remove(v).insert(w.id)
            } else {
                free_ids(b)
            }));
        },
    }
}

proof fn lemma_least_from(avoid: Set<int>, k: int, bound: int)
    requires
        0 <= k <= bound,
    ensures
        k <= least_free_from(avoid, k, bound) <= bound,
        least_free_from(avoid, k, bound) < bound ==> !avoid.contains(least_free_from(avoid, k, bound)),
        forall|j: int| k <= j < least_free_from(avoid, k, bound) ==> avoid.contains(j),
    decreases bound - k,
{
    if k < bound && avoid.contains(k) {
        lemma_least_from(avoid, k + 1, bound);
    }
}

/// In a finite set of ids, the least id it does not hold is at most its
/// size, and it does not hold it.
pub proof fn lemma_least_free(avoid: Set<int>)
    requires
        avoid.finite(),
    ensures
        0 <= least_free(avoid) <= avoid.len(),
        !avoid.contains(least_free(avoid)),
        forall|j: int| 0 <= j < least_free(avoid) ==> avoid.contains(j),
{
    let b = avoid.len() as int;
    lemma_least_from(avoid, 0, b);
    if least_free(avoid) == b && avoid.contains(b) {
        lemma_int_range(0, b + 1);
        assert(set_int_range(0, b + 1).subset_of(avoid));
        lemma_len_subset(set_int_range(0, b + 1), avoid);
    }
}

/// The ids that a list holds.
pub open spec fn avoid_of(u: Seq<usize>) -> Set<int> {
    u.map_values(|x: usize| x as int).to_set()
}

pub(crate) proof fn lemma_avoid_facts(u: Seq<usize>)
    ensures
        avoid_of(u).finite(),
        avoid_of(u).len() <= u.len(),
        forall|j: int| #[trigger] avoid_of(u).contains(j) <==> exists|i: int| 0 <= i < u.len() && u[i] as int == j,
{
    let m = u.map_values(|x: usize| x as int);
    m.lemma_cardinality_of_set();
    assert forall|j: int| #[trigger] avoid_of(u).contains(j) <==> exists|i: int| 0 <= i < u.len() && u[i] as int == j by {
        if avoid_of(u).contains(j) {
            assert(m.contains(j));
            let i = choose|i: int| 0 <= i < m.len() && m[i] == j;
            assert(u[i] as int == j);
        }
        if exists|i: int| 0 <= i < u.len() && u[i] as int == j {
            let i = choose|i: int| 0 <= i < u.len() && u[i] as int == j;
            assert(m[i] == j);
            assert(m.contains(j));
        }
    }
}

pub(crate) proof fn lemma_avoid_push(u: Seq<usize>, k: usize)
    ensures
        avoid_of(u.push(k)) == avoid_of(u).insert(k as int),
{
    lemma_avoid_facts(u);
    lemma_avoid_facts(u.push(k));
    assert forall|j: int| avoid_of(u.push(k)).contains(j) <==> avoid_of(u).insert(k as int).contains(j) by {
        if avoid_of(u.push(k)).contains(j) {
            let i = choose|i: int| 0 <= i < u.push(k).len() && u.push(k)[i] as int == j;
            if i < u.len() {
                assert(u[i] as int == j);
            }
        }
        if avoid_of(u).contains(j) {
            let i = choose|i: int| 0 <= i < u.len() && u[i] as int == j;
            assert(u.push(k)[i] as int == j);
        }
        if j == k as int {
            assert(u.push(k)[u.len() as int] as int == j);
        }
    }
    assert(avoid_of(u.push(k)) =~= avoid_of(u).insert(k as int));
}

fn has_id(used: &Vec<usize>, c: usize) -> (b: bool)
    ensures
        b == avoid_of(used@).contains(c as int),
{
    proof {
        lemma_avoid_facts(used@);
    }
    let mut i: usize = 0;
    while i < used.len()
        invariant
            i <= used.len(),
            forall|j: int| 0 <= j < i ==> used@[j] != c,
            forall|j: int| #[trigger] avoid_of(used@).contains(j) <==> exists|k: int| 0 <= k < used@.len() && used@[k] as int == j,
        decreases used.len() - i,
    {
        if used[i] == c {
            assert(used@[i as int] as int == c as int);
            proof {
                lemma_avoid_facts(used@);
            }
            return true;
        }
        i = i + 1;
    }
    false
}

/// The least id that the list does not hold.
pub(crate) fn fresh_id(used: &Vec<usize>) -> (k: usize)
    ensures
        k as int == least_free(avoid_of(used@)),
        !avoid_of(used@).contains(k as int),
{
    let ghost a = avoid_of(used@);
    let ghost bound = a.len() as int;
    proof {
        lemma_avoid_facts(used@);
        lemma_least_free(a);
    }
    let n = used.len();
    let mut c: usize = 0;
    while has_id(used, c)
        invariant
            n == used@.len(),
            a == avoid_of(used@),
            a.finite(),
            bound == a.len(),
            bound <= n,
            0 <= c <= bound,
            least_free(a) == least_free_from(a, c as int, bound),
            !a.contains(least_free(a)),
        decreases bound - c,
    {
        assert(c < bound);
        c = c + 1;
    }
    c
}

fn var_in(vs: &Vec<Var>, id: usize) -> (b: bool)
    ensures
        b == id_set(vs@).contains(id),
{
    let mut i: usize = 0;
    while i < vs.len()
        invariant
            i <= vs.len(),
            forall|j: int| 0 <= j < i ==> vs@[j].id != id,
        decreases vs.len() - i,
    {
        if vs[i].id == id {
            assert(vs@[i as int].id == id);
            return true;
        }
        i = i + 1;
    }
    false
}

/// Adds the ids of the term to the list.
fn collect_ids(t: &LambdaTerm, used: &mut Vec<usize>)
    ensures
        avoid_of(final(used)@) == avoid_of(old(used)@).union(all_ids(*t)),
    decreases t,
{
    match t {
        LambdaTerm::Var(v) => {
            let ghost u0 = used@;
            used.push(v.id);
            proof {
                lemma_avoid_push(u0, v.id);
                assert(avoid_of(used@) =~= avoid_of(u0).union(all_ids(*t)));
            }
        },
        LambdaTerm::Abs(v, b) => {
            let ghost u0 = used@;
            used.push(v.id);
            proof {
                lemma_avoid_push(u0, v.id);
            }
            collect_ids(b, used);
            assert(avoid_of(used@) =~= avoid_of(u0).union(all_ids(*t)));
        },
        LambdaTerm::App(f, a) => {
            let ghost u0 = used@;
            collect_ids(f, used);
            collect_ids(a, used);
            assert(avoid_of(used@) =~= avoid_of(u0).union(all_ids(*t)));
        },
    }
}

/// Capture-avoiding substitution, the fresh ids taken from outside `used`.
fn csubst_exec(t: LambdaTerm, x: usize, s: &LambdaTerm, sfree: &Vec<Var>, used: &mut Vec<usize>) -> (r: LambdaTerm)
    requires
        all_ids(t).subset_of(avoid_of(old(used)@)),
        all_ids(*s).subset_of(avoid_of(old(used)@)),
        avoid_of(old(used)@).contains(x as int),
        id_set(sfree@) == free_ids(*s),
    ensures
        r == csubst(t, x, *s, avoid_of(old(used)@)),
        final(used)@ == old(used)@,
        free_ids(r) == beta_free(t, x, *s),
    decreases term_size(t),
{
    let ghost a = avoid_of(used@);
    proof {
        lemma_free_in_all(*s);
    }
    match t {
        LambdaTerm::Var(v) => {
            if v.id == x {
                let r = crate::lambda_term::copy_term(s);
                assert(free_ids(r) =~= beta_free(t, x, *s));
                r
            } else {
                let r = LambdaTerm::Var(v);
                assert(free_ids(r) =~= beta_free(t, x, *s));
                r
            }
        },
        LambdaTerm::Abs(v, b) => {
            if v.id == x {
                let r = LambdaTerm::Abs(v, b);
                assert(free_ids(r) =~= beta_free(t, x, *s));
                r
            } else if var_in(sfree, v.id) {
                let k = fresh_id(used);
                proof {
                    lemma_avoid_facts(used@);
                    lemma_least_free(a);
                }
                let w = Var { id: k, name: v.name.clone() };
                let ghost bb = *b;
                let b2 = var_change(v.dup(), w.dup(), *b);
                proof {
                    lemma_rename_size(bb, v.id, w);
                    lemma_rename_ids(bb, v.id, w);
                    lemma_rename_free(bb, v.id, w);
                }
                let ghost u0 = used@;
                used.push(k);
                proof {
                    lemma_avoid_push(u0, k);
                }
                let r2 = csubst_exec(b2, x, s, sfree, used);
                used.pop();
                assert(used@ =~= u0);
                let ghost fb = free_ids(bb);
                assert(!fb.contains(k)) by {
                    lemma_free_in_all(bb);
                }
                assert(!free_ids(*s).contains(k));
                let r = LambdaTerm::Abs(w, Box::new(r2));
                assert(free_ids(r) =~= beta_free(t, x, *s));
                r
            } else {
                let ghost bb = *b;
                let r2 = csubst_exec(*b, x, s, sfree, used);
                let r = LambdaTerm::Abs(v, Box::new(r2));
                assert(free_ids(r) =~= beta_free(t, x, *s));
                r
            }
        },
        LambdaTerm::App(f, a2) => {
            let l = csubst_exec(*f, x, s, sfree, used);
            let rr = csubst_exec(*a2, x, s, sfree, used);
            let r = LambdaTerm::App(Box::new(l), Box::new(rr));
            assert(free_ids(r) =~= beta_free(t, x, *s));
            r
        },
    }
}

/// The body of a redex with its argument put for its variable, each binder
/// of the body that would catch a free variable of the argument renamed
/// first to the least id that occurs in neither.
pub fn beta_reduce(body: LambdaTerm, var: &Var, arg: LambdaTerm) -> (r: LambdaTerm)
    ensures
        r == beta(body, var.id, arg),
        free_ids(r) == beta_free(body, var.id, arg),
{
    let mut used: Vec<usize> = Vec::new();
    proof {
        lemma_avoid_facts(used@);
        assert(avoid_of(used@) =~= Set::<int>::empty());
    }
    collect_ids(&body, &mut used);
    collect_ids(&arg, &mut used);
    let ghost u1 = used@;
    used.push(var.id);
    proof {
        lemma_avoid_push(u1, var.id);
        assert(avoid_of(used@) =~= all_ids(body).union(all_ids(arg)).insert(var.id as int));
    }
    let sfree = arg.free_variable();
    csubst_exec(body, var.id, &arg, &sfree, &mut used)
}

/// The argument stands where the variable did: the variable itself becomes
/// the argument, another variable stays, and an application gets the
/// argument put in on both sides.
pub proof fn law_beta_on_variables(x: Var, y: Var, arg: LambdaTerm)
    ensures
        beta(LambdaTerm::Var(x), x.id, arg) == arg,
        y.id != x.id ==> beta(LambdaTerm::Var(y), x.id, arg) == LambdaTerm::Var(y),
        beta(
            LambdaTerm::App(Box::new(LambdaTerm::Var(x)), Box::new(LambdaTerm::Var(y))),
            x.id,
            arg,
        ) == LambdaTerm::App(
            Box::new(arg),
            Box::new(if y.id == x.id { arg } else { LambdaTerm::Var(y) }),
        ),
{
    let t = LambdaTerm::App(Box::new(LambdaTerm::Var(x)), Box::new(LambdaTerm::Var(y)));
    let a = all_ids(t).union(all_ids(arg)).insert(x.id as int);
    assert(csubst(LambdaTerm::Var(x), x.id, arg, a) == arg);
    assert(csubst(LambdaTerm::Var(y), x.id, arg, a) == if y.id == x.id { arg } else { LambdaTerm::Var(y) });
}

} // verus!

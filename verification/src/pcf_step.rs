//! Call-by-value reduction of the calculus with numbers: values are
//! abstractions and numerals, and one step reduces the leftmost redex that
//! is not under a binder.
use vstd::prelude::*;

use crate::lambda_term::Var;
use crate::pcf_core::Core;
use crate::pcf_subst::{copy_core, core_subst};

verus! {

/// Zero, or a successor of a numeral.
pub open spec fn numeral(t: Core) -> bool
    decreases t,
{
    match t {
        Core::Zero => true,
        Core::Succ { succ } => numeral(*succ),
        _ => false,
    }
}

/// An abstraction or a numeral.
pub open spec fn value(t: Core) -> bool {
    t is Lam || numeral(t)
}

/// The numeral before a numeral; zero has none before it and stays.
pub open spec fn pred_numeral(t: Core) -> Core {
    match t {
        Core::Succ { succ } => *succ,
        _ => Core::Zero,
    }
}

/// One step of call-by-value reduction, or `None` where the term is a
/// value or stuck.
pub open spec fn lam_step(t: Core) -> Option<Core>
    decreases t,
{
    match t {
        Core::Var { .. } => None,
        Core::Lam { .. } => None,
        Core::Zero => None,
        Core::App { e1, e2 } => if value(*e1) {
            if value(*e2) {
                match *e1 {
                    Core::Lam { var, body } => Some(core_subst(*body, var.id, *e2)),
                    _ => None,
                }
            } else {
                match lam_step(*e2) {
                    Some(s) => Some(Core::App { e1, e2: Box::new(s) }),
                    None => None,
                }
            }
        } else {
            match lam_step(*e1) {
                Some(s) => Some(Core::App { e1: Box::new(s), e2 }),
                None => None,
            }
        },
        Core::Succ { succ } => if value(*succ) {
            None
        } else {
            match lam_step(*succ) {
                Some(s) => Some(Core::Succ { succ: Box::new(s) }),
                None => None,
            }
        },
        Core::Pred { pred } => if value(*pred) {
            if *pred is Lam {
                None
            } else {
                Some(pred_numeral(*pred))
            }
        } else {
            match lam_step(*pred) {
                Some(s) => Some(Core::Pred { pred: Box::new(s) }),
                None => None,
            }
        },
        Core::IfZ { cond, tcase, fcase } => if value(*cond) {
            if *cond is Lam {
                None
            } else if *cond is Zero {
                Some(*tcase)
            } else {
                Some(*fcase)
            }
        } else {
            match lam_step(*cond) {
                Some(s) => Some(Core::IfZ { cond: Box::new(s), tcase, fcase }),
                None => None,
            }
        },
        Core::Let { var, bind, body } => Some(Core::App { e1: Box::new(Core::Lam { var, body }), e2: bind }),
        Core::Rec { fix, var, body } => Some(
            Core::Lam { var, body: Box::new(core_subst(*body, fix.id, Core::Rec { fix, var, body })) },
        ),
    }
}

/// A value takes no step.
pub proof fn law_value_does_not_step(t: Core)
    requires
        value(t),
    ensures
        lam_step(t) is None,
    decreases t,
{
    match t {
        Core::Succ { succ } => {
            assert(value(*succ));
        },
        _ => {},
    }
}

/// An application reduces left to right: while the function part is not a
/// value, a step reduces it and leaves the argument as it is; the argument
/// is reduced only once the function part is a value; an abstraction
/// applied to a value reduces by substitution, and a numeral applied to a
/// value is stuck.
pub proof fn law_application_order(e1: Core, e2: Core)
    ensures
        !value(e1) ==> lam_step(Core::App { e1: Box::new(e1), e2: Box::new(e2) }) == match lam_step(e1) {
            Some(s) => Some(Core::App { e1: Box::new(s), e2: Box::new(e2) }),
            None => None::<Core>,
        },
        value(e1) && !value(e2) ==> lam_step(Core::App { e1: Box::new(e1), e2: Box::new(e2) }) == match lam_step(
            e2,
        ) {
            Some(s) => Some(Core::App { e1: Box::new(e1), e2: Box::new(s) }),
            None => None::<Core>,
        },
        value(e2) ==> match e1 {
            Core::Lam { var, body } => lam_step(Core::App { e1: Box::new(e1), e2: Box::new(e2) }) == Some(
                core_subst(*body, var.id, e2),
            ),
            _ => numeral(e1) ==> lam_step(Core::App { e1: Box::new(e1), e2: Box::new(e2) }) is None,
        },
{
}

/// The numeral of `n`.
pub open spec fn num_term(n: nat) -> Core
    decreases n,
{
    if n == 0 {
        Core::Zero
    } else {
        Core::Succ { succ: Box::new(num_term((n - 1) as nat)) }
    }
}

proof fn lemma_num_term(n: nat)
    ensures
        numeral(num_term(n)),
        value(num_term(n)),
    decreases n,
{
    if n > 0 {
        lemma_num_term((n - 1) as nat);
    }
}

/// On numerals: the predecessor of `n + 1` is `n` and that of zero is
/// zero; the test for zero takes its first branch on zero and its second
/// on any other numeral; a successor of a numeral is a value and takes no
/// step.
pub proof fn law_numerals(n: nat, t: Core, f: Core)
    ensures
        lam_step(Core::Pred { pred: Box::new(num_term(n + 1)) }) == Some(num_term(n)),
        lam_step(Core::Pred { pred: Box::new(Core::Zero) }) == Some(Core::Zero),
        lam_step(Core::IfZ { cond: Box::new(num_term(0)), tcase: Box::new(t), fcase: Box::new(f) }) == Some(t),
        lam_step(Core::IfZ { cond: Box::new(num_term(n + 1)), tcase: Box::new(t), fcase: Box::new(f) }) == Some(f),
        lam_step(Core::Succ { succ: Box::new(num_term(n)) }) is None,
{
    lemma_num_term(n);
    lemma_num_term(n + 1);
    assert(num_term(n + 1) == Core::Succ { succ: Box::new(num_term(n)) });
}

/// `let x = b in e` becomes the application of `fun x => e` to `b`, and
/// `rec f x. e` unfolds to `fun x => e` with the recursive function put for
/// `f`.
pub proof fn law_let_and_rec(x: Var, f: Var, b: Core, e: Core)
    ensures
        lam_step(Core::Let { var: x, bind: Box::new(b), body: Box::new(e) }) == Some(
            Core::App { e1: Box::new(Core::Lam { var: x, body: Box::new(e) }), e2: Box::new(b) },
        ),
        lam_step(Core::Rec { fix: f, var: x, body: Box::new(e) }) == Some(
            Core::Lam {
                var: x,
                body: Box::new(core_subst(e, f.id, Core::Rec { fix: f, var: x, body: Box::new(e) })),
            },
        ),
{
}

fn is_numeral(t: &Core) -> (b: bool)
    ensures
        b == numeral(*t),
    decreases t,
{
    match t {
        Core::Zero => true,
        Core::Succ { succ } => is_numeral(succ),
        _ => false,
    }
}

impl Core {
    /// Whether the term is a value: an abstraction or a numeral.
    pub fn is_value(&self) -> (b: bool)
        ensures
            b == value(*self),
    {
        match self {
            Core::Lam { .. } => true,
            _ => is_numeral(self),
        }
    }

    /// One step of call-by-value reduction: a redex whose function and
    /// argument are values is reduced by substitution, `let` becomes a
    /// redex, `rec` unfolds once, `pred` and the test for zero look at a
    /// numeral; a value or a stuck term gives `None`.
    pub fn step(self) -> (r: Option<Core>)
        ensures
            r == lam_step(self),
        decreases self,
    {
        match self {
            Core::Var { .. } => None,
            Core::Lam { .. } => None,
            Core::Zero => None,
            Core::App { e1, e2 } => {
                if e1.is_value() {
                    if e2.is_value() {
                        match *e1 {
                            Core::Lam { var, body } => Some((*body).subst(var, *e2)),
                            _ => None,
                        }
                    } else {
                        match (*e2).step() {
                            Some(s) => Some(Core::App { e1, e2: Box::new(s) }),
                            None => None,
                        }
                    }
                } else {
                    match (*e1).step() {
                        Some(s) => Some(Core::App { e1: Box::new(s), e2 }),
                        None => None,
                    }
                }
            },
            Core::Succ { succ } => {
                if succ.is_value() {
                    None
                } else {
                    match (*succ).step() {
                        Some(s) => Some(Core::Succ { succ: Box::new(s) }),
                        None => None,
                    }
                }
            },
            Core::Pred { pred } => {
                if pred.is_value() {
                    match *pred {
                        Core::Lam { .. } => None,
                        Core::Succ { succ } => Some(*succ),
                        _ => Some(Core::Zero),
                    }
                } else {
                    match (*pred).step() {
                        Some(s) => Some(Core::Pred { pred: Box::new(s) }),
                        None => None,
                    }
                }
            },
            Core::IfZ { cond, tcase, fcase } => {
                if cond.is_value() {
                    match *cond {
                        Core::Lam { .. } => None,
                        Core::Zero => Some(*tcase),
                        _ => Some(*fcase),
                    }
                } else {
                    match (*cond).step() {
                        Some(s) => Some(Core::IfZ { cond: Box::new(s), tcase, fcase }),
                        None => None,
                    }
                }
            },
            Core::Let { var, bind, body } => Some(Core::App { e1: Box::new(Core::Lam { var, body }), e2: bind }),
            Core::Rec { fix, var, body } => {
                let b = copy_core(&body);
                let fid = fix.dup();
                let unfolded = Core::Rec { fix, var: var.dup(), body };
                Some(Core::Lam { var, body: Box::new(b.subst(fid, unfolded)) })
            },
        }
    }
}

} // verus!

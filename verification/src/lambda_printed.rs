//! Printed lambda terms read back: the tokens of a printed term, and the law
//! that a printed term in normal form reads back with the same names in the
//! same places.
use vstd::prelude::*;

use crate::circuit_lexer::{is_word_start, lex_circuit_spec, nests_from, single_tok, DelimKind, TokV};
use crate::coroutine_parser::is_word_char;
use crate::flow_printed::{clean, lemma_lex_blank, lemma_lex_join, lemma_lex_symbol, lemma_lex_word, lexes};
use crate::lambda_parse::{
    bad_delim, is_atom_start, lambdas_view, lookup_name, p_abs, p_app, p_atom, p_atoms, p_binders, parse_lambda_spec,
    term_view, TermV,
};
use crate::lambda_term::{normal, term_text, LambdaTerm};

verus! {

/// A term with only the names of its variables.
pub enum NameTree {
    Var(Seq<char>),
    Abs(Seq<char>, Box<NameTree>),
    App(Box<NameTree>, Box<NameTree>),
}

pub open spec fn names(t: TermV) -> NameTree
    decreases t,
{
    match t {
        TermV::Var(_, n) => NameTree::Var(n),
        TermV::Abs(_, n, b) => NameTree::Abs(n, Box::new(names(*b))),
        TermV::App(f, a) => NameTree::App(Box::new(names(*f)), Box::new(names(*a))),
    }
}

/// A name that lexes as one word.
pub open spec fn is_word(w: Seq<char>) -> bool {
    w.len() > 0 && is_word_start(w[0]) && forall|j: int| 0 <= j < w.len() ==> is_word_char(#[trigger] w[j])
}

/// Every variable of the term is named by a word.
pub open spec fn word_names(t: LambdaTerm) -> bool
    decreases t,
{
    match t {
        LambdaTerm::Var(v) => is_word(v.name@),
        LambdaTerm::Abs(v, b) => is_word(v.name@) && word_names(*b),
        LambdaTerm::App(f, a) => word_names(*f) && word_names(*a),
    }
}

/// The tokens of a printed term.
pub open spec fn term_toks(t: LambdaTerm) -> Seq<TokV>
    decreases t,
{
    match t {
        LambdaTerm::Var(v) => seq![TokV::Ident(v.name@)],
        LambdaTerm::Abs(v, b) => seq![TokV::Symbol('\\'), TokV::Ident(v.name@), TokV::Symbol('.')] + term_toks(*b),
        LambdaTerm::App(f, a) => seq![TokV::Open(DelimKind::Paren)] + term_toks(*f) + term_toks(*a) + seq![
            TokV::Close(DelimKind::Paren),
        ],
    }
}

proof fn lemma_lex_term(t: LambdaTerm)
    requires
        word_names(t),
    ensures
        lexes(term_text(t), term_toks(t)),
        clean(term_text(t)),
        term_toks(t).len() <= term_text(t).len(),
    decreases t,
{
    match t {
        LambdaTerm::Var(v) => {
            lemma_lex_word(v.name@);
        },
        LambdaTerm::Abs(v, b) => {
            lemma_lex_term(*b);
            lemma_lex_word(v.name@);
            lemma_lex_symbol('\\');
            lemma_lex_symbol('.');
            lemma_lex_blank(' ');
            assert(single_tok('\\') == TokV::Symbol('\\'));
            assert(single_tok('.') == TokV::Symbol('.'));
            let n = v.name@;
            lemma_lex_join(seq!['\\'], seq![TokV::Symbol('\\')], n, seq![TokV::Ident(n)]);
            let p1 = seq!['\\'] + n;
            let q1 = seq![TokV::Symbol('\\')] + seq![TokV::Ident(n)];
            lemma_lex_join(p1, q1, seq!['.'], seq![TokV::Symbol('.')]);
            let p2 = p1 + seq!['.'];
            let q2 = q1 + seq![TokV::Symbol('.')];
            lemma_lex_join(p2, q2, seq![' '], Seq::<TokV>::empty());
            let p3 = p2 + seq![' '];
            let q3 = q2 + Seq::<TokV>::empty();
            lemma_lex_join(p3, q3, term_text(*b), term_toks(*b));
            assert(p3 + term_text(*b) =~= term_text(t));
            assert(q3 + term_toks(*b) =~= term_toks(t));
        },
        LambdaTerm::App(f, a) => {
            lemma_lex_term(*f);
            lemma_lex_term(*a);
            lemma_lex_symbol('(');
            lemma_lex_symbol(')');
            lemma_lex_blank(' ');
            assert(single_tok('(') == TokV::Open(DelimKind::Paren));
            assert(single_tok(')') == TokV::Close(DelimKind::Paren));
            let o = seq![TokV::Open(DelimKind::Paren)];
            let c = seq![TokV::Close(DelimKind::Paren)];
            lemma_lex_join(seq!['('], o, term_text(*f), term_toks(*f));
            let p1 = seq!['('] + term_text(*f);
            let q1 = o + term_toks(*f);
            lemma_lex_join(p1, q1, seq![' '], Seq::<TokV>::empty());
            let p2 = p1 + seq![' '];
            let q2 = q1 + Seq::<TokV>::empty();
            lemma_lex_join(p2, q2, term_text(*a), term_toks(*a));
            let p3 = p2 + term_text(*a);
            let q3 = q2 + term_toks(*a);
            lemma_lex_join(p3, q3, seq![')'], c);
            assert(p3 + seq![')'] =~= term_text(t));
            assert(q3 + c =~= term_toks(t));
        },
    }
}

/// The tokens of a printed term, standing in `ts` at `i`.
pub open spec fn toks_at(ts: Seq<TokV>, i: int, t: LambdaTerm) -> bool {
    0 <= i && i + term_toks(t).len() <= ts.len() && ts.subrange(i, i + term_toks(t).len()) == term_toks(t)
}

proof fn lemma_toks_at_parts(ts: Seq<TokV>, i: int, t: LambdaTerm)
    requires
        toks_at(ts, i, t),
    ensures
        forall|k: int| 0 <= k < term_toks(t).len() ==> ts[i + k] == #[trigger] term_toks(t)[k],
        term_toks(t).len() > 0,
        match t {
            LambdaTerm::Var(v) => ts[i] == TokV::Ident(v.name@),
            LambdaTerm::Abs(v, b) => ts[i] == TokV::Symbol('\\') && ts[i + 1] == TokV::Ident(v.name@) && ts[i + 2]
                == TokV::Symbol('.') && toks_at(ts, i + 3, *b) && term_toks(t).len() == 3 + term_toks(*b).len(),
            LambdaTerm::App(f, a) => ts[i] == TokV::Open(DelimKind::Paren) && toks_at(ts, i + 1, *f) && toks_at(
                ts,
                i + 1 + term_toks(*f).len(),
                *a,
            ) && ts[i + 1 + term_toks(*f).len() + term_toks(*a).len()] == TokV::Close(DelimKind::Paren)
                && term_toks(t).len() == 2 + term_toks(*f).len() + term_toks(*a).len(),
        },
{
    let s = term_toks(t);
    assert forall|k: int| 0 <= k < s.len() implies ts[i + k] == #[trigger] s[k] by {
        assert(ts.subrange(i, i + s.len())[k] == ts[i + k]);
    }
    match t {
        LambdaTerm::Var(_) => {},
        LambdaTerm::Abs(v, b) => {
            let sb = term_toks(*b);
            assert(ts.subrange(i + 3, i + 3 + sb.len()) =~= sb) by {
                assert forall|k: int| 0 <= k < sb.len() implies ts.subrange(i + 3, i + 3 + sb.len())[k] == sb[k] by {
                    assert(s[3 + k] == sb[k]);
                }
            }
            assert(s[0] == TokV::Symbol('\\'));
            assert(s[1] == TokV::Ident(v.name@));
            assert(s[2] == TokV::Symbol('.'));
        },
        LambdaTerm::App(f, a) => {
            let sf = term_toks(*f);
            let sa = term_toks(*a);
            assert(ts.subrange(i + 1, i + 1 + sf.len()) =~= sf) by {
                assert forall|k: int| 0 <= k < sf.len() implies ts.subrange(i + 1, i + 1 + sf.len())[k] == sf[k] by {
                    assert(s[1 + k] == sf[k]);
                }
            }
            let j = i + 1 + sf.len();
            assert(ts.subrange(j, j + sa.len()) =~= sa) by {
                assert forall|k: int| 0 <= k < sa.len() implies ts.subrange(j, j + sa.len())[k] == sa[k] by {
                    assert(s[1 + sf.len() as int + k] == sa[k]);
                }
            }
            assert(s[0] == TokV::Open(DelimKind::Paren));
            assert(s[1 + sf.len() + sa.len() as int] == TokV::Close(DelimKind::Paren));
        },
    }
}

proof fn lemma_nests_term(ts: Seq<TokV>, i: int, t: LambdaTerm, stack: Seq<DelimKind>)
    requires
        toks_at(ts, i, t),
    ensures
        nests_from(ts, i, stack) == nests_from(ts, i + term_toks(t).len(), stack),
    decreases t,
{
    lemma_toks_at_parts(ts, i, t);
    match t {
        LambdaTerm::Var(v) => {
            assert(term_toks(t).len() == 1);
            assert(nests_from(ts, i, stack) == nests_from(ts, i + 1, stack));
            assert(nests_from(ts, i, stack) == nests_from(ts, i + term_toks(t).len(), stack));
        },
        LambdaTerm::Abs(_, b) => {
            lemma_nests_term(ts, i + 3, *b, stack);
            assert(nests_from(ts, i + 2, stack) == nests_from(ts, i + 3, stack));
            assert(nests_from(ts, i + 1, stack) == nests_from(ts, i + 2, stack));
            assert(nests_from(ts, i, stack) == nests_from(ts, i + 1, stack));
        },
        LambdaTerm::App(f, a) => {
            let inner = stack.push(DelimKind::Paren);
            lemma_nests_term(ts, i + 1, *f, inner);
            lemma_nests_term(ts, i + 1 + term_toks(*f).len(), *a, inner);
            assert(inner.drop_last() =~= stack);
            let e = i + 1 + term_toks(*f).len() + term_toks(*a).len();
            assert(nests_from(ts, e, inner) == nests_from(ts, e + 1, stack));
            assert(nests_from(ts, i, stack) == nests_from(ts, i + 1, inner));
        },
    }
}

proof fn lemma_bad_delim_term(ts: Seq<TokV>, i: int, t: LambdaTerm)
    requires
        toks_at(ts, i, t),
    ensures
        bad_delim(ts, i) == bad_delim(ts, i + term_toks(t).len()),
    decreases t,
{
    lemma_toks_at_parts(ts, i, t);
    match t {
        LambdaTerm::Var(v) => {
            assert(term_toks(t).len() == 1);
            assert(bad_delim(ts, i) == bad_delim(ts, i + 1));
        },
        LambdaTerm::Abs(_, b) => {
            lemma_bad_delim_term(ts, i + 3, *b);
            assert(bad_delim(ts, i + 2) == bad_delim(ts, i + 3));
            assert(bad_delim(ts, i + 1) == bad_delim(ts, i + 2));
            assert(bad_delim(ts, i) == bad_delim(ts, i + 1));
        },
        LambdaTerm::App(f, a) => {
            lemma_bad_delim_term(ts, i + 1, *f);
            lemma_bad_delim_term(ts, i + 1 + term_toks(*f).len(), *a);
            let e = i + 1 + term_toks(*f).len() + term_toks(*a).len();
            assert(bad_delim(ts, e) == bad_delim(ts, e + 1));
            assert(bad_delim(ts, i) == bad_delim(ts, i + 1));
        },
    }
}

proof fn lemma_lookup_name(env: Seq<(usize, Seq<char>)>, name: Seq<char>, k: int)
    ensures
        lookup_name(env, name, k) matches Some(w) ==> w.1 == name,
    decreases k,
{
    if 0 < k <= env.len() && env[k - 1].1 != name {
        lemma_lookup_name(env, name, k - 1);
    }
}

proof fn lemma_starts_atom(ts: Seq<TokV>, i: int, t: LambdaTerm)
    requires
        toks_at(ts, i, t),
    ensures
        is_atom_start(ts, i),
{
    lemma_toks_at_parts(ts, i, t);
}

/// An atom read where a printed term in normal form stands is that term,
/// its names in their places, when a term that is an abstraction is
/// followed by no atom.
proof fn lemma_atom_term(ts: Seq<TokV>, i: int, t: LambdaTerm, env: Seq<(usize, Seq<char>)>, next: int)
    requires
        toks_at(ts, i, t),
        normal(t),
        t is Abs ==> !is_atom_start(ts, i + term_toks(t).len()),
    ensures
        p_atom(ts, i, env, next) matches Ok((u, j, n)) && j == i + term_toks(t).len() && names(u) == names(
            term_view(t),
        ),
    decreases t, 0nat,
{
    lemma_toks_at_parts(ts, i, t);
    match t {
        LambdaTerm::Var(v) => {
            lemma_lookup_name(env, v.name@, env.len() as int);
        },
        LambdaTerm::Abs(v, b) => {
            let vv = (next as usize, v.name@);
            assert(p_binders(ts, i + 2, env.push(vv), seq![vv], next + 1) == (
                i + 2,
                env.push(vv),
                seq![vv],
                next + 1,
            ));
            assert(p_binders(ts, i + 1, env, seq![], next) == (i + 2, env.push(vv), seq![vv], next + 1)) by {
                assert(seq![].push(vv) =~= seq![vv]);
            }
            lemma_app_term(ts, i + 3, *b, env.push(vv), next + 1);
            let r = p_app(ts, i + 3, env.push(vv), next + 1)->Ok_0;
            assert(seq![vv].drop_last() =~= Seq::<(usize, Seq<char>)>::empty());
            assert(lambdas_view(seq![vv], r.0) == lambdas_view(Seq::<(usize, Seq<char>)>::empty(), TermV::Abs(vv.0, vv.1, Box::new(r.0))));
            assert(p_abs(ts, i, env, next) == Ok::<(TermV, int, int), Seq<char>>((lambdas_view(seq![vv], r.0), r.1, r.2)));
        },
        LambdaTerm::App(f, a) => {
            let sf = term_toks(*f);
            let sa = term_toks(*a);
            lemma_starts_atom(ts, i + 1, *f);
            lemma_starts_atom(ts, i + 1 + sf.len(), *a);
            lemma_atom_term(ts, i + 1, *f, env, next);
            let rf = p_atom(ts, i + 1, env, next)->Ok_0;
            lemma_atom_term(ts, i + 1 + sf.len(), *a, env, rf.2);
            let ra = p_atom(ts, i + 1 + sf.len(), env, rf.2)->Ok_0;
            let e = i + 1 + sf.len() + sa.len();
            let whole = TermV::App(Box::new(rf.0), Box::new(ra.0));
            assert(p_atoms(ts, e, env, ra.2, Some(whole)) == Ok::<(TermV, int, int), Seq<char>>((whole, e, ra.2)));
            assert(p_atoms(ts, i + 1 + sf.len(), env, rf.2, Some(rf.0)) == Ok::<(TermV, int, int), Seq<char>>((whole, e, ra.2)));
            assert(p_atoms(ts, i + 1, env, next, None) == Ok::<(TermV, int, int), Seq<char>>((whole, e, ra.2)));
            assert(p_app(ts, i + 1, env, next) == Ok::<(TermV, int, int), Seq<char>>((whole, e, ra.2)));
        },
    }
}

/// An application read where a printed term in normal form stands, followed
/// by no atom, is that term, its names in their places.
proof fn lemma_app_term(ts: Seq<TokV>, i: int, t: LambdaTerm, env: Seq<(usize, Seq<char>)>, next: int)
    requires
        toks_at(ts, i, t),
        normal(t),
        !is_atom_start(ts, i + term_toks(t).len()),
    ensures
        p_app(ts, i, env, next) matches Ok((u, j, n)) && j == i + term_toks(t).len() && names(u) == names(
            term_view(t),
        ),
    decreases t, 1nat,
{
    lemma_starts_atom(ts, i, t);
    lemma_toks_at_parts(ts, i, t);
    lemma_atom_term(ts, i, t, env, next);
    let r = p_atom(ts, i, env, next)->Ok_0;
    assert(p_atoms(ts, r.1, env, r.2, Some(r.0)) == Ok::<(TermV, int, int), Seq<char>>((r.0, r.1, r.2)));
    assert(p_atoms(ts, i, env, next, None) == Ok::<(TermV, int, int), Seq<char>>((r.0, r.1, r.2)));
}

/// A term in normal form whose names are words, printed, reads back as a
/// term with the same names in the same places.
pub proof fn law_printed_normal_form_reads_back(t: LambdaTerm)
    requires
        normal(t),
        word_names(t),
        term_text(t).len() <= usize::MAX,
    ensures
        parse_lambda_spec(term_text(t)) matches Ok(u) && names(u) == names(term_view(t)),
{
    lemma_lex_term(t);
    let ts = term_toks(t);
    assert(toks_at(ts, 0, t)) by {
        assert(ts.subrange(0, ts.len() as int) =~= ts);
    }
    lemma_nests_term(ts, 0, t, seq![]);
    lemma_bad_delim_term(ts, 0, t);
    lemma_app_term(ts, 0, t, seq![], 0);
    assert(lex_circuit_spec(term_text(t)) == Ok::<Seq<TokV>, Seq<char>>(ts));
}

} // verus!

//! Tokens of circuit descriptions: words, numbers, single-character
//! symbols and brackets, with blanks and comments (`// ...` to the end of
//! the line, `/* ... */`) skipped.  Brackets must nest.
use vstd::prelude::*;

use crate::coroutine_parser::{digits_end, lemma_digits_end, lemma_word_end, word_end};
use crate::text::{is_alpha, is_digit, is_space, slice_chars};

verus! {

#[derive(PartialEq, Eq, Structural, Clone, Copy, Debug)]
pub enum DelimKind {
    Paren,
    Brace,
    Bracket,
}

#[derive(Debug)]
pub enum Token {
    Ident(Vec<char>),
    Number(Vec<char>),
    Symbol(char),
    Open(DelimKind),
    Close(DelimKind),
}

pub enum TokV {
    Ident(Seq<char>),
    Number(Seq<char>),
    Symbol(char),
    Open(DelimKind),
    Close(DelimKind),
}

pub open spec fn tok_view(t: Token) -> TokV {
    match t {
        Token::Ident(s) => TokV::Ident(s@),
        Token::Number(s) => TokV::Number(s@),
        Token::Symbol(c) => TokV::Symbol(c),
        Token::Open(k) => TokV::Open(k),
        Token::Close(k) => TokV::Close(k),
    }
}

pub open spec fn toks_view(ts: Seq<Token>) -> Seq<TokV> {
    ts.map_values(|t: Token| tok_view(t))
}

pub open spec fn open_kind(c: char) -> Option<DelimKind> {
    if c == '(' {
        Some(DelimKind::Paren)
    } else if c == '{' {
        Some(DelimKind::Brace)
    } else if c == '[' {
        Some(DelimKind::Bracket)
    } else {
        None
    }
}

pub open spec fn close_kind(c: char) -> Option<DelimKind> {
    if c == ')' {
        Some(DelimKind::Paren)
    } else if c == '}' {
        Some(DelimKind::Brace)
    } else if c == ']' {
        Some(DelimKind::Bracket)
    } else {
        None
    }
}

/// Where the line that holds position `i` ends: the next `\n`, or the end.
pub open spec fn line_stop(t: Seq<char>, i: int) -> int
    decreases t.len() - i,
{
    if i < 0 || i >= t.len() || t[i] == '\n' {
        i
    } else {
        line_stop(t, i + 1)
    }
}

/// Where `*/` starts, from `i` on.
pub open spec fn comment_stop(t: Seq<char>, i: int) -> Option<int>
    decreases t.len() - i,
{
    if i < 0 || i + 1 >= t.len() {
        None
    } else if t[i] == '*' && t[i + 1] == '/' {
        Some(i)
    } else {
        comment_stop(t, i + 1)
    }
}

pub proof fn lemma_line_stop(t: Seq<char>, i: int)
    requires
        0 <= i <= t.len(),
    ensures
        i <= line_stop(t, i) <= t.len(),
    decreases t.len() - i,
{
    if i < t.len() && t[i] != '\n' {
        lemma_line_stop(t, i + 1);
    }
}

pub proof fn lemma_comment_stop(t: Seq<char>, i: int)
    requires
        0 <= i,
    ensures
        comment_stop(t, i) matches Some(j) ==> i <= j && j + 1 < t.len(),
    decreases t.len() - i,
{
    if i + 1 < t.len() && !(t[i] == '*' && t[i + 1] == '/') {
        lemma_comment_stop(t, i + 1);
    }
}

pub open spec fn prepend_tok(tok: TokV, rest: Result<Seq<TokV>, Seq<char>>) -> Result<
    Seq<TokV>,
    Seq<char>,
> {
    match rest {
        Ok(ts) => Ok(seq![tok] + ts),
        Err(m) => Err(m),
    }
}

pub open spec fn is_word_start(c: char) -> bool {
    is_alpha(c) || c == '_'
}

/// The tokens of `t` from position `i` on.
pub open spec fn lex_at(t: Seq<char>, i: int) -> Result<Seq<TokV>, Seq<char>>
    decreases t.len() - i,
{
    if i < 0 || i >= t.len() {
        Ok(seq![])
    } else {
        let ch = t[i];
        if is_space(ch) {
            lex_at(t, i + 1)
        } else if ch == '/' && i + 1 < t.len() && t[i + 1] == '/' {
            proof {
                lemma_line_stop(t, i + 2);
            }
            lex_at(t, line_stop(t, i + 2))
        } else if ch == '/' && i + 1 < t.len() && t[i + 1] == '*' {
            proof {
                lemma_comment_stop(t, i + 2);
            }
            match comment_stop(t, i + 2) {
                None => Err("unterminated comment"@),
                Some(j) => lex_at(t, j + 2),
            }
        } else if is_word_start(ch) {
            proof {
                lemma_word_end(t, i + 1);
            }
            let j = word_end(t, i + 1);
            prepend_tok(TokV::Ident(t.subrange(i, j)), lex_at(t, j))
        } else if is_digit(ch) {
            proof {
                lemma_digits_end(t, i + 1);
            }
            let j = digits_end(t, i + 1);
            prepend_tok(TokV::Number(t.subrange(i, j)), lex_at(t, j))
        } else {
            prepend_tok(single_tok(ch), lex_at(t, i + 1))
        }
    }
}

/// Whether the brackets of `ts` from `i` on close those still open in
/// `stack` (innermost last) and nest.
pub open spec fn nests_from(ts: Seq<TokV>, i: int, stack: Seq<DelimKind>) -> bool
    decreases ts.len() - i,
{
    if i < 0 || i >= ts.len() {
        stack.len() == 0
    } else {
        match ts[i] {
            TokV::Open(k) => nests_from(ts, i + 1, stack.push(k)),
            TokV::Close(k) => stack.len() > 0 && stack.last() == k && nests_from(
                ts,
                i + 1,
                stack.drop_last(),
            ),
            _ => nests_from(ts, i + 1, stack),
        }
    }
}

/// The tokens of a circuit text, if it lexes and its brackets nest.
pub open spec fn lex_circuit_spec(text: Seq<char>) -> Result<Seq<TokV>, Seq<char>> {
    match lex_at(text, 0) {
        Err(m) => Err(m),
        Ok(ts) => if nests_from(ts, 0, seq![]) {
            Ok(ts)
        } else {
            Err("unbalanced brackets"@)
        },
    }
}

fn open_kind_exec(c: char) -> (r: Option<DelimKind>)
    ensures
        r == open_kind(c),
{
    if c == '(' {
        Some(DelimKind::Paren)
    } else if c == '{' {
        Some(DelimKind::Brace)
    } else if c == '[' {
        Some(DelimKind::Bracket)
    } else {
        None
    }
}

fn close_kind_exec(c: char) -> (r: Option<DelimKind>)
    ensures
        r == close_kind(c),
{
    if c == ')' {
        Some(DelimKind::Paren)
    } else if c == '}' {
        Some(DelimKind::Brace)
    } else if c == ']' {
        Some(DelimKind::Bracket)
    } else {
        None
    }
}

/// The token of a character that starts no word, number or comment.
pub open spec fn single_tok(c: char) -> TokV {
    if open_kind(c) is Some {
        TokV::Open(open_kind(c)->0)
    } else if close_kind(c) is Some {
        TokV::Close(close_kind(c)->0)
    } else {
        TokV::Symbol(c)
    }
}

fn single_char_token(c: char) -> (r: Token)
    ensures
        tok_view(r) == single_tok(c),
{
    match open_kind_exec(c) {
        Some(k) => Token::Open(k),
        None => match close_kind_exec(c) {
            Some(k) => Token::Close(k),
            None => Token::Symbol(c),
        },
    }
}

fn push_tok(tokens: &mut Vec<Token>, tok: Token)
    ensures
        toks_view(final(tokens)@) == toks_view(old(tokens)@).push(tok_view(tok)),
{
    tokens.push(tok);
    assert(toks_view(tokens@) =~= toks_view(old(tokens)@).push(tok_view(tok)));
}

/// The tokens of the characters `t`.
#[verifier::spinoff_prover]
#[verifier::rlimit(40)]
pub fn lex_chars(t: &Vec<char>) -> (r: Result<Vec<Token>, String>)
    ensures
        match lex_at(t@, 0) {
            Ok(ts) => r matches Ok(v) && toks_view(v@) == ts,
            Err(m) => r matches Err(e) && e@ == m,
        },
{
    let mut tokens: Vec<Token> = Vec::new();
    let mut i: usize = 0;
    assert(toks_view(tokens@) =~= seq![]);
    while i < t.len()
        invariant
            0 <= i <= t.len(),
            lex_at(t@, 0) == match lex_at(t@, i as int) {
                Ok(rest) => Ok(toks_view(tokens@) + rest),
                Err(m) => Err::<Seq<TokV>, Seq<char>>(m),
            },
        decreases t.len() - i,
    {
        let ghost before = toks_view(tokens@);
        let ch = t[i];
        if crate::text::is_space_char(ch) {
            i += 1;
        } else if ch == '/' && i + 1 < t.len() && t[i + 1] == '/' {
            let ghost s = i as int + 2;
            i += 2;
            proof {
                lemma_line_stop(t@, s);
            }
            while i < t.len() && t[i] != '\n'
                invariant
                    s <= i <= t.len(),
                    line_stop(t@, s) == line_stop(t@, i as int),
                decreases t.len() - i,
            {
                i += 1;
            }
        } else if ch == '/' && i + 1 < t.len() && t[i + 1] == '*' {
            let ghost s = i as int + 2;
            i += 2;
            proof {
                lemma_comment_stop(t@, s);
            }
            while i < t.len() && i + 1 < t.len() && !(t[i] == '*' && t[i + 1] == '/')
                invariant
                    s <= i <= t.len(),
                    comment_stop(t@, s) == comment_stop(t@, i as int),
                decreases t.len() - i,
            {
                i += 1;
            }
            if i >= t.len() || i + 1 >= t.len() {
                return Err(String::from_str("unterminated comment"));
            }
            i += 2;
        } else if crate::text::is_alpha_char(ch) || ch == '_' {
            let start = i;
            i += 1;
            proof {
                lemma_word_end(t@, start + 1);
            }
            while i < t.len() && (crate::text::is_alnum_char(t[i]) || t[i] == '_')
                invariant
                    start < i <= t.len(),
                    word_end(t@, start + 1) == word_end(t@, i as int),
                decreases t.len() - i,
            {
                i += 1;
            }
            let tok = Token::Ident(slice_chars(t, start, i));
            let ghost tv = tok_view(tok);
            push_tok(&mut tokens, tok);
            proof {
                let rest = lex_at(t@, i as int);
                if rest is Ok {
                    assert(before + (seq![tv] + rest->Ok_0) =~= toks_view(tokens@) + rest->Ok_0);
                }
            }
        } else if crate::text::is_digit_char(ch) {
            let start = i;
            i += 1;
            proof {
                lemma_digits_end(t@, start + 1);
            }
            while i < t.len() && crate::text::is_digit_char(t[i])
                invariant
                    start < i <= t.len(),
                    digits_end(t@, start + 1) == digits_end(t@, i as int),
                decreases t.len() - i,
            {
                i += 1;
            }
            let tok = Token::Number(slice_chars(t, start, i));
            let ghost tv = tok_view(tok);
            push_tok(&mut tokens, tok);
            proof {
                let rest = lex_at(t@, i as int);
                if rest is Ok {
                    assert(before + (seq![tv] + rest->Ok_0) =~= toks_view(tokens@) + rest->Ok_0);
                }
            }
        } else {
            let tok = single_char_token(ch);
            let ghost tv = tok_view(tok);
            push_tok(&mut tokens, tok);
            i += 1;
            proof {
                let rest = lex_at(t@, i as int);
                if rest is Ok {
                    assert(before + (seq![tv] + rest->Ok_0) =~= toks_view(tokens@) + rest->Ok_0);
                }
            }
        }
    }
    assert(toks_view(tokens@) + seq![] =~= toks_view(tokens@));
    Ok(tokens)
}


/// Whether the brackets of `ts` nest.
pub fn check_nesting(ts: &Vec<Token>) -> (r: bool)
    ensures
        r == nests_from(toks_view(ts@), 0, seq![]),
{
    let ghost tv = toks_view(ts@);
    let mut stack: Vec<DelimKind> = Vec::new();
    let mut i: usize = 0;
    while i < ts.len()
        invariant
            0 <= i <= ts.len(),
            tv == toks_view(ts@),
            nests_from(tv, 0, seq![]) == nests_from(tv, i as int, stack@),
        decreases ts.len() - i,
    {
        assert(tv[i as int] == tok_view(ts@[i as int]));
        match &ts[i] {
            Token::Open(k) => {
                stack.push(*k);
            },
            Token::Close(k) => {
                if stack.len() == 0 {
                    return false;
                }
                let top = stack[stack.len() - 1];
                if top != *k {
                    return false;
                }
                let ghost s0 = stack@;
                stack.pop();
                assert(stack@ =~= s0.drop_last());
            },
            _ => {},
        }
        i += 1;
    }
    stack.len() == 0
}

/// The tokens of a circuit text, if it lexes and its brackets nest.
pub fn lex_circuit(text: &str) -> (r: Result<Vec<Token>, String>)
    ensures
        match lex_circuit_spec(text@) {
            Ok(ts) => r matches Ok(v) && toks_view(v@) == ts,
            Err(m) => r matches Err(e) && e@ == m,
        },
{
    let chars = crate::text::chars_of(text);
    let ts = lex_chars(&chars)?;
    if !check_nesting(&ts) {
        return Err(String::from_str("unbalanced brackets"));
    }
    Ok(ts)
}

} // verus!

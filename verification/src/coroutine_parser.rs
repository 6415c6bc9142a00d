//! Reading coroutine programs and environments from text.
use vstd::prelude::*;

use crate::coroutine::{push_all, push_str, AAtom, ABinOp, AExp, BExp, CoroutineCode, FnDecl, Program, RelOp, Stmt};
use crate::number::{Number, decimal_error_message, decimal_error_text, parse_isize, parse_signed_decimal};
use crate::text::{
    occurs_at, check_identifier, chars_of, find, first_occurrence, has_prefix, is_identifier, last_occurrence,
    rfind, skip_chars, slice_chars, starts_with, string_of, trim, trim_bounds, trim_chars, trim_end, trim_start,
};

verus! {

/// The message for a name that is not an identifier.
pub open spec fn invalid_ident_message(name: Seq<char>) -> Seq<char> {
    "invalid identifier: "@ + name
}

/// Checks that `name` is an identifier.
pub fn validate_ident(name: &Vec<char>) -> (r: Result<(), String>)
    ensures
        is_identifier(name@) ==> r is Ok,
        !is_identifier(name@) ==> (r matches Err(e) && e@ == invalid_ident_message(name@)),
{
    if check_identifier(name) {
        Ok(())
    } else {
        let mut v = chars_of("invalid identifier: ");
        push_all(&mut v, name);
        Err(string_of(&v))
    }
}

/// A line without its `//` comment.
pub open spec fn strip_comment_spec(line: Seq<char>) -> Seq<char> {
    match first_occurrence(line, "//"@) {
        Some(i) => line.take(i),
        None => line,
    }
}

/// The part of a line before its first `//`.
pub fn strip_comment(line: &Vec<char>) -> (r: Vec<char>)
    ensures
        r@ == strip_comment_spec(line@),
{
    match find(line, &chars_of("//")) {
        Some(i) => slice_chars(line, 0, i),
        None => {
            let mut r: Vec<char> = Vec::new();
            push_all(&mut r, line);
            r
        },
    }
}

/// Splits at the semicolons outside parentheses, scanning from position
/// `i`; `start` is where the current statement began and `depth` the
/// parentheses open.  Empty statements are dropped.
pub open spec fn split_scan(
    t: Seq<char>,
    i: int,
    start: int,
    depth: nat,
    acc: Seq<Seq<char>>,
) -> Result<Seq<Seq<char>>, Seq<char>>
    decreases t.len() - i,
{
    if i < 0 || i >= t.len() {
        if depth != 0 {
            Err("unmatched '('"@)
        } else {
            let tail = trim(t.subrange(start, t.len() as int));
            Ok(
                if tail.len() > 0 {
                    acc.push(tail)
                } else {
                    acc
                },
            )
        }
    } else if t[i] == '(' {
        split_scan(t, i + 1, start, depth + 1, acc)
    } else if t[i] == ')' {
        if depth == 0 {
            Err("unmatched ')'"@)
        } else {
            split_scan(t, i + 1, start, (depth - 1) as nat, acc)
        }
    } else if t[i] == ';' && depth == 0 {
        let stmt = trim(t.subrange(start, i));
        split_scan(
            t,
            i + 1,
            i + 1,
            0,
            if stmt.len() > 0 {
                acc.push(stmt)
            } else {
                acc
            },
        )
    } else {
        split_scan(t, i + 1, start, depth, acc)
    }
}

pub open spec fn seqs_view(v: Seq<Vec<char>>) -> Seq<Seq<char>> {
    v.map_values(|x: Vec<char>| x@)
}

/// The statements of a body: its parts between semicolons that stand
/// outside parentheses, trimmed, empty ones dropped.
pub fn split_statements(text: &Vec<char>) -> (r: Result<Vec<Vec<char>>, String>)
    ensures
        match split_scan(text@, 0, 0, 0, seq![]) {
            Ok(parts) => r matches Ok(v) && seqs_view(v@) == parts,
            Err(m) => r matches Err(e) && e@ == m,
        },
{
    let mut stmts: Vec<Vec<char>> = Vec::new();
    let mut start: usize = 0;
    let mut depth: usize = 0;
    let mut i: usize = 0;
    assert(seqs_view(stmts@) =~= seq![]);
    while i < text.len()
        invariant
            0 <= start <= i <= text.len(),
            depth <= i,
            split_scan(text@, 0, 0, 0, seq![]) == split_scan(
                text@,
                i as int,
                start as int,
                depth as nat,
                seqs_view(stmts@),
            ),
        decreases text.len() - i,
    {
        let ch = text[i];
        if ch == '(' {
            depth += 1;
        } else if ch == ')' {
            if depth == 0 {
                return Err(String::from_str("unmatched ')'"));
            }
            depth -= 1;
        } else if ch == ';' && depth == 0 {
            let (lo, hi) = trim_bounds(text, start, i);
            if hi > lo {
                let ghost before = seqs_view(stmts@);
                stmts.push(slice_chars(text, lo, hi));
                assert(seqs_view(stmts@) =~= before.push(text@.subrange(lo as int, hi as int)));
            }
            start = i + 1;
        }
        i += 1;
    }
    if depth != 0 {
        return Err(String::from_str("unmatched '('"));
    }
    let (lo, hi) = trim_bounds(text, start, text.len());
    if hi > lo {
        let ghost before = seqs_view(stmts@);
        stmts.push(slice_chars(text, lo, hi));
        assert(seqs_view(stmts@) =~= before.push(text@.subrange(lo as int, hi as int)));
    }
    Ok(stmts)
}

/// What a jump offset reads as: a signed decimal numeral between blanks.
pub open spec fn offset_spec(text: Seq<char>) -> Result<int, Seq<char>> {
    let t = trim(text);
    if t.len() == 0 {
        Err("empty offset"@)
    } else {
        match parse_signed_decimal(t) {
            Ok(v) => Ok(v),
            Err(e) => Err("invalid offset '"@ + t + "': "@ + decimal_error_message(e)),
        }
    }
}

/// Reads a jump offset.
pub fn parse_offset(text: &Vec<char>) -> (r: Result<isize, String>)
    ensures
        match offset_spec(text@) {
            Ok(v) => r matches Ok(o) && o as int == v,
            Err(m) => r matches Err(e) && e@ == m,
        },
{
    let t = trim_chars(text);
    if t.len() == 0 {
        return Err(String::from_str("empty offset"));
    }
    match parse_isize(&t) {
        Ok(v) => Ok(v),
        Err(e) => {
            let mut v = chars_of("invalid offset '");
            push_all(&mut v, &t);
            push_str(&mut v, "': ");
            push_all(&mut v, &chars_of(decimal_error_text(e).as_str()));
            Err(string_of(&v))
        },
    }
}

/// Where the line that starts at `i` ends: the next line feed, or the end.
pub open spec fn line_end(t: Seq<char>, i: int) -> int
    decreases t.len() - i,
{
    if i < 0 || i >= t.len() || t[i] == '\n' {
        i
    } else {
        line_end(t, i + 1)
    }
}

/// A line without a carriage return at its end.
pub open spec fn drop_cr(line: Seq<char>) -> Seq<char> {
    if line.len() > 0 && line.last() == '\r' {
        line.drop_last()
    } else {
        line
    }
}

/// The lines of `t` from position `i`, as `str::lines` gives them: split
/// at line feeds, a final line feed ending the last line.
pub open spec fn lines_from(t: Seq<char>, i: int) -> Seq<Seq<char>>
    decreases t.len() - i,
{
    if i < 0 || i >= t.len() {
        seq![]
    } else {
        let j = line_end(t, i);
        let line = drop_cr(t.subrange(i, j));
        if j >= t.len() {
            seq![line]
        } else {
            proof {
                lemma_line_end(t, i);
            }
            seq![line] + lines_from(t, j + 1)
        }
    }
}

pub proof fn lemma_line_end(t: Seq<char>, i: int)
    requires
        0 <= i <= t.len(),
    ensures
        i <= line_end(t, i) <= t.len(),
        line_end(t, i) < t.len() ==> t[line_end(t, i)] == '\n',
    decreases t.len() - i,
{
    if i < t.len() && t[i] != '\n' {
        lemma_line_end(t, i + 1);
    }
}

/// The lines of a text.
pub fn split_lines(t: &Vec<char>) -> (r: Vec<Vec<char>>)
    ensures
        seqs_view(r@) == lines_from(t@, 0),
{
    let mut lines: Vec<Vec<char>> = Vec::new();
    let mut i: usize = 0;
    assert(seqs_view(lines@) =~= seq![]);
    while i < t.len()
        invariant
            0 <= i <= t.len(),
            lines_from(t@, 0) == seqs_view(lines@) + lines_from(t@, i as int),
        decreases t.len() - i,
    {
        let mut j = i;
        while j < t.len() && t[j] != '\n'
            invariant
                i <= j <= t.len(),
                line_end(t@, i as int) == line_end(t@, j as int),
            decreases t.len() - j,
        {
            j += 1;
        }
        let mut hi = j;
        if hi > i && t[hi - 1] == '\r' {
            hi -= 1;
        }
        let line = slice_chars(t, i, hi);
        let ghost before = seqs_view(lines@);
        lines.push(line);
        assert(seqs_view(lines@) =~= before.push(line@));
        assert(line@ =~= drop_cr(t@.subrange(i as int, j as int)));
        if j >= t.len() {
            assert(lines_from(t@, j as int) =~= seq![]);
            assert(lines_from(t@, 0) =~= seqs_view(lines@) + lines_from(t@, j as int));
            i = j;
        } else {
            assert(lines_from(t@, 0) =~= seqs_view(lines@) + lines_from(t@, j + 1));
            i = j + 1;
        }
    }
    assert(lines_from(t@, 0) =~= seqs_view(lines@));
    lines
}

/// A token of an expression.
pub enum Token {
    Ident(String),
    IdVar(String),
    Number(Number),
    Plus,
    Minus,
    Star,
    LParen,
    RParen,
    EqEq,
    Ne,
    Lt,
    Bang,
    AndAnd,
    OrOr,
    Done,
}

/// A token as a value.
pub enum TokenV {
    Ident(Seq<char>),
    IdVar(Seq<char>),
    Number(nat),
    Plus,
    Minus,
    Star,
    LParen,
    RParen,
    EqEq,
    Ne,
    Lt,
    Bang,
    AndAnd,
    OrOr,
    Done,
}

pub open spec fn token_view(t: Token) -> TokenV {
    match t {
        Token::Ident(s) => TokenV::Ident(s@),
        Token::IdVar(s) => TokenV::IdVar(s@),
        Token::Number(n) => TokenV::Number(n.value()),
        Token::Plus => TokenV::Plus,
        Token::Minus => TokenV::Minus,
        Token::Star => TokenV::Star,
        Token::LParen => TokenV::LParen,
        Token::RParen => TokenV::RParen,
        Token::EqEq => TokenV::EqEq,
        Token::Ne => TokenV::Ne,
        Token::Lt => TokenV::Lt,
        Token::Bang => TokenV::Bang,
        Token::AndAnd => TokenV::AndAnd,
        Token::OrOr => TokenV::OrOr,
        Token::Done => TokenV::Done,
    }
}

pub open spec fn tokens_view(t: Seq<Token>) -> Seq<TokenV> {
    t.map_values(|x: Token| token_view(x))
}

pub open spec fn is_word_char(c: char) -> bool {
    crate::text::is_alnum(c) || c == '_'
}

/// Where the run of digits that starts at `i` ends.
pub open spec fn digits_end(t: Seq<char>, i: int) -> int
    decreases t.len() - i,
{
    if i < 0 || i >= t.len() || !crate::text::is_digit(t[i]) {
        i
    } else {
        digits_end(t, i + 1)
    }
}

/// Where the run of word characters that starts at `i` ends.
pub open spec fn word_end(t: Seq<char>, i: int) -> int
    decreases t.len() - i,
{
    if i < 0 || i >= t.len() || !is_word_char(t[i]) {
        i
    } else {
        word_end(t, i + 1)
    }
}

pub proof fn lemma_digits_end(t: Seq<char>, i: int)
    requires
        0 <= i <= t.len(),
    ensures
        i <= digits_end(t, i) <= t.len(),
        forall|k: int| i <= k < digits_end(t, i) ==> crate::text::is_digit(#[trigger] t[k]),
    decreases t.len() - i,
{
    if i < t.len() && crate::text::is_digit(t[i]) {
        lemma_digits_end(t, i + 1);
    }
}

pub proof fn lemma_word_end(t: Seq<char>, i: int)
    requires
        0 <= i <= t.len(),
    ensures
        i <= word_end(t, i) <= t.len(),
        forall|k: int| i <= k < word_end(t, i) ==> is_word_char(#[trigger] t[k]),
    decreases t.len() - i,
{
    if i < t.len() && is_word_char(t[i]) {
        lemma_word_end(t, i + 1);
    }
}

pub open spec fn prepend(tok: TokenV, rest: Result<Seq<TokenV>, Seq<char>>) -> Result<
    Seq<TokenV>,
    Seq<char>,
> {
    match rest {
        Ok(ts) => Ok(seq![tok] + ts),
        Err(m) => Err(m),
    }
}

/// The tokens of `t` from position `i` on.
pub open spec fn lex_from(t: Seq<char>, i: int) -> Result<Seq<TokenV>, Seq<char>>
    decreases t.len() - i,
{
    if i < 0 || i >= t.len() {
        Ok(seq![])
    } else {
        let ch = t[i];
        if crate::text::is_space(ch) {
            lex_from(t, i + 1)
        } else if crate::text::is_digit(ch) {
            let j = digits_end(t, i + 1);
            proof {
                lemma_digits_end(t, i + 1);
            }
            match crate::number::parse_decimal(t.subrange(i, j)) {
                Ok(n) => prepend(TokenV::Number(n), lex_from(t, j)),
                Err(e) => Err(decimal_error_message(e)),
            }
        } else if crate::text::is_alpha(ch) || ch == '_' {
            let j = word_end(t, i + 1);
            proof {
                lemma_word_end(t, i + 1);
            }
            let word = t.subrange(i, j);
            prepend(
                if word == "done"@ {
                    TokenV::Done
                } else {
                    TokenV::Ident(word)
                },
                lex_from(t, j),
            )
        } else if ch == '$' {
            let j = word_end(t, i + 1);
            proof {
                lemma_word_end(t, i + 1);
            }
            let name = t.subrange(i + 1, j);
            if !is_identifier(name) {
                Err(invalid_ident_message(name))
            } else {
                prepend(TokenV::IdVar(name), lex_from(t, j))
            }
        } else if ch == '+' {
            prepend(TokenV::Plus, lex_from(t, i + 1))
        } else if ch == '-' {
            prepend(TokenV::Minus, lex_from(t, i + 1))
        } else if ch == '*' {
            prepend(TokenV::Star, lex_from(t, i + 1))
        } else if ch == '(' {
            prepend(TokenV::LParen, lex_from(t, i + 1))
        } else if ch == ')' {
            prepend(TokenV::RParen, lex_from(t, i + 1))
        } else if ch == '!' {
            if i + 1 < t.len() && t[i + 1] == '=' {
                prepend(TokenV::Ne, lex_from(t, i + 2))
            } else {
                prepend(TokenV::Bang, lex_from(t, i + 1))
            }
        } else if ch == '=' {
            if i + 1 < t.len() && t[i + 1] == '=' {
                prepend(TokenV::EqEq, lex_from(t, i + 2))
            } else {
                Err("expected '=='"@)
            }
        } else if ch == '<' {
            prepend(TokenV::Lt, lex_from(t, i + 1))
        } else if ch == '&' {
            if i + 1 < t.len() && t[i + 1] == '&' {
                prepend(TokenV::AndAnd, lex_from(t, i + 2))
            } else {
                Err("expected '&&'"@)
            }
        } else if ch == '|' {
            if i + 1 < t.len() && t[i + 1] == '|' {
                prepend(TokenV::OrOr, lex_from(t, i + 2))
            } else {
                Err("expected '||'"@)
            }
        } else {
            Err("unexpected character: "@ + seq![ch])
        }
    }
}

/// The tokens of an expression text.
pub open spec fn lex_spec(text: Seq<char>) -> Result<Seq<TokenV>, Seq<char>> {
    lex_from(trim(text), 0)
}

fn push_token(tokens: &mut Vec<Token>, tok: Token)
    ensures
        tokens_view(final(tokens)@) == tokens_view(old(tokens)@).push(token_view(tok)),
{
    let ghost before = tokens@;
    tokens.push(tok);
    assert(tokens_view(tokens@) =~= tokens_view(before).push(token_view(tok)));
}

/// Splits an expression text into tokens.
pub fn lex_expr(text: &Vec<char>) -> (r: Result<Vec<Token>, String>)
    ensures
        match lex_spec(text@) {
            Ok(ts) => r matches Ok(v) && tokens_view(v@) == ts,
            Err(m) => r matches Err(e) && e@ == m,
        },
{
    let t = trim_chars(text);
    let mut tokens: Vec<Token> = Vec::new();
    let mut i: usize = 0;
    assert(tokens_view(tokens@) =~= seq![]);
    while i < t.len()
        invariant
            0 <= i <= t.len(),
            t@ == trim(text@),
            lex_spec(text@) == match lex_from(t@, i as int) {
                Ok(rest) => Ok(tokens_view(tokens@) + rest),
                Err(m) => Err::<Seq<TokenV>, Seq<char>>(m),
            },
        decreases t.len() - i,
    {
        let ghost before = tokens_view(tokens@);
        let ch = t[i];
        if crate::text::is_space_char(ch) {
            i += 1;
            continue;
        }
        if crate::text::is_digit_char(ch) {
            let start = i;
            i += 1;
            while i < t.len() && crate::text::is_digit_char(t[i])
                invariant
                    start < i <= t.len(),
                    digits_end(t@, start + 1) == digits_end(t@, i as int),
                decreases t.len() - i,
            {
                i += 1;
            }
            let digits = slice_chars(&t, start, i);
            let n = match crate::number::parse_usize(&digits) {
                Ok(n) => n,
                Err(e) => {
                    return Err(decimal_error_text(e));
                },
            };
            let tok = Token::Number(Number(n));
            let ghost tv = token_view(tok);
            push_token(&mut tokens, tok);
            proof {
                let rest = lex_from(t@, i as int);
                if rest is Ok {
                    assert(before + (seq![tv] + rest->Ok_0) =~= tokens_view(tokens@) + rest->Ok_0);
                }
            }
            continue;
        }
        if crate::text::is_alpha_char(ch) || ch == '_' {
            let start = i;
            i += 1;
            while i < t.len() && (crate::text::is_alnum_char(t[i]) || t[i] == '_')
                invariant
                    start < i <= t.len(),
                    word_end(t@, start + 1) == word_end(t@, i as int),
                decreases t.len() - i,
            {
                i += 1;
            }
            let word = slice_chars(&t, start, i);
            let tok = if crate::text::chars_equal(&word, &chars_of("done")) {
                Token::Done
            } else {
                Token::Ident(string_of(&word))
            };
            let ghost tv = token_view(tok);
            push_token(&mut tokens, tok);
            proof {
                let rest = lex_from(t@, i as int);
                if rest is Ok {
                    assert(before + (seq![tv] + rest->Ok_0) =~= tokens_view(tokens@) + rest->Ok_0);
                }
            }
            continue;
        }
        if ch == '$' {
            let start = i + 1;
            i += 1;
            while i < t.len() && (crate::text::is_alnum_char(t[i]) || t[i] == '_')
                invariant
                    start <= i <= t.len(),
                    word_end(t@, start as int) == word_end(t@, i as int),
                decreases t.len() - i,
            {
                i += 1;
            }
            let name = slice_chars(&t, start, i);
            validate_ident(&name)?;
            let tok = Token::IdVar(string_of(&name));
            let ghost tv = token_view(tok);
            push_token(&mut tokens, tok);
            proof {
                let rest = lex_from(t@, i as int);
                if rest is Ok {
                    assert(before + (seq![tv] + rest->Ok_0) =~= tokens_view(tokens@) + rest->Ok_0);
                }
            }
            continue;
        }
        let step: usize;
        let tok: Token;
        if ch == '+' {
            tok = Token::Plus;
            step = 1;
        } else if ch == '-' {
            tok = Token::Minus;
            step = 1;
        } else if ch == '*' {
            tok = Token::Star;
            step = 1;
        } else if ch == '(' {
            tok = Token::LParen;
            step = 1;
        } else if ch == ')' {
            tok = Token::RParen;
            step = 1;
        } else if ch == '!' {
            if i + 1 < t.len() && t[i + 1] == '=' {
                tok = Token::Ne;
                step = 2;
            } else {
                tok = Token::Bang;
                step = 1;
            }
        } else if ch == '=' {
            if i + 1 < t.len() && t[i + 1] == '=' {
                tok = Token::EqEq;
                step = 2;
            } else {
                return Err(String::from_str("expected '=='"));
            }
        } else if ch == '<' {
            tok = Token::Lt;
            step = 1;
        } else if ch == '&' {
            if i + 1 < t.len() && t[i + 1] == '&' {
                tok = Token::AndAnd;
                step = 2;
            } else {
                return Err(String::from_str("expected '&&'"));
            }
        } else if ch == '|' {
            if i + 1 < t.len() && t[i + 1] == '|' {
                tok = Token::OrOr;
                step = 2;
            } else {
                return Err(String::from_str("expected '||'"));
            }
        } else {
            let mut v = chars_of("unexpected character: ");
            v.push(ch);
            return Err(string_of(&v));
        }
        let ghost tv = token_view(tok);
        push_token(&mut tokens, tok);
        i += step;
        proof {
            let rest = lex_from(t@, i as int);
            if rest is Ok {
                assert(before + (seq![tv] + rest->Ok_0) =~= tokens_view(tokens@) + rest->Ok_0);
            }
        }
    }
    assert(tokens_view(tokens@) + seq![] =~= tokens_view(tokens@));
    Ok(tokens)
}

/// The operator that a token stands for in an arithmetic expression, with
/// its left and right binding powers.
pub open spec fn arith_op(t: Token) -> Option<(ABinOp, int, int)> {
    match t {
        Token::Plus => Some((ABinOp::Add, 1, 2)),
        Token::Minus => Some((ABinOp::Sub, 1, 2)),
        Token::Star => Some((ABinOp::Mul, 3, 4)),
        _ => None,
    }
}

/// An arithmetic expression read by precedence climbing from position
/// `pos`, binding operators at least as strong as `min_bp`; with the
/// position after it.
pub open spec fn pa(t: Seq<Token>, pos: int, min_bp: int) -> Result<(AExp, int), ()>
    decreases t.len() - pos, 1int,
{
    if pos < 0 || pos >= t.len() {
        Err(())
    } else {
        match t[pos] {
            Token::Ident(name) => pa_loop(t, pos + 1, AExp::Atom(AAtom::Var(name)), min_bp),
            Token::Number(v) => pa_loop(t, pos + 1, AExp::Atom(AAtom::Imm(v)), min_bp),
            Token::LParen => match pa(t, pos + 1, 0) {
                Ok((e, p)) => if pos < p < t.len() && t[p] is RParen {
                    pa_loop(t, p + 1, e, min_bp)
                } else {
                    Err(())
                },
                Err(_) => Err(()),
            },
            _ => Err(()),
        }
    }
}

/// The operators that follow an arithmetic operand at `pos`.
pub open spec fn pa_loop(t: Seq<Token>, pos: int, lhs: AExp, min_bp: int) -> Result<(AExp, int), ()>
    decreases t.len() - pos, 0int,
{
    if 0 <= pos < t.len() && arith_op(t[pos]) is Some {
        let (op, lbp, rbp) = arith_op(t[pos])->0;
        if lbp >= min_bp {
            match pa(t, pos + 1, rbp) {
                Ok((rhs, p)) => if pos < p <= t.len() {
                    pa_loop(t, p, AExp::Bin { lhs: Box::new(lhs), op, rhs: Box::new(rhs) }, min_bp)
                } else {
                    Err(())
                },
                Err(_) => Err(()),
            }
        } else {
            Ok((lhs, pos))
        }
    } else {
        Ok((lhs, pos))
    }
}

/// A comparison operator.
pub open spec fn rel_op(t: Token) -> Option<RelOp> {
    match t {
        Token::EqEq => Some(RelOp::Eq),
        Token::Ne => Some(RelOp::Ne),
        Token::Lt => Some(RelOp::Lt),
        _ => None,
    }
}

/// The rest of a comparison whose left side is `lhs`.
pub open spec fn rel_tail(t: Seq<Token>, pos: int, lhs: AExp) -> Result<(BExp, int), ()> {
    if 0 <= pos < t.len() && rel_op(t[pos]) is Some {
        match pa(t, pos + 1, 0) {
            Ok((rhs, p)) => Ok((BExp::Rel { lhs, op: rel_op(t[pos])->0, rhs }, p)),
            Err(_) => Err(()),
        }
    } else {
        Err(())
    }
}

/// The connective that a token stands for, with its binding powers:
/// `&&` binds stronger than `||`.
pub open spec fn bool_op(t: Token) -> Option<(bool, int, int)> {
    match t {
        Token::AndAnd => Some((true, 2, 3)),
        Token::OrOr => Some((false, 0, 1)),
        _ => None,
    }
}

/// A condition read by precedence climbing from position `pos`.
pub open spec fn pb(t: Seq<Token>, pos: int, min_bp: int) -> Result<(BExp, int), ()>
    decreases t.len() - pos, 1int,
{
    if pos < 0 || pos >= t.len() {
        Err(())
    } else {
        match t[pos] {
            Token::Bang => match pb(t, pos + 1, 5) {
                Ok((e, p)) => if pos < p <= t.len() {
                    pb_loop(t, p, BExp::Not(Box::new(e)), min_bp)
                } else {
                    Err(())
                },
                Err(_) => Err(()),
            },
            Token::Done => if pos + 1 < t.len() && t[pos + 1] is IdVar {
                pb_loop(t, pos + 2, BExp::Done(t[pos + 1]->IdVar_0), min_bp)
            } else {
                Err(())
            },
            Token::LParen => match pb(t, pos + 1, 0) {
                Ok((e, p)) => if pos < p < t.len() && t[p] is RParen {
                    pb_loop(t, p + 1, e, min_bp)
                } else {
                    Err(())
                },
                Err(_) => Err(()),
            },
            Token::Ident(name) => match rel_tail(t, pos + 1, AExp::Atom(AAtom::Var(name))) {
                Ok((e, p)) => if pos < p <= t.len() {
                    pb_loop(t, p, e, min_bp)
                } else {
                    Err(())
                },
                Err(_) => Err(()),
            },
            Token::Number(v) => match rel_tail(t, pos + 1, AExp::Atom(AAtom::Imm(v))) {
                Ok((e, p)) => if pos < p <= t.len() {
                    pb_loop(t, p, e, min_bp)
                } else {
                    Err(())
                },
                Err(_) => Err(()),
            },
            _ => Err(()),
        }
    }
}

/// The connectives that follow a condition at `pos`.
pub open spec fn pb_loop(t: Seq<Token>, pos: int, lhs: BExp, min_bp: int) -> Result<(BExp, int), ()>
    decreases t.len() - pos, 0int,
{
    if 0 <= pos < t.len() && bool_op(t[pos]) is Some {
        let (is_and, lbp, rbp) = bool_op(t[pos])->0;
        if lbp >= min_bp {
        match pb(t, pos + 1, rbp) {
            Ok((rhs, p)) => if pos < p <= t.len() {
                pb_loop(
                    t,
                    p,
                    if is_and {
                        BExp::And(Box::new(lhs), Box::new(rhs))
                    } else {
                        BExp::Or(Box::new(lhs), Box::new(rhs))
                    },
                    min_bp,
                )
            } else {
                Err(())
            },
            Err(_) => Err(()),
        }
        } else {
            Ok((lhs, pos))
        }
    } else {
        Ok((lhs, pos))
    }
}

fn parse_error(what: &str) -> (r: String) {
    String::from_str(what)
}

/// Reads an arithmetic expression at `pos`.
pub fn parse_aexp_bp(t: &Vec<Token>, pos: usize, min_bp: u8) -> (r: Result<(AExp, usize), String>)
    ensures
        match pa(t@, pos as int, min_bp as int) {
            Ok((e, p)) => r matches Ok((e2, p2)) && e2 == e && p2 == p && pos < p <= t@.len(),
            Err(_) => r is Err,
        },
    decreases t@.len() - pos, 1int,
{
    if pos >= t.len() {
        return Err(parse_error("unexpected end of arithmetic expr"));
    }
    let lhs: AExp;
    let next: usize;
    match &t[pos] {
        Token::Ident(name) => {
            lhs = AExp::Atom(AAtom::Var(name.clone()));
            next = pos + 1;
        },
        Token::Number(v) => {
            lhs = AExp::Atom(AAtom::Imm(*v));
            next = pos + 1;
        },
        Token::LParen => {
            let (e, p) = parse_aexp_bp(t, pos + 1, 0)?;
            if p < t.len() && matches!(t[p], Token::RParen) {
                lhs = e;
                next = p + 1;
            } else {
                return Err(parse_error("expected RParen"));
            }
        },
        _ => {
            return Err(parse_error("unexpected token in arithmetic expr"));
        },
    }
    parse_aexp_loop(t, next, lhs, min_bp)
}

/// Reads the operators that follow an arithmetic operand.
pub fn parse_aexp_loop(t: &Vec<Token>, pos: usize, lhs: AExp, min_bp: u8) -> (r: Result<
    (AExp, usize),
    String,
>)
    requires
        0 < pos <= t@.len(),
    ensures
        match pa_loop(t@, pos as int, lhs, min_bp as int) {
            Ok((e, p)) => r matches Ok((e2, p2)) && e2 == e && p2 == p && pos <= p <= t@.len(),
            Err(_) => r is Err,
        },
    decreases t@.len() - pos, 0int,
{
    if pos >= t.len() {
        return Ok((lhs, pos));
    }
    let (op, lbp, rbp): (ABinOp, u8, u8) = match &t[pos] {
        Token::Plus => (ABinOp::Add, 1, 2),
        Token::Minus => (ABinOp::Sub, 1, 2),
        Token::Star => (ABinOp::Mul, 3, 4),
        _ => {
            return Ok((lhs, pos));
        },
    };
    if lbp < min_bp {
        return Ok((lhs, pos));
    }
    let (rhs, p) = parse_aexp_bp(t, pos + 1, rbp)?;
    parse_aexp_loop(t, p, AExp::Bin { lhs: Box::new(lhs), op, rhs: Box::new(rhs) }, min_bp)
}

/// Reads the rest of a comparison whose left side is `lhs`.
pub fn parse_rel_tail(t: &Vec<Token>, pos: usize, lhs: AExp) -> (r: Result<(BExp, usize), String>)
    ensures
        match rel_tail(t@, pos as int, lhs) {
            Ok((e, p)) => r matches Ok((e2, p2)) && e2 == e && p2 == p && pos < p <= t@.len(),
            Err(_) => r is Err,
        },
{
    if pos >= t.len() {
        return Err(parse_error("expected relational operator"));
    }
    let op = match &t[pos] {
        Token::EqEq => RelOp::Eq,
        Token::Ne => RelOp::Ne,
        Token::Lt => RelOp::Lt,
        _ => {
            return Err(parse_error("expected relational operator"));
        },
    };
    let (rhs, p) = parse_aexp_bp(t, pos + 1, 0)?;
    Ok((BExp::Rel { lhs, op, rhs }, p))
}

/// Reads a condition at `pos`.
pub fn parse_bexp_bp(t: &Vec<Token>, pos: usize, min_bp: u8) -> (r: Result<(BExp, usize), String>)
    ensures
        match pb(t@, pos as int, min_bp as int) {
            Ok((e, p)) => r matches Ok((e2, p2)) && e2 == e && p2 == p && pos < p <= t@.len(),
            Err(_) => r is Err,
        },
    decreases t@.len() - pos, 1int,
{
    if pos >= t.len() {
        return Err(parse_error("unexpected end of boolean expr"));
    }
    let lhs: BExp;
    let next: usize;
    match &t[pos] {
        Token::Bang => {
            let (e, p) = parse_bexp_bp(t, pos + 1, 5)?;
            lhs = BExp::Not(Box::new(e));
            next = p;
        },
        Token::Done => {
            if pos + 1 < t.len() {
                match &t[pos + 1] {
                    Token::IdVar(name) => {
                        lhs = BExp::Done(name.clone());
                        next = pos + 2;
                    },
                    _ => {
                        return Err(parse_error("expected task id after done"));
                    },
                }
            } else {
                return Err(parse_error("expected task id after done"));
            }
        },
        Token::LParen => {
            let (e, p) = parse_bexp_bp(t, pos + 1, 0)?;
            if p < t.len() && matches!(t[p], Token::RParen) {
                lhs = e;
                next = p + 1;
            } else {
                return Err(parse_error("expected RParen"));
            }
        },
        Token::Ident(name) => {
            let (e, p) = parse_rel_tail(t, pos + 1, AExp::Atom(AAtom::Var(name.clone())))?;
            lhs = e;
            next = p;
        },
        Token::Number(v) => {
            let (e, p) = parse_rel_tail(t, pos + 1, AExp::Atom(AAtom::Imm(*v)))?;
            lhs = e;
            next = p;
        },
        _ => {
            return Err(parse_error("unexpected token in boolean expr"));
        },
    }
    parse_bexp_loop(t, next, lhs, min_bp)
}

/// Reads the connectives that follow a condition.
pub fn parse_bexp_loop(t: &Vec<Token>, pos: usize, lhs: BExp, min_bp: u8) -> (r: Result<
    (BExp, usize),
    String,
>)
    requires
        0 < pos <= t@.len(),
    ensures
        match pb_loop(t@, pos as int, lhs, min_bp as int) {
            Ok((e, p)) => r matches Ok((e2, p2)) && e2 == e && p2 == p && pos <= p <= t@.len(),
            Err(_) => r is Err,
        },
    decreases t@.len() - pos, 0int,
{
    if pos >= t.len() {
        return Ok((lhs, pos));
    }
    let (is_and, lbp, rbp): (bool, u8, u8) = match &t[pos] {
        Token::AndAnd => (true, 2, 3),
        Token::OrOr => (false, 0, 1),
        _ => {
            return Ok((lhs, pos));
        },
    };
    if lbp < min_bp {
        return Ok((lhs, pos));
    }
    let (rhs, p) = parse_bexp_bp(t, pos + 1, rbp)?;
    let e = if is_and {
        BExp::And(Box::new(lhs), Box::new(rhs))
    } else {
        BExp::Or(Box::new(lhs), Box::new(rhs))
    };
    parse_bexp_loop(t, p, e, min_bp)
}

/// The arithmetic expression that a token sequence forms, all of it.
pub open spec fn aexp_of_tokens(t: Seq<Token>) -> Result<AExp, ()> {
    match pa(t, 0, 0) {
        Ok((e, p)) => if p == t.len() {
            Ok(e)
        } else {
            Err(())
        },
        Err(_) => Err(()),
    }
}

/// The condition that a token sequence forms, all of it.
pub open spec fn bexp_of_tokens(t: Seq<Token>) -> Result<BExp, ()> {
    match pb(t, 0, 0) {
        Ok((e, p)) => if p == t.len() {
            Ok(e)
        } else {
            Err(())
        },
        Err(_) => Err(()),
    }
}

proof fn lemma_same_token(t1: Seq<Token>, t2: Seq<Token>, i: int)
    requires
        tokens_view(t1) == tokens_view(t2),
        0 <= i < t1.len(),
    ensures
        t1.len() == t2.len(),
        token_view(t1[i]) == token_view(t2[i]),
        t1[i] is Ident <==> t2[i] is Ident,
        t1[i] is IdVar <==> t2[i] is IdVar,
        t1[i] is Number <==> t2[i] is Number,
        t1[i] is LParen <==> t2[i] is LParen,
        t1[i] is RParen <==> t2[i] is RParen,
        t1[i] is Bang <==> t2[i] is Bang,
        t1[i] is Done <==> t2[i] is Done,
        arith_op(t1[i]) == arith_op(t2[i]),
        rel_op(t1[i]) == rel_op(t2[i]),
        bool_op(t1[i]) == bool_op(t2[i]),
{
    assert(tokens_view(t1).len() == t1.len());
    assert(tokens_view(t2).len() == t2.len());
    assert(tokens_view(t1)[i] == token_view(t1[i]));
    assert(tokens_view(t2)[i] == token_view(t2[i]));
}

/// Whether an arithmetic expression reads, and where it ends, depends on
/// the kinds of the tokens alone.
proof fn lemma_pa_kinds(t1: Seq<Token>, t2: Seq<Token>, pos: int, bp: int)
    requires
        tokens_view(t1) == tokens_view(t2),
    ensures
        (pa(t1, pos, bp) is Ok) == (pa(t2, pos, bp) is Ok),
        pa(t1, pos, bp) is Ok ==> pa(t1, pos, bp)->Ok_0.1 == pa(t2, pos, bp)->Ok_0.1,
    decreases t1.len() - pos, 1int,
{
    assert(tokens_view(t1).len() == t1.len() && tokens_view(t2).len() == t2.len());
    if 0 <= pos < t1.len() {
        lemma_same_token(t1, t2, pos);
        match t1[pos] {
            Token::Ident(n1) => {
                let n2 = t2[pos]->Ident_0;
                lemma_pa_loop_kinds(t1, t2, pos + 1, AExp::Atom(AAtom::Var(n1)), AExp::Atom(AAtom::Var(n2)), bp);
            },
            Token::Number(v1) => {
                let v2 = t2[pos]->Number_0;
                lemma_pa_loop_kinds(t1, t2, pos + 1, AExp::Atom(AAtom::Imm(v1)), AExp::Atom(AAtom::Imm(v2)), bp);
            },
            Token::LParen => {
                lemma_pa_kinds(t1, t2, pos + 1, 0);
                match pa(t1, pos + 1, 0) {
                    Ok((e1, p)) => {
                        let e2 = pa(t2, pos + 1, 0)->Ok_0.0;
                        if pos < p < t1.len() {
                            lemma_same_token(t1, t2, p);
                            if t1[p] is RParen {
                                lemma_pa_loop_kinds(t1, t2, p + 1, e1, e2, bp);
                            }
                        }
                    },
                    Err(_) => {},
                }
            },
            _ => {},
        }
    }
}

proof fn lemma_pa_loop_kinds(t1: Seq<Token>, t2: Seq<Token>, pos: int, l1: AExp, l2: AExp, bp: int)
    requires
        tokens_view(t1) == tokens_view(t2),
    ensures
        (pa_loop(t1, pos, l1, bp) is Ok) == (pa_loop(t2, pos, l2, bp) is Ok),
        pa_loop(t1, pos, l1, bp) is Ok ==> pa_loop(t1, pos, l1, bp)->Ok_0.1 == pa_loop(t2, pos, l2, bp)->Ok_0.1,
    decreases t1.len() - pos, 0int,
{
    assert(tokens_view(t1).len() == t1.len() && tokens_view(t2).len() == t2.len());
    if 0 <= pos < t1.len() {
        lemma_same_token(t1, t2, pos);
        if arith_op(t1[pos]) is Some {
            let (op, lbp, rbp) = arith_op(t1[pos])->0;
            if lbp >= bp {
                lemma_pa_kinds(t1, t2, pos + 1, rbp);
                match pa(t1, pos + 1, rbp) {
                    Ok((r1, p)) => {
                        let r2 = pa(t2, pos + 1, rbp)->Ok_0.0;
                        if pos < p <= t1.len() {
                            lemma_pa_loop_kinds(
                                t1,
                                t2,
                                p,
                                AExp::Bin { lhs: Box::new(l1), op, rhs: Box::new(r1) },
                                AExp::Bin { lhs: Box::new(l2), op, rhs: Box::new(r2) },
                                bp,
                            );
                        }
                    },
                    Err(_) => {},
                }
            }
        }
    }
}

proof fn lemma_rel_tail_kinds(t1: Seq<Token>, t2: Seq<Token>, pos: int, l1: AExp, l2: AExp)
    requires
        tokens_view(t1) == tokens_view(t2),
    ensures
        (rel_tail(t1, pos, l1) is Ok) == (rel_tail(t2, pos, l2) is Ok),
        rel_tail(t1, pos, l1) is Ok ==> rel_tail(t1, pos, l1)->Ok_0.1 == rel_tail(t2, pos, l2)->Ok_0.1,
{
    assert(tokens_view(t1).len() == t1.len() && tokens_view(t2).len() == t2.len());
    if 0 <= pos < t1.len() {
        lemma_same_token(t1, t2, pos);
        lemma_pa_kinds(t1, t2, pos + 1, 0);
    }
}

/// Whether a condition reads, and where it ends, depends on the kinds of
/// the tokens alone.
proof fn lemma_pb_kinds(t1: Seq<Token>, t2: Seq<Token>, pos: int, bp: int)
    requires
        tokens_view(t1) == tokens_view(t2),
    ensures
        (pb(t1, pos, bp) is Ok) == (pb(t2, pos, bp) is Ok),
        pb(t1, pos, bp) is Ok ==> pb(t1, pos, bp)->Ok_0.1 == pb(t2, pos, bp)->Ok_0.1,
    decreases t1.len() - pos, 1int,
{
    assert(tokens_view(t1).len() == t1.len() && tokens_view(t2).len() == t2.len());
    if 0 <= pos < t1.len() {
        lemma_same_token(t1, t2, pos);
        match t1[pos] {
            Token::Bang => {
                lemma_pb_kinds(t1, t2, pos + 1, 5);
                match pb(t1, pos + 1, 5) {
                    Ok((e1, p)) => {
                        let e2 = pb(t2, pos + 1, 5)->Ok_0.0;
                        if pos < p <= t1.len() {
                            lemma_pb_loop_kinds(t1, t2, p, BExp::Not(Box::new(e1)), BExp::Not(Box::new(e2)), bp);
                        }
                    },
                    Err(_) => {},
                }
            },
            Token::Done => {
                if pos + 1 < t1.len() {
                    lemma_same_token(t1, t2, pos + 1);
                    if t1[pos + 1] is IdVar {
                        lemma_pb_loop_kinds(
                            t1,
                            t2,
                            pos + 2,
                            BExp::Done(t1[pos + 1]->IdVar_0),
                            BExp::Done(t2[pos + 1]->IdVar_0),
                            bp,
                        );
                    }
                }
            },
            Token::LParen => {
                lemma_pb_kinds(t1, t2, pos + 1, 0);
                match pb(t1, pos + 1, 0) {
                    Ok((e1, p)) => {
                        let e2 = pb(t2, pos + 1, 0)->Ok_0.0;
                        if pos < p < t1.len() {
                            lemma_same_token(t1, t2, p);
                            if t1[p] is RParen {
                                lemma_pb_loop_kinds(t1, t2, p + 1, e1, e2, bp);
                            }
                        }
                    },
                    Err(_) => {},
                }
            },
            Token::Ident(n1) => {
                let n2 = t2[pos]->Ident_0;
                let a1 = AExp::Atom(AAtom::Var(n1));
                let a2 = AExp::Atom(AAtom::Var(n2));
                lemma_rel_tail_kinds(t1, t2, pos + 1, a1, a2);
                match rel_tail(t1, pos + 1, a1) {
                    Ok((e1, p)) => {
                        let e2 = rel_tail(t2, pos + 1, a2)->Ok_0.0;
                        if pos < p <= t1.len() {
                            lemma_pb_loop_kinds(t1, t2, p, e1, e2, bp);
                        }
                    },
                    Err(_) => {},
                }
            },
            Token::Number(v1) => {
                let v2 = t2[pos]->Number_0;
                let a1 = AExp::Atom(AAtom::Imm(v1));
                let a2 = AExp::Atom(AAtom::Imm(v2));
                lemma_rel_tail_kinds(t1, t2, pos + 1, a1, a2);
                match rel_tail(t1, pos + 1, a1) {
                    Ok((e1, p)) => {
                        let e2 = rel_tail(t2, pos + 1, a2)->Ok_0.0;
                        if pos < p <= t1.len() {
                            lemma_pb_loop_kinds(t1, t2, p, e1, e2, bp);
                        }
                    },
                    Err(_) => {},
                }
            },
            _ => {},
        }
    }
}

proof fn lemma_pb_loop_kinds(t1: Seq<Token>, t2: Seq<Token>, pos: int, l1: BExp, l2: BExp, bp: int)
    requires
        tokens_view(t1) == tokens_view(t2),
    ensures
        (pb_loop(t1, pos, l1, bp) is Ok) == (pb_loop(t2, pos, l2, bp) is Ok),
        pb_loop(t1, pos, l1, bp) is Ok ==> pb_loop(t1, pos, l1, bp)->Ok_0.1 == pb_loop(t2, pos, l2, bp)->Ok_0.1,
    decreases t1.len() - pos, 0int,
{
    assert(tokens_view(t1).len() == t1.len() && tokens_view(t2).len() == t2.len());
    if 0 <= pos < t1.len() {
        lemma_same_token(t1, t2, pos);
        if bool_op(t1[pos]) is Some {
            let (is_and, lbp, rbp) = bool_op(t1[pos])->0;
            if lbp >= bp {
                lemma_pb_kinds(t1, t2, pos + 1, rbp);
                match pb(t1, pos + 1, rbp) {
                    Ok((r1, p)) => {
                        let r2 = pb(t2, pos + 1, rbp)->Ok_0.0;
                        if pos < p <= t1.len() {
                            let n1 = if is_and {
                                BExp::And(Box::new(l1), Box::new(r1))
                            } else {
                                BExp::Or(Box::new(l1), Box::new(r1))
                            };
                            let n2 = if is_and {
                                BExp::And(Box::new(l2), Box::new(r2))
                            } else {
                                BExp::Or(Box::new(l2), Box::new(r2))
                            };
                            lemma_pb_loop_kinds(t1, t2, p, n1, n2, bp);
                        }
                    },
                    Err(_) => {},
                }
            }
        }
    }
}

/// Whether the text reads as the arithmetic expression `e`.
pub open spec fn aexp_parses_to(text: Seq<char>, e: AExp) -> bool {
    &&& lex_spec(text) is Ok
    &&& exists|ts: Seq<Token>| #[trigger]
        tokens_view(ts) == lex_spec(text)->Ok_0 && aexp_of_tokens(ts) == Ok::<AExp, ()>(e)
}

/// Whether the text reads as the condition `e`.
pub open spec fn bexp_parses_to(text: Seq<char>, e: BExp) -> bool {
    &&& lex_spec(text) is Ok
    &&& exists|ts: Seq<Token>| #[trigger]
        tokens_view(ts) == lex_spec(text)->Ok_0 && bexp_of_tokens(ts) == Ok::<BExp, ()>(e)
}

/// A parser of expressions over the tokens of a text.
pub struct ExprParser {
    pub tokens: Vec<Token>,
    pub pos: usize,
}

impl ExprParser {
    pub fn new(text: &Vec<char>) -> (r: Result<ExprParser, String>)
        ensures
            match lex_spec(text@) {
                Ok(ts) => r matches Ok(p) && tokens_view(p.tokens@) == ts && p.pos == 0,
                Err(m) => r matches Err(e) && e@ == m,
            },
    {
        let tokens = lex_expr(text)?;
        Ok(ExprParser { tokens, pos: 0 })
    }

    /// Reads all the tokens as an arithmetic expression.
    pub fn parse_aexp(self) -> (r: Result<AExp, String>)
        requires
            self.pos == 0,
        ensures
            match aexp_of_tokens(self.tokens@) {
                Ok(e) => r == Ok::<AExp, String>(e),
                Err(_) => r is Err,
            },
    {
        if self.tokens.len() == 0 {
            return Err(parse_error("unexpected end of arithmetic expr"));
        }
        let (e, p) = parse_aexp_bp(&self.tokens, 0, 0)?;
        if p == self.tokens.len() {
            Ok(e)
        } else {
            Err(parse_error("unexpected trailing tokens"))
        }
    }

    /// Reads all the tokens as a condition.
    pub fn parse_bexp(self) -> (r: Result<BExp, String>)
        requires
            self.pos == 0,
        ensures
            match bexp_of_tokens(self.tokens@) {
                Ok(e) => r == Ok::<BExp, String>(e),
                Err(_) => r is Err,
            },
    {
        if self.tokens.len() == 0 {
            return Err(parse_error("unexpected end of boolean expr"));
        }
        let (e, p) = parse_bexp_bp(&self.tokens, 0, 0)?;
        if p == self.tokens.len() {
            Ok(e)
        } else {
            Err(parse_error("unexpected trailing tokens"))
        }
    }
}

/// Reads an arithmetic expression from its text.
pub fn parse_aexp_text(text: &Vec<char>) -> (r: Result<AExp, String>)
    ensures
        r matches Ok(e) ==> aexp_parses_to(text@, e),
        r is Err ==> forall|e: AExp| !aexp_parses_to(text@, e),
        lex_spec(text@) matches Err(m) ==> (r matches Err(e) && e@ == m),
{
    let parser = ExprParser::new(text)?;
    let ghost ts = parser.tokens@;
    let e = match parser.parse_aexp() {
        Ok(e) => e,
        Err(m) => {
            assert forall|e: AExp| !aexp_parses_to(text@, e) by {
                if aexp_parses_to(text@, e) {
                    let ts2 = choose|ts2: Seq<Token>| #[trigger]
                        tokens_view(ts2) == lex_spec(text@)->Ok_0 && aexp_of_tokens(ts2) == Ok::<AExp, ()>(e);
                    lemma_pa_kinds(ts, ts2, 0, 0);
                    assert(tokens_view(ts).len() == ts.len() && tokens_view(ts2).len() == ts2.len());
                }
            }
            return Err(m);
        },
    };
    assert(tokens_view(ts) == lex_spec(text@)->Ok_0 && aexp_of_tokens(ts) == Ok::<AExp, ()>(e));
    Ok(e)
}

/// Reads a condition from its text.
pub fn parse_bexp_text(text: &Vec<char>) -> (r: Result<BExp, String>)
    ensures
        r matches Ok(e) ==> bexp_parses_to(text@, e),
        r is Err ==> forall|e: BExp| !bexp_parses_to(text@, e),
        lex_spec(text@) matches Err(m) ==> (r matches Err(e) && e@ == m),
{
    let parser = ExprParser::new(text)?;
    let ghost ts = parser.tokens@;
    let e = match parser.parse_bexp() {
        Ok(e) => e,
        Err(m) => {
            assert forall|e: BExp| !bexp_parses_to(text@, e) by {
                if bexp_parses_to(text@, e) {
                    let ts2 = choose|ts2: Seq<Token>| #[trigger]
                        tokens_view(ts2) == lex_spec(text@)->Ok_0 && bexp_of_tokens(ts2) == Ok::<BExp, ()>(e);
                    lemma_pb_kinds(ts, ts2, 0, 0);
                    assert(tokens_view(ts).len() == ts.len() && tokens_view(ts2).len() == ts2.len());
                }
            }
            return Err(m);
        },
    };
    assert(tokens_view(ts) == lex_spec(text@)->Ok_0 && bexp_of_tokens(ts) == Ok::<BExp, ()>(e));
    Ok(e)
}

/// What a statement text reads as, where it reads at all.
pub open spec fn stmt_parses_to(text: Seq<char>, s: Stmt) -> bool {
    if starts_with(text, "if "@) {
        if_goto_parses_to(text, s)
    } else if starts_with(text, "goto "@) {
        s matches Stmt::Goto { offset } && offset_spec(text.skip(5)) == Ok::<int, Seq<char>>(
            offset as int,
        )
    } else if starts_with(text, "call "@) {
        s matches Stmt::Call { name } && name@ == trim(text.skip(5)) && is_identifier(name@)
    } else if starts_with(text, "run "@) {
        run_parses_to(text, s)
    } else if text == "yield"@ {
        s is Yield
    } else {
        assign_parses_to(text, s)
    }
}

/// Whether `if c goto o` reads as `s`: the condition up to the last ` goto `.
pub open spec fn if_goto_parses_to(text: Seq<char>, s: Stmt) -> bool {
    let rest = text.skip(3);
    &&& last_occurrence(rest, " goto "@) is Some
    &&& {
        let k = last_occurrence(rest, " goto "@)->0;
        s matches Stmt::IfGoto { cond, offset } && bexp_parses_to(rest.take(k), cond) && offset_spec(
            rest.skip(k + 6),
        ) == Ok::<int, Seq<char>>(offset as int)
    }
}

/// Whether `run f -> $t` reads as `s`.
pub open spec fn run_parses_to(text: Seq<char>, s: Stmt) -> bool {
    let rest = text.skip(4);
    &&& first_occurrence(rest, "->"@) is Some
    &&& {
        let k = first_occurrence(rest, "->"@)->0;
        s matches Stmt::Run { name, id_var } && name@ == trim(rest.take(k)) && is_identifier(name@)
            && trim(rest.skip(k + 2)) == "$"@ + id_var@ && is_identifier(id_var@)
    }
}

/// Whether `x <- e` reads as `s`: the variable up to the first `<-`.
pub open spec fn assign_parses_to(text: Seq<char>, s: Stmt) -> bool {
    &&& first_occurrence(text, "<-"@) is Some
    &&& {
        let k = first_occurrence(text, "<-"@)->0;
        s matches Stmt::Assign { var, expr } && var@ == trim(text.take(k)) && is_identifier(var@)
            && aexp_parses_to(text.skip(k + 2), expr)
    }
}

fn parse_if_goto(text: &Vec<char>) -> (r: Result<Stmt, String>)
    requires
        starts_with(text@, "if "@),
    ensures
        r matches Ok(s) ==> stmt_parses_to(text@, s),
        r is Err ==> forall|s: Stmt| !if_goto_parses_to(text@, s),
        last_occurrence(text@.skip(3), " goto "@) is None ==> (r matches Err(e) && e@
            == "invalid if-goto statement: "@ + text@),
{
    proof {
        reveal_strlit("if ");
        reveal_strlit(" goto ");
    }
    let rest = skip_chars(text, 3);
    let k = match rfind(&rest, &chars_of(" goto ")) {
        Some(k) => k,
        None => {
            let mut v = chars_of("invalid if-goto statement: ");
            push_all(&mut v, text);
            return Err(string_of(&v));
        },
    };
    assert(rest@.subrange(0, k as int) =~= rest@.take(k as int));
    let cond = parse_bexp_text(&slice_chars(&rest, 0, k))?;
    let offset = parse_offset(&skip_chars(&rest, k + 6))?;
    Ok(Stmt::IfGoto { cond, offset })
}

fn parse_run(text: &Vec<char>) -> (r: Result<Stmt, String>)
    requires
        starts_with(text@, "run "@),
    ensures
        r matches Ok(s) ==> run_parses_to(text@, s),
        r is Err ==> forall|s: Stmt| !run_parses_to(text@, s),
        first_occurrence(text@.skip(4), "->"@) is None ==> (r matches Err(e) && e@
            == "invalid run statement: "@ + text@),
{
    proof {
        reveal_strlit("run ");
        reveal_strlit("->");
    }
    let rest = skip_chars(text, 4);
    let k = match find(&rest, &chars_of("->")) {
        Some(k) => k,
        None => {
            let mut v = chars_of("invalid run statement: ");
            push_all(&mut v, text);
            return Err(string_of(&v));
        },
    };
    let name = trim_chars(&slice_chars(&rest, 0, k));
    let id_var = trim_chars(&skip_chars(&rest, k + 2));
    assert(rest@.subrange(0, k as int) =~= rest@.take(k as int));
    validate_ident(&name)?;
    proof {
        reveal_strlit("$");
    }
    if id_var.len() == 0 || id_var[0] != '$' {
        assert forall|s: Stmt| !run_parses_to(text@, s) by {
            if run_parses_to(text@, s) {
                let x = s->Run_id_var;
                assert(("$"@ + x@)[0] == '$');
            }
        }
        let mut v = chars_of("expected task id after '->' in: ");
        push_all(&mut v, text);
        return Err(string_of(&v));
    }
    let id = skip_chars(&id_var, 1);
    assert forall|s: Stmt| #[trigger] run_parses_to(text@, s) implies s->Run_id_var@ == id@ by {
        let x = s->Run_id_var;
        assert(("$"@ + x@).skip(1) =~= x@);
    }
    validate_ident(&id)?;
    assert(id_var@ =~= "$"@ + id@);
    Ok(Stmt::Run { name: string_of(&name), id_var: string_of(&id) })
}

fn parse_assign(text: &Vec<char>) -> (r: Result<Stmt, String>)
    ensures
        r matches Ok(s) ==> assign_parses_to(text@, s),
        r is Err ==> forall|s: Stmt| !assign_parses_to(text@, s),
        first_occurrence(text@, "<-"@) is None ==> (r matches Err(e) && e@ == "invalid statement: "@
            + text@),
{
    proof {
        reveal_strlit("<-");
    }
    let arrow = chars_of("<-");
    assert(arrow@.len() == 2);
    let k = match find(text, &arrow) {
        Some(k) => k,
        None => {
            let mut v = chars_of("invalid statement: ");
            push_all(&mut v, text);
            return Err(string_of(&v));
        },
    };
    assert(occurs_at(text@, arrow@, k as int));
    assert(k + 2 <= text.len());
    let var = trim_chars(&slice_chars(text, 0, k));
    assert(text@.subrange(0, k as int) =~= text@.take(k as int));
    validate_ident(&var)?;
    let expr = parse_aexp_text(&skip_chars(text, k + 2))?;
    Ok(Stmt::Assign { var: string_of(&var), expr })
}

/// Reads one statement.
pub fn parse_stmt(text: &Vec<char>) -> (r: Result<Stmt, String>)
    ensures
        r matches Ok(s) ==> stmt_parses_to(text@, s),
        r is Err ==> forall|s: Stmt| !stmt_parses_to(text@, s),
        (starts_with(text@, "if "@) && last_occurrence(text@.skip(3), " goto "@) is None) ==> (
        r matches Err(e) && e@ == "invalid if-goto statement: "@ + text@),
        (!starts_with(text@, "if "@) && !starts_with(text@, "goto "@) && !starts_with(
            text@,
            "call "@,
        ) && starts_with(text@, "run "@) && first_occurrence(text@.skip(4), "->"@) is None) ==> (
        r matches Err(e) && e@ == "invalid run statement: "@ + text@),
        (!starts_with(text@, "if "@) && !starts_with(text@, "goto "@) && !starts_with(
            text@,
            "call "@,
        ) && !starts_with(text@, "run "@) && text@ != "yield"@ && first_occurrence(text@, "<-"@)
            is None) ==> (r matches Err(e) && e@ == "invalid statement: "@ + text@),
{
    proof {
        reveal_strlit("goto ");
        reveal_strlit("call ");
    }
    if has_prefix(text, &chars_of("if ")) {
        return parse_if_goto(text);
    }
    if has_prefix(text, &chars_of("goto ")) {
        let offset = parse_offset(&skip_chars(text, 5))?;
        return Ok(Stmt::Goto { offset });
    }
    if has_prefix(text, &chars_of("call ")) {
        let name = trim_chars(&skip_chars(text, 5));
        validate_ident(&name)?;
        return Ok(Stmt::Call { name: string_of(&name) });
    }
    if has_prefix(text, &chars_of("run ")) {
        return parse_run(text);
    }
    if crate::text::chars_equal(text, &chars_of("yield")) {
        return Ok(Stmt::Yield);
    }
    parse_assign(text)
}

/// A line without its comment, trimmed.
pub open spec fn line_header(line: Seq<char>) -> Seq<char> {
    trim(strip_comment_spec(line))
}

/// The first line at or after `pos` with something besides a comment, or
/// the number of lines where there is none.
pub open spec fn next_nonempty(lines: Seq<Seq<char>>, pos: int) -> int
    decreases lines.len() - pos,
{
    if pos < 0 || pos >= lines.len() {
        lines.len() as int
    } else if line_header(lines[pos]).len() > 0 {
        pos
    } else {
        next_nonempty(lines, pos + 1)
    }
}

pub proof fn lemma_next_nonempty(lines: Seq<Seq<char>>, pos: int)
    requires
        0 <= pos <= lines.len(),
    ensures
        pos <= next_nonempty(lines, pos) <= lines.len(),
        next_nonempty(lines, pos) < lines.len() ==> line_header(
            lines[next_nonempty(lines, pos)],
        ).len() > 0,
    decreases lines.len() - pos,
{
    if pos < lines.len() && line_header(lines[pos]).len() == 0 {
        lemma_next_nonempty(lines, pos + 1);
    }
}

/// The body lines of a function whose header did not close it: lines
/// until one holding `}`, with the part of that line before it.  Gives the
/// parts, the line after, and whether `}` was found.
pub open spec fn collect_body(lines: Seq<Seq<char>>, pos: int, parts: Seq<Seq<char>>) -> Result<
    (Seq<Seq<char>>, int, bool),
    Seq<char>,
>
    decreases lines.len() - pos,
{
    if pos < 0 || pos > lines.len() {
        Ok((parts, pos, false))
    } else {
        let q = next_nonempty(lines, pos);
        if q >= lines.len() {
            Ok((parts, q, false))
        } else {
            proof {
                lemma_next_nonempty(lines, pos);
            }
            let line = line_header(lines[q]);
            match first_occurrence(line, "}"@) {
                Some(c) => {
                    let after = line.skip(c + 1);
                    if trim(after).len() > 0 {
                        Err("unexpected tokens after '}': "@ + after)
                    } else {
                        Ok((parts.push(trim(line.take(c))), q + 1, true))
                    }
                },
                None => collect_body(lines, q + 1, parts.push(line)),
            }
        }
    }
}

/// The non-empty parts joined by single blanks.
pub open spec fn join_parts(parts: Seq<Seq<char>>) -> Seq<char>
    decreases parts.len(),
{
    if parts.len() == 0 {
        seq![]
    } else {
        let rest = join_parts(parts.drop_last());
        if parts.last().len() == 0 {
            rest
        } else if rest.len() == 0 {
            parts.last()
        } else {
            rest + " "@ + parts.last()
        }
    }
}

/// Whether the statements of `body` are what the statement texts read as.
pub open spec fn body_parses_to(texts: Seq<Seq<char>>, body: Seq<Stmt>) -> bool {
    texts.len() == body.len() && forall|i: int|
        0 <= i < body.len() ==> stmt_parses_to(#[trigger] texts[i], body[i])
}

/// The name, body parts and the line after a function whose header is
/// `header` and whose body lines start at `pos`.
pub open spec fn function_parts(header: Seq<char>, lines: Seq<Seq<char>>, pos: int) -> Result<
    (Seq<char>, Seq<Seq<char>>, int),
    Seq<char>,
> {
    if !starts_with(header, "fn "@) {
        Err("expected function declaration, got: "@ + header)
    } else {
        let h = header.skip(3);
        match first_occurrence(h, "{"@) {
            None => Err("expected '{' in function declaration: "@ + h),
            Some(k) => {
                let name = trim(h.take(k));
                let rest = h.skip(k + 1);
                if !is_identifier(name) {
                    Err(invalid_ident_message(name))
                } else if first_occurrence(h, "}"@) is Some {
                    let last = trim(rest);
                    match first_occurrence(last, "}"@) {
                        None => Err("malformed function body"@),
                        Some(q) => {
                            let after = last.skip(q + 1);
                            if trim(after).len() > 0 {
                                Err("unexpected tokens after '}': "@ + after)
                            } else {
                                Ok((name, seq![trim(last.take(q))], pos))
                            }
                        },
                    }
                } else {
                    match collect_body(lines, pos, seq![trim(rest)]) {
                        Err(m) => Err(m),
                        Ok((parts, np, found)) => if !found {
                            Err("function "@ + name + " is missing closing '}'"@)
                        } else {
                            Ok((name, parts, np))
                        },
                    }
                }
            },
        }
    }
}

/// Whether `f` is what the function with header `header` and body lines
/// from `pos` reads as, the lines after it starting at `np`.
#[verifier::opaque]
pub open spec fn function_parses_to(
    header: Seq<char>,
    lines: Seq<Seq<char>>,
    pos: int,
    f: FnDecl,
    np: int,
) -> bool {
    &&& function_parts(header, lines, pos) is Ok
    &&& {
        let (name, parts, next) = function_parts(header, lines, pos)->Ok_0;
        &&& f.name@ == name
        &&& next == np
        &&& split_scan(join_parts(parts), 0, 0, 0, seq![]) is Ok
        &&& body_parses_to(split_scan(join_parts(parts), 0, 0, 0, seq![])->Ok_0, f.body@)
    }
}

/// The line after the function with header `header` and body lines from `pos`.
pub open spec fn function_end(header: Seq<char>, lines: Seq<Seq<char>>, pos: int) -> int {
    function_parts(header, lines, pos)->Ok_0.2
}

/// Whether `fs` are the functions that the lines from `pos` on read as.
pub open spec fn functions_parse_to(lines: Seq<Seq<char>>, pos: int, fs: Seq<FnDecl>) -> bool
    decreases fs.len(),
{
    let q = next_nonempty(lines, pos);
    if fs.len() == 0 {
        q >= lines.len()
    } else {
        let header = line_header(lines[q]);
        let np = function_end(header, lines, q + 1);
        &&& q < lines.len()
        &&& function_parses_to(header, lines, q + 1, fs[0], np)
        &&& functions_parse_to(lines, np, fs.drop_first())
    }
}

/// Reads a program: one or more functions.
pub open spec fn program_parses_to(text: Seq<char>, p: Program) -> bool {
    p.functions@.len() > 0 && functions_parse_to(lines_from(text, 0), 0, p.functions@)
}

/// Whether a statement text reads as some statement.
pub open spec fn stmt_reads(text: Seq<char>) -> bool {
    exists|s: Stmt| stmt_parses_to(text, s)
}

fn join_parts_exec(parts: &Vec<Vec<char>>) -> (r: Vec<char>)
    ensures
        r@ == join_parts(seqs_view(parts@)),
{
    let mut v: Vec<char> = Vec::new();
    let mut i: usize = 0;
    let ghost ps = seqs_view(parts@);
    assert(ps.take(0) =~= seq![]);
    while i < parts.len()
        invariant
            0 <= i <= parts.len(),
            ps == seqs_view(parts@),
            v@ == join_parts(ps.take(i as int)),
        decreases parts.len() - i,
    {
        assert(ps.take(i + 1).drop_last() =~= ps.take(i as int));
        assert(ps.take(i + 1).last() == parts@[i as int]@);
        if parts[i].len() > 0 {
            if v.len() > 0 {
                push_str(&mut v, " ");
            }
            push_all(&mut v, &parts[i]);
        }
        i += 1;
    }
    assert(ps.take(parts.len() as int) =~= ps);
    v
}

fn parse_body(texts: &Vec<Vec<char>>) -> (r: Result<Vec<Stmt>, String>)
    ensures
        r matches Ok(body) ==> body_parses_to(seqs_view(texts@), body@),
        r is Ok <==> forall|j: int| 0 <= j < texts@.len() ==> #[trigger] stmt_reads(seqs_view(texts@)[j]),
{
    let mut body: Vec<Stmt> = Vec::new();
    let mut i: usize = 0;
    while i < texts.len()
        invariant
            0 <= i <= texts.len(),
            body@.len() == i,
            forall|j: int| 0 <= j < i ==> stmt_parses_to(#[trigger] seqs_view(texts@)[j], body@[j]),
        decreases texts.len() - i,
    {
        let st = match parse_stmt(&texts[i]) {
            Ok(st) => st,
            Err(e) => {
                assert(seqs_view(texts@)[i as int] == texts@[i as int]@);
                assert(!stmt_reads(seqs_view(texts@)[i as int]));
                return Err(e);
            },
        };
        body.push(st);
        i += 1;
    }
    assert forall|j: int| 0 <= j < texts@.len() implies #[trigger] stmt_reads(seqs_view(texts@)[j]) by {
        assert(stmt_parses_to(seqs_view(texts@)[j], body@[j]));
    }
    Ok(body)
}

proof fn lemma_functions_cons(ls: Seq<Seq<char>>, p: int, f: FnDecl, np: int, rest: Seq<FnDecl>)
    requires
        next_nonempty(ls, p) < ls.len(),
        function_parses_to(line_header(ls[next_nonempty(ls, p)]), ls, next_nonempty(ls, p) + 1, f, np),
        functions_parse_to(ls, np, rest),
    ensures
        functions_parse_to(ls, p, seq![f] + rest),
{
    let all = seq![f] + rest;
    let q = next_nonempty(ls, p);
    assert(np == function_end(line_header(ls[q]), ls, q + 1)) by {
        reveal(function_parses_to);
    }
    assert(all.drop_first() =~= rest);
    assert(all[0] == f);
}

proof fn lemma_extend(
    ls: Seq<Seq<char>>,
    pos0: int,
    prev: Seq<FnDecl>,
    fv: FnDecl,
    p_before: int,
    q: int,
    np: int,
)
    requires
        forall|fs_rest: Seq<FnDecl>|
            #![trigger functions_parse_to(ls, p_before, fs_rest)]
            functions_parse_to(ls, p_before, fs_rest) ==> functions_parse_to(ls, pos0, prev + fs_rest),
        q == next_nonempty(ls, p_before),
        q < ls.len(),
        function_parses_to(line_header(ls[q]), ls, q + 1, fv, np),
    ensures
        forall|fs_rest: Seq<FnDecl>|
            #![trigger functions_parse_to(ls, np, fs_rest)]
            functions_parse_to(ls, np, fs_rest) ==> functions_parse_to(
                ls,
                pos0,
                prev.push(fv) + fs_rest,
            ),
{
    assert forall|fs_rest: Seq<FnDecl>|
        #![trigger functions_parse_to(ls, np, fs_rest)]
        functions_parse_to(ls, np, fs_rest) implies functions_parse_to(
            ls,
            pos0,
            prev.push(fv) + fs_rest,
        ) by {
        let all = seq![fv] + fs_rest;
        lemma_functions_cons(ls, p_before, fv, np, fs_rest);
        assert(functions_parse_to(ls, p_before, all));
        assert(prev + all =~= prev.push(fv) + fs_rest);
    }
}

/// Reads the lines of a program text, function by function.
pub struct ProgramParser {
    pub lines: Vec<Vec<char>>,
    pub pos: usize,
}

impl ProgramParser {
    pub fn new(text: &str) -> (r: ProgramParser)
        ensures
            seqs_view(r.lines@) == lines_from(text@, 0),
            r.pos == 0,
    {
        ProgramParser { lines: split_lines(&chars_of(text)), pos: 0 }
    }

    /// The next line with something besides a comment on it.
    pub fn next_nonempty_line(&mut self) -> (r: Option<Vec<char>>)
        requires
            old(self).pos <= old(self).lines@.len(),
        ensures
            final(self).lines@ == old(self).lines@,
            ({
                let q = next_nonempty(seqs_view(old(self).lines@), old(self).pos as int);
                if q < old(self).lines@.len() {
                    r matches Some(l) && l@ == old(self).lines@[q]@ && final(self).pos == q + 1
                } else {
                    r is None && final(self).pos == old(self).lines@.len()
                }
            }),
    {
        let ghost ls = seqs_view(self.lines@);
        while self.pos < self.lines.len()
            invariant
                old(self).pos <= self.pos <= self.lines@.len(),
                self.lines@ == old(self).lines@,
                ls == seqs_view(self.lines@),
                next_nonempty(ls, old(self).pos as int) == next_nonempty(ls, self.pos as int),
            decreases self.lines@.len() - self.pos,
        {
            let i = self.pos;
            self.pos = self.pos + 1;
            let stripped = strip_comment(&self.lines[i]);
            let t = trim_chars(&stripped);
            assert(ls[i as int] == self.lines@[i as int]@);
            if t.len() > 0 {
                let mut line: Vec<char> = Vec::new();
                push_all(&mut line, &self.lines[i]);
                return Some(line);
            }
        }
        None
    }

    /// Collects the body lines of a function up to the one that holds `}`.
    #[verifier::spinoff_prover]
    fn collect_lines(&mut self, parts: &mut Vec<Vec<char>>) -> (r: Result<bool, String>)
        requires
            old(self).pos <= old(self).lines@.len(),
        ensures
            final(self).lines@ == old(self).lines@,
            old(self).pos <= final(self).pos <= final(self).lines@.len(),
            match collect_body(seqs_view(old(self).lines@), old(self).pos as int, seqs_view(old(parts)@)) {
                Ok((ps, np, found)) => r == Ok::<bool, String>(found) && seqs_view(final(parts)@) == ps
                    && final(self).pos == np,
                Err(m) => r matches Err(e) && e@ == m,
            },
    {
        let ghost ls = seqs_view(self.lines@);
        let ghost pos0 = self.pos as int;
        let ghost parts0 = seqs_view(parts@);
        let mut closed = false;
        loop
            invariant_except_break
                !closed,
                collect_body(ls, pos0, parts0) == collect_body(
                    ls,
                    self.pos as int,
                    seqs_view(parts@),
                ),
            invariant
                pos0 <= self.pos <= self.lines@.len(),
                pos0 == old(self).pos,
                parts0 == seqs_view(old(parts)@),
                self.lines@ == old(self).lines@,
                ls == seqs_view(self.lines@),
            ensures
                self.lines@ == old(self).lines@,
                pos0 <= self.pos <= self.lines@.len(),
                collect_body(ls, pos0, parts0) == Ok::<
                    (Seq<Seq<char>>, int, bool),
                    Seq<char>,
                >((seqs_view(parts@), self.pos as int, closed)),
            decreases self.lines@.len() - self.pos,
        {
            let ghost p_before = self.pos as int;
            proof {
                lemma_next_nonempty(ls, p_before);
            }
            let line = match self.next_nonempty_line() {
                Some(l) => l,
                None => {
                    assert(collect_body(ls, p_before, seqs_view(parts@)) == Ok::<
                        (Seq<Seq<char>>, int, bool),
                        Seq<char>,
                    >((seqs_view(parts@), self.pos as int, false)));
                    break;
                },
            };
            let ghost q = self.pos as int - 1;
            assert(line@ == ls[q]);
            let t = trim_chars(&strip_comment(&line));
            assert(t@ == line_header(ls[q]));
            let close = chars_of("}");
            proof {
                reveal_strlit("}");
            }
            assert(close@.len() == 1);
            match find(&t, &close) {
                Some(c) => {
                    assert(c + 1 <= t@.len());
                    let after = skip_chars(&t, c + 1);
                    if trim_chars(&after).len() > 0 {
                        let mut v = chars_of("unexpected tokens after '}': ");
                        push_all(&mut v, &after);
                        proof {
                            assert(first_occurrence(line_header(ls[q]), "}"@) == Some(c as int));
                            assert(collect_body(ls, p_before, seqs_view(parts@)) == Err::<
                                (Seq<Seq<char>>, int, bool),
                                Seq<char>,
                            >(v@));
                        }
                        return Err(string_of(&v));
                    }
                    let ghost before_parts = seqs_view(parts@);
                    let piece = trim_chars(&slice_chars(&t, 0, c));
                    assert(t@.subrange(0, c as int) =~= t@.take(c as int));
                    parts.push(piece);
                    assert(seqs_view(parts@) =~= before_parts.push(trim(t@.take(c as int))));
                    closed = true;
                    break;
                },
                None => {
                    let ghost before_parts = seqs_view(parts@);
                    parts.push(t);
                    assert(seqs_view(parts@) =~= before_parts.push(t@));
                },
            }
        }
        Ok(closed)
    }

    /// Reads a function whose header line is `header` (without comment,
    /// trimmed), taking its body lines from the parser.
    #[verifier::spinoff_prover]
    #[verifier::rlimit(40)]
    pub fn parse_function(&mut self, header: &Vec<char>) -> (r: Result<FnDecl, String>)
        requires
            old(self).pos <= old(self).lines@.len(),
        ensures
            final(self).lines@ == old(self).lines@,
            old(self).pos <= final(self).pos <= final(self).lines@.len(),
            r matches Ok(f) ==> function_parses_to(
                header@,
                seqs_view(old(self).lines@),
                old(self).pos as int,
                f,
                final(self).pos as int,
            ),
            function_parts(header@, seqs_view(old(self).lines@), old(self).pos as int) matches Err(m)
                ==> (r matches Err(e) && e@ == m),
            r is Err ==> forall|f: FnDecl, np: int|
                !function_parses_to(header@, seqs_view(old(self).lines@), old(self).pos as int, f, np),
    {
        proof {
            reveal_strlit("fn ");
            reveal_strlit("{");
            reveal_strlit("}");
            reveal(function_parses_to);
        }
        let ghost ls = seqs_view(self.lines@);
        let ghost pos0 = self.pos as int;
        if !has_prefix(header, &chars_of("fn ")) {
            assert(function_parts(header@, ls, pos0) is Err);
            let mut v = chars_of("expected function declaration, got: ");
            push_all(&mut v, header);
            return Err(string_of(&v));
        }
        let h = skip_chars(header, 3);
        let open_brace = chars_of("{");
        let close_brace = chars_of("}");
        assert(open_brace@.len() == 1 && close_brace@.len() == 1);
        let k = match find(&h, &open_brace) {
            Some(k) => {
                assert(k < h@.len());
                k
            },
            None => {
                assert(function_parts(header@, ls, pos0) is Err);
                let mut v = chars_of("expected '{' in function declaration: ");
                push_all(&mut v, &h);
                return Err(string_of(&v));
            },
        };
        assert(k < h@.len());
        assert(h@.len() == h.len());
        assert(k + 1 <= usize::MAX);
        let name = trim_chars(&slice_chars(&h, 0, k));
        assert(h@.subrange(0, k as int) =~= h@.take(k as int));
        let rest = skip_chars(&h, k + 1);
        if let Err(e) = validate_ident(&name) {
            assert(function_parts(header@, ls, pos0) is Err);
            return Err(e);
        }
        let mut parts: Vec<Vec<char>> = Vec::new();
        let found_end = find(&h, &close_brace).is_some();
        if found_end {
            let last = trim_chars(&rest);
            let q = match find(&last, &close_brace) {
                Some(q) => {
                    assert(q < last@.len());
                    q
                },
                None => {
                    assert(function_parts(header@, ls, pos0) is Err);
                    return Err(String::from_str("malformed function body"));
                },
            };
            let after = skip_chars(&last, q + 1);
            if trim_chars(&after).len() > 0 {
                assert(function_parts(header@, ls, pos0) is Err);
                let mut v = chars_of("unexpected tokens after '}': ");
                push_all(&mut v, &after);
                return Err(string_of(&v));
            }
            let before = trim_chars(&slice_chars(&last, 0, q));
            assert(last@.subrange(0, q as int) =~= last@.take(q as int));
            parts.push(before);
            assert(seqs_view(parts@) =~= seq![trim(last@.take(q as int))]);
        } else {
            parts.push(trim_chars(&rest));
            assert(seqs_view(parts@) =~= seq![trim(rest@)]);
            let closed = match self.collect_lines(&mut parts) {
                Ok(c) => c,
                Err(e) => {
                    assert(function_parts(header@, ls, pos0) is Err);
                    return Err(e);
                },
            };
            if !closed {
                assert(function_parts(header@, ls, pos0) is Err);
                let mut v = chars_of("function ");
                push_all(&mut v, &name);
                push_str(&mut v, " is missing closing '}'");
                return Err(string_of(&v));
            }
        }
        let body_text = join_parts_exec(&parts);
        let texts = match split_statements(&body_text) {
            Ok(t) => t,
            Err(e) => {
                return Err(e);
            },
        };
        let body = match parse_body(&texts) {
            Ok(b) => b,
            Err(e) => {
                proof {
                    let tv = seqs_view(texts@);
                    let j = choose|j: int| 0 <= j < texts@.len() && !#[trigger] stmt_reads(tv[j]);
                    assert forall|f: FnDecl, np: int| !function_parses_to(header@, ls, pos0, f, np) by {
                        if function_parses_to(header@, ls, pos0, f, np) {
                            assert(body_parses_to(tv, f.body@));
                            assert(stmt_parses_to(tv[j], f.body@[j]));
                        }
                    }
                }
                return Err(e);
            },
        };
        let f = FnDecl { name: string_of(&name), body };
        Ok(f)
    }

    /// Reads all the functions of the program.
    pub fn parse_program(&mut self) -> (r: Result<Program, String>)
        requires
            old(self).pos <= old(self).lines@.len(),
        ensures
            r matches Ok(p) ==> p.functions@.len() > 0 && functions_parse_to(
                seqs_view(old(self).lines@),
                old(self).pos as int,
                p.functions@,
            ),
            next_nonempty(seqs_view(old(self).lines@), old(self).pos as int) >= old(
                self,
            ).lines@.len() ==> (r matches Err(e) && e@ == "at least one function is required"@),
            r is Err ==> forall|fs: Seq<FnDecl>|
                !(fs.len() > 0 && functions_parse_to(seqs_view(old(self).lines@), old(self).pos as int, fs)),
    {
        let ghost ls = seqs_view(self.lines@);
        let ghost pos0 = self.pos as int;
        let mut functions: Vec<FnDecl> = Vec::new();
        assert forall|fs: Seq<FnDecl>| #[trigger] functions_parse_to(ls, pos0, fs) implies fs.len() >= functions@.len()
            && functions_parse_to(ls, self.pos as int, fs.subrange(functions@.len() as int, fs.len() as int)) by {
            assert(fs.subrange(0, fs.len() as int) =~= fs);
        }
        loop
            invariant_except_break
                functions@.len() == 0 ==> self.pos as int == pos0,
                forall|fs_rest: Seq<FnDecl>|
                    #![trigger functions_parse_to(ls, self.pos as int, fs_rest)]
                    functions_parse_to(ls, self.pos as int, fs_rest) ==> functions_parse_to(
                        ls,
                        pos0,
                        functions@ + fs_rest,
                    ),
            invariant
                self.pos <= self.lines@.len(),
                pos0 == old(self).pos,
                self.lines@ == old(self).lines@,
                ls == seqs_view(self.lines@),
                functions@.len() > 0 ==> next_nonempty(ls, pos0) < ls.len(),
                forall|fs: Seq<FnDecl>| #[trigger] functions_parse_to(ls, pos0, fs) ==> fs.len() >= functions@.len()
                    && functions_parse_to(ls, self.pos as int, fs.subrange(functions@.len() as int, fs.len() as int)),
            ensures
                self.pos <= self.lines@.len(),
                self.lines@ == old(self).lines@,
                next_nonempty(ls, self.pos as int) >= ls.len(),
                functions@.len() == 0 ==> next_nonempty(ls, pos0) >= ls.len(),
                functions_parse_to(ls, pos0, functions@),
            decreases self.lines@.len() - self.pos,
        {
            let ghost p_before = self.pos as int;
            proof {
                lemma_next_nonempty(ls, p_before);
            }
            let line = match self.next_nonempty_line() {
                Some(l) => l,
                None => {
                    proof {
                        assert(functions@ + seq![] =~= functions@);
                        assert(functions_parse_to(ls, p_before, seq![]));
                    }
                    break;
                },
            };
            let ghost q = self.pos as int - 1;
            assert(next_nonempty(ls, pos0) < ls.len()) by {
                if functions@.len() == 0 {
                    assert(p_before == pos0);
                }
            }
            let header = trim_chars(&strip_comment(&line));
            assert(header@ == line_header(ls[q]));
            let f = match self.parse_function(&header) {
                Ok(f) => f,
                Err(e) => {
                    assert forall|fs: Seq<FnDecl>|
                        !(fs.len() > 0 && functions_parse_to(ls, pos0, fs)) by {
                        if fs.len() > 0 && functions_parse_to(ls, pos0, fs) {
                            let rest = fs.subrange(functions@.len() as int, fs.len() as int);
                            assert(functions_parse_to(ls, p_before, rest));
                            if rest.len() == 0 {
                                assert(false);
                            } else {
                                let np2 = function_end(line_header(ls[q]), ls, q + 1);
                                assert(function_parses_to(line_header(ls[q]), ls, q + 1, rest[0], np2));
                            }
                        }
                    }
                    return Err(e);
                },
            };
            let ghost np = self.pos as int;
            let ghost fv = f;
            let ghost prev = functions@;
            functions.push(f);
            proof {
                lemma_extend(ls, pos0, prev, fv, p_before, q, np);
                assert(prev.push(fv) == functions@);
                assert(np == function_end(line_header(ls[q]), ls, q + 1)) by {
                    reveal(function_parses_to);
                }
                assert forall|fs: Seq<FnDecl>| #[trigger] functions_parse_to(ls, pos0, fs) implies fs.len()
                    >= functions@.len() && functions_parse_to(
                    ls,
                    np,
                    fs.subrange(functions@.len() as int, fs.len() as int),
                ) by {
                    let rest = fs.subrange(prev.len() as int, fs.len() as int);
                    assert(functions_parse_to(ls, p_before, rest));
                    if rest.len() == 0 {
                        assert(false);
                    }
                    assert(rest.drop_first() =~= fs.subrange(functions@.len() as int, fs.len() as int));
                }
            }
        }
        if functions.len() == 0 {
            assert forall|fs: Seq<FnDecl>| !(fs.len() > 0 && functions_parse_to(ls, pos0, fs)) by {
                if fs.len() > 0 && functions_parse_to(ls, pos0, fs) {
                    assert(next_nonempty(ls, pos0) < ls.len());
                }
            }
            return Err(String::from_str("at least one function is required"));
        }
        Ok(Program { functions })
    }
}

/// Reads a program.
pub fn parse_program(text: &str) -> (r: Result<Program, String>)
    ensures
        r matches Ok(p) ==> program_parses_to(text@, p),
        r is Err ==> forall|p: Program| !program_parses_to(text@, p),
        next_nonempty(lines_from(text@, 0), 0) >= lines_from(text@, 0).len() ==> (r matches Err(e)
            && e@ == "at least one function is required"@),
{
    let mut parser = ProgramParser::new(text);
    parser.parse_program()
}

impl CoroutineCode {
    /// Reads a program as the code of a machine.
    pub fn parse(text: &str) -> (r: Result<CoroutineCode, String>)
        ensures
            r matches Ok(c) ==> program_parses_to(text@, c.0),
            r is Err ==> forall|p: Program| !program_parses_to(text@, p),
            next_nonempty(lines_from(text@, 0), 0) >= lines_from(text@, 0).len() ==> (r matches Err(
                e,
            ) && e@ == "at least one function is required"@),
    {
        let p = parse_program(text)?;
        Ok(CoroutineCode(p))
    }
}


/// Reading the text of a jump offset gives the offset back.
pub proof fn law_offset_roundtrip(o: int)
    requires
        isize::MIN <= o <= isize::MAX,
    ensures
        offset_spec(crate::coroutine::offset_text(o)) == Ok::<int, Seq<char>>(o),
{
    let t = crate::coroutine::offset_text(o);
    let m: nat = if o >= 0 { o as nat } else { (-o) as nat };
    crate::number::lemma_decimal_ends(m);
    let d = crate::number::decimal(m);
    if o >= 0 {
        assert(t == "+"@ + d);
        reveal_strlit("+");
    } else {
        assert(t == "-"@ + d);
        reveal_strlit("-");
    }
    assert(t.drop_first() =~= d);
    assert(t.last() == d.last());
    assert(t.len() > 1);
    assert(!crate::text::is_space(t[0]));
    assert(trim_start(t) == t);
    assert(trim_end(t) == t);
    assert(trim(t) == t);
    if o >= 0 {
        crate::number::lemma_scan_decimal(m, isize::MAX as nat);
    } else {
        crate::number::lemma_scan_decimal(m, (isize::MAX as nat) + 1);
    }
}

} // verus!

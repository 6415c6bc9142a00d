//! The text of flow values and of static data: a value is a number, a code
//! label `:l`, or a key `k:@l`, `k:s[i]`, `k:h[h][i]`; static data is one
//! `label = value` line per entry.
use vstd::prelude::*;

use crate::coroutine::{push_all, push_str};
use crate::coroutine_parser::{lines_from, seqs_view, split_lines};
use crate::flow_ir::{FlowValue, PlaceKey};
use crate::flow_machine::{fv, fv_text, table_fv, value_text, KeyV, StaticEnv, FV};
use crate::number::{decimal, decimal_error_message, decimal_error_text, parse_decimal, parse_usize, Number};
use crate::table::Table;
use crate::text::{
    occurs_at, chars_of, find, first_occurrence, has_prefix, skip_chars, slice_chars, starts_with, string_of, trim,
    trim_chars,
};

verus! {

/// A number read from a numeral, or the message of why it is refused.
pub open spec fn numeral(s: Seq<char>) -> Result<nat, Seq<char>> {
    match parse_decimal(s) {
        Ok(n) => Ok(n),
        Err(e) => Err(decimal_error_message(e)),
    }
}

/// A heap key `k:h[h][i]`, from its whole text.
pub open spec fn heap_key(s: Seq<char>) -> Result<FV, Seq<char>> {
    let body = s.skip(4);
    match first_occurrence(body, "]["@) {
        None => Err("Invalid heap key: "@ + s),
        Some(p) => {
            let rest = body.skip(p + 2);
            if !(rest.len() > 0 && rest.last() == ']') {
                Err("Invalid heap key: "@ + s)
            } else {
                match numeral(body.take(p)) {
                    Err(m) => Err(m),
                    Ok(h) => match numeral(rest.drop_last()) {
                        Err(m) => Err(m),
                        Ok(i) => Ok(FV::Key(KeyV::Heap(h, i))),
                    },
                }
            }
        },
    }
}

/// The value that a text denotes, after trimming.
#[verifier::opaque]
pub open spec fn flow_value_spec(text: Seq<char>) -> Result<FV, Seq<char>> {
    let s = trim(text);
    if starts_with(s, ":"@) {
        if s.len() == 1 {
            Err("Empty code label"@)
        } else {
            Ok(FV::Label(s.skip(1)))
        }
    } else if starts_with(s, "k:@"@) {
        if s.len() == 3 {
            Err("Empty static key"@)
        } else {
            Ok(FV::Key(KeyV::Static(s.skip(3))))
        }
    } else if starts_with(s, "k:s["@) {
        let body = s.skip(4);
        if !(body.len() > 0 && body.last() == ']') {
            Err("Invalid stack key: "@ + s)
        } else {
            match numeral(body.drop_last()) {
                Ok(i) => Ok(FV::Key(KeyV::Stack(i))),
                Err(m) => Err(m),
            }
        }
    } else if starts_with(s, "k:h["@) {
        heap_key(s)
    } else {
        match numeral(s) {
            Ok(n) => Ok(FV::Num(n)),
            Err(m) => Err(m),
        }
    }
}

fn numeral_exec(s: &Vec<char>) -> (r: Result<usize, String>)
    ensures
        match numeral(s@) {
            Ok(n) => r matches Ok(v) && v == n,
            Err(m) => r matches Err(e) && e@ == m,
        },
{
    match parse_usize(s) {
        Ok(v) => Ok(v),
        Err(e) => Err(decimal_error_text(e)),
    }
}

fn invalid(prefix: &str, s: &Vec<char>) -> (r: String)
    ensures
        r@ == prefix@ + s@,
{
    let mut t = chars_of(prefix);
    push_all(&mut t, s);
    string_of(&t)
}

impl FlowValue {
    /// Reads a value from its text.
    pub fn parse(text: &str) -> (r: Result<FlowValue, String>)
        ensures
            match flow_value_spec(text@) {
                Ok(v) => r matches Ok(x) && fv(x) == v,
                Err(m) => r matches Err(e) && e@ == m,
            },
    {
        proof {
            reveal(flow_value_spec);
        }
        let s = trim_chars(&chars_of(text));
        if has_prefix(&s, &chars_of(":")) {
            proof {
                reveal_strlit(":");
            }
            if s.len() == 1 {
                return Err(String::from_str("Empty code label"));
            }
            return Ok(FlowValue::CodeLabel(string_of(&skip_chars(&s, 1))));
        }
        if has_prefix(&s, &chars_of("k:@")) {
            proof {
                reveal_strlit("k:@");
            }
            if s.len() == 3 {
                return Err(String::from_str("Empty static key"));
            }
            return Ok(FlowValue::Key(PlaceKey::Static(string_of(&skip_chars(&s, 3)))));
        }
        if has_prefix(&s, &chars_of("k:s[")) {
            proof {
                reveal_strlit("k:s[");
            }
            let body = skip_chars(&s, 4);
            if !(body.len() > 0 && body[body.len() - 1] == ']') {
                return Err(invalid("Invalid stack key: ", &s));
            }
            let i = numeral_exec(&slice_chars(&body, 0, body.len() - 1))?;
            proof {
                assert(body@.subrange(0, body@.len() - 1) =~= body@.drop_last());
            }
            return Ok(FlowValue::Key(PlaceKey::Stack(i)));
        }
        if has_prefix(&s, &chars_of("k:h[")) {
            proof {
                reveal_strlit("k:h[");
            }
            let body = skip_chars(&s, 4);
            let p = match find(&body, &chars_of("][")) {
                Some(p) => p,
                None => {
                    return Err(invalid("Invalid heap key: ", &s));
                },
            };
            proof {
                reveal_strlit("][");
            }
            let rest = skip_chars(&body, p + 2);
            if !(rest.len() > 0 && rest[rest.len() - 1] == ']') {
                return Err(invalid("Invalid heap key: ", &s));
            }
            let h = numeral_exec(&slice_chars(&body, 0, p))?;
            let i = numeral_exec(&slice_chars(&rest, 0, rest.len() - 1))?;
            proof {
                assert(body@.subrange(0, p as int) =~= body@.take(p as int));
                assert(rest@.subrange(0, rest@.len() - 1) =~= rest@.drop_last());
            }
            return Ok(FlowValue::Key(PlaceKey::Heap { handle: h, index: i }));
        }
        let n = numeral_exec(&s)?;
        Ok(FlowValue::Num(Number(n)))
    }

    /// The text of a value.
    pub fn print(&self) -> (s: String)
        ensures
            s@ == fv_text(fv(*self)),
    {
        string_of(&value_text(self))
    }
}

/// Whether the text of a value reads back as that value: numbers fit in
/// `usize`, and labels are non-empty and do not end in white space.
pub open spec fn printable_value(v: FV) -> bool {
    match v {
        FV::Num(n) => n <= usize::MAX,
        FV::Label(l) => l.len() > 0 && !crate::text::is_space(l.last()),
        FV::Key(KeyV::Static(l)) => l.len() > 0 && !crate::text::is_space(l.last()),
        FV::Key(KeyV::Stack(i)) => i <= usize::MAX,
        FV::Key(KeyV::Heap(h, i)) => h <= usize::MAX && i <= usize::MAX,
    }
}

/// Reading the text of a value gives the value back.
pub proof fn law_flow_value_roundtrip(v: FV)
    requires
        printable_value(v),
    ensures
        flow_value_spec(fv_text(v)) == Ok::<FV, Seq<char>>(v),
{
    match v {
        FV::Num(n) => lemma_num_roundtrip(n),
        FV::Label(l) => lemma_label_roundtrip(l),
        FV::Key(KeyV::Static(l)) => lemma_static_roundtrip(l),
        FV::Key(KeyV::Stack(i)) => lemma_stack_roundtrip(i),
        FV::Key(KeyV::Heap(h, i)) => lemma_heap_roundtrip(h, i),
    }
}

proof fn lemma_differs(t: Seq<char>, p: Seq<char>, j: int)
    requires
        0 <= j < p.len(),
        j < t.len(),
        t[j] != p[j],
    ensures
        !starts_with(t, p),
{
    if starts_with(t, p) {
        assert(t.take(p.len() as int)[j] == t[j]);
    }
}

proof fn lemma_num_roundtrip(n: nat)
    requires
        n <= usize::MAX,
    ensures
        flow_value_spec(fv_text(FV::Num(n))) == Ok::<FV, Seq<char>>(FV::Num(n)),
{
    reveal(flow_value_spec);
    let t = fv_text(FV::Num(n));
    crate::number::lemma_decimal_ends(n);
    crate::text::lemma_trim_unchanged(t);
    crate::number::law_decimal_roundtrip(n);
    reveal_strlit(":");
    reveal_strlit("k:@");
    reveal_strlit("k:s[");
    reveal_strlit("k:h[");
    assert(t[0] != ':' && t[0] != 'k');
    lemma_differs(t, ":"@, 0);
    lemma_differs(t, "k:@"@, 0);
    lemma_differs(t, "k:s["@, 0);
    lemma_differs(t, "k:h["@, 0);
}

proof fn lemma_label_roundtrip(l: Seq<char>)
    requires
        l.len() > 0,
        !crate::text::is_space(l.last()),
    ensures
        flow_value_spec(fv_text(FV::Label(l))) == Ok::<FV, Seq<char>>(FV::Label(l)),
{
    reveal(flow_value_spec);
    reveal_strlit(":");
    let t = fv_text(FV::Label(l));
    assert(t == ":"@ + l);
    assert(t[0] == ':' && t.last() == l.last());
    crate::text::lemma_trim_unchanged(t);
    assert(t.take(1) =~= ":"@);
    assert(t.skip(1) =~= l);
}

proof fn lemma_static_roundtrip(l: Seq<char>)
    requires
        l.len() > 0,
        !crate::text::is_space(l.last()),
    ensures
        flow_value_spec(fv_text(FV::Key(KeyV::Static(l)))) == Ok::<FV, Seq<char>>(FV::Key(KeyV::Static(l))),
{
    reveal(flow_value_spec);
    reveal_strlit(":");
    reveal_strlit("k:@");
    let t = fv_text(FV::Key(KeyV::Static(l)));
    assert(t == "k:@"@ + l);
    assert(t[0] == 'k' && t.last() == l.last());
    crate::text::lemma_trim_unchanged(t);
    lemma_differs(t, ":"@, 0);
    assert(t.take(3) =~= "k:@"@);
    assert(t.skip(3) =~= l);
}

proof fn lemma_stack_roundtrip(i: nat)
    requires
        i <= usize::MAX,
    ensures
        flow_value_spec(fv_text(FV::Key(KeyV::Stack(i)))) == Ok::<FV, Seq<char>>(FV::Key(KeyV::Stack(i))),
{
    reveal(flow_value_spec);
    reveal_strlit(":");
    reveal_strlit("k:@");
    reveal_strlit("k:s[");
    reveal_strlit("]");
    let t = fv_text(FV::Key(KeyV::Stack(i)));
    let d = decimal(i);
    assert(t == "k:s["@ + d + "]"@);
    crate::number::lemma_decimal_ends(i);
    crate::number::law_decimal_roundtrip(i);
    assert(t[0] == 'k' && t.last() == ']');
    crate::text::lemma_trim_unchanged(t);
    lemma_differs(t, ":"@, 0);
    assert(t[2] != '@');
    lemma_differs(t, "k:@"@, 2);
    assert(t.take(4) =~= "k:s["@);
    assert(t.skip(4) =~= d + "]"@);
    assert((d + "]"@).drop_last() =~= d);
}

proof fn lemma_heap_roundtrip(h: nat, i: nat)
    requires
        h <= usize::MAX,
        i <= usize::MAX,
    ensures
        flow_value_spec(fv_text(FV::Key(KeyV::Heap(h, i)))) == Ok::<FV, Seq<char>>(FV::Key(KeyV::Heap(h, i))),
{
    reveal(flow_value_spec);
    reveal_strlit(":");
    reveal_strlit("k:@");
    reveal_strlit("k:s[");
    reveal_strlit("k:h[");
    reveal_strlit("][");
    reveal_strlit("]");
    let t = fv_text(FV::Key(KeyV::Heap(h, i)));
    let dh = decimal(h);
    let di = decimal(i);
    assert(t == "k:h["@ + dh + "]["@ + di + "]"@);
    crate::number::lemma_decimal_ends(h);
    assert(t[0] == 'k' && t.last() == ']');
    crate::text::lemma_trim_unchanged(t);
    lemma_differs(t, ":"@, 0);
    assert(t[2] != '@' && t[2] != 's');
    lemma_differs(t, "k:@"@, 2);
    lemma_differs(t, "k:s["@, 2);
    assert(t.take(4) =~= "k:h["@);
    lemma_heap_key(h, i);
}

#[verifier::rlimit(30)]
proof fn lemma_heap_key(h: nat, i: nat)
    requires
        h <= usize::MAX,
        i <= usize::MAX,
    ensures
        heap_key(fv_text(FV::Key(KeyV::Heap(h, i)))) == Ok::<FV, Seq<char>>(FV::Key(KeyV::Heap(h, i))),
{
    reveal_strlit("k:h[");
    reveal_strlit("][");
    reveal_strlit("]");
    let t = fv_text(FV::Key(KeyV::Heap(h, i)));
    let dh = decimal(h);
    let di = decimal(i);
    assert(t == "k:h["@ + dh + "]["@ + di + "]"@);
    crate::number::law_decimal_roundtrip(h);
    crate::number::law_decimal_roundtrip(i);
    let body = t.skip(4);
    assert(body =~= dh + "]["@ + di + "]"@);
    let p = dh.len() as int;
    crate::number::lemma_decimal_digits(h);
    lemma_first_bracket(dh, di);
    assert(body.take(p) =~= dh);
    assert(body.skip(p + 2) =~= di + "]"@);
    assert((di + "]"@).drop_last() =~= di);
}

/// In `a][b]` with `a` all digits, the first `][` follows `a`.
proof fn lemma_first_bracket(a: Seq<char>, b: Seq<char>)
    requires
        forall|j: int| 0 <= j < a.len() ==> crate::text::is_digit(#[trigger] a[j]),
    ensures
        first_occurrence(a + "]["@ + b + "]"@, "]["@) == Some(a.len() as int),
{
    reveal_strlit("][");
    reveal_strlit("]");
    let body = a + "]["@ + b + "]"@;
    let p = a.len() as int;
    assert(body.subrange(p, p + 2) =~= "]["@);
    assert(occurs_at(body, "]["@, p));
    assert forall|j: int| 0 <= j < p implies !occurs_at(body, "]["@, j) by {
        assert(body[j] == a[j]);
        if occurs_at(body, "]["@, j) {
            assert(body.subrange(j, j + 2)[0] == body[j]);
        }
    }
    let c = first_occurrence(body, "]["@)->0;
    assert(first_occurrence(body, "]["@) is Some);
    if c < p {
        assert(!occurs_at(body, "]["@, c));
    }
    if c > p {
        assert(!occurs_at(body, "]["@, p));
    }
}


// ---------------------------------------------------------------------
// Static data
// ---------------------------------------------------------------------

/// The entries that one more line adds, or why the line is refused.
pub open spec fn env_line(acc: Map<Seq<char>, FV>, raw: Seq<char>) -> Result<Map<Seq<char>, FV>, Seq<char>> {
    let line = trim(raw);
    if line.len() == 0 {
        Ok(acc)
    } else {
        match first_occurrence(line, "="@) {
            None => Err("Invalid static input line: "@ + line),
            Some(p) => {
                let key = trim(line.take(p));
                if key.len() == 0 {
                    Err("Empty static input key"@)
                } else {
                    match flow_value_spec(line.skip(p + 1)) {
                        Err(m) => Err(m),
                        Ok(v) => Ok(acc.insert(key, v)),
                    }
                }
            },
        }
    }
}

/// The entries of the first `n` lines: a later line for a key wins.
pub open spec fn env_lines(lines: Seq<Seq<char>>, n: nat) -> Result<Map<Seq<char>, FV>, Seq<char>>
    decreases n,
{
    if n == 0 || n > lines.len() {
        Ok(Map::empty())
    } else {
        match env_lines(lines, (n - 1) as nat) {
            Err(m) => Err(m),
            Ok(acc) => env_line(acc, lines[n - 1]),
        }
    }
}

/// The static data that a text denotes.
pub open spec fn static_env_spec(text: Seq<char>) -> Result<Map<Seq<char>, FV>, Seq<char>> {
    let lines = lines_from(text, 0);
    env_lines(lines, lines.len())
}

/// The lines of the first `n` entries.
pub open spec fn env_text(entries: Seq<(String, FlowValue)>, n: nat) -> Seq<char>
    decreases n,
{
    if n == 0 || n > entries.len() {
        seq![]
    } else {
        env_text(entries, (n - 1) as nat) + entries[n - 1].0@ + " = "@ + fv_text(fv(entries[n - 1].1))
            + "\n"@
    }
}

proof fn lemma_env_lines_err(lines: Seq<Seq<char>>, i: nat, n: nat, m: Seq<char>)
    requires
        0 < i <= n <= lines.len(),
        env_lines(lines, i) == Err::<Map<Seq<char>, FV>, Seq<char>>(m),
    ensures
        env_lines(lines, n) == Err::<Map<Seq<char>, FV>, Seq<char>>(m),
    decreases n - i,
{
    if i < n {
        lemma_env_lines_err(lines, i, (n - 1) as nat, m);
    }
}

impl StaticEnv {
    /// Reads static data from its text.
    pub fn parse(text: &str) -> (r: Result<StaticEnv, String>)
        ensures
            match static_env_spec(text@) {
                Ok(m) => r matches Ok(env) && table_fv(env.entries) == m,
                Err(msg) => r matches Err(e) && e@ == msg,
            },
    {
        let lines = split_lines(&chars_of(text));
        let ghost ls = lines_from(text@, 0);
        let mut entries: Table<FlowValue> = Table::new();
        let mut i: usize = 0;
        proof {
            assert(table_fv(entries) =~= Map::<Seq<char>, FV>::empty());
        }
        while i < lines.len()
            invariant
                0 <= i <= lines@.len(),
                seqs_view(lines@) == ls,
                ls == lines_from(text@, 0),
                env_lines(ls, i as nat) == Ok::<Map<Seq<char>, FV>, Seq<char>>(table_fv(entries)),
            decreases lines@.len() - i,
        {
            let line = trim_chars(&lines[i]);
            assert(line@ == trim(ls[i as int]));
            if line.len() > 0 {
                let p = match find(&line, &chars_of("=")) {
                    Some(p) => p,
                    None => {
                        proof {
                            lemma_env_lines_err(ls, (i + 1) as nat, ls.len(), "Invalid static input line: "@ + line@);
                        }
                        return Err(invalid("Invalid static input line: ", &line));
                    },
                };
                proof {
                    reveal_strlit("=");
                }
                let key = trim_chars(&slice_chars(&line, 0, p));
                assert(line@.subrange(0, p as int) =~= line@.take(p as int));
                if key.len() == 0 {
                    proof {
                        lemma_env_lines_err(ls, (i + 1) as nat, ls.len(), "Empty static input key"@);
                    }
                    return Err(String::from_str("Empty static input key"));
                }
                let rest = skip_chars(&line, p + 1);
                let v = match FlowValue::parse(string_of(&rest).as_str()) {
                    Ok(v) => v,
                    Err(e) => {
                        proof {
                            lemma_env_lines_err(ls, (i + 1) as nat, ls.len(), e@);
                        }
                        return Err(e);
                    },
                };
                let ghost before = table_fv(entries);
                entries.insert(string_of(&key), v);
                proof {
                    assert(table_fv(entries) =~= before.insert(key@, fv(v)));
                }
            }
            i += 1;
        }
        Ok(StaticEnv { entries })
    }

    /// The text of static data: one `label = value` line per entry, in the
    /// order of the labels.
    pub fn print(&self) -> (s: String)
        ensures
            s@ == env_text(self.entries.entries_view(), self.entries.entries_view().len()),
    {
        let entries = self.entries.entries();
        let mut out: Vec<char> = Vec::new();
        let mut i: usize = 0;
        while i < entries.len()
            invariant
                0 <= i <= entries@.len(),
                entries@ == self.entries.entries_view(),
                out@ == env_text(entries@, i as nat),
            decreases entries@.len() - i,
        {
            push_str(&mut out, entries[i].0.as_str());
            push_str(&mut out, " = ");
            push_all(&mut out, &value_text(&entries[i].1));
            push_str(&mut out, "\n");
            i += 1;
        }
        string_of(&out)
    }
}

} // verus!

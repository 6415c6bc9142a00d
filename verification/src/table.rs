//! A table from names to values, kept in the order of its names, as a
//! `BTreeMap<String, V>` keeps it.
use vstd::prelude::*;

use crate::text::chars_of;

verus! {

/// Lexicographic order on character sequences, by code point (which is the
/// byte order of their UTF-8 encodings, the order of `str`).
pub open spec fn lex_lt(a: Seq<char>, b: Seq<char>) -> bool
    decreases a.len(),
{
    if a.len() == 0 {
        b.len() > 0
    } else if b.len() == 0 {
        false
    } else if a[0] != b[0] {
        a[0] < b[0]
    } else {
        lex_lt(a.drop_first(), b.drop_first())
    }
}

pub proof fn lemma_lex_irreflexive(a: Seq<char>)
    ensures
        !lex_lt(a, a),
    decreases a.len(),
{
    if a.len() > 0 {
        lemma_lex_irreflexive(a.drop_first());
    }
}

pub proof fn lemma_lex_transitive(a: Seq<char>, b: Seq<char>, c: Seq<char>)
    requires
        lex_lt(a, b),
        lex_lt(b, c),
    ensures
        lex_lt(a, c),
    decreases a.len(),
{
    if a.len() > 0 && b.len() > 0 && c.len() > 0 {
        if a[0] == b[0] && b[0] == c[0] {
            lemma_lex_transitive(a.drop_first(), b.drop_first(), c.drop_first());
        }
    }
}

pub proof fn lemma_lex_total(a: Seq<char>, b: Seq<char>)
    ensures
        a == b || lex_lt(a, b) || lex_lt(b, a),
    decreases a.len(),
{
    if a.len() > 0 && b.len() > 0 {
        if a[0] == b[0] {
            lemma_lex_total(a.drop_first(), b.drop_first());
            if a.drop_first() == b.drop_first() {
                assert(a =~= seq![a[0]] + a.drop_first());
                assert(b =~= seq![b[0]] + b.drop_first());
            }
        }
    } else if a.len() == 0 && b.len() == 0 {
        assert(a =~= b);
    }
}

/// Whether `a` comes before `b`.
pub fn lex_less(a: &Vec<char>, b: &Vec<char>) -> (r: bool)
    ensures
        r == lex_lt(a@, b@),
{
    let mut i: usize = 0;
    assert(a@.skip(0) =~= a@);
    assert(b@.skip(0) =~= b@);
    while i < a.len() && i < b.len() && a[i] == b[i]
        invariant
            0 <= i <= a.len(),
            i <= b.len(),
            lex_lt(a@, b@) == lex_lt(a@.skip(i as int), b@.skip(i as int)),
        decreases a.len() - i,
    {
        let ghost sa = a@.skip(i as int);
        let ghost sb = b@.skip(i as int);
        assert(sa.drop_first() =~= a@.skip(i + 1));
        assert(sb.drop_first() =~= b@.skip(i + 1));
        i += 1;
    }
    if i == a.len() {
        i < b.len()
    } else if i == b.len() {
        false
    } else {
        a[i] < b[i]
    }
}

/// Names in strictly increasing order.
pub open spec fn sorted_names<V>(s: Seq<(String, V)>) -> bool {
    forall|i: int, j: int| 0 <= i < j < s.len() ==> lex_lt(#[trigger] s[i].0@, #[trigger] s[j].0@)
}

/// Where `k` stands among the entries.
pub open spec fn key_index<V>(s: Seq<(String, V)>, k: Seq<char>) -> Option<int> {
    if exists|i: int| 0 <= i < s.len() && #[trigger] s[i].0@ == k {
        Some(choose|i: int| 0 <= i < s.len() && #[trigger] s[i].0@ == k)
    } else {
        None
    }
}

/// The value stored under `k`, if any.
pub open spec fn table_get<V>(s: Seq<(String, V)>, k: Seq<char>) -> Option<V> {
    match key_index(s, k) {
        Some(i) => Some(s[i].1),
        None => None,
    }
}

pub proof fn lemma_sorted_unique<V>(s: Seq<(String, V)>, i: int, j: int)
    requires
        sorted_names(s),
        0 <= i < s.len(),
        0 <= j < s.len(),
        s[i].0@ == s[j].0@,
    ensures
        i == j,
{
    if i < j {
        lemma_lex_irreflexive(s[i].0@);
    } else if j < i {
        lemma_lex_irreflexive(s[i].0@);
    }
}

pub proof fn lemma_get_at<V>(s: Seq<(String, V)>, i: int)
    requires
        sorted_names(s),
        0 <= i < s.len(),
    ensures
        key_index(s, s[i].0@) == Some(i),
        table_get(s, s[i].0@) == Some(s[i].1),
{
    let k = s[i].0@;
    assert(exists|j: int| 0 <= j < s.len() && #[trigger] s[j].0@ == k);
    let c = key_index(s, k)->0;
    assert(0 <= c < s.len() && s[c].0@ == k);
    lemma_sorted_unique(s, i, c);
}

/// A table of named values whose names are kept in increasing order.
pub struct Table<V> {
    entries: Vec<(String, V)>,
}

impl<V> Table<V> {
    #[verifier::type_invariant]
    spec fn well_ordered(self) -> bool {
        sorted_names(self.entries@)
    }
}

impl<V> Table<V> {
    /// The entries, in the order of their names.
    pub closed spec fn entries_view(self) -> Seq<(String, V)> {
        self.entries@
    }

    /// The value stored under `k`, if any.
    pub open spec fn lookup(self, k: Seq<char>) -> Option<V> {
        table_get(self.entries_view(), k)
    }

    /// The table as a map from names to values.
    pub open spec fn as_map(self) -> Map<Seq<char>, V> {
        Map::new(|k: Seq<char>| self.lookup(k) is Some, |k: Seq<char>| self.lookup(k)->0)
    }

    pub fn new() -> (t: Table<V>)
        ensures
            t.entries_view().len() == 0,
            forall|k: Seq<char>| t.lookup(k) is None,
            t.as_map() == Map::<Seq<char>, V>::empty(),
    {
        let t = Table { entries: Vec::new() };
        assert(t.as_map() =~= Map::<Seq<char>, V>::empty());
        t
    }

    pub fn entries(&self) -> (r: &Vec<(String, V)>)
        ensures
            r@ == self.entries_view(),
            sorted_names(r@),
    {
        proof {
            use_type_invariant(self);
        }
        &self.entries
    }

    pub fn len(&self) -> (r: usize)
        ensures
            r == self.entries_view().len(),
    {
        self.entries.len()
    }
    /// Stores `v` under `name`, replacing what was there.
    pub fn insert(&mut self, name: String, v: V)
        ensures
            forall|k: Seq<char>|
                #![trigger final(self).lookup(k)]
                final(self).lookup(k) == if k == name@ {
                    Some(v)
                } else {
                    old(self).lookup(k)
                },
            final(self).as_map() == old(self).as_map().insert(name@, v),
    {
        proof {
            use_type_invariant(&*self);
        }
        let key = chars_of(name.as_str());
        let ghost old_entries = self.entries@;
        let mut p: usize = 0;
        while p < self.entries.len() && lex_less(&chars_of(self.entries[p].0.as_str()), &key)
            invariant
                0 <= p <= self.entries@.len(),
                self.entries@ == old_entries,
                key@ == name@,
                forall|j: int| 0 <= j < p ==> lex_lt(#[trigger] old_entries[j].0@, name@),
            decreases self.entries@.len() - p,
        {
            p += 1;
        }
        let replace = p < self.entries.len() && crate::text::chars_equal(
            &chars_of(self.entries[p].0.as_str()),
            &key,
        );
        let mut entries: Vec<(String, V)> = Vec::new();
        std::mem::swap(&mut entries, &mut self.entries);
        assert(entries@ =~= old_entries);
        if replace {
            entries.set(p, (name, v));
        } else {
            entries.insert(p, (name, v));
        }
        proof {
            let s = entries@;
            let pi = p as int;
            // entries from p on are above the new name
            assert forall|j: int| pi <= j < old_entries.len() implies lex_lt(
                name@,
                #[trigger] old_entries[j].0@,
            ) || (replace && j == pi) by {
                if j == pi {
                    if !replace {
                        lemma_lex_total(old_entries[pi].0@, name@);
                    }
                } else {
                    lemma_lex_total(old_entries[pi].0@, name@);
                    if lex_lt(name@, old_entries[pi].0@) {
                        lemma_lex_transitive(name@, old_entries[pi].0@, old_entries[j].0@);
                    } else {
                        assert(old_entries[pi].0@ == name@);
                    }
                }
            }
            if replace {
                assert(s.len() == old_entries.len());
                assert forall|i: int, j: int| 0 <= i < j < s.len() implies lex_lt(
                    #[trigger] s[i].0@,
                    #[trigger] s[j].0@,
                ) by {
                    if i == pi {
                        assert(s[i].0@ == old_entries[i].0@);
                    } else if j == pi {
                        assert(s[j].0@ == old_entries[j].0@);
                    }
                }
            } else {
                assert(s.len() == old_entries.len() + 1);
                assert forall|i: int, j: int| 0 <= i < j < s.len() implies lex_lt(
                    #[trigger] s[i].0@,
                    #[trigger] s[j].0@,
                ) by {
                    if i < pi && j < pi {
                        assert(s[i] == old_entries[i] && s[j] == old_entries[j]);
                    } else if i < pi && j == pi {
                    } else if i < pi && j > pi {
                        assert(s[j] == old_entries[j - 1]);
                        assert(s[i] == old_entries[i]);
                    } else if i == pi {
                        assert(s[j] == old_entries[j - 1]);
                    } else {
                        assert(s[i] == old_entries[i - 1] && s[j] == old_entries[j - 1]);
                    }
                }
            }
            assert(sorted_names(s));
            assert forall|k: Seq<char>| #[trigger]
                table_get(s, k) == if k == name@ {
                    Some(v)
                } else {
                    table_get(old_entries, k)
                } by {
                lemma_get_at(s, pi);
                assert(s[pi].0@ == name@);
                if k != name@ {
                    if exists|i: int| 0 <= i < old_entries.len() && #[trigger] old_entries[i].0@
                        == k {
                        let i = choose|i: int|
                            0 <= i < old_entries.len() && #[trigger] old_entries[i].0@ == k;
                        lemma_get_at(old_entries, i);
                        let ni = if replace || i < pi {
                            i
                        } else {
                            i + 1
                        };
                        assert(s[ni] == old_entries[i]);
                        lemma_get_at(s, ni);
                    } else {
                        assert forall|i: int| 0 <= i < s.len() implies #[trigger] s[i].0@ != k by {
                            if i != pi {
                                let oi = if replace || i < pi {
                                    i
                                } else {
                                    i - 1
                                };
                                assert(s[i] == old_entries[oi]);
                            }
                        }
                    }
                }
            }
        }
        let ghost old_map = old(self).as_map();
        self.entries = entries;
        assert(self.as_map() =~= old_map.insert(name@, v));
    }
}

impl<V: Copy> Table<V> {
    /// The value stored under `name`, if any.
    pub fn get(&self, name: &str) -> (r: Option<V>)
        ensures
            r == self.lookup(name@),
            r == if self.as_map().contains_key(name@) {
                Some(self.as_map()[name@])
            } else {
                None
            },
    {
        proof {
            use_type_invariant(self);
        }
        let key = chars_of(name);
        let mut i: usize = 0;
        while i < self.entries.len()
            invariant
                0 <= i <= self.entries@.len(),
                key@ == name@,
                sorted_names(self.entries@),
                forall|j: int| 0 <= j < i ==> #[trigger] self.entries@[j].0@ != name@,
            decreases self.entries@.len() - i,
        {
            let k = chars_of(self.entries[i].0.as_str());
            if crate::text::chars_equal(&k, &key) {
                proof {
                    lemma_get_at(self.entries@, i as int);
                }
                return Some(self.entries[i].1);
            }
            i += 1;
        }
        None
    }
}

impl<V> Table<V> {
    /// The value stored under `name`, if any, by reference.
    pub fn get_ref(&self, name: &str) -> (r: Option<&V>)
        ensures
            r matches Some(v) ==> self.lookup(name@) == Some(*v),
            r is None ==> self.lookup(name@) is None,
    {
        proof {
            use_type_invariant(self);
        }
        let key = chars_of(name);
        let mut i: usize = 0;
        while i < self.entries.len()
            invariant
                0 <= i <= self.entries@.len(),
                key@ == name@,
                sorted_names(self.entries@),
                forall|j: int| 0 <= j < i ==> #[trigger] self.entries@[j].0@ != name@,
            decreases self.entries@.len() - i,
        {
            let k = chars_of(self.entries[i].0.as_str());
            if crate::text::chars_equal(&k, &key) {
                proof {
                    lemma_get_at(self.entries@, i as int);
                }
                return Some(&self.entries[i].1);
            }
            i += 1;
        }
        None
    }
}

} // verus!

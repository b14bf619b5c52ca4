//! Key/value stores.
//!
//! `MemoryEnv` is the concrete in-memory store that the parsers write
//! into and read from; its model is a `Map<Seq<char>, Seq<char>>`
//! together with the sequence of entries in insertion order.
//! `EmptyEnv` is the store that holds nothing.

use vstd::prelude::*;

use crate::model::EnvModel;
use crate::text::{chars_eq, chars_of, lower_seq, string_of, eq_ignore_case, subvec};

verus! {

/// The map described by a sequence of entries, later entries winning.
pub open spec fn map_of(s: Seq<(Seq<char>, Seq<char>)>) -> EnvModel
    decreases s.len(),
{
    if s.len() == 0 {
        Map::empty()
    } else {
        map_of(s.drop_last()).insert(s.last().0, s.last().1)
    }
}

pub proof fn lemma_map_of_contains(s: Seq<(Seq<char>, Seq<char>)>, k: Seq<char>)
    ensures
        map_of(s).contains_key(k) <==> exists|i: int| 0 <= i < s.len() && s[i].0 == k,
    decreases s.len(),
{
    if s.len() > 0 {
        lemma_map_of_contains(s.drop_last(), k);
        if s.last().0 == k {
            assert(s[s.len() - 1].0 == k);
        } else if map_of(s).contains_key(k) {
            let i = choose|i: int| 0 <= i < s.drop_last().len() && s.drop_last()[i].0 == k;
            assert(s[i].0 == k);
        } else {
            assert forall|i: int| 0 <= i < s.len() implies s[i].0 != k by {
                if i < s.len() - 1 {
                    assert(s.drop_last()[i].0 == s[i].0);
                }
            }
        }
    }
}

pub proof fn lemma_map_of_value(s: Seq<(Seq<char>, Seq<char>)>, i: int)
    requires
        0 <= i < s.len(),
        forall|j: int, l: int|
            0 <= j < s.len() && 0 <= l < s.len() && j != l ==> s[j].0 != s[l].0,
    ensures
        map_of(s).contains_key(s[i].0),
        map_of(s)[s[i].0] == s[i].1,
    decreases s.len(),
{
    if i == s.len() - 1 {
        lemma_map_of_contains(s, s[i].0);
    } else {
        assert(s.drop_last()[i] == s[i]);
        lemma_map_of_value(s.drop_last(), i);
        assert(s.last().0 != s[i].0);
    }
}

/// The position of the first entry holding the key, or the length.
pub open spec fn key_index(s: Seq<(Seq<char>, Seq<char>)>, k: Seq<char>, i: int) -> int
    decreases s.len() - i,
{
    if i < 0 || i >= s.len() {
        s.len() as int
    } else if s[i].0 == k {
        i
    } else {
        key_index(s, k, i + 1)
    }
}

pub proof fn lemma_key_index(s: Seq<(Seq<char>, Seq<char>)>, k: Seq<char>, i: int)
    requires
        0 <= i <= s.len(),
    ensures
        i <= key_index(s, k, i) <= s.len(),
        key_index(s, k, i) < s.len() ==> s[key_index(s, k, i)].0 == k,
        forall|j: int| i <= j < key_index(s, k, i) ==> s[j].0 != k,
    decreases s.len() - i,
{
    if i < s.len() && s[i].0 != k {
        lemma_key_index(s, k, i + 1);
    }
}

/// The entries after one write: an existing entry is replaced in
/// place, a new key is appended.
pub open spec fn entries_after_set(
    s: Seq<(Seq<char>, Seq<char>)>,
    k: Seq<char>,
    v: Seq<char>,
) -> Seq<(Seq<char>, Seq<char>)> {
    let i = key_index(s, k, 0);
    if i < s.len() {
        s.update(i, (k, v))
    } else {
        s.push((k, v))
    }
}

/// An in-memory key/value store.  Keys are unique and entries keep
/// their insertion order.
pub struct MemoryEnv {
    entries: Vec<(Vec<char>, Vec<char>)>,
}

impl MemoryEnv {
    /// The entries, in order, as character sequences.
    pub closed spec fn entries_seq(&self) -> Seq<(Seq<char>, Seq<char>)> {
        self.entries@.map_values(|e: (Vec<char>, Vec<char>)| (e.0@, e.1@))
    }

    /// The store as a map.
    pub closed spec fn as_map(&self) -> EnvModel {
        map_of(self.entries_seq())
    }

    /// The map is the one the entries describe.
    pub proof fn lemma_as_map(&self)
        ensures
            self.as_map() == map_of(self.entries_seq()),
    {
    }

    /// Keys are pairwise distinct.
    pub closed spec fn wf(&self) -> bool {
        forall|j: int, l: int|
            0 <= j < self.entries@.len() && 0 <= l < self.entries@.len() && j != l
                ==> self.entries@[j].0@ != self.entries@[l].0@
    }

    /// An empty store.
    pub fn new() -> (r: Self)
        ensures
            r.wf(),
            r.as_map() == Map::<Seq<char>, Seq<char>>::empty(),
            r.entries_seq() == Seq::<(Seq<char>, Seq<char>)>::empty(),
    {
        let r = Self { entries: Vec::new() };
        proof {
            assert(r.entries_seq() =~= Seq::<(Seq<char>, Seq<char>)>::empty());
        }
        r
    }

    /// The number of entries.
    pub fn len(&self) -> (r: usize)
        ensures
            r == self.entries_seq().len(),
    {
        self.entries.len()
    }

    /// The position of the entry with this key, if any.
    fn find(&self, key: &Vec<char>) -> (r: Option<usize>)
        ensures
            match r {
                Some(i) => i < self.entries_seq().len() && self.entries_seq()[i as int].0 == key@
                    && forall|j: int| 0 <= j < i ==> self.entries_seq()[j].0 != key@,
                None => forall|i: int|
                    0 <= i < self.entries_seq().len() ==> self.entries_seq()[i].0 != key@,
            },
    {
        let n = self.entries.len();
        let mut i: usize = 0;
        while i < n
            invariant
                n == self.entries@.len(),
                i <= n,
                forall|j: int| 0 <= j < i ==> self.entries@[j].0@ != key@,
            decreases n - i,
        {
            if chars_eq(&self.entries[i].0, key) {
                return Some(i);
            }
            i = i + 1;
        }
        None
    }

    /// The value stored under the key, as characters.
    pub fn get_chars(&self, key: &Vec<char>) -> (r: Option<Vec<char>>)
        requires
            self.wf(),
        ensures
            r is Some <==> self.as_map().contains_key(key@),
            r is Some ==> r->0@ == self.as_map()[key@],
    {
        proof {
            lemma_map_of_contains(self.entries_seq(), key@);
        }
        match self.find(key) {
            Some(i) => {
                proof {
                    lemma_map_of_value(self.entries_seq(), i as int);
                }
                let n = self.entries[i].1.len();
                let r = subvec(&self.entries[i].1, 0, n);
                proof {
                    assert(r@ =~= self.entries@[i as int].1@);
                }
                Some(r)
            },
            None => None,
        }
    }

    /// Whether the key is present.
    pub fn contains_chars(&self, key: &Vec<char>) -> (r: bool)
        requires
            self.wf(),
        ensures
            r == self.as_map().contains_key(key@),
    {
        self.get_chars(key).is_some()
    }

    /// Writes the value under the key, replacing an existing entry in
    /// place and otherwise appending a new entry.
    pub fn set_chars(&mut self, key: &Vec<char>, value: &Vec<char>)
        requires
            old(self).wf(),
        ensures
            final(self).wf(),
            final(self).as_map() == old(self).as_map().insert(key@, value@),
            final(self).entries_seq() == entries_after_set(old(self).entries_seq(), key@, value@),
    {
        proof {
            lemma_map_of_contains(self.entries_seq(), key@);
            lemma_key_index(self.entries_seq(), key@, 0);
        }
        let kc = subvec(key, 0, key.len());
        let vc = subvec(value, 0, value.len());
        proof {
            assert(kc@ =~= key@);
            assert(vc@ =~= value@);
        }
        match self.find(key) {
            Some(i) => {
                self.entries[i] = (kc, vc);
                proof {
                    lemma_set_entry(old(self).entries_seq(), i as int, key@, value@);
                    assert(self.entries_seq() =~= old(self).entries_seq().update(
                        i as int,
                        (key@, value@),
                    ));
                    assert forall|j: int, l: int|
                        0 <= j < self.entries@.len() && 0 <= l < self.entries@.len() && j
                            != l implies self.entries@[j].0@ != self.entries@[l].0@ by {
                        assert(self.entries_seq()[j].0 == self.entries@[j].0@);
                        assert(self.entries_seq()[l].0 == self.entries@[l].0@);
                        assert(old(self).entries_seq()[j].0 == old(self).entries@[j].0@);
                        assert(old(self).entries_seq()[l].0 == old(self).entries@[l].0@);
                    }
                }
            },
            None => {
                self.entries.push((kc, vc));
                proof {
                    assert(self.entries_seq() =~= old(self).entries_seq().push((key@, value@)));
                    assert(self.entries_seq().drop_last() =~= old(self).entries_seq());
                    assert forall|j: int, l: int|
                        0 <= j < self.entries@.len() && 0 <= l < self.entries@.len() && j
                            != l implies self.entries@[j].0@ != self.entries@[l].0@ by {
                        assert(self.entries_seq()[j].0 == self.entries@[j].0@);
                        assert(self.entries_seq()[l].0 == self.entries@[l].0@);
                        if j < old(self).entries@.len() && l < old(self).entries@.len() {
                            assert(old(self).entries@[j].0@ != old(self).entries@[l].0@);
                        } else if j < old(self).entries@.len() {
                            assert(old(self).entries_seq()[j].0 != key@);
                        } else {
                            assert(old(self).entries_seq()[l].0 != key@);
                        }
                    }
                }
            },
        }
    }

    /// The value stored under the key.
    pub fn get(&self, key: &str) -> (r: Option<String>)
        requires
            self.wf(),
        ensures
            r is Some <==> self.as_map().contains_key(key@),
            r is Some ==> r->0@ == self.as_map()[key@],
    {
        let kc = chars_of(key);
        match self.get_chars(&kc) {
            Some(v) => Some(string_of(&v)),
            None => None,
        }
    }

    /// Writes the value under the key.
    pub fn set(&mut self, key: &str, value: &str)
        requires
            old(self).wf(),
        ensures
            final(self).wf(),
            final(self).as_map() == old(self).as_map().insert(key@, value@),
    {
        let kc = chars_of(key);
        let vc = chars_of(value);
        self.set_chars(&kc, &vc);
    }

    /// The key of the entry at the given position.
    pub fn key_at(&self, i: usize) -> (r: String)
        requires
            i < self.entries_seq().len(),
        ensures
            r@ == self.entries_seq()[i as int].0,
    {
        string_of(&self.entries[i].0)
    }

    /// The value of the entry at the given position.
    pub fn value_at(&self, i: usize) -> (r: String)
        requires
            i < self.entries_seq().len(),
        ensures
            r@ == self.entries_seq()[i as int].1,
    {
        string_of(&self.entries[i].1)
    }
}

proof fn lemma_set_entry(s: Seq<(Seq<char>, Seq<char>)>, i: int, k: Seq<char>, v: Seq<char>)
    requires
        0 <= i < s.len(),
        s[i].0 == k,
        forall|j: int, l: int| 0 <= j < s.len() && 0 <= l < s.len() && j != l ==> s[j].0 != s[l].0,
    ensures
        map_of(s.update(i, (k, v))) == map_of(s).insert(k, v),
        forall|j: int, l: int|
            0 <= j < s.len() && 0 <= l < s.len() && j != l ==> #[trigger] s.update(i, (k, v))[j].0
                != #[trigger] s.update(i, (k, v))[l].0,
    decreases s.len(),
{
    let t = s.update(i, (k, v));
    assert forall|j: int, l: int|
        0 <= j < t.len() && 0 <= l < t.len() && j != l implies t[j].0 != t[l].0 by {
        assert(t[j].0 == s[j].0);
        assert(t[l].0 == s[l].0);
    }
    if i == s.len() - 1 {
        assert(t.drop_last() =~= s.drop_last());
        assert(map_of(t) == map_of(s.drop_last()).insert(k, v));
        assert(map_of(s) == map_of(s.drop_last()).insert(k, s.last().1));
        assert(map_of(t) =~= map_of(s).insert(k, v));
    } else {
        assert(t.drop_last() =~= s.drop_last().update(i, (k, v)));
        assert(s.drop_last()[i] == s[i]);
        lemma_set_entry(s.drop_last(), i, k, v);
        assert(s.last().0 != k);
        assert(t.last() == s.last());
        assert(map_of(t) == map_of(s.drop_last()).insert(k, v).insert(s.last().0, s.last().1));
        assert(map_of(s).insert(k, v) == map_of(s.drop_last()).insert(
            s.last().0,
            s.last().1,
        ).insert(k, v));
        assert(map_of(t) =~= map_of(s).insert(k, v));
    }
}

/// The store that holds nothing.
#[derive(Debug, Clone, Copy)]
pub struct EmptyEnv {}

impl EmptyEnv {
    pub fn new() -> (r: Self)
        ensures
            true,
    {
        Self {  }
    }

    /// Looking anything up in the empty store gives nothing.
    pub fn get(&self, _key: &str) -> (r: Option<String>)
        ensures
            r is None,
    {
        None
    }
}

/// The boolean a configuration text stands for: `true`/`1` and
/// `false`/`0`, ASCII case-insensitively, and nothing else.
pub open spec fn spec_parse_bool(v: Seq<char>) -> Option<bool> {
    if lower_seq(v) == lower_seq("true"@) || lower_seq(v) == lower_seq("1"@) {
        Some(true)
    } else if lower_seq(v) == lower_seq("false"@) || lower_seq(v) == lower_seq("0"@) {
        Some(false)
    } else {
        None
    }
}

/// Parses a boolean configuration value.
pub fn parse_bool(value: &str) -> (r: Option<bool>)
    ensures
        r == spec_parse_bool(value@),
{
    if eq_ignore_case(value, "true") || eq_ignore_case(value, "1") {
        Some(true)
    } else if eq_ignore_case(value, "false") || eq_ignore_case(value, "0") {
        Some(false)
    } else {
        None
    }
}

} // verus!

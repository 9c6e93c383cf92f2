//! A map keyed by strings that keeps its entries in key order, as the
//! stores of fields, templates, trusted directories and packages need.
use crate::order::{lemma_lex_asymmetric, lemma_lex_irreflexive, lemma_lex_total, lemma_lex_transitive, lex_lt, str_less};
use crate::text::str_eq;
use vstd::prelude::*;

verus! {

/// Keys strictly increasing: sorted, and no key twice.
pub open spec fn keys_sorted<V>(s: Seq<(String, V)>) -> bool {
    forall|i: int, j: int| 0 <= i < j < s.len() ==> lex_lt(#[trigger] s[i].0@, #[trigger] s[j].0@)
}

pub open spec fn has_key<V>(s: Seq<(String, V)>, k: Seq<char>) -> bool {
    exists|i: int| 0 <= i < s.len() && #[trigger] s[i].0@ == k
}

pub open spec fn key_index<V>(s: Seq<(String, V)>, k: Seq<char>) -> int {
    choose|i: int| 0 <= i < s.len() && #[trigger] s[i].0@ == k
}

/// The map that a list of entries describes.
pub open spec fn map_of<V>(s: Seq<(String, V)>) -> Map<Seq<char>, V> {
    Map::new(|k: Seq<char>| has_key(s, k), |k: Seq<char>| s[key_index(s, k)].1)
}

/// In a sorted list, the entry with a key is the only one.
pub proof fn lemma_unique<V>(s: Seq<(String, V)>, i: int, j: int)
    requires
        keys_sorted(s),
        0 <= i < s.len(),
        0 <= j < s.len(),
        s[i].0@ == s[j].0@,
    ensures
        i == j,
{
    if i < j {
        assert(lex_lt(s[i].0@, s[j].0@));
        lemma_lex_irreflexive(s[i].0@);
    } else if j < i {
        assert(lex_lt(s[j].0@, s[i].0@));
        lemma_lex_irreflexive(s[i].0@);
    }
}

/// An entry of a sorted list is what the map holds under its key.
pub proof fn lemma_entry<V>(s: Seq<(String, V)>, i: int)
    requires
        keys_sorted(s),
        0 <= i < s.len(),
    ensures
        map_of(s).contains_key(s[i].0@),
        map_of(s)[s[i].0@] == s[i].1,
        key_index(s, s[i].0@) == i,
{
    assert(has_key(s, s[i].0@));
    let j = key_index(s, s[i].0@);
    lemma_unique(s, i, j);
}

/// A map from strings whose entries stay sorted by key.
pub struct StrMap<V> {
    entries: Vec<(String, V)>,
}

impl<V> StrMap<V> {
    #[verifier::type_invariant]
    spec fn wf(self) -> bool {
        keys_sorted(self.entries@)
    }

    /// The map's contents.
    pub closed spec fn view(&self) -> Map<Seq<char>, V> {
        map_of(self.entries@)
    }

    /// The entries in key order.
    pub closed spec fn pairs(&self) -> Seq<(String, V)> {
        self.entries@
    }

    pub fn new() -> (m: Self)
        ensures
            m.view() == Map::<Seq<char>, V>::empty(),
            m.pairs() == Seq::<(String, V)>::empty(),
    {
        let m = StrMap { entries: Vec::new() };
        assert(m.view() =~= Map::<Seq<char>, V>::empty());
        m
    }

    /// The number of entries.
    pub fn len(&self) -> (n: usize)
        ensures
            n == self.pairs().len(),
    {
        self.entries.len()
    }

    /// The entries in key order.
    pub fn entries(&self) -> (e: &Vec<(String, V)>)
        ensures
            e@ == self.pairs(),
            keys_sorted(e@),
            map_of(e@) == self.view(),
    {
        proof {
            use_type_invariant(self);
        }
        &self.entries
    }

    /// The entries in key order, taken out of the map.
    pub fn into_entries(self) -> (e: Vec<(String, V)>)
        ensures
            e@ == self.pairs(),
            keys_sorted(e@),
            map_of(e@) == self.view(),
    {
        proof {
            use_type_invariant(&self);
        }
        self.entries
    }

    /// Index of the first entry whose key is not before `key`.
    #[verifier::loop_isolation(false)]
    fn position(&self, key: &str) -> (p: usize)
        ensures
            p <= self.entries@.len(),
            forall|i: int| 0 <= i < p ==> lex_lt(#[trigger] self.entries@[i].0@, key@),
            p < self.entries@.len() ==> !lex_lt(self.entries@[p as int].0@, key@),
    {
        let mut p: usize = 0;
        while p < self.entries.len() && str_less(self.entries[p].0.as_str(), key)
            invariant
                p <= self.entries@.len(),
                forall|i: int| 0 <= i < p ==> lex_lt(#[trigger] self.entries@[i].0@, key@),
            decreases self.entries.len() - p,
        {
            p = p + 1;
        }
        p
    }

    /// The value under `key`.
    pub fn get(&self, key: &str) -> (r: Option<&V>)
        ensures
            match r {
                Some(v) => self.view().contains_key(key@) && self.view()[key@] == *v,
                None => !self.view().contains_key(key@),
            },
    {
        proof {
            use_type_invariant(self);
        }
        let p = self.position(key);
        if p < self.entries.len() && str_eq(self.entries[p].0.as_str(), key) {
            proof {
                lemma_entry(self.entries@, p as int);
            }
            return Some(&self.entries[p].1);
        }
        proof {
            if has_key(self.entries@, key@) {
                let j = choose|j: int| 0 <= j < self.entries@.len() && #[trigger] self.entries@[j].0@
                    == key@;
                if j < p {
                    assert(lex_lt(self.entries@[j].0@, key@));
                    lemma_lex_irreflexive(key@);
                } else if j > p {
                    assert(lex_lt(self.entries@[p as int].0@, self.entries@[j].0@));
                    lemma_lex_total(self.entries@[p as int].0@, key@);
                } else {
                }
            }
        }
        None
    }

    /// Whether `key` has an entry.
    pub fn contains_key(&self, key: &str) -> (b: bool)
        ensures
            b == self.view().contains_key(key@),
    {
        self.get(key).is_some()
    }

    /// Puts `value` under `key`, replacing what was there.
    pub fn insert(&mut self, key: String, value: V)
        ensures
            final(self).view() == old(self).view().insert(key@, value),
    {
        proof {
            use_type_invariant(&*self);
        }
        let p = self.position(key.as_str());
        let ghost s = self.entries@;
        let ghost k = key@;
        if p < self.entries.len() && str_eq(self.entries[p].0.as_str(), key.as_str()) {
            let mut entries: Vec<(String, V)> = Vec::new();
            std::mem::swap(&mut entries, &mut self.entries);
            entries.set(p, (key, value));
            let ghost t = entries@;
            assert(t == s.update(p as int, (t[p as int].0, value)));
            assert(keys_sorted(t)) by {
                assert forall|i: int, j: int| 0 <= i < j < t.len() implies lex_lt(
                    #[trigger] t[i].0@,
                    #[trigger] t[j].0@,
                ) by {
                    assert(s[i].0@ == t[i].0@ && s[j].0@ == t[j].0@);
                }
            }
            proof {
                lemma_same_keys_update(s, t, p as int, value);
            }
            self.entries = entries;
        } else {
            let mut entries: Vec<(String, V)> = Vec::new();
            std::mem::swap(&mut entries, &mut self.entries);
            entries.insert(p, (key, value));
            let ghost t = entries@;
            assert(t == s.insert(p as int, (t[p as int].0, value)));
            proof {
                if p < s.len() {
                    lemma_lex_total(s[p as int].0@, k);
                }
                lemma_insert_entry(s, t, p as int, value);
            }
            self.entries = entries;
        }
    }

    /// Takes out the value under `key`, if any.
    pub fn remove(&mut self, key: &str) -> (r: Option<V>)
        ensures
            final(self).view() == old(self).view().remove(key@),
            match r {
                Some(v) => old(self).view().contains_key(key@) && old(self).view()[key@] == v,
                None => !old(self).view().contains_key(key@),
            },
    {
        proof {
            use_type_invariant(&*self);
        }
        let p = self.position(key);
        let ghost s = self.entries@;
        if p < self.entries.len() && str_eq(self.entries[p].0.as_str(), key) {
            proof {
                lemma_entry(s, p as int);
            }
            let mut entries: Vec<(String, V)> = Vec::new();
            std::mem::swap(&mut entries, &mut self.entries);
            let (_, v) = entries.remove(p);
            proof {
                lemma_remove_entry(s, entries@, p as int);
            }
            self.entries = entries;
            return Some(v);
        }
        proof {
            if has_key(s, key@) {
                let j = choose|j: int| 0 <= j < s.len() && #[trigger] s[j].0@ == key@;
                if j < p {
                    assert(lex_lt(s[j].0@, key@));
                    lemma_lex_irreflexive(key@);
                } else if j > p {
                    assert(lex_lt(s[p as int].0@, s[j].0@));
                    lemma_lex_total(s[p as int].0@, key@);
                }
            }
            assert(self.view() =~= self.view().remove(key@));
        }
        None
    }
}

proof fn lemma_same_keys_update<V>(s: Seq<(String, V)>, t: Seq<(String, V)>, p: int, value: V)
    requires
        keys_sorted(s),
        keys_sorted(t),
        0 <= p < s.len(),
        t.len() == s.len(),
        t[p].0@ == s[p].0@,
        t[p].1 == value,
        forall|i: int| 0 <= i < s.len() && i != p ==> t[i] == s[i],
    ensures
        map_of(t) == map_of(s).insert(s[p].0@, value),
{
    let k = s[p].0@;
    assert forall|x: Seq<char>| has_key(t, x) == (has_key(s, x) || x == k) by {
        if has_key(t, x) {
            let i = choose|i: int| 0 <= i < t.len() && #[trigger] t[i].0@ == x;
            if i != p {
                assert(s[i].0@ == x);
            }
        }
        if has_key(s, x) {
            let i = choose|i: int| 0 <= i < s.len() && #[trigger] s[i].0@ == x;
            if i != p {
                assert(t[i].0@ == x);
            } else {
                assert(t[p].0@ == x);
            }
        }
        if x == k {
            assert(t[p].0@ == x);
        }
    }
    assert forall|x: Seq<char>| #[trigger] map_of(t).contains_key(x) implies map_of(t)[x] == map_of(
        s,
    ).insert(k, value)[x] by {
        let i = choose|i: int| 0 <= i < t.len() && #[trigger] t[i].0@ == x;
        lemma_entry(t, i);
        if i != p {
            assert(s[i] == t[i]);
            lemma_entry(s, i);
            lemma_lex_irreflexive(k);
        }
    }
    assert(map_of(t) =~= map_of(s).insert(k, value));
}

proof fn lemma_insert_entry<V>(s: Seq<(String, V)>, t: Seq<(String, V)>, p: int, value: V)
    requires
        keys_sorted(s),
        0 <= p <= s.len(),
        t.len() == s.len() + 1,
        t[p].1 == value,
        forall|i: int| 0 <= i < p ==> #[trigger] t[i] == s[i],
        forall|i: int| p < i < t.len() ==> #[trigger] t[i] == s[i - 1],
        forall|i: int| 0 <= i < p ==> lex_lt(#[trigger] s[i].0@, t[p].0@),
        p < s.len() ==> lex_lt(t[p].0@, s[p].0@),
    ensures
        keys_sorted(t),
        map_of(t) == map_of(s).insert(t[p].0@, value),
{
    let k = t[p].0@;
    assert forall|i: int, j: int| 0 <= i < j < t.len() implies lex_lt(
        #[trigger] t[i].0@,
        #[trigger] t[j].0@,
    ) by {
        if j < p {
            assert(lex_lt(s[i].0@, s[j].0@));
        } else if j == p {
        } else if i < p {
            assert(t[j] == s[j - 1]);
            if j - 1 == p {
                lemma_lex_transitive(s[i].0@, k, s[p].0@);
            } else {
                assert(lex_lt(s[p].0@, s[j - 1].0@));
                lemma_lex_transitive(k, s[p].0@, s[j - 1].0@);
                lemma_lex_transitive(s[i].0@, k, s[j - 1].0@);
            }
        } else if i == p {
            assert(t[j] == s[j - 1]);
            if j - 1 > p {
                assert(lex_lt(s[p].0@, s[j - 1].0@));
                lemma_lex_transitive(k, s[p].0@, s[j - 1].0@);
            }
        } else {
            assert(t[i] == s[i - 1] && t[j] == s[j - 1]);
        }
    }
    assert forall|x: Seq<char>| has_key(t, x) == (has_key(s, x) || x == k) by {
        if has_key(t, x) {
            let i = choose|i: int| 0 <= i < t.len() && #[trigger] t[i].0@ == x;
            if i < p {
                assert(s[i].0@ == x);
            } else if i > p {
                assert(s[i - 1].0@ == x);
            }
        }
        if has_key(s, x) {
            let i = choose|i: int| 0 <= i < s.len() && #[trigger] s[i].0@ == x;
            if i < p {
                assert(t[i].0@ == x);
            } else {
                assert(t[i + 1] == s[i]);
                assert(t[i + 1].0@ == x);
            }
        }
        if x == k {
            assert(t[p].0@ == x);
        }
    }
    assert forall|x: Seq<char>| #[trigger] map_of(t).contains_key(x) implies map_of(t)[x] == map_of(
        s,
    ).insert(k, value)[x] by {
        let i = choose|i: int| 0 <= i < t.len() && #[trigger] t[i].0@ == x;
        lemma_entry(t, i);
        if i < p {
            lemma_entry(s, i);
            lemma_lex_irreflexive(k);
            assert(lex_lt(s[i].0@, k));
        } else if i > p {
            assert(t[i] == s[i - 1]);
            lemma_entry(s, i - 1);
            assert(lex_lt(t[p].0@, t[i].0@));
            lemma_lex_irreflexive(k);
        }
    }
    assert(map_of(t) =~= map_of(s).insert(k, value));
}

proof fn lemma_remove_entry<V>(s: Seq<(String, V)>, t: Seq<(String, V)>, p: int)
    requires
        keys_sorted(s),
        0 <= p < s.len(),
        t == s.remove(p),
    ensures
        keys_sorted(t),
        map_of(t) == map_of(s).remove(s[p].0@),
{
    let k = s[p].0@;
    assert forall|i: int, j: int| 0 <= i < j < t.len() implies lex_lt(
        #[trigger] t[i].0@,
        #[trigger] t[j].0@,
    ) by {
        let a = if i < p { i } else { i + 1 };
        let b = if j < p { j } else { j + 1 };
        assert(t[i] == s[a] && t[j] == s[b]);
        assert(lex_lt(s[a].0@, s[b].0@));
    }
    assert forall|x: Seq<char>| has_key(t, x) == (has_key(s, x) && x != k) by {
        if has_key(t, x) {
            let i = choose|i: int| 0 <= i < t.len() && #[trigger] t[i].0@ == x;
            let a = if i < p { i } else { i + 1 };
            assert(t[i] == s[a]);
            assert(s[a].0@ == x);
            if x == k {
                lemma_unique(s, a, p);
            }
        }
        if has_key(s, x) && x != k {
            let i = choose|i: int| 0 <= i < s.len() && #[trigger] s[i].0@ == x;
            if i < p {
                assert(t[i].0@ == x);
            } else {
                assert(i != p);
                assert(t[i - 1] == s[i]);
                assert(t[i - 1].0@ == x);
            }
        }
    }
    assert forall|x: Seq<char>| #[trigger] map_of(t).contains_key(x) implies map_of(t)[x] == map_of(
        s,
    ).remove(k)[x] by {
        let i = choose|i: int| 0 <= i < t.len() && #[trigger] t[i].0@ == x;
        lemma_entry(t, i);
        let a = if i < p { i } else { i + 1 };
        assert(t[i] == s[a]);
        lemma_entry(s, a);
    }
    assert(map_of(t) =~= map_of(s).remove(k));
}

} // verus!

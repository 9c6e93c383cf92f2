//! The order of strings (code point by code point, as `String`'s `Ord`
//! orders UTF-8 text) and a stable sort by a string key.
use crate::text::chars_of;
use vstd::prelude::*;

verus! {

/// `a` comes strictly before `b`.
pub open spec fn lex_lt(a: Seq<char>, b: Seq<char>) -> bool
    decreases a.len(),
{
    if a.len() == 0 {
        b.len() > 0
    } else if b.len() == 0 {
        false
    } else if a[0] < b[0] {
        true
    } else if a[0] > b[0] {
        false
    } else {
        lex_lt(a.drop_first(), b.drop_first())
    }
}

pub proof fn lemma_lex_irreflexive(a: Seq<char>)
    ensures
        !lex_lt(a, a),
    decreases a.len(),
{
    if a.len() > 0 {
        lemma_lex_irreflexive(a.drop_first());
    }
}

pub proof fn lemma_lex_asymmetric(a: Seq<char>, b: Seq<char>)
    ensures
        !(lex_lt(a, b) && lex_lt(b, a)),
    decreases a.len(),
{
    if a.len() > 0 && b.len() > 0 && a[0] == b[0] {
        lemma_lex_asymmetric(a.drop_first(), b.drop_first());
    }
}

pub proof fn lemma_lex_transitive(a: Seq<char>, b: Seq<char>, c: Seq<char>)
    requires
        lex_lt(a, b),
        lex_lt(b, c),
    ensures
        lex_lt(a, c),
    decreases a.len(),
{
    if a.len() > 0 && b.len() > 0 && c.len() > 0 && a[0] == b[0] && b[0] == c[0] {
        lemma_lex_transitive(a.drop_first(), b.drop_first(), c.drop_first());
    }
}

pub proof fn lemma_lex_total(a: Seq<char>, b: Seq<char>)
    ensures
        a != b ==> lex_lt(a, b) || lex_lt(b, a),
    decreases a.len(),
{
    if a.len() > 0 && b.len() > 0 && a[0] == b[0] {
        lemma_lex_total(a.drop_first(), b.drop_first());
        if a.drop_first() == b.drop_first() {
            assert(a =~= seq![a[0]] + a.drop_first());
            assert(b =~= seq![b[0]] + b.drop_first());
        }
    } else if a.len() == 0 && b.len() == 0 {
        assert(a =~= b);
    }
}

/// Whether `a` comes strictly before `b`.
#[verifier::loop_isolation(false)]
pub fn str_less(a: &str, b: &str) -> (r: bool)
    ensures
        r == lex_lt(a@, b@),
{
    let x = chars_of(a);
    let y = chars_of(b);
    let mut i: usize = 0;
    assert(a@.skip(0) =~= a@);
    assert(b@.skip(0) =~= b@);
    while i < x.len() && i < y.len() && x[i] == y[i]
        invariant
            i <= x.len(),
            i <= y.len(),
            lex_lt(a@, b@) == lex_lt(a@.skip(i as int), b@.skip(i as int)),
        decreases x.len() - i,
    {
        assert(a@.skip(i as int).drop_first() =~= a@.skip(i + 1));
        assert(b@.skip(i as int).drop_first() =~= b@.skip(i + 1));
        i = i + 1;
    }
    assert(a@.skip(0) =~= a@);
    if i == x.len() {
        i < y.len()
    } else if i == y.len() {
        false
    } else {
        assert(a@.skip(i as int)[0] == x@[i as int]);
        assert(b@.skip(i as int)[0] == y@[i as int]);
        x[i] < y[i]
    }
}

/// Values ordered by a string key.
pub trait Keyed {
    spec fn key_of(&self) -> Seq<char>;

    fn key(&self) -> (k: &str)
        ensures
            k@ == self.key_of(),
    ;
}

impl Keyed for String {
    open spec fn key_of(&self) -> Seq<char> {
        self@
    }

    fn key(&self) -> (k: &str) {
        self.as_str()
    }
}

/// `s` ordered by key; equal keys allowed.
pub open spec fn sorted_by_key<T: Keyed>(s: Seq<T>) -> bool {
    forall|i: int, j: int| 0 <= i < j < s.len() ==> !lex_lt(s[j].key_of(), s[i].key_of())
}

/// `x` put into `s` after every element whose key is not after its own.
pub open spec fn insert_sorted<T: Keyed>(s: Seq<T>, x: T) -> Seq<T>
    decreases s.len(),
{
    if s.len() == 0 {
        seq![x]
    } else if lex_lt(x.key_of(), s[0].key_of()) {
        seq![x] + s
    } else {
        seq![s[0]] + insert_sorted(s.drop_first(), x)
    }
}

/// The stable sort of `s` by key: each element inserted in turn.
pub open spec fn sort_spec<T: Keyed>(s: Seq<T>) -> Seq<T>
    decreases s.len(),
{
    if s.len() == 0 {
        Seq::empty()
    } else {
        insert_sorted(sort_spec(s.drop_last()), s.last())
    }
}

proof fn lemma_insert_at<T: Keyed>(s: Seq<T>, x: T, p: int)
    requires
        0 <= p <= s.len(),
        forall|i: int| 0 <= i < p ==> !lex_lt(x.key_of(), #[trigger] s[i].key_of()),
        p < s.len() ==> lex_lt(x.key_of(), s[p].key_of()),
    ensures
        insert_sorted(s, x) == s.take(p) + seq![x] + s.skip(p),
    decreases p,
{
    if p == 0 {
        if s.len() == 0 {
            assert(s.take(0) + seq![x] + s.skip(0) =~= seq![x]);
        } else {
            assert(s.take(0) + seq![x] + s.skip(0) =~= seq![x] + s);
        }
    } else {
        assert(!lex_lt(x.key_of(), s[0].key_of()));
        let t = s.drop_first();
        assert forall|i: int| 0 <= i < p - 1 implies !lex_lt(x.key_of(), #[trigger] t[i].key_of()) by {
            assert(t[i] == s[i + 1]);
        }
        if p - 1 < t.len() {
            assert(t[p - 1] == s[p]);
        }
        lemma_insert_at(t, x, p - 1);
        assert(seq![s[0]] + (t.take(p - 1) + seq![x] + t.skip(p - 1)) =~= s.take(p) + seq![x]
            + s.skip(p));
    }
}

/// Inserting into a sorted sequence keeps it sorted.
pub proof fn lemma_insert_sorted<T: Keyed>(s: Seq<T>, x: T)
    requires
        sorted_by_key(s),
    ensures
        sorted_by_key(insert_sorted(s, x)),
        insert_sorted(s, x).len() == s.len() + 1,
    decreases s.len(),
{
    if s.len() > 0 {
        if lex_lt(x.key_of(), s[0].key_of()) {
            let r = seq![x] + s;
            assert forall|i: int, j: int| 0 <= i < j < r.len() implies !lex_lt(
                r[j].key_of(),
                r[i].key_of(),
            ) by {
                if i == 0 {
                    if j > 1 {
                        lemma_lex_total(s[0].key_of(), s[j - 1].key_of());
                        if lex_lt(s[0].key_of(), s[j - 1].key_of()) {
                            lemma_lex_transitive(x.key_of(), s[0].key_of(), s[j - 1].key_of());
                        }
                    }
                    lemma_lex_asymmetric(x.key_of(), r[j].key_of());
                } else {
                    assert(r[i] == s[i - 1] && r[j] == s[j - 1]);
                }
            }
        } else {
            let t = s.drop_first();
            assert(sorted_by_key(t)) by {
                assert forall|i: int, j: int| 0 <= i < j < t.len() implies !lex_lt(
                    t[j].key_of(),
                    t[i].key_of(),
                ) by {
                    assert(t[i] == s[i + 1] && t[j] == s[j + 1]);
                }
            }
            lemma_insert_sorted(t, x);
            lemma_insert_members(t, x);
            let r = seq![s[0]] + insert_sorted(t, x);
            assert forall|i: int, j: int| 0 <= i < j < r.len() implies !lex_lt(
                r[j].key_of(),
                r[i].key_of(),
            ) by {
                if i == 0 {
                    let e = insert_sorted(t, x)[j - 1];
                    if e == x {
                    } else {
                        let k = choose|k: int| 0 <= k < t.len() && t[k] == e;
                        assert(s[k + 1] == e);
                    }
                }
            }
        }
    }
}

/// Every element of `insert_sorted(s, x)` is `x` or an element of `s`.
pub proof fn lemma_insert_members<T: Keyed>(s: Seq<T>, x: T)
    ensures
        forall|i: int|
            0 <= i < insert_sorted(s, x).len() ==> #[trigger] insert_sorted(s, x)[i] == x || exists|
                k: int,
            | 0 <= k < s.len() && s[k] == insert_sorted(s, x)[i],
    decreases s.len(),
{
    if s.len() > 0 && !lex_lt(x.key_of(), s[0].key_of()) {
        let t = s.drop_first();
        lemma_insert_members(t, x);
        let r = insert_sorted(s, x);
        assert forall|i: int| 0 <= i < r.len() implies #[trigger] r[i] == x || exists|k: int|
            0 <= k < s.len() && s[k] == r[i] by {
            if i == 0 {
                assert(s[0] == r[0]);
            } else {
                let e = insert_sorted(t, x)[i - 1];
                assert(r[i] == e);
                if e != x {
                    let k = choose|k: int| 0 <= k < t.len() && t[k] == e;
                    assert(s[k + 1] == e);
                }
            }
        }
    } else if s.len() > 0 {
        let r = insert_sorted(s, x);
        assert forall|i: int| 0 <= i < r.len() implies #[trigger] r[i] == x || exists|k: int|
            0 <= k < s.len() && s[k] == r[i] by {
            if i > 0 {
                assert(s[i - 1] == r[i]);
            }
        }
    }
}

/// The stable sort is sorted.
pub proof fn lemma_sort_sorted<T: Keyed>(s: Seq<T>)
    ensures
        sorted_by_key(sort_spec(s)),
        sort_spec(s).len() == s.len(),
    decreases s.len(),
{
    if s.len() > 0 {
        lemma_sort_sorted(s.drop_last());
        lemma_insert_sorted(sort_spec(s.drop_last()), s.last());
    }
}

/// No two elements share a key.
pub open spec fn distinct_keys<T: Keyed>(s: Seq<T>) -> bool {
    forall|i: int, j: int| 0 <= i < j < s.len() ==> s[i].key_of() != s[j].key_of()
}

/// Inserting puts `x` at some position of `s`.
proof fn lemma_insert_position<T: Keyed>(s: Seq<T>, x: T)
    ensures
        exists|p: int| 0 <= p <= s.len() && insert_sorted(s, x) == s.insert(p, x),
    decreases s.len(),
{
    if s.len() == 0 || lex_lt(x.key_of(), s[0].key_of()) {
        assert(insert_sorted(s, x) =~= s.insert(0, x));
    } else {
        let t = s.drop_first();
        lemma_insert_position(t, x);
        let p = choose|p: int| 0 <= p <= t.len() && insert_sorted(t, x) == t.insert(p, x);
        assert(insert_sorted(s, x) =~= s.insert(p + 1, x));
    }
}

/// Sorting keeps the elements, each as often as it occurs.
pub proof fn lemma_sort_multiset<T: Keyed>(s: Seq<T>)
    ensures
        sort_spec(s).to_multiset() == s.to_multiset(),
    decreases s.len(),
{
    broadcast use vstd::seq_lib::group_to_multiset_ensures;

    if s.len() > 0 {
        let d = s.drop_last();
        lemma_sort_multiset(d);
        lemma_insert_position(sort_spec(d), s.last());
        let p = choose|p: int|
            0 <= p <= sort_spec(d).len() && insert_sorted(sort_spec(d), s.last()) == sort_spec(
                d,
            ).insert(p, s.last());
        assert(s =~= d.push(s.last()));
    }
}

/// Sorting elements with distinct keys gives elements with distinct keys.
proof fn lemma_sort_distinct<T: Keyed>(s: Seq<T>)
    requires
        distinct_keys(s),
    ensures
        distinct_keys(sort_spec(s)),
    decreases s.len(),
{
    broadcast use vstd::seq_lib::group_to_multiset_ensures;

    if s.len() > 0 {
        let d = s.drop_last();
        let x = s.last();
        let t = sort_spec(d);
        lemma_sort_distinct(d);
        lemma_sort_multiset(d);
        lemma_insert_position(t, x);
        let p = choose|p: int| 0 <= p <= t.len() && insert_sorted(t, x) == t.insert(p, x);
        let r = t.insert(p, x);
        assert forall|k: int| 0 <= k < t.len() implies (#[trigger] t[k]).key_of() != x.key_of() by {
            assert(t.to_multiset().count(t[k]) > 0);
            assert(d.contains(t[k]));
            let m = choose|m: int| 0 <= m < d.len() && d[m] == t[k];
            assert(s[m] == t[k]);
        }
        assert forall|i: int, j: int| 0 <= i < j < r.len() implies r[i].key_of() != r[j].key_of() by {
            if i < p && j < p {
                assert(r[i] == t[i] && r[j] == t[j]);
            } else if i < p && j == p {
                assert(r[i] == t[i]);
            } else if i < p && j > p {
                assert(r[i] == t[i] && r[j] == t[j - 1]);
            } else if i == p {
                assert(r[j] == t[j - 1]);
            } else {
                assert(r[i] == t[i - 1] && r[j] == t[j - 1]);
            }
        }
    }
}

/// Two sorted arrangements of the same elements, with distinct keys, are
/// the same sequence.
proof fn lemma_sorted_unique<T: Keyed>(a: Seq<T>, b: Seq<T>)
    requires
        sorted_by_key(a),
        sorted_by_key(b),
        distinct_keys(a),
        a.to_multiset() == b.to_multiset(),
    ensures
        a == b,
    decreases a.len(),
{
    broadcast use vstd::seq_lib::group_to_multiset_ensures;

    assert(a.len() == a.to_multiset().len());
    assert(b.len() == b.to_multiset().len());
    if a.len() == 0 {
        assert(a =~= b);
    } else {
        assert(a.to_multiset().count(a[0]) > 0);
        assert(b.contains(a[0]));
        let k = choose|k: int| 0 <= k < b.len() && b[k] == a[0];
        assert(b.to_multiset().count(b[0]) > 0);
        assert(a.contains(b[0]));
        let m = choose|m: int| 0 <= m < a.len() && a[m] == b[0];
        if k > 0 {
            assert(!lex_lt(b[k].key_of(), b[0].key_of()));
        }
        if m > 0 {
            assert(!lex_lt(a[m].key_of(), a[0].key_of()));
        }
        lemma_lex_total(a[0].key_of(), b[0].key_of());
        assert(a[0].key_of() == b[0].key_of());
        assert(m == 0);
        assert(a[0] == b[0]);
        let a1 = a.drop_first();
        let b1 = b.drop_first();
        assert(a.remove(0) =~= a1);
        assert(b.remove(0) =~= b1);
        assert(a1.to_multiset() == a.to_multiset().remove(a[0]));
        assert(b1.to_multiset() == b.to_multiset().remove(b[0]));
        assert(sorted_by_key(a1)) by {
            assert forall|i: int, j: int| 0 <= i < j < a1.len() implies !lex_lt(
                a1[j].key_of(),
                a1[i].key_of(),
            ) by {
                assert(a1[i] == a[i + 1] && a1[j] == a[j + 1]);
            }
        }
        assert(sorted_by_key(b1)) by {
            assert forall|i: int, j: int| 0 <= i < j < b1.len() implies !lex_lt(
                b1[j].key_of(),
                b1[i].key_of(),
            ) by {
                assert(b1[i] == b[i + 1] && b1[j] == b[j + 1]);
            }
        }
        assert(distinct_keys(a1)) by {
            assert forall|i: int, j: int| 0 <= i < j < a1.len() implies a1[i].key_of()
                != a1[j].key_of() by {
                assert(a1[i] == a[i + 1] && a1[j] == a[j + 1]);
            }
        }
        lemma_sorted_unique(a1, b1);
        assert(a =~= b) by {
            assert forall|i: int| 0 <= i < a.len() implies a[i] == b[i] by {
                if i > 0 {
                    assert(a[i] == a1[i - 1] && b[i] == b1[i - 1]);
                }
            }
        }
    }
}

/// Elements with distinct keys sort the same way whatever order they come
/// in.
pub proof fn lemma_sort_ignores_order<T: Keyed>(s1: Seq<T>, s2: Seq<T>)
    requires
        s1.to_multiset() == s2.to_multiset(),
        distinct_keys(s1),
    ensures
        sort_spec(s1) == sort_spec(s2),
{
    lemma_sort_multiset(s1);
    lemma_sort_multiset(s2);
    lemma_sort_sorted(s1);
    lemma_sort_sorted(s2);
    lemma_sort_distinct(s1);
    lemma_sorted_unique(sort_spec(s1), sort_spec(s2));
}

/// Sorts by key, keeping the order of equal keys.
#[verifier::loop_isolation(false)]
pub fn sort_by_key<T: Keyed>(v: Vec<T>) -> (out: Vec<T>)
    ensures
        out@ == sort_spec(v@),
        sorted_by_key(out@),
{
    let ghost orig = v@;
    let mut rest = v;
    let mut items: Vec<T> = Vec::new();
    // Take the elements out in order (reversing twice keeps the order).
    while rest.len() > 0
        invariant
            orig == rest@ + items@.reverse(),
        decreases rest.len(),
    {
        let x = rest.pop().unwrap();
        let ghost before = items@;
        items.push(x);
        assert(items@.reverse() =~= seq![x] + before.reverse());
        assert(orig =~= rest@ + items@.reverse());
    }
    assert(items@.reverse() =~= orig);
    let mut out: Vec<T> = Vec::new();
    let mut n: usize = 0;
    let total = items.len();
    assert(orig.skip(0) =~= orig);
    while items.len() > 0
        invariant
            items@.reverse() == orig.skip(n as int),
            items@.len() + n == orig.len(),
            total == orig.len(),
            out@ == sort_spec(orig.take(n as int)),
        decreases items.len(),
    {
        let ghost before = items@;
        let x = items.pop().unwrap();
        assert(before.reverse()[0] == before.last());
        assert(orig.skip(n as int)[0] == orig[n as int]);
        assert(orig[n as int] == x);
        assert(before.drop_last().reverse() =~= before.reverse().drop_first());
        assert(orig.skip(n as int).drop_first() =~= orig.skip(n + 1));
        assert(items@.reverse() =~= orig.skip(n + 1));
        proof {
            lemma_sort_sorted(orig.take(n as int));
        }
        let mut p: usize = 0;
        while p < out.len() && !str_less(x.key(), out[p].key())
            invariant
                p <= out.len(),
                forall|i: int| 0 <= i < p ==> !lex_lt(x.key_of(), #[trigger] out@[i].key_of()),
            decreases out.len() - p,
        {
            p = p + 1;
        }
        proof {
            lemma_insert_at(out@, x, p as int);
            assert(orig.take(n + 1).drop_last() =~= orig.take(n as int));
        }
        out.insert(p, x);
        assert(out@ =~= sort_spec(orig.take(n + 1)));
        n = n + 1;
    }
    assert(orig.take(n as int) =~= orig);
    proof {
        lemma_sort_sorted(orig);
    }
    out
}

} // verus!

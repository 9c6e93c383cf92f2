//! Character-level helpers on strings, stated over `Seq<char>`.
use vstd::prelude::*;

verus! {

/// Whether `c` is Unicode white space (the `White_Space` property, which
/// `char::is_whitespace` reads): tab to carriage return, space, next line,
/// no-break space, ogham space mark, the spaces from en quad to hair space,
/// line and paragraph separators, narrow no-break space, medium mathematical
/// space and ideographic space.
pub open spec fn is_ws(c: char) -> bool {
    let n = c as u32;
    ||| 0x9 <= n <= 0xD
    ||| n == 0x20
    ||| n == 0x85
    ||| n == 0xA0
    ||| n == 0x1680
    ||| 0x2000 <= n <= 0x200A
    ||| n == 0x2028
    ||| n == 0x2029
    ||| n == 0x202F
    ||| n == 0x205F
    ||| n == 0x3000
}

/// Whether `c` is Unicode white space.
pub fn char_is_whitespace(c: char) -> (b: bool)
    ensures
        b == is_ws(c),
{
    let n = c as u32;
    (0x9 <= n && n <= 0xD) || n == 0x20 || n == 0x85 || n == 0xA0 || n == 0x1680 || (0x2000 <= n
        && n <= 0x200A) || n == 0x2028 || n == 0x2029 || n == 0x202F || n == 0x205F || n == 0x3000
}

/// `String::push`: appends one character.
#[verifier::external_body]
pub(crate) fn push_char(s: &mut String, c: char)
    ensures
        final(s)@ == old(s)@.push(c),
{
    s.push(c);
}

/// A string made only of white space (the empty string included).
pub open spec fn is_blank(s: Seq<char>) -> bool {
    forall|i: int| 0 <= i < s.len() ==> is_ws(#[trigger] s[i])
}

/// The string with leading white space removed.
pub open spec fn trim_start_seq(s: Seq<char>) -> Seq<char>
    decreases s.len(),
{
    if s.len() > 0 && is_ws(s[0]) {
        trim_start_seq(s.drop_first())
    } else {
        s
    }
}

/// The string with trailing white space removed.
pub open spec fn trim_end_seq(s: Seq<char>) -> Seq<char>
    decreases s.len(),
{
    if s.len() > 0 && is_ws(s.last()) {
        trim_end_seq(s.drop_last())
    } else {
        s
    }
}

/// The string with white space removed at both ends (`str::trim`).
pub open spec fn trim_seq(s: Seq<char>) -> Seq<char> {
    trim_end_seq(trim_start_seq(s))
}

/// Copies the characters of `s` into a vector.
pub fn chars_of(s: &str) -> (out: Vec<char>)
    ensures
        out@ == s@,
{
    let mut out: Vec<char> = Vec::new();
    for c in it: s.chars()
        invariant
            out@ == it.seq().take(it.index() as int),
            it.seq() == s@,
    {
        out.push(c);
    }
    out
}

/// Builds a string from `v[lo..hi]`.
pub fn string_from_range(v: &Vec<char>, lo: usize, hi: usize) -> (out: String)
    requires
        lo <= hi <= v.len(),
    ensures
        out@ == v@.subrange(lo as int, hi as int),
{
    let mut out = String::new();
    let mut i = lo;
    while i < hi
        invariant
            lo <= i <= hi <= v.len(),
            out@ == v@.subrange(lo as int, i as int),
        decreases hi - i,
    {
        push_char(&mut out, v[i]);
        i = i + 1;
        assert(out@ =~= v@.subrange(lo as int, i as int));
    }
    out
}

/// Builds a string from all of `v`.
pub fn string_from_chars(v: &Vec<char>) -> (out: String)
    ensures
        out@ == v@,
{
    let out = string_from_range(v, 0, v.len());
    assert(v@.subrange(0, v@.len() as int) =~= v@);
    out
}

/// Whether two strings hold the same characters.
pub fn str_eq(a: &str, b: &str) -> (res: bool)
    ensures
        res == (a@ == b@),
{
    let x = a.to_owned();
    let y = b.to_owned();
    x == y
}

/// Whether `s` is blank: only white space, or empty.
pub fn blank(s: &str) -> (res: bool)
    ensures
        res == is_blank(s@),
{
    let v = chars_of(s);
    let mut i: usize = 0;
    while i < v.len()
        invariant
            v@ == s@,
            i <= v.len(),
            forall|k: int| 0 <= k < i ==> is_ws(#[trigger] v@[k]),
        decreases v.len() - i,
    {
        if !char_is_whitespace(v[i]) {
            return false;
        }
        i = i + 1;
    }
    true
}

/// Unfolding `trim_start_seq` over a run of white space.
proof fn lemma_trim_start_skip(s: Seq<char>, i: int)
    requires
        0 <= i <= s.len(),
        forall|k: int| 0 <= k < i ==> is_ws(#[trigger] s[k]),
    ensures
        trim_start_seq(s) == trim_start_seq(s.subrange(i, s.len() as int)),
    decreases i,
{
    if i > 0 {
        lemma_trim_start_skip(s.drop_first(), i - 1);
        assert(s.drop_first().subrange(i - 1, s.drop_first().len() as int) =~= s.subrange(
            i,
            s.len() as int,
        ));
    } else {
        assert(s.subrange(0, s.len() as int) =~= s);
    }
}

/// Unfolding `trim_end_seq` over a trailing run of white space.
proof fn lemma_trim_end_skip(s: Seq<char>, j: int)
    requires
        0 <= j <= s.len(),
        forall|k: int| j <= k < s.len() ==> is_ws(#[trigger] s[k]),
    ensures
        trim_end_seq(s) == trim_end_seq(s.subrange(0, j)),
    decreases s.len() - j,
{
    if j < s.len() {
        lemma_trim_end_skip(s.drop_last(), j);
        assert(s.drop_last().subrange(0, j) =~= s.subrange(0, j));
    } else {
        assert(s.subrange(0, j) =~= s);
    }
}

/// The bounds `(lo, hi)` of `s` with white space trimmed at both ends.
pub fn trim_bounds(v: &Vec<char>) -> (res: (usize, usize))
    ensures
        res.0 <= res.1 <= v.len(),
        trim_seq(v@) == v@.subrange(res.0 as int, res.1 as int),
{
    let mut lo: usize = 0;
    while lo < v.len() && char_is_whitespace(v[lo])
        invariant
            lo <= v.len(),
            forall|k: int| 0 <= k < lo ==> is_ws(#[trigger] v@[k]),
        decreases v.len() - lo,
    {
        lo = lo + 1;
    }
    proof {
        lemma_trim_start_skip(v@, lo as int);
    }
    let ghost rest = v@.subrange(lo as int, v@.len() as int);
    assert(rest.len() == 0 || !is_ws(rest[0]));
    assert(trim_start_seq(rest) == rest);
    let mut hi: usize = v.len();
    while hi > lo && char_is_whitespace(v[hi - 1])
        invariant
            lo <= hi <= v.len(),
            forall|k: int| hi <= k < v.len() ==> is_ws(#[trigger] v@[k]),
        decreases hi,
    {
        hi = hi - 1;
    }
    proof {
        let r = rest;
        let j = hi - lo;
        assert forall|k: int| j <= k < r.len() implies is_ws(#[trigger] r[k]) by {
            assert(r[k] == v@[k + lo]);
        }
        lemma_trim_end_skip(r, j);
        let t = r.subrange(0, j);
        assert(t =~= v@.subrange(lo as int, hi as int));
        if t.len() > 0 {
            assert(t.last() == v@[hi - 1]);
        }
        assert(trim_end_seq(t) == t);
    }
    (lo, hi)
}

/// `str::trim`: `s` without white space at either end.
pub fn trim(s: &str) -> (out: String)
    ensures
        out@ == trim_seq(s@),
{
    let v = chars_of(s);
    let (lo, hi) = trim_bounds(&v);
    string_from_range(&v, lo, hi)
}


/// `s` cut at every `c` (`str::split` with a character): the pieces between
/// the separators, in order; `k` separators give `k + 1` pieces.
pub open spec fn split_seq(s: Seq<char>, c: char) -> Seq<Seq<char>>
    decreases s.len(),
{
    if s.len() == 0 {
        seq![Seq::<char>::empty()]
    } else {
        let parts = split_seq(s.drop_last(), c);
        if s.last() == c {
            parts.push(Seq::<char>::empty())
        } else {
            parts.update(parts.len() - 1, parts.last().push(s.last()))
        }
    }
}

pub proof fn lemma_split_nonempty(s: Seq<char>, c: char)
    ensures
        split_seq(s, c).len() >= 1,
    decreases s.len(),
{
    if s.len() > 0 {
        lemma_split_nonempty(s.drop_last(), c);
    }
}

/// Cutting a blank string gives only blank pieces.
pub proof fn lemma_split_blank(s: Seq<char>, c: char)
    requires
        is_blank(s),
    ensures
        forall|k: int| 0 <= k < split_seq(s, c).len() ==> is_blank(#[trigger] split_seq(s, c)[k]),
    decreases s.len(),
{
    if s.len() > 0 {
        lemma_split_blank(s.drop_last(), c);
        lemma_split_nonempty(s.drop_last(), c);
        let parts = split_seq(s.drop_last(), c);
        assert(is_ws(s.last()));
        if s.last() != c {
            assert(is_blank(parts.last()));
            assert(is_blank(parts.last().push(s.last())));
        }
    }
}

/// The characters of each string.
pub open spec fn views(v: Seq<String>) -> Seq<Seq<char>> {
    v.map_values(|s: String| s@)
}

/// `str::split` with a character separator.
pub fn split_char(s: &str, c: char) -> (out: Vec<String>)
    ensures
        views(out@) == split_seq(s@, c),
{
    let v = chars_of(s);
    let mut out: Vec<String> = Vec::new();
    let mut start: usize = 0;
    let mut i: usize = 0;
    assert(v@.take(0) =~= Seq::<char>::empty());
    assert(views(out@).push(v@.subrange(0, 0)) =~= seq![Seq::<char>::empty()]);
    while i < v.len()
        invariant
            v@ == s@,
            start <= i <= v.len(),
            views(out@).push(v@.subrange(start as int, i as int)) == split_seq(v@.take(i as int), c),
        decreases v.len() - i,
    {
        let ghost pre = v@.take(i as int);
        let ghost next = v@.take(i + 1);
        assert(next.drop_last() =~= pre);
        proof {
            lemma_split_nonempty(pre, c);
        }
        if v[i] == c {
            let piece = string_from_range(&v, start, i);
            out.push(piece);
            assert(views(out@) =~= split_seq(pre, c));
            start = i + 1;
            assert(v@.subrange(start as int, i + 1) =~= Seq::<char>::empty());
            assert(views(out@).push(v@.subrange(start as int, i + 1)) =~= split_seq(next, c));
        } else {
            let ghost old_views = views(out@);
            assert(v@.subrange(start as int, i + 1) =~= v@.subrange(start as int, i as int).push(
                v@[i as int],
            ));
            assert(old_views.push(v@.subrange(start as int, i + 1)) =~= split_seq(pre, c).update(
                split_seq(pre, c).len() - 1,
                split_seq(pre, c).last().push(next.last()),
            ));
        }
        i = i + 1;
    }
    let last = string_from_range(&v, start, v.len());
    out.push(last);
    assert(v@.take(v@.len() as int) =~= v@);
    assert(views(out@) =~= split_seq(s@, c));
    out
}

/// Whether `v` holds a string equal to `s`.
pub fn contains_str(v: &Vec<String>, s: &str) -> (res: bool)
    ensures
        res == views(v@).contains(s@),
{
    let mut i: usize = 0;
    while i < v.len()
        invariant
            i <= v.len(),
            forall|k: int| 0 <= k < i ==> (#[trigger] v@[k])@ != s@,
        decreases v.len() - i,
    {
        if str_eq(v[i].as_str(), s) {
            assert(views(v@)[i as int] == s@);
            return true;
        }
        i = i + 1;
    }
    assert forall|k: int| 0 <= k < views(v@).len() implies #[trigger] views(v@)[k] != s@ by {
        assert(views(v@)[k] == v@[k]@);
    }
    false
}

} // verus!

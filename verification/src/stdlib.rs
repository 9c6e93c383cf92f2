//! The string and path helpers that templates reach as `forge.str.*` and
//! `forge.path.*` (the case helpers live in `casing`).
use crate::lua::file_name_spec;
use crate::render::ends_with;
use crate::text::{chars_of, string_from_range};
use vstd::prelude::*;

verus! {

/// Whether `s` begins with `p`.
pub open spec fn starts_with(s: Seq<char>, p: Seq<char>) -> bool {
    p.len() <= s.len() && s.subrange(0, p.len() as int) == p
}

/// Whether `v[at..]` begins with `p`.
fn matches_at(v: &Vec<char>, at: usize, p: &Vec<char>) -> (b: bool)
    requires
        at <= v.len(),
    ensures
        b == (at + p.len() <= v.len() && v@.subrange(at as int, at + p.len()) == p@),
{
    if p.len() > v.len() - at {
        return false;
    }
    let mut k: usize = 0;
    while k < p.len()
        invariant
            at + p.len() <= v.len(),
            k <= p.len(),
            forall|m: int| 0 <= m < k ==> v@[at + m] == p@[m],
        decreases p.len() - k,
    {
        if v[at + k] != p[k] {
            assert(v@.subrange(at as int, at + p.len())[k as int] != p@[k as int]);
            return false;
        }
        k = k + 1;
    }
    assert(v@.subrange(at as int, at + p.len()) =~= p@);
    true
}

/// `forge.str.starts_with`.
pub fn str_starts_with(s: &str, prefix: &str) -> (b: bool)
    ensures
        b == starts_with(s@, prefix@),
{
    let v = chars_of(s);
    let p = chars_of(prefix);
    matches_at(&v, 0, &p)
}

/// `forge.str.ends_with`.
pub fn str_ends_with(s: &str, suffix: &str) -> (b: bool)
    ensures
        b == ends_with(s@, suffix@),
{
    let v = chars_of(s);
    let p = chars_of(suffix);
    if p.len() > v.len() {
        return false;
    }
    matches_at(&v, v.len() - p.len(), &p)
}

/// Whether `sep` occurs in `s` at `i`.
pub open spec fn occurs_at(s: Seq<char>, sep: Seq<char>, i: int) -> bool {
    0 <= i && i + sep.len() <= s.len() && s.subrange(i, i + sep.len()) == sep
}

/// The pieces of `s[start..]` cut at the occurrences of a non-empty `sep`
/// found scanning from `i`, each occurrence taken leftmost and without
/// overlap.
pub open spec fn split_scan(s: Seq<char>, sep: Seq<char>, start: int, i: int) -> Seq<Seq<char>>
    decreases s.len() - i,
{
    if sep.len() == 0 || i + sep.len() > s.len() {
        seq![s.subrange(start, s.len() as int)]
    } else if occurs_at(s, sep, i) {
        seq![s.subrange(start, i)] + split_scan(s, sep, i + sep.len(), i + sep.len())
    } else {
        split_scan(s, sep, start, i + 1)
    }
}

/// `s` cut at every occurrence of `sep` (`str::split` with a string
/// pattern); an empty separator leaves `s` whole.
pub open spec fn split_str_spec(s: Seq<char>, sep: Seq<char>) -> Seq<Seq<char>> {
    split_scan(s, sep, 0, 0)
}

/// `forge.str.split`.
pub fn split_str(s: &str, sep: &str) -> (out: Vec<String>)
    ensures
        out@.map_values(|p: String| p@) == split_str_spec(s@, sep@),
{
    let v = chars_of(s);
    let p = chars_of(sep);
    let mut out: Vec<String> = Vec::new();
    if p.len() == 0 {
        out.push(string_from_range(&v, 0, v.len()));
        assert(v@.subrange(0, v@.len() as int) =~= v@);
        assert(out@.map_values(|p: String| p@) =~= seq![s@]);
        return out;
    }
    let mut start: usize = 0;
    let mut i: usize = 0;
    while p.len() <= v.len() - i
        invariant
            v@ == s@,
            p@ == sep@,
            p.len() > 0,
            start <= i <= v.len(),
            out@.map_values(|q: String| q@) + split_scan(s@, sep@, start as int, i as int)
                == split_str_spec(s@, sep@),
        decreases v.len() - i,
    {
        if matches_at(&v, i, &p) {
            let ghost before = out@.map_values(|q: String| q@);
            out.push(string_from_range(&v, start, i));
            assert(out@.map_values(|q: String| q@) =~= before.push(s@.subrange(start as int, i as int)));
            assert(before + split_scan(s@, sep@, start as int, i as int) =~= before.push(
                s@.subrange(start as int, i as int),
            ) + split_scan(s@, sep@, (i + p.len()) as int, (i + p.len()) as int));
            i = i + p.len();
            start = i;
        } else {
            i = i + 1;
        }
    }
    let ghost before = out@.map_values(|q: String| q@);
    out.push(string_from_range(&v, start, v.len()));
    assert(out@.map_values(|q: String| q@) =~= before + split_scan(
        s@,
        sep@,
        start as int,
        i as int,
    ));
    out
}

/// The index of the last `.` in `n`, if any.
pub open spec fn last_dot(n: Seq<char>) -> Option<int>
    decreases n.len(),
{
    if n.len() == 0 {
        None
    } else if n.last() == '.' {
        Some(n.len() - 1)
    } else {
        last_dot(n.drop_last())
    }
}

/// `forge.path.stem` (`Path::file_stem`): the file name without its
/// extension; a leading dot starts no extension; empty without a file name.
pub open spec fn stem_spec(p: Seq<char>) -> Seq<char> {
    match file_name_spec(p) {
        None => Seq::empty(),
        Some(n) => match last_dot(n) {
            Some(k) => if k > 0 {
                n.take(k)
            } else {
                n
            },
            None => n,
        },
    }
}

/// `forge.path.ext` (`Path::extension`): what follows the file name's last
/// dot, unless that dot leads the name; empty when there is none.
pub open spec fn ext_spec(p: Seq<char>) -> Seq<char> {
    match file_name_spec(p) {
        None => Seq::empty(),
        Some(n) => match last_dot(n) {
            Some(k) => if k > 0 {
                n.skip(k + 1)
            } else {
                Seq::empty()
            },
            None => Seq::empty(),
        },
    }
}

/// The index of the last `.` in `v`.
fn find_last_dot(v: &Vec<char>) -> (res: Option<usize>)
    ensures
        match res {
            Some(k) => last_dot(v@) == Some(k as int) && k < v.len(),
            None => last_dot(v@) is None,
        },
{
    let mut n: usize = v.len();
    assert(v@.take(n as int) =~= v@);
    while n > 0
        invariant
            n <= v.len(),
            last_dot(v@) == last_dot(v@.take(n as int)),
        decreases n,
    {
        let ghost t = v@.take(n as int);
        assert(t.drop_last() =~= v@.take(n - 1));
        if v[n - 1] == '.' {
            return Some(n - 1);
        }
        n = n - 1;
    }
    None
}

/// `forge.path.stem`.
pub fn path_stem(p: &str) -> (out: String)
    ensures
        out@ == stem_spec(p@),
{
    match crate::lua::file_name(p) {
        None => String::new(),
        Some(n) => {
            let v = chars_of(n.as_str());
            match find_last_dot(&v) {
                Some(k) => if k > 0 {
                    string_from_range(&v, 0, k)
                } else {
                    n
                },
                None => n,
            }
        },
    }
}

/// `forge.path.ext`.
pub fn path_ext(p: &str) -> (out: String)
    ensures
        out@ == ext_spec(p@),
{
    match crate::lua::file_name(p) {
        None => String::new(),
        Some(n) => {
            let v = chars_of(n.as_str());
            match find_last_dot(&v) {
                Some(k) => if k > 0 {
                    string_from_range(&v, k + 1, v.len())
                } else {
                    String::new()
                },
                None => String::new(),
            }
        },
    }
}

/// `forge.path.basename`: the file name, empty when there is none.
pub fn path_basename(p: &str) -> (out: String)
    ensures
        match file_name_spec(p@) {
            Some(n) => out@ == n,
            None => out@ == Seq::<char>::empty(),
        },
{
    match crate::lua::file_name(p) {
        None => String::new(),
        Some(n) => n,
    }
}

} // verus!

//! Trusted template directories: each trusted directory is recorded with the
//! checksum of its files, and trust lapses when the files change.
use crate::order::{sort_by_key, sorted_by_key, Keyed};
use crate::strmap::{keys_sorted, map_of, StrMap};
use vstd::prelude::*;

verus! {

/// A trusted directory and the checksum its files had when trusted.
#[derive(Debug, Clone)]
pub struct TrustedEntry {
    pub path: String,
    pub checksum: String,
}

impl Keyed for TrustedEntry {
    open spec fn key_of(&self) -> Seq<char> {
        self.path@
    }

    fn key(&self) -> (k: &str) {
        self.path.as_str()
    }
}

/// Why the trust store could not be used.
#[derive(Debug, Clone)]
pub enum TrustError {
    /// Reading or writing the store failed.
    Io(String),
    /// The store is not valid JSON.
    Json(String),
    /// The directory cannot be trusted.
    InvalidPath(String),
}

impl TrustError {
    /// The message shown to the user.
    pub fn message(&self) -> (m: String)
        ensures
            match self {
                TrustError::Io(s) => m@ == s@,
                TrustError::Json(s) => m@ == s@,
                TrustError::InvalidPath(s) => m@ == s@,
            },
    {
        match self {
            TrustError::Io(s) => s.as_str().to_owned(),
            TrustError::Json(s) => s.as_str().to_owned(),
            TrustError::InvalidPath(s) => s.as_str().to_owned(),
        }
    }
}

/// The trusted directories, path to checksum.
pub open spec fn trust_view(m: Map<Seq<char>, String>) -> Map<Seq<char>, Seq<char>> {
    m.map_values(|c: String| c@)
}

/// The store after trusting `path` with the checksum its files have now.
pub open spec fn trust_spec(m: Map<Seq<char>, Seq<char>>, path: Seq<char>, checksum: Seq<char>) -> Map<Seq<char>, Seq<char>> {
    m.insert(path, checksum)
}

/// Whether `path` is trusted, given the checksum its files have now, and the
/// store afterwards: an entry whose checksum no longer matches is dropped.
pub open spec fn check_spec(m: Map<Seq<char>, Seq<char>>, path: Seq<char>, current: Seq<char>) -> (bool, Map<Seq<char>, Seq<char>>) {
    if m.contains_key(path) && m[path] == current {
        (true, m)
    } else if m.contains_key(path) {
        (false, m.remove(path))
    } else {
        (false, m)
    }
}

/// The store after revoking `path`, and whether it was trusted.
pub open spec fn revoke_spec(m: Map<Seq<char>, Seq<char>>, path: Seq<char>) -> (bool, Map<Seq<char>, Seq<char>>) {
    (m.contains_key(path), m.remove(path))
}

/// The trust store: the file it is kept in, and its entries by path.
pub struct TrustManager {
    store_path: String,
    entries: StrMap<String>,
}

impl TrustManager {
    /// The trusted directories, path to checksum.
    pub closed spec fn trusted(&self) -> Map<Seq<char>, Seq<char>> {
        trust_view(self.entries.view())
    }

    /// The store's file.
    pub closed spec fn store(&self) -> Seq<char> {
        self.store_path@
    }

    /// A manager for the store at `store_path`, holding `entries` as read
    /// from it (later entries for a path replace earlier ones).
    pub fn new(store_path: &str, entries: Vec<TrustedEntry>) -> (t: Self)
        ensures
            t.store() == store_path@,
            t.trusted() == crate::storage::pairs_map(
                entries@.map_values(|e: TrustedEntry| (e.path@, e.checksum@)),
            ),
    {
        let mut pairs: Vec<(String, String)> = Vec::new();
        let mut i: usize = 0;
        let ghost want = entries@.map_values(|e: TrustedEntry| (e.path@, e.checksum@));
        while i < entries.len()
            invariant
                i <= entries.len(),
                want == entries@.map_values(|e: TrustedEntry| (e.path@, e.checksum@)),
                crate::storage::pair_views(pairs@) == want.take(i as int),
            decreases entries.len() - i,
        {
            let ghost before = crate::storage::pair_views(pairs@);
            pairs.push((entries[i].path.clone(), entries[i].checksum.clone()));
            assert(crate::storage::pair_views(pairs@) =~= before.push(
                (entries@[i as int].path@, entries@[i as int].checksum@),
            ));
            assert(want.take(i + 1) =~= want.take(i as int).push(
                (entries@[i as int].path@, entries@[i as int].checksum@),
            ));
            i = i + 1;
        }
        assert(want.take(want.len() as int) =~= want);
        let m = crate::storage::map_from_pairs(pairs);
        let t = TrustManager { store_path: store_path.to_owned(), entries: m };
        assert(t.trusted() =~= crate::storage::text_map(m.view()));
        t
    }

    /// The store's file.
    pub fn store_path(&self) -> (p: &str)
        ensures
            p@ == self.store(),
    {
        self.store_path.as_str()
    }

    /// Trusts `path`, whose files have the checksum `checksum`.
    pub fn trust_dir(&mut self, path: &str, checksum: &str)
        ensures
            final(self).trusted() == trust_spec(old(self).trusted(), path@, checksum@),
            final(self).store() == old(self).store(),
    {
        let c = checksum.to_owned();
        self.entries.insert(path.to_owned(), c);
        assert(self.trusted() =~= trust_spec(old(self).trusted(), path@, checksum@));
    }

    /// Whether `path` has an entry (its files then need a checksum to be
    /// checked against it).
    pub fn has_entry(&self, path: &str) -> (b: bool)
        ensures
            b == self.trusted().contains_key(path@),
    {
        self.entries.contains_key(path)
    }

    /// Whether `path` is trusted, its files having the checksum `current`; a
    /// stale entry is dropped (and the caller saves the store).
    pub fn is_dir_trusted(&mut self, path: &str, current: &str) -> (b: bool)
        ensures
            (b, final(self).trusted()) == check_spec(old(self).trusted(), path@, current@),
            final(self).store() == old(self).store(),
    {
        let same = match self.entries.get(path) {
            None => {
                return false;
            },
            Some(c) => crate::text::str_eq(c.as_str(), current),
        };
        if same {
            return true;
        }
        self.entries.remove(path);
        assert(self.trusted() =~= old(self).trusted().remove(path@));
        false
    }

    /// Revokes `path`; true when it was trusted.
    pub fn revoke_dir(&mut self, path: &str) -> (b: bool)
        ensures
            (b, final(self).trusted()) == revoke_spec(old(self).trusted(), path@),
            final(self).store() == old(self).store(),
    {
        let r = self.entries.remove(path);
        assert(self.trusted() =~= old(self).trusted().remove(path@));
        r.is_some()
    }

    /// The trusted entries in path order.
    pub fn list_entries(&self) -> (out: Vec<TrustedEntry>)
        ensures
            sorted_by_key(out@),
            out@.len() == self.trusted().dom().len(),
            forall|i: int|
                0 <= i < out@.len() ==> self.trusted().contains_key((#[trigger] out@[i]).path@)
                    && self.trusted()[out@[i].path@] == out@[i].checksum@,
            forall|p: Seq<char>| #[trigger]
                self.trusted().contains_key(p) ==> exists|i: int|
                    0 <= i < out@.len() && out@[i].path@ == p,
    {
        let entries = self.entries.entries();
        let mut out: Vec<TrustedEntry> = Vec::new();
        let mut i: usize = 0;
        while i < entries.len()
            invariant
                i <= entries.len(),
                out@.len() == i,
                forall|k: int|
                    0 <= k < i ==> (#[trigger] out@[k]).path@ == entries@[k].0@ && out@[k].checksum@
                        == entries@[k].1@,
            decreases entries.len() - i,
        {
            out.push(TrustedEntry { path: entries[i].0.clone(), checksum: entries[i].1.clone() });
            i = i + 1;
        }
        proof {
            assert forall|a: int, b: int| 0 <= a < b < out@.len() implies !crate::order::lex_lt(
                out@[b].key_of(),
                out@[a].key_of(),
            ) by {
                assert(crate::order::lex_lt(entries@[a].0@, entries@[b].0@));
                crate::order::lemma_lex_asymmetric(entries@[a].0@, entries@[b].0@);
            }
            assert forall|k: int| 0 <= k < out@.len() implies self.trusted().contains_key(
                (#[trigger] out@[k]).path@,
            ) && self.trusted()[out@[k].path@] == out@[k].checksum@ by {
                crate::strmap::lemma_entry(entries@, k);
            }
            assert forall|p: Seq<char>| #[trigger] self.trusted().contains_key(p) implies exists|
                i: int,
            | 0 <= i < out@.len() && out@[i].path@ == p by {
                let j = choose|j: int| 0 <= j < entries@.len() && #[trigger] entries@[j].0@ == p;
                assert(out@[j].path@ == p);
            }
            lemma_dom_len(entries@);
            assert(self.trusted().dom() =~= map_of(entries@).dom());
        }
        out
    }
}

/// A sorted list of entries has as many entries as its map has keys.
proof fn lemma_dom_len<V>(s: Seq<(String, V)>)
    requires
        keys_sorted(s),
    ensures
        map_of(s).dom().len() == s.len(),
        map_of(s).dom().finite(),
    decreases s.len(),
{
    if s.len() == 0 {
        assert(map_of(s).dom() =~= Set::<Seq<char>>::empty());
    } else {
        let t = s.drop_last();
        assert(keys_sorted(t)) by {
            assert forall|i: int, j: int| 0 <= i < j < t.len() implies crate::order::lex_lt(
                #[trigger] t[i].0@,
                #[trigger] t[j].0@,
            ) by {
                assert(t[i] == s[i] && t[j] == s[j]);
            }
        }
        lemma_dom_len(t);
        let k = s.last().0@;
        assert(!map_of(t).dom().contains(k)) by {
            if map_of(t).dom().contains(k) {
                let j = choose|j: int| 0 <= j < t.len() && #[trigger] t[j].0@ == k;
                assert(s[j].0@ == k);
                crate::strmap::lemma_unique(s, j, s.len() - 1);
            }
        }
        assert forall|x: Seq<char>| map_of(s).dom().contains(x) == map_of(t).dom().insert(k).contains(
            x,
        ) by {
            if map_of(s).dom().contains(x) {
                let j = choose|j: int| 0 <= j < s.len() && #[trigger] s[j].0@ == x;
                if j < s.len() - 1 {
                    assert(t[j].0@ == x);
                }
            }
            if map_of(t).dom().contains(x) {
                let j = choose|j: int| 0 <= j < t.len() && #[trigger] t[j].0@ == x;
                assert(s[j].0@ == x);
            }
            if x == k {
                assert(s[s.len() - 1].0@ == x);
            }
        }
        assert(map_of(s).dom() =~= map_of(t).dom().insert(k));
    }
}

/// A directory trusted with the checksum its files have is then trusted.
pub proof fn law_trusted_after_trust(m: Map<Seq<char>, Seq<char>>, path: Seq<char>, checksum: Seq<char>)
    ensures
        check_spec(trust_spec(m, path, checksum), path, checksum).0,
{
}

/// When a trusted directory's files change, it is no longer trusted, and
/// its entry is gone: a second check finds nothing either.
pub proof fn law_change_revokes_trust(m: Map<Seq<char>, Seq<char>>, path: Seq<char>, checksum: Seq<char>, changed: Seq<char>)
    requires
        changed != checksum,
    ensures
        !check_spec(trust_spec(m, path, checksum), path, changed).0,
        !check_spec(trust_spec(m, path, checksum), path, changed).1.contains_key(path),
        !check_spec(check_spec(trust_spec(m, path, checksum), path, changed).1, path, checksum).0,
{
}

/// A revoked directory is no longer trusted.
pub proof fn law_revoke_removes(m: Map<Seq<char>, Seq<char>>, path: Seq<char>, current: Seq<char>)
    ensures
        !check_spec(revoke_spec(m, path).1, path, current).0,
{
}

/// A check of an unchanged directory changes nothing, so checks repeat
/// with the same answer.
pub proof fn law_check_repeats(m: Map<Seq<char>, Seq<char>>, path: Seq<char>, current: Seq<char>)
    ensures
        check_spec(check_spec(m, path, current).1, path, current).0 == check_spec(m, path, current).0,
{
}


/// Trusting or revoking one directory leaves the verdict on every other
/// directory as it was.
pub proof fn law_trust_is_per_directory(
    m: Map<Seq<char>, Seq<char>>,
    path: Seq<char>,
    checksum: Seq<char>,
    other: Seq<char>,
    current: Seq<char>,
)
    requires
        other != path,
    ensures
        check_spec(trust_spec(m, path, checksum), other, current).0 == check_spec(m, other, current).0,
        check_spec(revoke_spec(m, path).1, other, current).0 == check_spec(m, other, current).0,
{
}

} // verus!

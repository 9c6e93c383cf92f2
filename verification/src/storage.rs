//! The user's stored fields (`fields.json`) and the index of installed
//! templates (`templates.json`). Reading and writing the files is the
//! caller's part; these types hold and change the contents.
use crate::fields::{name_check, validate_name, FieldError};
use crate::order::{sort_by_key, sort_spec, sorted_by_key, Keyed};
use crate::paths::{join_path, join_spec};
use crate::strmap::{keys_sorted, map_of, StrMap};
use vstd::prelude::*;

verus! {

/// What `serde_json::from_str::<BTreeMap<String, String>>` makes of a text:
/// the object's entries, or nothing when the text is not such an object.
pub uninterp spec fn json_string_map(raw: Seq<char>) -> Option<Seq<(Seq<char>, Seq<char>)>>;

/// The text `serde_json::to_string_pretty` writes for a map of strings
/// holding these entries.
pub uninterp spec fn json_pretty_map(entries: Seq<(Seq<char>, Seq<char>)>) -> Seq<char>;

pub open spec fn pair_views(s: Seq<(String, String)>) -> Seq<(Seq<char>, Seq<char>)> {
    s.map_values(|p: (String, String)| (p.0@, p.1@))
}

/// `serde_json::from_str` into a map from strings to strings.
#[verifier::external_body]
fn parse_string_map(raw: &str) -> (res: Option<Vec<(String, String)>>)
    ensures
        match res {
            Some(v) => json_string_map(raw@) == Some(pair_views(v@)),
            None => json_string_map(raw@) is None,
        },
{
    serde_json::from_str::<std::collections::BTreeMap<String, String>>(raw).ok().map(
        |m| m.into_iter().collect(),
    )
}

/// `serde_json::to_string_pretty` of the map holding these entries (the
/// text `to_vec_pretty` writes as bytes). Read back with `serde_json::from_str`
/// it gives the same map, whose entries then come in key order: when the
/// keys are strictly increasing, the very entries given.
#[verifier::external_body]
fn pretty_string_map(entries: &Vec<(String, String)>) -> (out: String)
    ensures
        out@ == json_pretty_map(pair_views(entries@)),
        keys_sorted(entries@) ==> json_string_map(out@) == Some(pair_views(entries@)),
{
    let m: std::collections::BTreeMap<String, String> = entries.iter().cloned().collect();
    serde_json::to_string_pretty(&m).unwrap_or_default()
}

/// The map that entries describe, later entries replacing earlier ones.
pub open spec fn pairs_map(s: Seq<(Seq<char>, Seq<char>)>) -> Map<Seq<char>, Seq<char>>
    decreases s.len(),
{
    if s.len() == 0 {
        Map::empty()
    } else {
        pairs_map(s.drop_last()).insert(s.last().0, s.last().1)
    }
}

/// The texts of a map of strings.
pub open spec fn text_map(m: Map<Seq<char>, String>) -> Map<Seq<char>, Seq<char>> {
    m.map_values(|v: String| v@)
}

proof fn lemma_text_insert(m: Map<Seq<char>, String>, k: Seq<char>, v: String)
    ensures
        text_map(m.insert(k, v)) == text_map(m).insert(k, v@),
{
    assert(text_map(m.insert(k, v)) =~= text_map(m).insert(k, v@));
}

proof fn lemma_text_remove(m: Map<Seq<char>, String>, k: Seq<char>)
    ensures
        text_map(m.remove(k)) == text_map(m).remove(k),
{
    assert(text_map(m.remove(k)) =~= text_map(m).remove(k));
}

/// Builds a map from entries, later ones replacing earlier ones.
pub fn map_from_pairs(pairs: Vec<(String, String)>) -> (m: StrMap<String>)
    ensures
        text_map(m.view()) == pairs_map(pair_views(pairs@)),
{
    let mut m: StrMap<String> = StrMap::new();
    let mut i: usize = 0;
    assert(text_map(m.view()) =~= Map::<Seq<char>, Seq<char>>::empty());
    assert(pair_views(pairs@).take(0) =~= Seq::<(Seq<char>, Seq<char>)>::empty());
    while i < pairs.len()
        invariant
            i <= pairs.len(),
            text_map(m.view()) == pairs_map(pair_views(pairs@).take(i as int)),
        decreases pairs.len() - i,
    {
        let k = pairs[i].0.as_str().to_owned();
        let v = pairs[i].1.as_str().to_owned();
        proof {
            lemma_text_insert(m.view(), k@, v);
            assert(pair_views(pairs@).take(i + 1).drop_last() =~= pair_views(pairs@).take(i as int));
        }
        m.insert(k, v);
        i = i + 1;
    }
    assert(pair_views(pairs@).take(pairs@.len() as int) =~= pair_views(pairs@));
    m
}

// ---------------------------------------------------------------------------
// Fields
// ---------------------------------------------------------------------------

/// `forge fields set`: the map with the field set, or the name's error.
pub open spec fn fields_set_spec(m: Map<Seq<char>, Seq<char>>, name: Seq<char>, value: Seq<char>) -> Result<Map<Seq<char>, Seq<char>>, FieldError> {
    match name_check(name) {
        Err(e) => Err(e),
        Ok(_) => Ok(m.insert(name, value)),
    }
}

/// `forge fields get`: the field's value, if set, or the name's error.
pub open spec fn fields_get_spec(m: Map<Seq<char>, Seq<char>>, name: Seq<char>) -> Result<Option<Seq<char>>, FieldError> {
    match name_check(name) {
        Err(e) => Err(e),
        Ok(_) => Ok(
            if m.contains_key(name) {
                Some(m[name])
            } else {
                None
            },
        ),
    }
}

/// `forge fields clear`: the map without the field and whether it was set,
/// or the name's error.
pub open spec fn fields_clear_spec(m: Map<Seq<char>, Seq<char>>, name: Seq<char>) -> Result<(Map<Seq<char>, Seq<char>>, bool), FieldError> {
    match name_check(name) {
        Err(e) => Err(e),
        Ok(_) => Ok((m.remove(name), m.contains_key(name))),
    }
}

/// The user's reusable fields (name to value), kept in name order.
pub struct FieldsStorage {
    fields_file: String,
    fields: StrMap<String>,
}

impl FieldsStorage {
    /// The stored fields.
    pub closed spec fn fields(&self) -> Map<Seq<char>, Seq<char>> {
        text_map(self.fields.view())
    }

    /// The file the fields are kept in.
    pub closed spec fn file(&self) -> Seq<char> {
        self.fields_file@
    }

    /// The storage for `fields_file`, whose text is `raw` (`None` when the
    /// file does not exist).
    pub fn new(fields_file: &str, raw: Option<&str>) -> (res: Result<FieldsStorage, String>)
        ensures
            raw is None ==> (res matches Ok(s) && s.fields() == Map::<Seq<char>, Seq<char>>::empty()
                && s.file() == fields_file@),
            raw matches Some(r) ==> match json_string_map(r@) {
                None => (res matches Err(e) && e@ == "invalid fields.json"@),
                Some(p) => (res matches Ok(s) && s.fields() == pairs_map(p) && s.file()
                    == fields_file@),
            },
    {
        match raw {
            None => {
                let s = FieldsStorage { fields_file: fields_file.to_owned(), fields: StrMap::new() };
                assert(s.fields() =~= Map::<Seq<char>, Seq<char>>::empty());
                Ok(s)
            },
            Some(r) => match parse_string_map(r) {
                None => Err("invalid fields.json".to_owned()),
                Some(pairs) => Ok(
                    FieldsStorage { fields_file: fields_file.to_owned(), fields: map_from_pairs(pairs) },
                ),
            },
        }
    }

    /// The file the fields are kept in.
    pub fn fields_file(&self) -> (p: &str)
        ensures
            p@ == self.file(),
    {
        self.fields_file.as_str()
    }

    /// Sets a field; the caller then saves.
    pub fn set(&mut self, name: &str, value: &str) -> (res: Result<(), FieldError>)
        ensures
            match fields_set_spec(old(self).fields(), name@, value@) {
                Ok(m) => res is Ok && final(self).fields() == m,
                Err(e) => res == Err::<(), FieldError>(e) && final(self).fields() == old(
                    self,
                ).fields(),
            },
            final(self).file() == old(self).file(),
    {
        validate_name(name)?;
        let v = value.to_owned();
        proof {
            lemma_text_insert(self.fields.view(), name@, v);
        }
        self.fields.insert(name.to_owned(), v);
        Ok(())
    }

    /// The value of a field, if set.
    pub fn get(&self, name: &str) -> (res: Result<Option<String>, FieldError>)
        ensures
            match fields_get_spec(self.fields(), name@) {
                Ok(Some(v)) => (res matches Ok(Some(x)) && x@ == v),
                Ok(None) => (res matches Ok(None)),
                Err(e) => res == Err::<Option<String>, FieldError>(e),
            },
    {
        validate_name(name)?;
        match self.fields.get(name) {
            Some(v) => Ok(Some(v.as_str().to_owned())),
            None => Ok(None),
        }
    }

    /// Removes a field; true when it was set (and the caller saves).
    pub fn clear(&mut self, name: &str) -> (res: Result<bool, FieldError>)
        ensures
            match fields_clear_spec(old(self).fields(), name@) {
                Ok((m, was)) => res == Ok::<bool, FieldError>(was) && final(self).fields() == m,
                Err(e) => res == Err::<bool, FieldError>(e) && final(self).fields() == old(
                    self,
                ).fields(),
            },
            final(self).file() == old(self).file(),
    {
        validate_name(name)?;
        proof {
            lemma_text_remove(self.fields.view(), name@);
        }
        let removed = self.fields.remove(name);
        Ok(removed.is_some())
    }

    /// The fields in name order.
    pub fn list(&self) -> (out: Vec<(String, String)>)
        ensures
            pairs_map(pair_views(out@)) == self.fields(),
            keys_sorted(out@),
    {
        let entries = self.fields.entries();
        let mut out: Vec<(String, String)> = Vec::new();
        let mut i: usize = 0;
        while i < entries.len()
            invariant
                i <= entries.len(),
                out@.len() == i,
                forall|k: int|
                    0 <= k < i ==> (#[trigger] out@[k]).0@ == entries@[k].0@ && out@[k].1@
                        == entries@[k].1@,
            decreases entries.len() - i,
        {
            out.push((entries[i].0.as_str().to_owned(), entries[i].1.as_str().to_owned()));
            i = i + 1;
        }
        proof {
            assert forall|a: int, b: int| 0 <= a < b < out@.len() implies crate::order::lex_lt(
                #[trigger] out@[a].0@,
                #[trigger] out@[b].0@,
            ) by {
                assert(crate::order::lex_lt(entries@[a].0@, entries@[b].0@));
            }
            lemma_pairs_map_sorted(out@);
            assert(text_map(map_of(entries@)) =~= text_map(map_of(out@))) by {
                assert forall|k: Seq<char>| #[trigger] map_of(entries@).contains_key(k)
                    == map_of(out@).contains_key(k) by {
                    if map_of(entries@).contains_key(k) {
                        let j = choose|j: int| 0 <= j < entries@.len() && #[trigger] entries@[j].0@
                            == k;
                        assert(out@[j].0@ == k);
                    }
                    if map_of(out@).contains_key(k) {
                        let j = choose|j: int| 0 <= j < out@.len() && #[trigger] out@[j].0@ == k;
                        assert(entries@[j].0@ == k);
                    }
                }
                assert forall|k: Seq<char>| #[trigger] map_of(entries@).contains_key(k)
                    implies map_of(entries@)[k]@ == map_of(out@)[k]@ by {
                    let j = choose|j: int| 0 <= j < entries@.len() && #[trigger] entries@[j].0@
                        == k;
                    crate::strmap::lemma_entry(entries@, j);
                    crate::strmap::lemma_entry(out@, j);
                }
            }
        }
        out
    }

    /// The fields as a map, taken out of the storage.
    pub fn into_map(self) -> (m: StrMap<String>)
        ensures
            text_map(m.view()) == self.fields(),
    {
        self.fields
    }

    /// The text the fields file gets; read back, it gives these fields.
    pub fn to_json(&self) -> (out: String)
        ensures
            exists|l: Seq<(String, String)>|
                keys_sorted(l) && pairs_map(pair_views(l)) == self.fields() && out@
                    == json_pretty_map(pair_views(l)),
            json_string_map(out@) matches Some(p) && pairs_map(p) == self.fields(),
    {
        let l = self.list();
        pretty_string_map(&l)
    }
}

/// For entries with distinct keys, the map of the pairs is the map of the
/// entries.
proof fn lemma_pairs_map_sorted(s: Seq<(String, String)>)
    requires
        keys_sorted(s),
    ensures
        pairs_map(pair_views(s)) == text_map(map_of(s)),
    decreases s.len(),
{
    if s.len() > 0 {
        let t = s.drop_last();
        assert(keys_sorted(t)) by {
            assert forall|i: int, j: int| 0 <= i < j < t.len() implies crate::order::lex_lt(
                #[trigger] t[i].0@,
                #[trigger] t[j].0@,
            ) by {
                assert(t[i] == s[i] && t[j] == s[j]);
            }
        }
        lemma_pairs_map_sorted(t);
        assert(pair_views(s).drop_last() =~= pair_views(t));
        let k = s.last().0@;
        assert forall|x: Seq<char>| #[trigger] text_map(map_of(s)).contains_key(x) == text_map(
            map_of(t),
        ).insert(k, s.last().1@).contains_key(x) by {
            if map_of(s).contains_key(x) {
                let j = choose|j: int| 0 <= j < s.len() && #[trigger] s[j].0@ == x;
                if j < s.len() - 1 {
                    assert(t[j].0@ == x);
                }
            }
            if map_of(t).contains_key(x) {
                let j = choose|j: int| 0 <= j < t.len() && #[trigger] t[j].0@ == x;
                assert(s[j].0@ == x);
            }
        }
        assert forall|x: Seq<char>| #[trigger] text_map(map_of(s)).contains_key(x) implies text_map(
            map_of(s),
        )[x] == text_map(map_of(t)).insert(k, s.last().1@)[x] by {
            let j = choose|j: int| 0 <= j < s.len() && #[trigger] s[j].0@ == x;
            crate::strmap::lemma_entry(s, j);
            if j < s.len() - 1 {
                assert(t[j] == s[j]);
                crate::strmap::lemma_entry(t, j);
                assert(crate::order::lex_lt(s[j].0@, k));
                crate::order::lemma_lex_irreflexive(k);
            }
        }
        assert(text_map(map_of(s)) =~= text_map(map_of(t)).insert(k, s.last().1@));
    } else {
        assert(text_map(map_of(s)) =~= Map::<Seq<char>, Seq<char>>::empty());
    }
}

/// Setting a field and then reading it gives the value that was set.
pub proof fn law_get_after_set(m: Map<Seq<char>, Seq<char>>, name: Seq<char>, value: Seq<char>)
    requires
        fields_set_spec(m, name, value) is Ok,
    ensures
        fields_get_spec(fields_set_spec(m, name, value)->Ok_0, name) == Ok::<
            Option<Seq<char>>,
            FieldError,
        >(Some(value)),
{
}

/// Setting a field leaves every other field as it was.
pub proof fn law_set_keeps_others(m: Map<Seq<char>, Seq<char>>, name: Seq<char>, value: Seq<char>, other: Seq<char>)
    requires
        fields_set_spec(m, name, value) is Ok,
        other != name,
    ensures
        fields_get_spec(fields_set_spec(m, name, value)->Ok_0, other) == fields_get_spec(m, other),
{
}

/// A cleared field reads as unset, and clearing it again reports that
/// nothing was removed.
pub proof fn law_clear_removes(m: Map<Seq<char>, Seq<char>>, name: Seq<char>)
    requires
        fields_clear_spec(m, name) is Ok,
    ensures
        fields_get_spec(fields_clear_spec(m, name)->Ok_0.0, name) == Ok::<
            Option<Seq<char>>,
            FieldError,
        >(None),
        fields_clear_spec(fields_clear_spec(m, name)->Ok_0.0, name) == Ok::<
            (Map<Seq<char>, Seq<char>>, bool),
            FieldError,
        >((fields_clear_spec(m, name)->Ok_0.0, false)),
{
    let m2 = m.remove(name);
    assert(m2.remove(name) =~= m2);
}

/// Fields survive a save and a reload: when the file holds the text that
/// `to_json` wrote after a field was set, the storage read from it gives the
/// value that was set.
pub proof fn law_fields_survive_reload(
    m: Map<Seq<char>, Seq<char>>,
    name: Seq<char>,
    value: Seq<char>,
    text: Seq<char>,
)
    requires
        fields_set_spec(m, name, value) is Ok,
        json_string_map(text) matches Some(p) && pairs_map(p) == fields_set_spec(m, name, value)->Ok_0,
    ensures
        fields_get_spec(pairs_map(json_string_map(text)->0), name) == Ok::<
            Option<Seq<char>>,
            FieldError,
        >(Some(value)),
{
}

/// A name is refused by `set`, `get` and `clear` alike, and a refused
/// `set` changes nothing.
pub proof fn law_names_checked_alike(m: Map<Seq<char>, Seq<char>>, name: Seq<char>, value: Seq<char>)
    ensures
        fields_set_spec(m, name, value) is Err <==> fields_get_spec(m, name) is Err,
        fields_get_spec(m, name) is Err <==> fields_clear_spec(m, name) is Err,
{
}

// ---------------------------------------------------------------------------
// The template index
// ---------------------------------------------------------------------------

/// An installed template and where it lives.
#[derive(Debug, Clone)]
pub struct TemplateIndexEntry {
    pub name: String,
    pub path: String,
}

impl Keyed for TemplateIndexEntry {
    open spec fn key_of(&self) -> Seq<char> {
        self.name@
    }

    fn key(&self) -> (k: &str) {
        self.name.as_str()
    }
}

/// The contents of `templates.json`.
#[derive(Debug, Clone)]
pub struct TemplateIndex {
    pub version: u32,
    pub templates: Vec<TemplateIndexEntry>,
}

impl Default for TemplateIndex {
    fn default() -> (i: Self)
        ensures
            i.version == 1,
            i.templates@.len() == 0,
    {
        TemplateIndex { version: 1, templates: Vec::new() }
    }
}

pub open spec fn entry_pairs(s: Seq<TemplateIndexEntry>) -> Seq<(Seq<char>, Seq<char>)> {
    s.map_values(|e: TemplateIndexEntry| (e.name@, e.path@))
}

/// The index's entries by name, later entries replacing earlier ones.
pub open spec fn index_map(s: Seq<TemplateIndexEntry>) -> Map<Seq<char>, Seq<char>> {
    pairs_map(entry_pairs(s))
}

/// Entries with names strictly increasing.
pub open spec fn names_increasing(s: Seq<TemplateIndexEntry>) -> bool {
    forall|i: int, j: int| 0 <= i < j < s.len() ==> crate::order::lex_lt(#[trigger] s[i].name@, #[trigger] s[j].name@)
}

/// Whether an entry survives a removal of `names`.
pub open spec fn kept(names: Seq<Seq<char>>) -> spec_fn(TemplateIndexEntry) -> bool {
    |e: TemplateIndexEntry| !names.contains(e.name@)
}

/// Where `templates.json` is kept, under the forge root.
pub struct TemplateIndexStorage {
    index_file: String,
}

impl TemplateIndexStorage {
    /// The index file's path.
    pub closed spec fn file(&self) -> Seq<char> {
        self.index_file@
    }

    pub fn new(forge_root: &str) -> (s: Self)
        ensures
            s.file() == join_spec(forge_root@, "templates.json"@),
    {
        TemplateIndexStorage { index_file: join_path(forge_root, "templates.json") }
    }

    /// The index file.
    pub fn index_path(&self) -> (p: &str)
        ensures
            p@ == self.file(),
    {
        self.index_file.as_str()
    }

    /// The index after recording `name` at `path`: one entry per name, in
    /// name order, the new path replacing any earlier one.
    pub fn upsert_template(&self, current: TemplateIndex, name: &str, path: &str) -> (out:
        TemplateIndex)
        ensures
            out.version == 1,
            names_increasing(out.templates@),
            index_map(out.templates@) == index_map(current.templates@).insert(name@, path@),
    {
        let mut pairs: Vec<(String, String)> = Vec::new();
        let mut i: usize = 0;
        while i < current.templates.len()
            invariant
                i <= current.templates.len(),
                pair_views(pairs@) == entry_pairs(current.templates@).take(i as int),
            decreases current.templates.len() - i,
        {
            let e = &current.templates[i];
            let ghost before = pair_views(pairs@);
            pairs.push((e.name.as_str().to_owned(), e.path.as_str().to_owned()));
            assert(pair_views(pairs@) =~= before.push((e.name@, e.path@)));
            assert(entry_pairs(current.templates@).take(i + 1) =~= entry_pairs(
                current.templates@,
            ).take(i as int).push((e.name@, e.path@)));
            i = i + 1;
        }
        assert(entry_pairs(current.templates@).take(current.templates@.len() as int) =~= entry_pairs(
            current.templates@,
        ));
        let mut m = map_from_pairs(pairs);
        let p = path.to_owned();
        proof {
            lemma_text_insert(m.view(), name@, p);
        }
        m.insert(name.to_owned(), p);
        let entries = m.into_entries();
        let mut templates: Vec<TemplateIndexEntry> = Vec::new();
        let mut k: usize = 0;
        while k < entries.len()
            invariant
                k <= entries.len(),
                templates@.len() == k,
                forall|j: int|
                    0 <= j < k ==> (#[trigger] templates@[j]).name@ == entries@[j].0@
                        && templates@[j].path@ == entries@[j].1@,
            decreases entries.len() - k,
        {
            templates.push(
                TemplateIndexEntry {
                    name: entries[k].0.as_str().to_owned(),
                    path: entries[k].1.as_str().to_owned(),
                },
            );
            k = k + 1;
        }
        proof {
            assert forall|a: int, b: int| 0 <= a < b < templates@.len() implies crate::order::lex_lt(
                #[trigger] templates@[a].name@,
                #[trigger] templates@[b].name@,
            ) by {
                assert(crate::order::lex_lt(entries@[a].0@, entries@[b].0@));
            }
            let conv = Seq::new(
                entries@.len(),
                |j: int| (templates@[j].name, templates@[j].path),
            );
            assert(entry_pairs(templates@) =~= pair_views(conv));
            assert(pair_views(conv) =~= pair_views(entries@));
            lemma_pairs_map_sorted(entries@);
        }
        TemplateIndex { version: 1, templates }
    }

    /// The index without the entries of the named templates.
    pub fn remove_templates(&self, current: TemplateIndex, names: &Vec<String>) -> (out:
        TemplateIndex)
        ensures
            out.version == current.version,
            out.templates@ == current.templates@.filter(kept(crate::text::views(names@))),
    {
        let ghost f = kept(crate::text::views(names@));
        let mut templates: Vec<TemplateIndexEntry> = Vec::new();
        let mut i: usize = 0;
        assert(current.templates@.take(0).filter(f) =~= Seq::<TemplateIndexEntry>::empty());
        while i < current.templates.len()
            invariant
                i <= current.templates.len(),
                f == kept(crate::text::views(names@)),
                templates@ == current.templates@.take(i as int).filter(f),
            decreases current.templates.len() - i,
        {
            let e = &current.templates[i];
            assert(current.templates@.take(i + 1).drop_last() =~= current.templates@.take(i as int));
            assert(current.templates@.take(i + 1).last() == *e);
            reveal(Seq::filter);
            if !crate::text::contains_str(names, e.name.as_str()) {
                assert(f(*e));
                templates.push(TemplateIndexEntry { name: e.name.clone(), path: e.path.clone() });
            } else {
                assert(!f(*e));
            }
            i = i + 1;
        }
        assert(current.templates@.take(current.templates@.len() as int) =~= current.templates@);
        TemplateIndex { version: current.version, templates }
    }

    /// The index as it is saved: version 1, entries in name order (entries
    /// with the same name keep their order).
    pub fn normalized(index: &TemplateIndex) -> (out: TemplateIndex)
        ensures
            out.version == 1,
            out.templates@ == sort_spec(index.templates@),
            sorted_by_key(out.templates@),
    {
        let mut copy: Vec<TemplateIndexEntry> = Vec::new();
        let mut i: usize = 0;
        while i < index.templates.len()
            invariant
                i <= index.templates.len(),
                copy@ == index.templates@.take(i as int),
            decreases index.templates.len() - i,
        {
            let e = &index.templates[i];
            copy.push(TemplateIndexEntry { name: e.name.clone(), path: e.path.clone() });
            assert(copy@ =~= index.templates@.take(i + 1));
            i = i + 1;
        }
        assert(index.templates@.take(index.templates@.len() as int) =~= index.templates@);
        TemplateIndex { version: 1, templates: sort_by_key(copy) }
    }
}

} // verus!

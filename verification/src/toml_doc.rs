//! TOML documents as plain values, parsed by the `toml` crate.
use vstd::prelude::*;

verus! {

/// A TOML value as the library reads it. Tables keep their entries in the
/// order the parser gives them (sorted by key).
#[derive(Debug)]
pub enum TomlValue {
    String(String),
    Integer(i64),
    Float,
    Boolean(bool),
    Datetime,
    Array(Vec<TomlValue>),
    Table(Vec<(String, TomlValue)>),
}

#[verifier::external_type_specification]
#[verifier::external_body]
pub struct ExTomlValue(toml::Value);

/// What `toml::from_str::<toml::Value>` makes of a text: the document, or
/// the parser's message.
pub uninterp spec fn toml_document(raw: Seq<char>) -> Result<TomlValue, Seq<char>>;

/// Converts a parsed `toml::Value` into the library's model, one for one
/// (floats and datetimes keep only their kind).
#[verifier::external_body]
fn toml_to_model(v: toml::Value) -> TomlValue {
    match v {
        toml::Value::String(s) => TomlValue::String(s),
        toml::Value::Integer(i) => TomlValue::Integer(i),
        toml::Value::Float(_) => TomlValue::Float,
        toml::Value::Boolean(b) => TomlValue::Boolean(b),
        toml::Value::Datetime(_) => TomlValue::Datetime,
        toml::Value::Array(a) => TomlValue::Array(a.into_iter().map(toml_to_model).collect()),
        toml::Value::Table(t) => TomlValue::Table(
            t.into_iter().map(|(k, v)| (k, toml_to_model(v))).collect(),
        ),
    }
}

/// `toml::from_str::<toml::Value>`: parses a TOML document. The contract
/// names the outcome `toml_document(raw)`; it depends on the text alone.
#[verifier::external_body]
pub(crate) fn parse_toml(raw: &str) -> (res: Result<TomlValue, String>)
    ensures
        match res {
            Ok(v) => toml_document(raw@) == Ok::<TomlValue, Seq<char>>(v),
            Err(e) => toml_document(raw@) == Err::<TomlValue, Seq<char>>(e@),
        },
{
    toml::from_str::<toml::Value>(raw).map(toml_to_model).map_err(|e| e.to_string())
}

/// The value under key `k` in a table's entries (the first such entry).
pub open spec fn lookup(t: Seq<(String, TomlValue)>, k: Seq<char>) -> Option<TomlValue>
    decreases t.len(),
{
    if t.len() == 0 {
        None
    } else if t[0].0@ == k {
        Some(t[0].1)
    } else {
        lookup(t.drop_first(), k)
    }
}

proof fn lemma_lookup_skip(t: Seq<(String, TomlValue)>, i: int, k: Seq<char>)
    requires
        0 <= i <= t.len(),
        forall|j: int| 0 <= j < i ==> (#[trigger] t[j]).0@ != k,
    ensures
        lookup(t, k) == lookup(t.skip(i), k),
    decreases i,
{
    if i > 0 {
        lemma_lookup_skip(t.drop_first(), i - 1, k);
        assert(t.drop_first().skip(i - 1) =~= t.skip(i));
    } else {
        assert(t.skip(0) =~= t);
    }
}

/// Finds the value under `key` in a table's entries.
pub fn table_get<'a>(t: &'a Vec<(String, TomlValue)>, key: &str) -> (res: Option<&'a TomlValue>)
    ensures
        match res {
            Some(r) => lookup(t@, key@) == Some(*r),
            None => lookup(t@, key@) is None,
        },
{
    let mut i: usize = 0;
    while i < t.len()
        invariant
            i <= t.len(),
            forall|j: int| 0 <= j < i ==> (#[trigger] t@[j]).0@ != key@,
        decreases t.len() - i,
    {
        if crate::text::str_eq(t[i].0.as_str(), key) {
            proof {
                lemma_lookup_skip(t@, i as int, key@);
            }
            return Some(&t[i].1);
        }
        i = i + 1;
    }
    proof {
        lemma_lookup_skip(t@, i as int, key@);
    }
    None
}

} // verus!

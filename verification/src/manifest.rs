//! Template manifests (`manifest.toml`): the model and the rules a manifest
//! must meet before its template may run.
use crate::search::{first_index, lemma_first_at, lemma_first_index_none, lemma_first_none};
use crate::text::{blank, chars_of, contains_str, is_blank, split_char, split_seq, str_eq, views};
use crate::toml_doc::{lookup, parse_toml, table_get, toml_document, TomlValue};
use vstd::prelude::*;

verus! {

/// An elevated capability a template may request.
#[derive(Debug, Clone, Copy, PartialEq, Eq, Structural)]
pub enum Permission {
    /// Raw commands through `forge.exec`.
    Execution,
    /// Paths outside the project directory.
    EscapeCwd,
    /// Commands that reach the network.
    Network,
    /// Environment variables beyond the default allowlist.
    ReadEnv,
}

/// The permission a manifest string names.
pub open spec fn permission_from(s: Seq<char>) -> Option<Permission> {
    if s == "execution"@ {
        Some(Permission::Execution)
    } else if s == "escape_cwd"@ {
        Some(Permission::EscapeCwd)
    } else if s == "network"@ {
        Some(Permission::Network)
    } else if s == "read_env"@ {
        Some(Permission::ReadEnv)
    } else {
        None
    }
}

/// Why a manifest was refused.
#[derive(Debug, Clone)]
pub struct ManifestError {
    pub msg: String,
}

impl ManifestError {
    pub fn new(msg: &str) -> (e: Self)
        ensures
            e.msg@ == msg@,
    {
        ManifestError { msg: msg.to_owned() }
    }

    /// The message shown to the user.
    pub fn message(&self) -> (m: String)
        ensures
            m@ == self.msg@,
    {
        self.msg.as_str().to_owned()
    }
}

impl Permission {
    /// Reads a `[requires].permissions` entry.
    pub fn from_str(value: &str) -> (res: Result<Permission, ManifestError>)
        ensures
            match permission_from(value@) {
                Some(p) => res == Ok::<Permission, ManifestError>(p),
                None => res matches Err(e) && e.msg@ == "invalid [requires].permissions entry: "@
                    + value@,
            },
    {
        if str_eq(value, "execution") {
            Ok(Permission::Execution)
        } else if str_eq(value, "escape_cwd") {
            Ok(Permission::EscapeCwd)
        } else if str_eq(value, "network") {
            Ok(Permission::Network)
        } else if str_eq(value, "read_env") {
            Ok(Permission::ReadEnv)
        } else {
            let mut m = "invalid [requires].permissions entry: ".to_owned();
            m.append(value);
            Err(ManifestError { msg: m })
        }
    }
}

// ---------------------------------------------------------------------------
// Version numbers
// ---------------------------------------------------------------------------

pub open spec fn is_digit(c: char) -> bool {
    '0' <= c <= '9'
}

/// The number a string of decimal digits denotes.
pub open spec fn digits_value(s: Seq<char>) -> nat
    decreases s.len(),
{
    if s.len() == 0 {
        0
    } else {
        digits_value(s.drop_last()) * 10 + ((s.last() as int) - ('0' as int)) as nat
    }
}

pub open spec fn all_digits(s: Seq<char>) -> bool {
    forall|i: int| 0 <= i < s.len() ==> is_digit(#[trigger] s[i])
}

/// What `str::parse::<u64>` accepts: an optional `+`, then one or more
/// decimal digits whose value fits in a `u64`.
pub open spec fn u64_text(s: Seq<char>) -> Option<u64> {
    let d = if s.len() > 0 && s[0] == '+' {
        s.drop_first()
    } else {
        s
    };
    if d.len() > 0 && all_digits(d) && digits_value(d) <= u64::MAX {
        Some(digits_value(d) as u64)
    } else {
        None
    }
}

proof fn lemma_digits_monotone(s: Seq<char>, i: int)
    requires
        0 <= i <= s.len(),
        all_digits(s),
    ensures
        digits_value(s.take(i)) <= digits_value(s),
    decreases s.len() - i,
{
    if i < s.len() {
        lemma_digits_monotone(s, i + 1);
        assert(s.take(i + 1).drop_last() =~= s.take(i));
        assert(is_digit(s[i]));
    } else {
        assert(s.take(i) =~= s);
    }
}

/// `str::parse::<u64>`.
#[verifier::loop_isolation(false)]
pub fn parse_u64(s: &str) -> (res: Option<u64>)
    ensures
        res == u64_text(s@),
{
    let v = chars_of(s);
    let ghost d = if s@.len() > 0 && s@[0] == '+' {
        s@.drop_first()
    } else {
        s@
    };
    let start: usize = if v.len() > 0 && v[0] == '+' {
        1
    } else {
        0
    };
    assert(d =~= v@.subrange(start as int, v@.len() as int));
    if start == v.len() {
        return None;
    }
    let mut acc: u64 = 0;
    let mut i: usize = start;
    assert(d.take(0) =~= Seq::<char>::empty());
    while i < v.len()
        invariant
            v@ == s@,
            d =~= v@.subrange(start as int, v@.len() as int),
            start <= i <= v.len(),
            acc == digits_value(d.take(i - start)),
            forall|k: int| 0 <= k < i - start ==> is_digit(#[trigger] d[k]),
        decreases v.len() - i,
    {
        let c = v[i];
        if !('0' <= c && c <= '9') {
            assert(!is_digit(d[i - start]));
            assert(!all_digits(d));
            return None;
        }
        let dig: u64 = (c as u32 - '0' as u32) as u64;
        assert(d.take(i - start + 1).drop_last() =~= d.take(i - start));
        assert(d.take(i - start + 1).last() == c);
        assert(d[i - start] == c);
        assert(digits_value(d.take(i - start + 1)) == acc * 10 + dig);
        let m = acc.checked_mul(10);
        match m {
            None => {
                proof {
                    if all_digits(d) {
                        lemma_digits_monotone(d, i - start + 1);
                    }
                }
                return None;
            },
            Some(m) => {
                match m.checked_add(dig) {
                    None => {
                        proof {
                            if all_digits(d) {
                                lemma_digits_monotone(d, i - start + 1);
                            }
                        }
                        return None;
                    },
                    Some(n) => {
                        acc = n;
                    },
                }
            },
        }
        i = i + 1;
    }
    assert(d.take(d.len() as int) =~= d);
    Some(acc)
}

/// A `MAJOR.MINOR.PATCH` version.
#[derive(Debug, Clone, Copy, PartialEq, Eq, Structural)]
pub struct Semver {
    pub major: u64,
    pub minor: u64,
    pub patch: u64,
}

/// The version a text denotes: three `.`-separated numbers, nothing more.
pub open spec fn semver_of(s: Seq<char>) -> Option<Semver> {
    let parts = split_seq(s, '.');
    if parts.len() == 3 && u64_text(parts[0]) is Some && u64_text(parts[1]) is Some && u64_text(
        parts[2],
    ) is Some {
        Some(
            Semver {
                major: u64_text(parts[0]).unwrap(),
                minor: u64_text(parts[1]).unwrap(),
                patch: u64_text(parts[2]).unwrap(),
            },
        )
    } else {
        None
    }
}

/// Versions ordered by major, then minor, then patch.
pub open spec fn semver_lt(a: Semver, b: Semver) -> bool {
    ||| a.major < b.major
    ||| a.major == b.major && a.minor < b.minor
    ||| a.major == b.major && a.minor == b.minor && a.patch < b.patch
}

pub open spec fn semver_msg(field: Seq<char>) -> Seq<char> {
    field + " must be MAJOR.MINOR.PATCH"@
}

/// Reads a `MAJOR.MINOR.PATCH` version; `field` names it in the error.
pub fn parse_semver(value: &str, field: &str) -> (res: Result<Semver, ManifestError>)
    ensures
        match semver_of(value@) {
            Some(v) => res == Ok::<Semver, ManifestError>(v),
            None => res matches Err(e) && e.msg@ == semver_msg(field@),
        },
{
    let parts = split_char(value, '.');
    let ghost ps = views(parts@);
    assert(ps.len() == parts.len());
    let mut ok = parts.len() == 3;
    let mut nums: [u64; 3] = [0, 0, 0];
    if ok {
        assert(ps[0] == parts@[0]@ && ps[1] == parts@[1]@ && ps[2] == parts@[2]@);
        match parse_u64(parts[0].as_str()) {
            Some(n) => nums[0] = n,
            None => ok = false,
        }
        match parse_u64(parts[1].as_str()) {
            Some(n) => nums[1] = n,
            None => ok = false,
        }
        match parse_u64(parts[2].as_str()) {
            Some(n) => nums[2] = n,
            None => ok = false,
        }
    }
    if ok {
        Ok(Semver { major: nums[0], minor: nums[1], patch: nums[2] })
    } else {
        let mut m = field.to_owned();
        m.append(" must be MAJOR.MINOR.PATCH");
        Err(ManifestError { msg: m })
    }
}

/// Whether `a` is an older version than `b`.
pub fn semver_older(a: &Semver, b: &Semver) -> (r: bool)
    ensures
        r == semver_lt(*a, *b),
{
    a.major < b.major || (a.major == b.major && a.minor < b.minor) || (a.major == b.major
        && a.minor == b.minor && a.patch < b.patch)
}

// ---------------------------------------------------------------------------
// The manifest model
// ---------------------------------------------------------------------------

#[derive(Debug, Clone)]
pub struct Package {
    pub name: String,
    pub version: String,
    pub description: String,
    pub min_forge_version: String,
    pub repository: Option<String>,
}

#[derive(Debug, Clone)]
pub struct Author {
    pub name: Option<String>,
    pub email: Option<String>,
    pub url: Option<String>,
}

#[derive(Debug, Clone)]
pub struct Tags {
    pub values: Vec<String>,
}

#[derive(Debug, Clone)]
pub struct Requires {
    pub commands: Vec<String>,
    pub programs: Vec<String>,
    pub permissions: Vec<Permission>,
}

#[derive(Debug, Clone)]
pub struct Manifest {
    pub package: Package,
    pub author: Option<Author>,
    pub tags: Option<Tags>,
    pub requires: Option<Requires>,
}

pub struct PackageView {
    pub name: Seq<char>,
    pub version: Seq<char>,
    pub description: Seq<char>,
    pub min_forge_version: Seq<char>,
    pub repository: Option<Seq<char>>,
}

pub struct AuthorView {
    pub name: Option<Seq<char>>,
    pub email: Option<Seq<char>>,
    pub url: Option<Seq<char>>,
}

pub struct RequiresView {
    pub commands: Seq<Seq<char>>,
    pub programs: Seq<Seq<char>>,
    pub permissions: Seq<Permission>,
}

pub struct ManifestView {
    pub package: PackageView,
    pub author: Option<AuthorView>,
    pub tags: Option<Seq<Seq<char>>>,
    pub requires: Option<RequiresView>,
}

pub open spec fn ostr(o: Option<String>) -> Option<Seq<char>> {
    match o {
        Some(s) => Some(s@),
        None => None,
    }
}

impl View for Package {
    type V = PackageView;

    open spec fn view(&self) -> PackageView {
        PackageView {
            name: self.name@,
            version: self.version@,
            description: self.description@,
            min_forge_version: self.min_forge_version@,
            repository: ostr(self.repository),
        }
    }
}

impl View for Author {
    type V = AuthorView;

    open spec fn view(&self) -> AuthorView {
        AuthorView { name: ostr(self.name), email: ostr(self.email), url: ostr(self.url) }
    }
}

impl View for Requires {
    type V = RequiresView;

    open spec fn view(&self) -> RequiresView {
        RequiresView {
            commands: views(self.commands@),
            programs: views(self.programs@),
            permissions: self.permissions@,
        }
    }
}

impl View for Manifest {
    type V = ManifestView;

    open spec fn view(&self) -> ManifestView {
        ManifestView {
            package: self.package@,
            author: match self.author {
                Some(a) => Some(a@),
                None => None,
            },
            tags: match self.tags {
                Some(t) => Some(views(t.values@)),
                None => None,
            },
            requires: match self.requires {
                Some(r) => Some(r@),
                None => None,
            },
        }
    }
}

// ---------------------------------------------------------------------------
// Field readers
// ---------------------------------------------------------------------------

pub open spec fn field_msg(prefix: Seq<char>, section: Seq<char>, key: Seq<char>) -> Seq<char> {
    prefix + "["@ + section + "]."@ + key
}

fn field_err(prefix: &str, section: &str, key: &str) -> (e: ManifestError)
    ensures
        e.msg@ == field_msg(prefix@, section@, key@),
{
    let mut m = prefix.to_owned();
    m.append("[");
    m.append(section);
    m.append("].");
    m.append(key);
    ManifestError { msg: m }
}

pub open spec fn rview<T: View>(r: Result<T, ManifestError>) -> Result<T::V, Seq<char>> {
    match r {
        Ok(v) => Ok(v@),
        Err(e) => Err(e.msg@),
    }
}

pub open spec fn oview(r: Result<Option<String>, ManifestError>) -> Result<Option<Seq<char>>, Seq<char>> {
    match r {
        Ok(v) => Ok(ostr(v)),
        Err(e) => Err(e.msg@),
    }
}

pub open spec fn aview(r: Result<Option<Vec<String>>, ManifestError>) -> Result<
    Option<Seq<Seq<char>>>,
    Seq<char>,
> {
    match r {
        Ok(Some(v)) => Ok(Some(views(v@))),
        Ok(None) => Ok(None),
        Err(e) => Err(e.msg@),
    }
}

/// A required, non-blank string field.
pub open spec fn req_string_spec(t: Seq<(String, TomlValue)>, section: Seq<char>, key: Seq<char>) -> Result<Seq<char>, Seq<char>> {
    match lookup(t, key) {
        None => Err(field_msg("missing required field: "@, section, key)),
        Some(v) => match v {
            TomlValue::String(s) => if is_blank(s@) {
                Err(field_msg("required field cannot be blank: "@, section, key))
            } else {
                Ok(s@)
            },
            _ => Err(field_msg("field must be a string: "@, section, key)),
        },
    }
}

/// An optional string field.
pub open spec fn opt_string_spec(t: Seq<(String, TomlValue)>, section: Seq<char>, key: Seq<char>) -> Result<Option<Seq<char>>, Seq<char>> {
    match lookup(t, key) {
        None => Ok(None),
        Some(v) => match v {
            TomlValue::String(s) => Ok(Some(s@)),
            _ => Err(field_msg("field must be a string: "@, section, key)),
        },
    }
}

pub open spec fn is_str(v: TomlValue) -> bool {
    v matches TomlValue::String(_)
}

pub open spec fn str_of(v: TomlValue) -> Seq<char> {
    match v {
        TomlValue::String(s) => s@,
        _ => Seq::empty(),
    }
}

pub open spec fn not_str() -> spec_fn(TomlValue) -> bool {
    |v: TomlValue| !is_str(v)
}

pub open spec fn str_views(a: Seq<TomlValue>) -> Seq<Seq<char>> {
    a.map_values(|v: TomlValue| str_of(v))
}

/// An optional array-of-strings field.
pub open spec fn opt_array_spec(t: Seq<(String, TomlValue)>, section: Seq<char>, key: Seq<char>) -> Result<Option<Seq<Seq<char>>>, Seq<char>> {
    match lookup(t, key) {
        None => Ok(None),
        Some(v) => match v {
            TomlValue::Array(a) => if first_index(a@, not_str()) is Some {
                Err(field_msg("field must be an array of strings: "@, section, key))
            } else {
                Ok(Some(str_views(a@)))
            },
            _ => Err(field_msg("field must be an array of strings: "@, section, key)),
        },
    }
}

pub open spec fn or_empty(o: Option<Seq<Seq<char>>>) -> Seq<Seq<char>> {
    match o {
        Some(s) => s,
        None => Seq::empty(),
    }
}

fn require_string(t: &Vec<(String, TomlValue)>, section: &str, key: &str) -> (res: Result<
    String,
    ManifestError,
>)
    ensures
        rview(res) == req_string_spec(t@, section@, key@),
{
    match table_get(t, key) {
        None => Err(field_err("missing required field: ", section, key)),
        Some(v) => match v {
            TomlValue::String(s) => {
                if blank(s.as_str()) {
                    Err(field_err("required field cannot be blank: ", section, key))
                } else {
                    Ok(s.as_str().to_owned())
                }
            },
            _ => Err(field_err("field must be a string: ", section, key)),
        },
    }
}

fn optional_string(t: &Vec<(String, TomlValue)>, section: &str, key: &str) -> (res: Result<
    Option<String>,
    ManifestError,
>)
    ensures
        oview(res) == opt_string_spec(t@, section@, key@),
{
    match table_get(t, key) {
        None => Ok(None),
        Some(v) => match v {
            TomlValue::String(s) => Ok(Some(s.as_str().to_owned())),
            _ => Err(field_err("field must be a string: ", section, key)),
        },
    }
}

#[verifier::loop_isolation(false)]
fn optional_string_array(t: &Vec<(String, TomlValue)>, section: &str, key: &str) -> (res: Result<
    Option<Vec<String>>,
    ManifestError,
>)
    ensures
        aview(res) == opt_array_spec(t@, section@, key@),
{
    match table_get(t, key) {
        None => Ok(None),
        Some(v) => match v {
            TomlValue::Array(a) => {
                let mut out: Vec<String> = Vec::new();
                let mut i: usize = 0;
                while i < a.len()
                    invariant
                        i <= a.len(),
                        views(out@) == str_views(a@.take(i as int)),
                        forall|j: int| 0 <= j < i ==> is_str(#[trigger] a@[j]),
                    decreases a.len() - i,
                {
                    match &a[i] {
                        TomlValue::String(s) => {
                            let ghost before = views(out@);
                            out.push(s.as_str().to_owned());
                            assert(views(out@) =~= before.push(s@));
                            assert(str_views(a@.take(i + 1)) =~= str_views(a@.take(i as int)).push(
                                s@,
                            ));
                        },
                        _ => {
                            assert(!is_str(a@[i as int]));
                            assert((not_str())(a@[i as int]));
                            proof {
                                lemma_first_at(a@, not_str(), i as int);
                            }
                            return Err(field_err("field must be an array of strings: ", section, key));
                        },
                    }
                    i = i + 1;
                }
                proof {
                    lemma_first_none(a@, not_str());
                    assert(a@.take(a@.len() as int) =~= a@);
                }
                Ok(Some(out))
            },
            _ => Err(field_err("field must be an array of strings: ", section, key)),
        },
    }
}

// ---------------------------------------------------------------------------
// [package]
// ---------------------------------------------------------------------------

pub open spec fn is_name_char(c: char) -> bool {
    ('a' <= c <= 'z') || ('0' <= c <= '9') || c == '-'
}

/// What `^[a-z0-9-]+$` matches.
pub open spec fn name_pattern_ok(s: Seq<char>) -> bool {
    s.len() > 0 && forall|i: int| 0 <= i < s.len() ==> is_name_char(#[trigger] s[i])
}

/// `regex::Regex::new(pattern)` then `Regex::is_match(text)`, for the pattern
/// that template names must match: `^[a-z0-9-]+$` matches exactly the
/// non-empty texts made of ASCII lowercase letters, digits and hyphens.
#[verifier::external_body]
fn regex_is_match(pattern: &str, text: &str) -> (b: bool)
    requires
        pattern@ == "^[a-z0-9-]+$"@,
    ensures
        b == name_pattern_ok(text@),
{
    regex::Regex::new(pattern).map(|re| re.is_match(text)).unwrap_or(false)
}

pub open spec fn opt_view(o: Option<&str>) -> Option<Seq<char>> {
    match o {
        Some(s) => Some(s@),
        None => None,
    }
}

/// The name rules: the pattern, then a match with the directory's name.
pub open spec fn name_check_spec(name: Seq<char>, dir_name: Option<Seq<char>>) -> Option<Seq<char>> {
    if !name_pattern_ok(name) {
        Some("[package].name must contain only lowercase letters, numbers, and hyphens"@)
    } else {
        match dir_name {
            None => Some("template directory name is not valid UTF-8"@),
            Some(d) => if name != d {
                Some("[package].name '"@ + name + "' must match template directory name '"@ + d
                    + "'"@)
            } else {
                None
            },
        }
    }
}

/// The `[package]` fields, checked in order.
pub open spec fn package_fields_spec(p: Seq<(String, TomlValue)>, dir_name: Option<Seq<char>>, running: Seq<char>) -> Result<PackageView, Seq<char>> {
    match req_string_spec(p, "package"@, "name"@) {
        Err(e) => Err(e),
        Ok(name) => match req_string_spec(p, "package"@, "version"@) {
            Err(e) => Err(e),
            Ok(version) => match req_string_spec(p, "package"@, "description"@) {
                Err(e) => Err(e),
                Ok(description) => match req_string_spec(p, "package"@, "min_forge_version"@) {
                    Err(e) => Err(e),
                    Ok(min) => match opt_string_spec(p, "package"@, "repository"@) {
                        Err(e) => Err(e),
                        Ok(repository) => match name_check_spec(name, dir_name) {
                            Some(e) => Err(e),
                            None => if semver_of(version) is None {
                                Err(semver_msg("[package].version"@))
                            } else if semver_of(min) is None {
                                Err(semver_msg("[package].min_forge_version"@))
                            } else if semver_of(running) is None {
                                Err(semver_msg("running forge version"@))
                            } else if semver_lt(
                                semver_of(running).unwrap(),
                                semver_of(min).unwrap(),
                            ) {
                                Err("template requires forge "@ + min + " but running version is "@
                                    + running)
                            } else {
                                Ok(
                                    PackageView {
                                        name,
                                        version,
                                        description,
                                        min_forge_version: min,
                                        repository,
                                    },
                                )
                            },
                        },
                    },
                },
            },
        },
    }
}

fn check_name(name: &str, dir_name: Option<&str>) -> (res: Result<(), ManifestError>)
    ensures
        match name_check_spec(name@, opt_view(dir_name)) {
            Some(m) => res matches Err(e) && e.msg@ == m,
            None => res is Ok,
        },
{
    if !regex_is_match("^[a-z0-9-]+$", name) {
        return Err(
            ManifestError::new(
                "[package].name must contain only lowercase letters, numbers, and hyphens",
            ),
        );
    }
    match dir_name {
        None => Err(ManifestError::new("template directory name is not valid UTF-8")),
        Some(d) => {
            if !str_eq(name, d) {
                let mut m = "[package].name '".to_owned();
                m.append(name);
                m.append("' must match template directory name '");
                m.append(d);
                m.append("'");
                Err(ManifestError { msg: m })
            } else {
                Ok(())
            }
        },
    }
}

fn read_package(p: &Vec<(String, TomlValue)>, dir_name: Option<&str>, running: &str) -> (res:
    Result<Package, ManifestError>)
    ensures
        rview(res) == package_fields_spec(p@, opt_view(dir_name), running@),
{
    let name = require_string(p, "package", "name")?;
    let version = require_string(p, "package", "version")?;
    let description = require_string(p, "package", "description")?;
    let min_forge_version = require_string(p, "package", "min_forge_version")?;
    let repository = optional_string(p, "package", "repository")?;
    check_name(name.as_str(), dir_name)?;
    let _v = parse_semver(version.as_str(), "[package].version")?;
    let min = parse_semver(min_forge_version.as_str(), "[package].min_forge_version")?;
    let run = parse_semver(running, "running forge version")?;
    if semver_older(&run, &min) {
        let mut m = "template requires forge ".to_owned();
        m.append(min_forge_version.as_str());
        m.append(" but running version is ");
        m.append(running);
        return Err(ManifestError { msg: m });
    }
    Ok(Package { name, version, description, min_forge_version, repository })
}

// ---------------------------------------------------------------------------
// [author], [tags], [requires]
// ---------------------------------------------------------------------------

pub open spec fn author_spec(t: Seq<(String, TomlValue)>) -> Result<Option<AuthorView>, Seq<char>> {
    match lookup(t, "author"@) {
        None => Ok(None),
        Some(v) => match v {
            TomlValue::Table(a) => match opt_string_spec(a@, "author"@, "name"@) {
                Err(e) => Err(e),
                Ok(name) => match opt_string_spec(a@, "author"@, "email"@) {
                    Err(e) => Err(e),
                    Ok(email) => match opt_string_spec(a@, "author"@, "url"@) {
                        Err(e) => Err(e),
                        Ok(url) => Ok(Some(AuthorView { name, email, url })),
                    },
                },
            },
            _ => Err("[author] must be a table"@),
        },
    }
}

pub open spec fn is_tag_char(c: char) -> bool {
    ('a' <= c <= 'z') || ('0' <= c <= '9') || c == '-'
}

pub open spec fn bad_tag() -> spec_fn(Seq<char>) -> bool {
    |s: Seq<char>| exists|i: int| 0 <= i < s.len() && !is_tag_char(#[trigger] s[i])
}

pub open spec fn tags_spec(t: Seq<(String, TomlValue)>) -> Result<Option<Seq<Seq<char>>>, Seq<char>> {
    match lookup(t, "tags"@) {
        None => Ok(None),
        Some(v) => match v {
            TomlValue::Table(x) => match opt_array_spec(x@, "tags"@, "values"@) {
                Err(e) => Err(e),
                Ok(vals) => {
                    let vs = or_empty(vals);
                    match first_index(vs, bad_tag()) {
                        Some(i) => Err("[tags].values entries must be lowercase words, got '"@
                            + vs[i] + "'"@),
                        None => Ok(Some(vs)),
                    }
                },
            },
            _ => Err("[tags] must be a table"@),
        },
    }
}

pub open spec fn not_in(found: Seq<Seq<char>>) -> spec_fn(Seq<char>) -> bool {
    |s: Seq<char>| !found.contains(s)
}

pub open spec fn bad_perm() -> spec_fn(Seq<char>) -> bool {
    |s: Seq<char>| permission_from(s) is None
}

pub open spec fn permission_of(s: Seq<char>) -> Permission {
    match permission_from(s) {
        Some(p) => p,
        None => Permission::Execution,
    }
}

pub open spec fn perms_of(ss: Seq<Seq<char>>) -> Seq<Permission> {
    ss.map_values(|s: Seq<char>| permission_of(s))
}

/// The `[requires]` fields: commands and programs must have been found on the
/// host (`found`), and every permission must be known.
pub open spec fn requires_fields_spec(r: Seq<(String, TomlValue)>, found: Seq<Seq<char>>) -> Result<RequiresView, Seq<char>> {
    match opt_array_spec(r, "requires"@, "commands"@) {
        Err(e) => Err(e),
        Ok(c) => {
            let cmds = or_empty(c);
            match first_index(cmds, not_in(found)) {
                Some(i) => Err("required command not found on PATH: "@ + cmds[i]),
                None => match opt_array_spec(r, "requires"@, "programs"@) {
                    Err(e) => Err(e),
                    Ok(pr) => {
                        let progs = or_empty(pr);
                        match first_index(progs, not_in(found)) {
                            Some(i) => Err("required program not found on PATH: "@ + progs[i]),
                            None => match opt_array_spec(r, "requires"@, "permissions"@) {
                                Err(e) => Err(e),
                                Ok(ps) => {
                                    let strs = or_empty(ps);
                                    match first_index(strs, bad_perm()) {
                                        Some(i) => Err(
                                            "invalid [requires].permissions entry: "@ + strs[i],
                                        ),
                                        None => Ok(
                                            RequiresView {
                                                commands: cmds,
                                                programs: progs,
                                                permissions: perms_of(strs),
                                            },
                                        ),
                                    }
                                },
                            },
                        }
                    },
                },
            }
        },
    }
}

pub open spec fn requires_spec(t: Seq<(String, TomlValue)>, found: Seq<Seq<char>>) -> Result<Option<RequiresView>, Seq<char>> {
    match lookup(t, "requires"@) {
        None => Ok(None),
        Some(v) => match v {
            TomlValue::Table(r) => match requires_fields_spec(r@, found) {
                Err(e) => Err(e),
                Ok(rv) => Ok(Some(rv)),
            },
            _ => Err("[requires] must be a table"@),
        },
    }
}

fn read_author(t: &Vec<(String, TomlValue)>) -> (res: Result<Option<Author>, ManifestError>)
    ensures
        match res {
            Ok(Some(a)) => author_spec(t@) == Ok::<Option<AuthorView>, Seq<char>>(Some(a@)),
            Ok(None) => author_spec(t@) == Ok::<Option<AuthorView>, Seq<char>>(None),
            Err(e) => author_spec(t@) == Err::<Option<AuthorView>, Seq<char>>(e.msg@),
        },
{
    match table_get(t, "author") {
        None => Ok(None),
        Some(v) => match v {
            TomlValue::Table(a) => {
                let name = optional_string(a, "author", "name")?;
                let email = optional_string(a, "author", "email")?;
                let url = optional_string(a, "author", "url")?;
                Ok(Some(Author { name, email, url }))
            },
            _ => Err(ManifestError::new("[author] must be a table")),
        },
    }
}

#[verifier::loop_isolation(false)]
fn first_bad_tag(vs: &Vec<String>) -> (res: Option<usize>)
    ensures
        match res {
            Some(i) => first_index(views(vs@), bad_tag()) == Some(i as int),
            None => first_index(views(vs@), bad_tag()) is None,
        },
{
    let ghost s = views(vs@);
    let mut i: usize = 0;
    while i < vs.len()
        invariant
            s == views(vs@),
            i <= vs.len(),
            forall|j: int| 0 <= j < i ==> !(bad_tag())(#[trigger] s[j]),
        decreases vs.len() - i,
    {
        let cs = chars_of(vs[i].as_str());
        assert(s[i as int] == cs@);
        let mut k: usize = 0;
        while k < cs.len()
            invariant
                k <= cs.len(),
                forall|m: int| 0 <= m < k ==> is_tag_char(#[trigger] cs@[m]),
            decreases cs.len() - k,
        {
            let c = cs[k];
            if !(('a' <= c && c <= 'z') || ('0' <= c && c <= '9') || c == '-') {
                assert(!is_tag_char(cs@[k as int]));
                assert(!is_tag_char(s[i as int][k as int]));
                assert(s.len() == vs.len());
                assert((bad_tag())(s[i as int]));
                proof {
                    lemma_first_at(s, bad_tag(), i as int);
                }
                return Some(i);
            }
            k = k + 1;
        }
        assert(!(bad_tag())(s[i as int]));
        i = i + 1;
    }
    proof {
        lemma_first_none(s, bad_tag());
    }
    None
}

fn read_tags(t: &Vec<(String, TomlValue)>) -> (res: Result<Option<Tags>, ManifestError>)
    ensures
        match res {
            Ok(Some(x)) => tags_spec(t@) == Ok::<Option<Seq<Seq<char>>>, Seq<char>>(
                Some(views(x.values@)),
            ),
            Ok(None) => tags_spec(t@) == Ok::<Option<Seq<Seq<char>>>, Seq<char>>(None),
            Err(e) => tags_spec(t@) == Err::<Option<Seq<Seq<char>>>, Seq<char>>(e.msg@),
        },
{
    match table_get(t, "tags") {
        None => Ok(None),
        Some(v) => match v {
            TomlValue::Table(x) => {
                let vals = optional_string_array(x, "tags", "values")?;
                let values = match vals {
                    Some(vs) => vs,
                    None => Vec::new(),
                };
                assert(views(values@) == or_empty(opt_array_spec(x@, "tags"@, "values"@)->Ok_0));
                match first_bad_tag(&values) {
                    Some(i) => {
                        let mut m = "[tags].values entries must be lowercase words, got '".to_owned();
                        m.append(values[i].as_str());
                        m.append("'");
                        Err(ManifestError { msg: m })
                    },
                    None => Ok(Some(Tags { values })),
                }
            },
            _ => Err(ManifestError::new("[tags] must be a table")),
        },
    }
}

fn first_missing(names: &Vec<String>, found: &Vec<String>) -> (res: Option<usize>)
    ensures
        match res {
            Some(i) => first_index(views(names@), not_in(views(found@))) == Some(i as int),
            None => first_index(views(names@), not_in(views(found@))) is None,
        },
{
    let ghost s = views(names@);
    let ghost f = views(found@);
    let mut i: usize = 0;
    while i < names.len()
        invariant
            s == views(names@),
            f == views(found@),
            i <= names.len(),
            forall|j: int| 0 <= j < i ==> !(not_in(f))(#[trigger] s[j]),
        decreases names.len() - i,
    {
        assert(s[i as int] == names@[i as int]@);
        if !contains_str(found, names[i].as_str()) {
            proof {
                lemma_first_at(s, not_in(f), i as int);
            }
            return Some(i);
        }
        i = i + 1;
    }
    proof {
        lemma_first_none(s, not_in(f));
    }
    None
}

fn read_permissions(strs: &Vec<String>) -> (res: Result<Vec<Permission>, ManifestError>)
    ensures
        match first_index(views(strs@), bad_perm()) {
            Some(i) => res matches Err(e) && e.msg@ == "invalid [requires].permissions entry: "@
                + views(strs@)[i],
            None => res matches Ok(p) && p@ == perms_of(views(strs@)),
        },
{
    let ghost s = views(strs@);
    let mut out: Vec<Permission> = Vec::new();
    let mut i: usize = 0;
    while i < strs.len()
        invariant
            s == views(strs@),
            i <= strs.len(),
            out@ == perms_of(s.take(i as int)),
            forall|j: int| 0 <= j < i ==> !(bad_perm())(#[trigger] s[j]),
        decreases strs.len() - i,
    {
        assert(s[i as int] == strs@[i as int]@);
        match Permission::from_str(strs[i].as_str()) {
            Ok(p) => {
                out.push(p);
                assert(perms_of(s.take(i + 1)) =~= perms_of(s.take(i as int)).push(p));
            },
            Err(e) => {
                proof {
                    lemma_first_at(s, bad_perm(), i as int);
                }
                return Err(e);
            },
        }
        i = i + 1;
    }
    proof {
        lemma_first_none(s, bad_perm());
        assert(s.take(s.len() as int) =~= s);
    }
    Ok(out)
}

fn read_requires_fields(r: &Vec<(String, TomlValue)>, found: &Vec<String>) -> (res: Result<
    Requires,
    ManifestError,
>)
    ensures
        rview(res) == requires_fields_spec(r@, views(found@)),
{
    let commands = match optional_string_array(r, "requires", "commands")? {
        Some(v) => v,
        None => Vec::new(),
    };
    assert(views(commands@) == or_empty(opt_array_spec(r@, "requires"@, "commands"@)->Ok_0));
    if let Some(i) = first_missing(&commands, found) {
        let mut m = "required command not found on PATH: ".to_owned();
        m.append(commands[i].as_str());
        return Err(ManifestError { msg: m });
    }
    let programs = match optional_string_array(r, "requires", "programs")? {
        Some(v) => v,
        None => Vec::new(),
    };
    assert(views(programs@) == or_empty(opt_array_spec(r@, "requires"@, "programs"@)->Ok_0));
    if let Some(i) = first_missing(&programs, found) {
        let mut m = "required program not found on PATH: ".to_owned();
        m.append(programs[i].as_str());
        return Err(ManifestError { msg: m });
    }
    let strs = match optional_string_array(r, "requires", "permissions")? {
        Some(v) => v,
        None => Vec::new(),
    };
    assert(views(strs@) == or_empty(opt_array_spec(r@, "requires"@, "permissions"@)->Ok_0));
    let permissions = read_permissions(&strs)?;
    Ok(Requires { commands, programs, permissions })
}

fn read_requires(t: &Vec<(String, TomlValue)>, found: &Vec<String>) -> (res: Result<
    Option<Requires>,
    ManifestError,
>)
    ensures
        match res {
            Ok(Some(x)) => requires_spec(t@, views(found@)) == Ok::<
                Option<RequiresView>,
                Seq<char>,
            >(Some(x@)),
            Ok(None) => requires_spec(t@, views(found@)) == Ok::<Option<RequiresView>, Seq<char>>(
                None,
            ),
            Err(e) => requires_spec(t@, views(found@)) == Err::<Option<RequiresView>, Seq<char>>(
                e.msg@,
            ),
        },
{
    match table_get(t, "requires") {
        None => Ok(None),
        Some(v) => match v {
            TomlValue::Table(r) => {
                let req = read_requires_fields(r, found)?;
                Ok(Some(req))
            },
            _ => Err(ManifestError::new("[requires] must be a table")),
        },
    }
}

// ---------------------------------------------------------------------------
// The whole manifest
// ---------------------------------------------------------------------------

pub open spec fn allowed_key(k: Seq<char>) -> bool {
    k == "package"@ || k == "author"@ || k == "tags"@ || k == "requires"@
}

pub open spec fn unknown_key() -> spec_fn((String, TomlValue)) -> bool {
    |e: (String, TomlValue)| !allowed_key(e.0@)
}

/// The manifest a parsed document describes, or the first rule it breaks.
/// `dir_name` is the template directory's name (`None` when it is not valid
/// UTF-8), `running` the running forge version, and `found` the commands
/// and programs present on the host.
pub open spec fn manifest_spec(root: TomlValue, dir_name: Option<Seq<char>>, running: Seq<char>, found: Seq<Seq<char>>) -> Result<ManifestView, Seq<char>> {
    match root {
        TomlValue::Table(t) => match first_index(t@, unknown_key()) {
            Some(i) => Err("unknown top-level key: ["@ + t@[i].0@ + "]"@),
            None => match lookup(t@, "package"@) {
                Some(TomlValue::Table(p)) => match package_fields_spec(p@, dir_name, running) {
                    Err(e) => Err(e),
                    Ok(package) => match author_spec(t@) {
                        Err(e) => Err(e),
                        Ok(author) => match tags_spec(t@) {
                            Err(e) => Err(e),
                            Ok(tags) => match requires_spec(t@, found) {
                                Err(e) => Err(e),
                                Ok(req) => Ok(ManifestView { package, author, tags, requires: req }),
                            },
                        },
                    },
                },
                _ => Err("missing required section: [package]"@),
            },
        },
        _ => Err("manifest root must be a table"@),
    }
}

/// An accepted manifest keeps every rule: it has only the known top-level
/// sections, its name has the required shape and is the directory's name,
/// the running forge is not older than the version it requires, every
/// command and program it requires was found on the host, and every
/// permission it asks for is a known one.
pub proof fn law_accepted_manifest_meets_rules(
    root: TomlValue,
    dir_name: Option<Seq<char>>,
    running: Seq<char>,
    found: Seq<Seq<char>>,
)
    ensures
        manifest_spec(root, dir_name, running, found) matches Ok(m) ==> {
            &&& root matches TomlValue::Table(t) && forall|i: int|
                0 <= i < t@.len() ==> allowed_key(#[trigger] t@[i].0@)
            &&& name_pattern_ok(m.package.name)
            &&& dir_name == Some(m.package.name)
            &&& semver_of(running) matches Some(r) && semver_of(m.package.min_forge_version) matches Some(
                min,
            ) && !semver_lt(r, min)
            &&& m.requires matches Some(rq) ==> {
                &&& forall|i: int| 0 <= i < rq.commands.len() ==> found.contains(#[trigger] rq.commands[i])
                &&& forall|i: int| 0 <= i < rq.programs.len() ==> found.contains(#[trigger] rq.programs[i])
            }
        },
{
    if let Ok(m) = manifest_spec(root, dir_name, running, found) {
        if let TomlValue::Table(t) = root {
            lemma_first_index_none(t@, unknown_key());
            assert forall|i: int| 0 <= i < t@.len() implies allowed_key(#[trigger] t@[i].0@) by {
                assert(!(unknown_key())(t@[i]));
            }
            if let Some(TomlValue::Table(r)) = lookup(t@, "requires"@) {
                let rf = r@;
                if let Ok(c) = opt_array_spec(rf, "requires"@, "commands"@) {
                    lemma_first_index_none(or_empty(c), not_in(found));
                    if let Ok(pr) = opt_array_spec(rf, "requires"@, "programs"@) {
                        lemma_first_index_none(or_empty(pr), not_in(found));
                    }
                }
            }
        }
    }
}

fn first_unknown_key(t: &Vec<(String, TomlValue)>) -> (res: Option<usize>)
    ensures
        match res {
            Some(i) => first_index(t@, unknown_key()) == Some(i as int) && i < t.len(),
            None => first_index(t@, unknown_key()) is None,
        },
{
    let mut i: usize = 0;
    while i < t.len()
        invariant
            i <= t.len(),
            forall|j: int| 0 <= j < i ==> !(unknown_key())(#[trigger] t@[j]),
        decreases t.len() - i,
    {
        let k = t[i].0.as_str();
        if !(str_eq(k, "package") || str_eq(k, "author") || str_eq(k, "tags") || str_eq(
            k,
            "requires",
        )) {
            proof {
                lemma_first_at(t@, unknown_key(), i as int);
            }
            return Some(i);
        }
        i = i + 1;
    }
    proof {
        lemma_first_none(t@, unknown_key());
    }
    None
}

/// Checks a parsed manifest against the rules, in the order the rules are
/// listed: top-level keys, `[package]`, `[author]`, `[tags]`, `[requires]`.
pub fn validate_manifest(root: &TomlValue, dir_name: Option<&str>, running: &str, found: &Vec<
    String,
>) -> (res: Result<Manifest, ManifestError>)
    ensures
        rview(res) == manifest_spec(*root, opt_view(dir_name), running@, views(found@)),
{
    match root {
        TomlValue::Table(t) => {
            if let Some(i) = first_unknown_key(t) {
                let mut m = "unknown top-level key: [".to_owned();
                m.append(t[i].0.as_str());
                m.append("]");
                return Err(ManifestError { msg: m });
            }
            let package = match table_get(t, "package") {
                Some(TomlValue::Table(p)) => read_package(p, dir_name, running)?,
                _ => {
                    return Err(ManifestError::new("missing required section: [package]"));
                },
            };
            let author = read_author(t)?;
            let tags = read_tags(t)?;
            let req = read_requires(t, found)?;
            let m = Manifest { package, author, tags, requires: req };
            assert(m@.author == author_spec(t@)->Ok_0);
            Ok(m)
        },
        _ => Err(ManifestError::new("manifest root must be a table")),
    }
}

/// Reads and checks a manifest text. `dir_name`, `running` and `found` are
/// as for [`manifest_spec`].
pub fn load_and_validate(raw: &str, dir_name: Option<&str>, running: &str, found: &Vec<String>) -> (res:
    Result<Manifest, ManifestError>)
    ensures
        match toml_document(raw@) {
            Err(e) => res matches Err(x) && x.msg@ == "invalid manifest.toml: "@ + e,
            Ok(root) => rview(res) == manifest_spec(root, opt_view(dir_name), running@, views(found@)),
        },
{
    match parse_toml(raw) {
        Err(e) => {
            let mut m = "invalid manifest.toml: ".to_owned();
            m.append(e.as_str());
            Err(ManifestError { msg: m })
        },
        Ok(root) => validate_manifest(&root, dir_name, running, found),
    }
}

/// The commands, then the programs, that a document's `[requires]` lists
/// (whatever is not a well-formed list counts as empty).
pub open spec fn binaries_spec(root: TomlValue) -> Seq<Seq<char>> {
    match root {
        TomlValue::Table(t) => match lookup(t@, "requires"@) {
            Some(TomlValue::Table(r)) => {
                let c = match opt_array_spec(r@, "requires"@, "commands"@) {
                    Ok(Some(a)) => a,
                    _ => Seq::empty(),
                };
                let p = match opt_array_spec(r@, "requires"@, "programs"@) {
                    Ok(Some(a)) => a,
                    _ => Seq::empty(),
                };
                c + p
            },
            _ => Seq::empty(),
        },
        _ => Seq::empty(),
    }
}

/// The binaries a manifest text asks for, which the host must be searched for
/// before the manifest is validated.
pub fn required_binaries(raw: &str) -> (out: Vec<String>)
    ensures
        match toml_document(raw@) {
            Ok(root) => views(out@) == binaries_spec(root),
            Err(_) => out@.len() == 0,
        },
{
    let root = match parse_toml(raw) {
        Ok(r) => r,
        Err(_) => {
            return Vec::new();
        },
    };
    let mut out: Vec<String> = Vec::new();
    if let TomlValue::Table(t) = &root {
        if let Some(TomlValue::Table(r)) = table_get(t, "requires") {
            if let Ok(Some(c)) = optional_string_array(r, "requires", "commands") {
                out = c;
            }
            let ghost first = views(out@);
            if let Ok(Some(p)) = optional_string_array(r, "requires", "programs") {
                let mut i: usize = 0;
                while i < p.len()
                    invariant
                        i <= p.len(),
                        views(out@) == first + views(p@).take(i as int),
                    decreases p.len() - i,
                {
                    let ghost before = views(out@);
                    out.push(p[i].as_str().to_owned());
                    assert(views(out@) =~= before.push(p@[i as int]@));
                    assert(views(p@).take(i + 1) =~= views(p@).take(i as int).push(p@[i as int]@));
                    assert(views(out@) =~= first + views(p@).take(i + 1));
                    i = i + 1;
                }
                assert(views(p@).take(p@.len() as int) =~= views(p@));
            } else {
                assert(views(out@) =~= first + Seq::<Seq<char>>::empty());
            }
        }
    }
    out
}

} // verus!

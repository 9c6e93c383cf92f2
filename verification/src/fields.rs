//! Field names and `NAME=VALUE` assignments, as `forge fields set` reads them.
use crate::text::{blank, char_is_whitespace, chars_of, is_blank, is_ws, string_from_range};
use vstd::prelude::*;

verus! {

/// Why a field name or an assignment was refused.
#[derive(Debug, Clone, Copy, PartialEq, Eq)]
pub enum FieldError {
    /// The assignment holds no `=`.
    MissingEquals,
    /// The name is empty or only white space.
    EmptyName,
    /// The name starts or ends with white space.
    PaddedName,
}

impl FieldError {
    /// The message shown to the user.
    pub fn message(&self) -> (m: &'static str)
        ensures
            *self == FieldError::MissingEquals ==> m@ == "field assignment must be NAME=VALUE"@,
            *self == FieldError::EmptyName ==> m@ == "field name cannot be empty"@,
            *self == FieldError::PaddedName ==> m@
                == "field name cannot have leading or trailing whitespace"@,
    {
        match self {
            FieldError::MissingEquals => "field assignment must be NAME=VALUE",
            FieldError::EmptyName => "field name cannot be empty",
            FieldError::PaddedName => "field name cannot have leading or trailing whitespace",
        }
    }
}

/// The verdict on a field name: blank names and names with white space at
/// either end are refused.
pub open spec fn name_check(name: Seq<char>) -> Result<(), FieldError> {
    if is_blank(name) {
        Err(FieldError::EmptyName)
    } else if is_ws(name[0]) || is_ws(name.last()) {
        Err(FieldError::PaddedName)
    } else {
        Ok(())
    }
}

/// Checks a field name.
pub fn validate_name(name: &str) -> (res: Result<(), FieldError>)
    ensures
        res == name_check(name@),
{
    if blank(name) {
        return Err(FieldError::EmptyName);
    }
    let v = chars_of(name);
    if char_is_whitespace(v[0]) || char_is_whitespace(v[v.len() - 1]) {
        return Err(FieldError::PaddedName);
    }
    Ok(())
}

/// Whether `c` occurs in `s`.
pub open spec fn contains_char(s: Seq<char>, c: char) -> bool {
    exists|i: int| 0 <= i < s.len() && s[i] == c
}

/// The index of the first `c` in `s` (meaningful when `s` holds `c`).
pub open spec fn first_index_of(s: Seq<char>, c: char) -> int {
    choose|i: int| 0 <= i < s.len() && s[i] == c && forall|j: int| 0 <= j < i ==> s[j] != c
}

/// The meaning of `NAME=VALUE`: split at the first `=`, the name checked,
/// the value kept as written.
pub open spec fn assignment_spec(s: Seq<char>) -> Result<(Seq<char>, Seq<char>), FieldError> {
    if !contains_char(s, '=') {
        Err(FieldError::MissingEquals)
    } else {
        let k = first_index_of(s, '=');
        match name_check(s.take(k)) {
            Err(e) => Err(e),
            Ok(_) => Ok((s.take(k), s.skip(k + 1))),
        }
    }
}

/// Finds the first `c` in `v`, if any.
pub fn find_char(v: &Vec<char>, c: char) -> (res: Option<usize>)
    ensures
        match res {
            Some(k) => k < v.len() && v@[k as int] == c && forall|j: int|
                0 <= j < k ==> v@[j] != c,
            None => !contains_char(v@, c),
        },
{
    let mut i: usize = 0;
    while i < v.len()
        invariant
            i <= v.len(),
            forall|j: int| 0 <= j < i ==> v@[j] != c,
        decreases v.len() - i,
    {
        if v[i] == c {
            return Some(i);
        }
        i = i + 1;
    }
    None
}

/// Splits `NAME=VALUE` at the first `=` and checks the name.
pub fn parse_assignment(assignment: &str) -> (res: Result<(String, String), FieldError>)
    ensures
        match res {
            Ok((n, v)) => assignment_spec(assignment@) == Ok::<(Seq<char>, Seq<char>), FieldError>(
                (n@, v@),
            ),
            Err(e) => assignment_spec(assignment@) == Err::<(Seq<char>, Seq<char>), FieldError>(e),
        },
{
    let v = chars_of(assignment);
    let k = match find_char(&v, '=') {
        Some(k) => k,
        None => return Err(FieldError::MissingEquals),
    };
    proof {
        let s = assignment@;
        assert(contains_char(s, '='));
        let kk = first_index_of(s, '=');
        assert(kk == k) by {
            if kk < k {
                assert(s[kk] == '=');
            } else if kk > k {
                assert(s[k as int] == '=');
            }
        }
    }
    let name = string_from_range(&v, 0, k);
    let value = string_from_range(&v, k + 1, v.len());
    assert(name@ =~= assignment@.take(k as int));
    assert(value@ =~= assignment@.skip(k + 1));
    match validate_name(name.as_str()) {
        Err(e) => Err(e),
        Ok(()) => Ok((name, value)),
    }
}

} // verus!

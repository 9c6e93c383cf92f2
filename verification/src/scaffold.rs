//! The files that `forge create` writes for a new blank template.
use crate::config::UserConfig;
use crate::text::{chars_of, push_char, split_char, split_seq, str_eq, trim, trim_end_seq, trim_seq, trim_start_seq, views};
use vstd::prelude::*;

verus! {

/// A value escaped for a TOML basic string: `\` becomes `\\`, `"` becomes `\"`.
pub open spec fn toml_escape_seq(s: Seq<char>) -> Seq<char>
    decreases s.len(),
{
    if s.len() == 0 {
        Seq::empty()
    } else {
        let rest = toml_escape_seq(s.drop_last());
        let c = s.last();
        if c == '\\' {
            rest + seq!['\\', '\\']
        } else if c == '"' {
            rest + seq!['\\', '"']
        } else {
            rest.push(c)
        }
    }
}

/// Escapes a value for a TOML basic string.
pub fn toml_escape(value: &str) -> (out: String)
    ensures
        out@ == toml_escape_seq(value@),
{
    let v = chars_of(value);
    let mut out = String::new();
    let mut i: usize = 0;
    while i < v.len()
        invariant
            i <= v.len(),
            v@ == value@,
            out@ == toml_escape_seq(v@.take(i as int)),
        decreases v.len() - i,
    {
        let ghost pre = v@.take(i as int);
        assert(v@.take(i + 1).drop_last() =~= pre);
        let c = v[i];
        if c == '\\' {
            push_char(&mut out, '\\');
            push_char(&mut out, '\\');
        } else if c == '"' {
            push_char(&mut out, '\\');
            push_char(&mut out, '"');
        } else {
            push_char(&mut out, c);
        }
        i = i + 1;
        assert(out@ =~= toml_escape_seq(v@.take(i as int)));
    }
    assert(v@.take(v@.len() as int) =~= v@);
    out
}

/// The `manifest.toml` of a new template: `[package]` with the name, version
/// 0.1.0, a placeholder description and the running Forge version as the
/// minimum; an `[author]` section with the user's name and email when either
/// is set.
pub open spec fn manifest_contents_spec(name: Seq<char>, version: Seq<char>, user_name: Seq<char>, user_email: Seq<char>) -> Seq<char> {
    let head = "[package]\nname = \""@ + toml_escape_seq(name)
        + "\"\nversion = \"0.1.0\"\ndescription = \"TODO\"\nmin_forge_version = \""@
        + toml_escape_seq(version) + "\"\n"@;
    if user_name.len() == 0 && user_email.len() == 0 {
        head
    } else {
        let with_name = if user_name.len() > 0 {
            "name = \""@ + toml_escape_seq(user_name) + "\"\n"@
        } else {
            Seq::empty()
        };
        let with_email = if user_email.len() > 0 {
            "email = \""@ + toml_escape_seq(user_email) + "\"\n"@
        } else {
            Seq::empty()
        };
        head + "\n[author]\n"@ + with_name + with_email
    }
}

/// Writes the manifest of a new template.
pub fn manifest_contents(name: &str, forge_version: &str, user: &UserConfig) -> (out: String)
    ensures
        out@ == manifest_contents_spec(name@, forge_version@, user.name@, user.email@),
{
    let mut out = "[package]\nname = \"".to_owned();
    out.append(toml_escape(name).as_str());
    out.append("\"\nversion = \"0.1.0\"\ndescription = \"TODO\"\nmin_forge_version = \"");
    out.append(toml_escape(forge_version).as_str());
    out.append("\"\n");
    let has_name = !user.name.as_str().is_empty();
    let has_email = !user.email.as_str().is_empty();
    if has_name || has_email {
        out.append("\n[author]\n");
        if has_name {
            out.append("name = \"");
            out.append(toml_escape(user.name.as_str()).as_str());
            out.append("\"\n");
        }
        if has_email {
            out.append("email = \"");
            out.append(toml_escape(user.email.as_str()).as_str());
            out.append("\"\n");
        }
    }
    proof {
        let n = toml_escape_seq(name@);
        let v = toml_escape_seq(forge_version@);
        let un = toml_escape_seq(user.name@);
        let ue = toml_escape_seq(user.email@);
        let a = "[package]\nname = \""@;
        let b = "\"\nversion = \"0.1.0\"\ndescription = \"TODO\"\nmin_forge_version = \""@;
        let c = "\"\n"@;
        let head = a + n + b + v + c;
        if has_name || has_email {
            let with_name = if user.name@.len() > 0 {
                "name = \""@ + un + c
            } else {
                Seq::empty()
            };
            let with_email = if user.email@.len() > 0 {
                "email = \""@ + ue + c
            } else {
                Seq::empty()
            };
            assert(out@ =~= head + "\n[author]\n"@ + with_name + with_email);
        } else {
            assert(out@ =~= head);
        }
    }
    out
}

/// Whether some line of `contents` (cut at `\n`) is `entry` once trimmed.
pub open spec fn has_line(contents: Seq<char>, entry: Seq<char>) -> bool {
    exists|i: int|
        0 <= i < split_seq(contents, '\n').len() && trim_seq(
            #[trigger] split_seq(contents, '\n')[i],
        ) == entry
}

/// `contents` with `entry` appended as a line of its own unless a line
/// already holds it.
pub open spec fn ensure_line(contents: Seq<char>, entry: Seq<char>) -> Seq<char> {
    if has_line(contents, entry) {
        contents
    } else if contents.len() > 0 && contents.last() != '\n' {
        contents + seq!['\n'] + entry + seq!['\n']
    } else {
        contents + entry + seq!['\n']
    }
}

/// The ignore rules a Forge root keeps out of version control.
pub open spec fn ignore_entries() -> Seq<Seq<char>> {
    seq!["packages/*"@, "trust.json"@]
}

/// The `.gitignore` of a Forge root after `forge create`: each ignore rule
/// present, existing content kept.
pub open spec fn gitignore_spec(existing: Seq<char>) -> Seq<char> {
    ensure_line(ensure_line(existing, "packages/*"@), "trust.json"@)
}

fn has_line_exec(contents: &str, entry: &str) -> (res: bool)
    ensures
        res == has_line(contents@, entry@),
{
    let parts = split_char(contents, '\n');
    let mut i: usize = 0;
    while i < parts.len()
        invariant
            i <= parts.len(),
            views(parts@) == split_seq(contents@, '\n'),
            forall|j: int| 0 <= j < i ==> trim_seq(#[trigger] split_seq(contents@, '\n')[j]) != entry@,
        decreases parts.len() - i,
    {
        let t = trim(parts[i].as_str());
        assert(views(parts@)[i as int] == parts@[i as int]@);
        if str_eq(t.as_str(), entry) {
            return true;
        }
        i = i + 1;
    }
    false
}

fn ensure_line_exec(contents: String, entry: &str) -> (out: String)
    ensures
        out@ == ensure_line(contents@, entry@),
{
    if has_line_exec(contents.as_str(), entry) {
        return contents;
    }
    let mut out = contents;
    let v = chars_of(out.as_str());
    if v.len() > 0 && v[v.len() - 1] != '\n' {
        push_char(&mut out, '\n');
    }
    out.append(entry);
    push_char(&mut out, '\n');
    out
}

/// The `.gitignore` content after initializing a Forge root.
pub fn gitignore_contents(existing: &str) -> (out: String)
    ensures
        out@ == gitignore_spec(existing@),
{
    let a = ensure_line_exec(existing.to_owned(), "packages/*");
    ensure_line_exec(a, "trust.json")
}


proof fn lemma_split_extend(s: Seq<char>, w: Seq<char>, c: char)
    requires
        forall|i: int| 0 <= i < w.len() ==> w[i] != c,
    ensures
        split_seq(s + w, c) == split_seq(s, c).update(
            split_seq(s, c).len() - 1,
            split_seq(s, c).last() + w,
        ),
        split_seq(s + w, c).len() == split_seq(s, c).len(),
    decreases w.len(),
{
    crate::text::lemma_split_nonempty(s, c);
    if w.len() == 0 {
        assert(s + w =~= s);
        assert(split_seq(s, c).last() + w =~= split_seq(s, c).last());
        assert(split_seq(s, c).update(split_seq(s, c).len() - 1, split_seq(s, c).last())
            =~= split_seq(s, c));
    } else {
        let w0 = w.drop_last();
        lemma_split_extend(s, w0, c);
        assert((s + w).drop_last() =~= s + w0);
        assert((s + w).last() == w.last());
        crate::text::lemma_split_nonempty(s + w0, c);
        assert(w.last() == w[w.len() - 1]);
        assert(w.last() != c);
        let parts = split_seq(s + w0, c);
        let base = split_seq(s, c);
        assert(parts.last() == base.last() + w0);
        assert(split_seq(s + w, c) == parts.update(parts.len() - 1, parts.last().push(w.last())));
        assert((base.last() + w0).push(w.last()) =~= base.last() + w);
        assert(split_seq(s + w, c) =~= split_seq(s, c).update(
            split_seq(s, c).len() - 1,
            split_seq(s, c).last() + w,
        ));
    }
}

proof fn lemma_split_sep(s: Seq<char>, c: char)
    ensures
        split_seq(s.push(c), c) == split_seq(s, c).push(Seq::<char>::empty()),
{
    assert(s.push(c).drop_last() =~= s);
}

/// A text ending in a line break (or empty) has an empty last piece.
proof fn lemma_split_last_empty(s: Seq<char>)
    requires
        s.len() == 0 || s.last() == '\n',
    ensures
        split_seq(s, '\n').last() == Seq::<char>::empty(),
{
    if s.len() > 0 {
        lemma_split_sep(s.drop_last(), '\n');
        assert(s.drop_last().push('\n') =~= s);
    }
}

proof fn lemma_ensure_has(c: Seq<char>, e: Seq<char>)
    requires
        forall|i: int| 0 <= i < e.len() ==> e[i] != '\n',
        trim_seq(e) == e,
    ensures
        has_line(ensure_line(c, e), e),
{
    if !has_line(c, e) {
        crate::text::lemma_split_nonempty(c, '\n');
        let r = ensure_line(c, e);
        if c.len() > 0 && c.last() != '\n' {
            let a = c.push('\n');
            lemma_split_sep(c, '\n');
            lemma_split_extend(a, e, '\n');
            lemma_split_sep(a + e, '\n');
            assert(r =~= (a + e).push('\n'));
            let k = split_seq(c, '\n').len() as int;
            assert(split_seq(a, '\n').last() + e =~= e);
            assert(split_seq(r, '\n')[k] == e);
        } else {
            lemma_split_last_empty(c);
            lemma_split_extend(c, e, '\n');
            lemma_split_sep(c + e, '\n');
            assert(r =~= (c + e).push('\n'));
            let k = split_seq(c, '\n').len() - 1;
            assert(split_seq(c, '\n').last() + e =~= e);
            assert(split_seq(r, '\n')[k] == e);
        }
    }
}

proof fn lemma_ensure_keeps(c: Seq<char>, e1: Seq<char>, e2: Seq<char>)
    requires
        forall|i: int| 0 <= i < e1.len() ==> e1[i] != '\n',
        has_line(c, e2),
        e2.len() > 0,
    ensures
        has_line(ensure_line(c, e1), e2),
{
    if !has_line(c, e1) {
        crate::text::lemma_split_nonempty(c, '\n');
        let i = choose|i: int|
            0 <= i < split_seq(c, '\n').len() && trim_seq(#[trigger] split_seq(c, '\n')[i]) == e2;
        let r = ensure_line(c, e1);
        if c.len() > 0 && c.last() != '\n' {
            let a = c.push('\n');
            lemma_split_sep(c, '\n');
            lemma_split_extend(a, e1, '\n');
            lemma_split_sep(a + e1, '\n');
            assert(r =~= (a + e1).push('\n'));
            assert(split_seq(r, '\n')[i] == split_seq(c, '\n')[i]);
        } else {
            lemma_split_last_empty(c);
            lemma_split_extend(c, e1, '\n');
            lemma_split_sep(c + e1, '\n');
            assert(r =~= (c + e1).push('\n'));
            if i == split_seq(c, '\n').len() - 1 {
                assert(trim_seq(Seq::<char>::empty()) =~= Seq::<char>::empty());
            }
            assert(split_seq(r, '\n')[i] == split_seq(c, '\n')[i]);
        }
    }
}

/// Initializing a Forge root twice leaves `.gitignore` as the first time
/// left it, and the existing content stays at its head.
pub proof fn law_gitignore_idempotent(existing: Seq<char>)
    ensures
        gitignore_spec(gitignore_spec(existing)) == gitignore_spec(existing),
        existing.is_prefix_of(gitignore_spec(existing)),
{
    reveal_strlit("packages/*");
    reveal_strlit("trust.json");
    let p = "packages/*"@;
    let t = "trust.json"@;
    assert(trim_start_seq(p) == p);
    assert(trim_end_seq(p) == p);
    assert(trim_start_seq(t) == t);
    assert(trim_end_seq(t) == t);
    let y = ensure_line(existing, p);
    let z = ensure_line(y, t);
    lemma_ensure_has(existing, p);
    lemma_ensure_keeps(y, t, p);
    lemma_ensure_has(y, t);
    assert(ensure_line(z, p) == z);
    assert(ensure_line(z, t) == z);
    assert(existing.is_prefix_of(y)) by {
        assert(y.subrange(0, existing.len() as int) =~= existing);
    }
    assert(y.is_prefix_of(z)) by {
        assert(z.subrange(0, y.len() as int) =~= y);
    }
    assert(z.subrange(0, existing.len() as int) =~= existing);
}

} // verus!

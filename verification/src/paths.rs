//! Paths as text: joining, the layout of forge's directories, and the
//! checks that keep a template inside its project and its own files.
use crate::lua::{ErrorKind, LuaError};
use crate::text::{blank, is_blank, split_char, split_seq, str_eq, views};
use vstd::prelude::*;

verus! {

pub open spec fn is_absolute(p: Seq<char>) -> bool {
    p.len() > 0 && p[0] == '/'
}

/// `base` joined with `rel` (`Path::join`): an absolute `rel` replaces the
/// base; otherwise a separator is put between them unless `base` is empty or
/// already ends with one.
pub open spec fn join_spec(base: Seq<char>, rel: Seq<char>) -> Seq<char> {
    if is_absolute(rel) {
        rel
    } else if base.len() == 0 || base.last() == '/' {
        base + rel
    } else {
        base + "/"@ + rel
    }
}

/// Joins two paths.
pub fn join_path(base: &str, rel: &str) -> (out: String)
    ensures
        out@ == join_spec(base@, rel@),
{
    let r = crate::text::chars_of(rel);
    if r.len() > 0 && r[0] == '/' {
        return rel.to_owned();
    }
    let b = crate::text::chars_of(base);
    let mut out = base.to_owned();
    if b.len() == 0 || b[b.len() - 1] == '/' {
        out.append(rel);
    } else {
        out.append("/");
        out.append(rel);
    }
    out
}

/// Where a command may be found: nowhere when its name is blank; the name
/// itself when it holds a separator; else each directory of the `PATH`
/// value (split at `:`) joined with the name, and nowhere without `PATH`.
pub open spec fn command_candidates_spec(command: Seq<char>, path_var: Option<Seq<char>>) -> Seq<
    Seq<char>,
> {
    if is_blank(command) {
        Seq::empty()
    } else if command.contains('/') {
        seq![command]
    } else {
        match path_var {
            None => Seq::empty(),
            Some(p) => split_seq(p, ':').map_values(|d: Seq<char>| join_spec(d, command)),
        }
    }
}

/// The files whose presence means that `command` can be run (the caller
/// checks each one).
pub fn command_candidates(command: &str, path_var: Option<&str>) -> (out: Vec<String>)
    ensures
        views(out@) == command_candidates_spec(
            command@,
            match path_var {
                Some(p) => Some(p@),
                None => None,
            },
        ),
{
    if blank(command) {
        return Vec::new();
    }
    let cs = crate::text::chars_of(command);
    let mut i: usize = 0;
    while i < cs.len()
        invariant
            cs@ == command@,
            i <= cs.len(),
            forall|k: int| 0 <= k < i ==> cs@[k] != '/',
        decreases cs.len() - i,
    {
        if cs[i] == '/' {
            assert(command@.contains('/')) by {
                assert(command@[i as int] == '/');
            }
            let out = vec![command.to_owned()];
            assert(views(out@) =~= seq![command@]);
            return out;
        }
        i = i + 1;
    }
    assert(!command@.contains('/'));
    match path_var {
        None => Vec::new(),
        Some(p) => {
            let dirs = split_char(p, ':');
            let ghost ds = views(dirs@);
            let mut out: Vec<String> = Vec::new();
            let mut k: usize = 0;
            while k < dirs.len()
                invariant
                    ds == views(dirs@),
                    ds == split_seq(p@, ':'),
                    k <= dirs.len(),
                    views(out@) == ds.take(k as int).map_values(
                        |d: Seq<char>| join_spec(d, command@),
                    ),
                decreases dirs.len() - k,
            {
                let ghost before = views(out@);
                out.push(join_path(dirs[k].as_str(), command));
                assert(ds[k as int] == dirs@[k as int]@);
                assert(views(out@) =~= before.push(join_spec(ds[k as int], command@)));
                assert(ds.take(k + 1).map_values(|d: Seq<char>| join_spec(d, command@)) =~= ds.take(
                    k as int,
                ).map_values(|d: Seq<char>| join_spec(d, command@)).push(
                    join_spec(ds[k as int], command@),
                ));
                k = k + 1;
            }
            assert(ds.take(ds.len() as int) =~= ds);
            out
        },
    }
}

/// The components of a path (`Path::components`): the root, a leading `.`
/// of a relative path, then every piece between separators except empty
/// ones and `.`.
pub open spec fn components(p: Seq<char>) -> Seq<Seq<char>> {
    let segs = split_seq(p, '/');
    let head: Seq<Seq<char>> = if is_absolute(p) {
        seq!["/"@]
    } else if segs[0] == "."@ {
        seq!["."@]
    } else {
        Seq::empty()
    };
    head + segs.filter(normal_piece())
}

/// A piece between separators that names a component: not empty, not `.`.
pub open spec fn normal_piece() -> spec_fn(Seq<char>) -> bool {
    |s: Seq<char>| s.len() > 0 && s != "."@
}

/// Whether some component of `p` is `..`.
pub open spec fn has_parent_spec(p: Seq<char>) -> bool {
    split_seq(p, '/').contains(".."@)
}

/// Whether a path has a `..` component.
pub fn has_parent_component(p: &str) -> (b: bool)
    ensures
        b == has_parent_spec(p@),
{
    let segs = split_char(p, '/');
    let ghost s = views(segs@);
    let mut i: usize = 0;
    while i < segs.len()
        invariant
            s == views(segs@),
            s == split_seq(p@, '/'),
            i <= segs.len(),
            forall|k: int| 0 <= k < i ==> s[k] != ".."@,
        decreases segs.len() - i,
    {
        assert(s[i as int] == segs@[i as int]@);
        if str_eq(segs[i].as_str(), "..") {
            return true;
        }
        i = i + 1;
    }
    false
}

#[verifier::loop_isolation(false)]
fn filtered_pieces(p: &str) -> (out: Vec<String>)
    ensures
        views(out@) == split_seq(p@, '/').filter(normal_piece()),
{
    let segs = split_char(p, '/');
    let ghost s = views(segs@);
    let ghost f = normal_piece();
    let mut out: Vec<String> = Vec::new();
    let mut i: usize = 0;
    assert(s.take(0).filter(f) =~= Seq::<Seq<char>>::empty());
    while i < segs.len()
        invariant
            s == views(segs@),
            i <= segs.len(),
            views(out@) == s.take(i as int).filter(f),
        decreases segs.len() - i,
    {
        assert(s[i as int] == segs@[i as int]@);
        assert(s.take(i + 1).drop_last() =~= s.take(i as int));
        assert(s.take(i + 1).last() == s[i as int]);
        assert(s.take(i + 1).len() > 0);
        reveal(Seq::filter);
        assert(s.take(i + 1).filter(f) == (if f(s[i as int]) {
            s.take(i as int).filter(f).push(s[i as int])
        } else {
            s.take(i as int).filter(f)
        }));
        let piece = segs[i].as_str();
        if !piece.is_empty() && !str_eq(piece, ".") {
            assert(f(s[i as int]));
            let ghost before = views(out@);
            out.push(piece.to_owned());
            assert(views(out@) =~= before.push(piece@));
        } else {
            assert(!f(s[i as int]));
        }
        i = i + 1;
    }
    assert(s.take(s.len() as int) =~= s);
    out
}

/// The components of a path.
pub fn path_components(p: &str) -> (out: Vec<String>)
    ensures
        views(out@) == components(p@),
{
    let c = crate::text::chars_of(p);
    let segs = split_char(p, '/');
    proof {
        crate::text::lemma_split_nonempty(p@, '/');
    }
    assert(views(segs@)[0] == segs@[0]@);
    let mut out: Vec<String> = Vec::new();
    if c.len() > 0 && c[0] == '/' {
        out.push("/".to_owned());
    } else if str_eq(segs[0].as_str(), ".") {
        out.push(".".to_owned());
    }
    let ghost head = views(out@);
    let rest = filtered_pieces(p);
    let mut i: usize = 0;
    while i < rest.len()
        invariant
            i <= rest.len(),
            views(out@) == head + views(rest@).take(i as int),
        decreases rest.len() - i,
    {
        let ghost before = views(out@);
        out.push(rest[i].as_str().to_owned());
        assert(views(out@) =~= before.push(rest@[i as int]@));
        assert(views(rest@).take(i + 1) =~= views(rest@).take(i as int).push(rest@[i as int]@));
        i = i + 1;
    }
    assert(views(rest@).take(rest@.len() as int) =~= views(rest@));
    assert(views(out@) =~= components(p@));
    out
}

/// Whether `full` is `base` or lies under it, component by component
/// (`Path::starts_with`).
pub open spec fn within_spec(full: Seq<char>, base: Seq<char>) -> bool {
    components(base).is_prefix_of(components(full))
}

/// Whether `full` is `base` or lies under it.
#[verifier::loop_isolation(false)]
pub fn path_within(full: &str, base: &str) -> (b: bool)
    ensures
        b == within_spec(full@, base@),
{
    let f = path_components(full);
    let g = path_components(base);
    if g.len() > f.len() {
        return false;
    }
    let mut i: usize = 0;
    while i < g.len()
        invariant
            g.len() <= f.len(),
            i <= g.len(),
            forall|k: int| 0 <= k < i ==> views(g@)[k] == views(f@)[k],
        decreases g.len() - i,
    {
        assert(views(g@)[i as int] == g@[i as int]@);
        assert(views(f@)[i as int] == f@[i as int]@);
        if !str_eq(g[i].as_str(), f[i].as_str()) {
            assert(views(g@)[i as int] != views(f@)[i as int]);
            assert(views(f@).subrange(0, views(g@).len() as int)[i as int] == views(f@)[i as int]);
            return false;
        }
        i = i + 1;
    }
    assert(views(f@).subrange(0, views(g@).len() as int) =~= views(g@));
    true
}

/// The error of a path that leaves the project directory.
pub open spec fn escape_msg(rel: Seq<char>) -> Seq<char> {
    "path escapes project dir: "@ + rel
}

/// The error of a path that leaves the template's files.
pub open spec fn template_escape_msg(rel: Seq<char>) -> Seq<char> {
    "path escapes template files dir: "@ + rel
}

fn sandbox_error(prefix: &str, rel: &str) -> (e: LuaError)
    ensures
        e.kind == ErrorKind::SandboxViolation,
        e.msg@ == prefix@ + rel@,
{
    let mut m = prefix.to_owned();
    m.append(rel);
    LuaError { kind: ErrorKind::SandboxViolation, msg: m }
}

/// The check on a path a template names, before it is resolved: unless the
/// template may escape, it must be relative and free of `..`.
pub fn check_project_rel(rel: &str, allow_escape: bool) -> (res: Result<(), LuaError>)
    ensures
        !allow_escape && (is_absolute(rel@) || has_parent_spec(rel@)) ==> (res matches Err(e)
            && e.kind == ErrorKind::SandboxViolation && e.msg@ == escape_msg(rel@)),
        !(!allow_escape && (is_absolute(rel@) || has_parent_spec(rel@))) ==> res is Ok,
{
    let c = crate::text::chars_of(rel);
    let absolute = c.len() > 0 && c[0] == '/';
    if !allow_escape && (absolute || has_parent_component(rel)) {
        return Err(sandbox_error("path escapes project dir: ", rel));
    }
    Ok(())
}

/// The check on the resolved path: unless the template may escape, it must
/// be the project directory or lie under it.
pub fn check_project_within(full: &str, base: &str, rel: &str, allow_escape: bool) -> (res: Result<
    (),
    LuaError,
>)
    ensures
        !allow_escape && !within_spec(full@, base@) ==> (res matches Err(e) && e.kind
            == ErrorKind::SandboxViolation && e.msg@ == escape_msg(rel@)),
        allow_escape || within_spec(full@, base@) ==> res is Ok,
{
    if !allow_escape && !path_within(full, base) {
        return Err(sandbox_error("path escapes project dir: ", rel));
    }
    Ok(())
}

/// The check on a path into the template's files, before it is resolved:
/// relative and free of `..`.
pub fn check_template_rel(rel: &str) -> (res: Result<(), LuaError>)
    ensures
        is_absolute(rel@) || has_parent_spec(rel@) ==> (res matches Err(e) && e.kind
            == ErrorKind::SandboxViolation && e.msg@ == template_escape_msg(rel@)),
        !(is_absolute(rel@) || has_parent_spec(rel@)) ==> res is Ok,
{
    let c = crate::text::chars_of(rel);
    if (c.len() > 0 && c[0] == '/') || has_parent_component(rel) {
        return Err(sandbox_error("path escapes template files dir: ", rel));
    }
    Ok(())
}

/// The check on the resolved path into the template's files: inside the
/// files root, and not reached through a symbolic link.
pub fn check_template_within(full: &str, root: &str, rel: &str, is_symlink: bool) -> (res: Result<
    (),
    LuaError,
>)
    ensures
        !within_spec(full@, root@) ==> (res matches Err(e) && e.kind
            == ErrorKind::SandboxViolation && e.msg@ == template_escape_msg(rel@)),
        within_spec(full@, root@) && is_symlink ==> (res matches Err(e) && e.kind
            == ErrorKind::SandboxViolation && e.msg@ == "template symlinks are not allowed: "@
            + rel@),
        within_spec(full@, root@) && !is_symlink ==> res is Ok,
{
    if !path_within(full, root) {
        return Err(sandbox_error("path escapes template files dir: ", rel));
    }
    if is_symlink {
        return Err(sandbox_error("template symlinks are not allowed: ", rel));
    }
    Ok(())
}

/// Where forge keeps its files: the project's `.forge` and the user's
/// `~/.forge`.
#[derive(Debug, Clone)]
pub struct PathLayout {
    pub cwd: String,
    pub local_root: String,
    pub global_root: String,
    pub local_templates: String,
    pub global_templates: String,
    pub package_templates: String,
    pub trust_file: String,
    pub config_file: String,
    pub fields_file: String,
}

impl PathLayout {
    /// The layout for a working directory and a home directory (`None` when
    /// `HOME` is not set).
    pub fn discover(cwd: &str, home: Option<&str>) -> (res: Result<PathLayout, String>)
        ensures
            home is None ==> (res matches Err(e) && e@ == "HOME is not set"@),
            home matches Some(h) ==> (res matches Ok(l) && {
                let g = join_spec(h@, ".forge"@);
                &&& l.cwd@ == cwd@
                &&& l.local_root@ == join_spec(cwd@, ".forge"@)
                &&& l.global_root@ == g
                &&& l.local_templates@ == join_spec(join_spec(cwd@, ".forge"@), "templates"@)
                &&& l.global_templates@ == join_spec(g, "templates"@)
                &&& l.package_templates@ == join_spec(g, "packages"@)
                &&& l.trust_file@ == join_spec(g, "trust.json"@)
                &&& l.config_file@ == join_spec(g, "config.toml"@)
                &&& l.fields_file@ == join_spec(g, "fields.json"@)
            }),
    {
        let h = match home {
            None => {
                return Err("HOME is not set".to_owned());
            },
            Some(h) => h,
        };
        let global_root = join_path(h, ".forge");
        let local_root = join_path(cwd, ".forge");
        Ok(
            PathLayout {
                cwd: cwd.to_owned(),
                local_templates: join_path(local_root.as_str(), "templates"),
                local_root,
                global_templates: join_path(global_root.as_str(), "templates"),
                package_templates: join_path(global_root.as_str(), "packages"),
                trust_file: join_path(global_root.as_str(), "trust.json"),
                config_file: join_path(global_root.as_str(), "config.toml"),
                fields_file: join_path(global_root.as_str(), "fields.json"),
                global_root,
            },
        )
    }
}

} // verus!

//! Finding templates and preparing their runs: which directory a name
//! resolves to, the listing of templates, the scope a command works in, and
//! the checks and prompts before a template runs.
use crate::config::{ConfigStorage, TemplateScope};
use crate::lua::RuntimeConfig;
use crate::manifest::{Manifest, Permission};
use crate::order::{sort_by_key, sort_spec, sorted_by_key, Keyed};
use crate::paths::{join_path, join_spec, PathLayout};
use crate::text::{str_eq, views};
use vstd::prelude::*;

verus! {

/// Where a template was found.
#[derive(Debug, Clone, Copy, PartialEq, Eq, Structural)]
pub enum TemplateSource {
    Local,
    Global,
    Package,
}

/// The scope a command is asked to work in.
#[derive(Debug, Clone, Copy, PartialEq, Eq, Structural)]
pub enum ResolveScope {
    Local,
    Global,
}

/// A template found on disk, with its validated manifest.
#[derive(Debug, Clone)]
pub struct TemplateRecord {
    pub name: String,
    pub dir: String,
    pub source: TemplateSource,
    pub manifest: Manifest,
}

impl Keyed for TemplateRecord {
    open spec fn key_of(&self) -> Seq<char> {
        self.name@
    }

    fn key(&self) -> (k: &str) {
        self.name.as_str()
    }
}

/// The directory a template name resolves to, and where it was found.
#[derive(Debug, Clone)]
pub struct Location {
    pub dir: String,
    pub source: TemplateSource,
}

/// Which of a name's candidate directories exist: under the local, the
/// global and the package templates.
#[derive(Debug, Clone, Copy)]
pub struct DirFacts {
    pub local: bool,
    pub global: bool,
    pub package: bool,
}

pub open spec fn not_found(name: Seq<char>) -> Seq<char> {
    "template '"@ + name + "' not found"@
}

/// The templates root of a source.
pub open spec fn root_of(layout: PathLayout, source: TemplateSource) -> Seq<char> {
    match source {
        TemplateSource::Local => layout.local_templates@,
        TemplateSource::Global => layout.global_templates@,
        TemplateSource::Package => layout.package_templates@,
    }
}

pub open spec fn exists_in(facts: DirFacts, source: TemplateSource) -> bool {
    match source {
        TemplateSource::Local => facts.local,
        TemplateSource::Global => facts.global,
        TemplateSource::Package => facts.package,
    }
}

/// The outcome of looking for `name` in one source.
pub open spec fn from_dir_spec(layout: PathLayout, name: Seq<char>, source: TemplateSource, facts: DirFacts) -> Result<(Seq<char>, TemplateSource), Seq<char>> {
    if exists_in(facts, source) {
        Ok((join_spec(root_of(layout, source), name), source))
    } else {
        Err(not_found(name))
    }
}

pub open spec fn scope_source(scope: ResolveScope) -> TemplateSource {
    match scope {
        ResolveScope::Local => TemplateSource::Local,
        ResolveScope::Global => TemplateSource::Global,
    }
}

/// `resolve`: the global templates when asked for, else the first of local,
/// global and package templates that has the name.
pub open spec fn resolve_spec(layout: PathLayout, name: Seq<char>, force_global: bool, facts: DirFacts) -> Result<(Seq<char>, TemplateSource), Seq<char>> {
    if force_global {
        from_dir_spec(layout, name, TemplateSource::Global, facts)
    } else if facts.local {
        from_dir_spec(layout, name, TemplateSource::Local, facts)
    } else if facts.global {
        from_dir_spec(layout, name, TemplateSource::Global, facts)
    } else {
        from_dir_spec(layout, name, TemplateSource::Package, facts)
    }
}

/// `resolve_preferred`: the preferred scope when it has the name, else the
/// package templates.
pub open spec fn preferred_spec(layout: PathLayout, name: Seq<char>, preferred: ResolveScope, facts: DirFacts) -> Result<(Seq<char>, TemplateSource), Seq<char>> {
    if exists_in(facts, scope_source(preferred)) {
        from_dir_spec(layout, name, scope_source(preferred), facts)
    } else {
        from_dir_spec(layout, name, TemplateSource::Package, facts)
    }
}

/// Resolution by precedence: a template found locally shadows a global
/// one, which shadows a package template; what is found lies under its
/// source's root, and resolution fails only when no source has the name.
pub proof fn law_resolve_precedence(layout: PathLayout, name: Seq<char>, facts: DirFacts)
    ensures
        match resolve_spec(layout, name, false, facts) {
            Ok((dir, source)) => {
                &&& exists_in(facts, source)
                &&& dir == join_spec(root_of(layout, source), name)
                &&& facts.local ==> source == TemplateSource::Local
                &&& facts.global && !facts.local ==> source == TemplateSource::Global
            },
            Err(_) => !facts.local && !facts.global && !facts.package,
        },
{
}

/// A preferred scope that lacks the name falls back to the package
/// templates, and never to the other scope.
pub proof fn law_preferred_falls_back_to_package(
    layout: PathLayout,
    name: Seq<char>,
    preferred: ResolveScope,
    facts: DirFacts,
)
    ensures
        match preferred_spec(layout, name, preferred, facts) {
            Ok((_, source)) => source == scope_source(preferred) || (source == TemplateSource::Package
                && !exists_in(facts, scope_source(preferred))),
            Err(_) => !exists_in(facts, scope_source(preferred)) && !facts.package,
        },
{
}

pub open spec fn loc_view(r: Result<Location, String>) -> Result<(Seq<char>, TemplateSource), Seq<char>> {
    match r {
        Ok(l) => Ok((l.dir@, l.source)),
        Err(e) => Err(e@),
    }
}

/// Finds templates by name in forge's directories.
pub struct TemplateResolver {
    pub layout: PathLayout,
}

impl TemplateResolver {
    pub fn new(layout: PathLayout) -> (r: Self)
        ensures
            r.layout == layout,
    {
        TemplateResolver { layout }
    }

    fn root(&self, source: TemplateSource) -> (p: &str)
        ensures
            p@ == root_of(self.layout, source),
    {
        match source {
            TemplateSource::Local => self.layout.local_templates.as_str(),
            TemplateSource::Global => self.layout.global_templates.as_str(),
            TemplateSource::Package => self.layout.package_templates.as_str(),
        }
    }

    /// Looks for `name` in one source.
    pub fn resolve_from_dir(&self, name: &str, source: TemplateSource, facts: &DirFacts) -> (res:
        Result<Location, String>)
        ensures
            loc_view(res) == from_dir_spec(self.layout, name@, source, *facts),
    {
        let exists = match source {
            TemplateSource::Local => facts.local,
            TemplateSource::Global => facts.global,
            TemplateSource::Package => facts.package,
        };
        if !exists {
            let mut m = "template '".to_owned();
            m.append(name);
            m.append("' not found");
            return Err(m);
        }
        Ok(Location { dir: join_path(self.root(source), name), source })
    }

    /// Finds a template: in the global templates when `force_global`, else
    /// in the local, then the global, then the package templates.
    pub fn resolve(&self, name: &str, force_global: bool, facts: &DirFacts) -> (res: Result<
        Location,
        String,
    >)
        ensures
            loc_view(res) == resolve_spec(self.layout, name@, force_global, *facts),
    {
        if force_global {
            return self.resolve_from_dir(name, TemplateSource::Global, facts);
        }
        if facts.local {
            return self.resolve_from_dir(name, TemplateSource::Local, facts);
        }
        if facts.global {
            return self.resolve_from_dir(name, TemplateSource::Global, facts);
        }
        self.resolve_from_dir(name, TemplateSource::Package, facts)
    }

    /// Finds a template in one scope only.
    pub fn resolve_scoped(&self, name: &str, scope: ResolveScope, facts: &DirFacts) -> (res: Result<
        Location,
        String,
    >)
        ensures
            loc_view(res) == from_dir_spec(self.layout, name@, scope_source(scope), *facts),
    {
        match scope {
            ResolveScope::Local => self.resolve_from_dir(name, TemplateSource::Local, facts),
            ResolveScope::Global => self.resolve_from_dir(name, TemplateSource::Global, facts),
        }
    }

    /// Finds a template in the preferred scope, falling back to the package
    /// templates.
    pub fn resolve_preferred(&self, name: &str, preferred: ResolveScope, facts: &DirFacts) -> (res:
        Result<Location, String>)
        ensures
            loc_view(res) == preferred_spec(self.layout, name@, preferred, *facts),
    {
        let source = match preferred {
            ResolveScope::Local => TemplateSource::Local,
            ResolveScope::Global => TemplateSource::Global,
        };
        let exists = match preferred {
            ResolveScope::Local => facts.local,
            ResolveScope::Global => facts.global,
        };
        if exists {
            return self.resolve_from_dir(name, source, facts);
        }
        self.resolve_from_dir(name, TemplateSource::Package, facts)
    }

    /// The templates of the requested sources, in name order (templates of
    /// the same name keep the order local, global, package).
    pub fn list(
        &self,
        include_local: bool,
        include_global: bool,
        include_package: bool,
        local: Vec<TemplateRecord>,
        global: Vec<TemplateRecord>,
        package: Vec<TemplateRecord>,
    ) -> (out: Vec<TemplateRecord>)
        ensures
            out@ == sort_spec(
                (if include_local {
                    local@
                } else {
                    Seq::empty()
                }) + (if include_global {
                    global@
                } else {
                    Seq::empty()
                }) + (if include_package {
                    package@
                } else {
                    Seq::empty()
                }),
            ),
            sorted_by_key(out@),
    {
        let mut all: Vec<TemplateRecord> = Vec::new();
        let ghost e = Seq::<TemplateRecord>::empty();
        let mut l = local;
        let mut g = global;
        let mut p = package;
        if include_local {
            all.append(&mut l);
        }
        if include_global {
            all.append(&mut g);
        }
        if include_package {
            all.append(&mut p);
        }
        assert(all@ =~= (if include_local {
            local@
        } else {
            e
        }) + (if include_global {
            global@
        } else {
            e
        }) + (if include_package {
            package@
        } else {
            e
        }));
        sort_by_key(all)
    }
}

/// The scope the command line asks for, if it names one.
pub fn scope_from_flags(local: bool, global: bool) -> (s: Option<ResolveScope>)
    ensures
        local ==> s == Some(ResolveScope::Local),
        !local && global ==> s == Some(ResolveScope::Global),
        !local && !global ==> s is None,
{
    if local {
        Some(ResolveScope::Local)
    } else if global {
        Some(ResolveScope::Global)
    } else {
        None
    }
}

/// The scope a command works in: `--local`, else `--global`, else the
/// configured default.
pub fn resolve(local: bool, global: bool, config: &ConfigStorage) -> (s: ResolveScope)
    ensures
        local ==> s == ResolveScope::Local,
        !local && global ==> s == ResolveScope::Global,
        !local && !global ==> s == (if config.model().scope == TemplateScope::Local {
            ResolveScope::Local
        } else {
            ResolveScope::Global
        }),
{
    if local {
        return ResolveScope::Local;
    }
    if global {
        return ResolveScope::Global;
    }
    match config.get_config().templates.default_scope {
        TemplateScope::Local => ResolveScope::Local,
        TemplateScope::Global => ResolveScope::Global,
    }
}

/// The sources `forge list` shows: only local with `--local`, only global
/// with `--global`, else all three.
pub fn list_sources(global: bool, local: bool) -> (s: (bool, bool, bool))
    ensures
        local ==> s == (true, false, false),
        !local && global ==> s == (false, true, false),
        !local && !global ==> s == (true, true, true),
{
    if local {
        (true, false, false)
    } else if global {
        (false, true, false)
    } else {
        (true, true, true)
    }
}

/// How a source is shown.
pub fn source_label(s: TemplateSource) -> (l: &'static str)
    ensures
        s == TemplateSource::Local ==> l@ == "local"@,
        s == TemplateSource::Global ==> l@ == "global"@,
        s == TemplateSource::Package ==> l@ == "package"@,
{
    match s {
        TemplateSource::Local => "local",
        TemplateSource::Global => "global",
        TemplateSource::Package => "package",
    }
}

/// The names among `names` whose directory does not exist, in order.
pub open spec fn missing_of(names: Seq<String>, exists: Seq<bool>) -> Seq<String>
    decreases names.len(),
{
    if names.len() == 0 {
        Seq::empty()
    } else {
        let rest = missing_of(names.drop_last(), exists.take(names.len() - 1));
        if exists[names.len() - 1] {
            rest
        } else {
            rest.push(names.last())
        }
    }
}

/// `forge remove`: every named template must exist in the scope. The names
/// to report as removed are the names in name order; the missing ones are
/// reported in name order.
pub fn removal_check(names: &Vec<String>, exists: &Vec<bool>, scope: ResolveScope) -> (res: Result<
    Vec<String>,
    String,
>)
    requires
        exists@.len() == names@.len(),
    ensures
        missing_of(names@, exists@).len() == 0 ==> (res matches Ok(l) && l@ == sort_spec(names@)),
        missing_of(names@, exists@).len() > 0 ==> (res matches Err(e) && e@ == (if scope
            == ResolveScope::Local {
            "local"@
        } else {
            "global"@
        }) + " template(s) not found: "@ + crate::casing::join_spec(
            views(sort_spec(missing_of(names@, exists@))),
            ", "@,
        )),
{
    let mut missing: Vec<String> = Vec::new();
    let mut i: usize = 0;
    while i < names.len()
        invariant
            i <= names.len(),
            exists@.len() == names@.len(),
            missing@ == missing_of(names@.take(i as int), exists@.take(i as int)),
        decreases names.len() - i,
    {
        proof {
            let n1 = names@.take(i + 1);
            let e1 = exists@.take(i + 1);
            assert(n1.drop_last() =~= names@.take(i as int));
            assert(e1.take(i as int) =~= exists@.take(i as int));
        }
        if !exists[i] {
            missing.push(names[i].clone());
        }
        i = i + 1;
    }
    assert(names@.take(names@.len() as int) =~= names@);
    assert(exists@.take(exists@.len() as int) =~= exists@);
    if missing.len() == 0 {
        let mut all: Vec<String> = Vec::new();
        let mut k: usize = 0;
        while k < names.len()
            invariant
                k <= names.len(),
                all@ == names@.take(k as int),
            decreases names.len() - k,
        {
            all.push(names[k].clone());
            assert(all@ =~= names@.take(k + 1));
            k = k + 1;
        }
        return Ok(sort_by_key(all));
    }
    let sorted = sort_by_key(missing);
    let ghost lv = views(sorted@);
    let mut m = match scope {
        ResolveScope::Local => "local".to_owned(),
        ResolveScope::Global => "global".to_owned(),
    };
    m.append(" template(s) not found: ");
    let mut joined = String::new();
    let mut j: usize = 0;
    while j < sorted.len()
        invariant
            j <= sorted.len(),
            lv == views(sorted@),
            joined@ == crate::casing::join_spec(lv.take(j as int), ", "@),
        decreases sorted.len() - j,
    {
        assert(lv.take(j + 1).drop_last() =~= lv.take(j as int));
        assert(lv.take(j + 1).last() == sorted@[j as int]@);
        if j > 0 {
            joined.append(", ");
        } else {
            assert(lv.take(1) =~= seq![sorted@[0]@]);
        }
        joined.append(sorted[j].as_str());
        j = j + 1;
    }
    assert(lv.take(lv.len() as int) =~= lv);
    m.append(joined.as_str());
    Err(m)
}

/// The error of `forge create` when the template directory exists.
pub fn template_exists_error(dir: &str) -> (e: String)
    ensures
        e@ == "template already exists: "@ + dir@,
{
    let mut m = "template already exists: ".to_owned();
    m.append(dir);
    m
}

// ---------------------------------------------------------------------------
// Before a run
// ---------------------------------------------------------------------------

/// The checks before a project is created: the output directory must not
/// exist and the template must have a `main.lua`.
pub fn check_run_start(project_dir: &str, project_dir_exists: bool, main_lua_is_file: bool) -> (res:
    Result<(), String>)
    ensures
        project_dir_exists ==> (res matches Err(e) && e@ == "output directory already exists: "@
            + project_dir@),
        !project_dir_exists && !main_lua_is_file ==> (res matches Err(e) && e@
            == "template is missing main.lua"@),
        !project_dir_exists && main_lua_is_file ==> res is Ok,
{
    if project_dir_exists {
        let mut m = "output directory already exists: ".to_owned();
        m.append(project_dir);
        return Err(m);
    }
    if !main_lua_is_file {
        return Err("template is missing main.lua".to_owned());
    }
    Ok(())
}

/// The permissions, commands and programs a manifest asks for (none when it
/// has no `[requires]`).
pub open spec fn requested(m: Manifest) -> (Seq<Permission>, Seq<Seq<char>>, Seq<Seq<char>>) {
    match m.requires {
        Some(r) => (r.permissions@, views(r.commands@), views(r.programs@)),
        None => (Seq::empty(), Seq::empty(), Seq::empty()),
    }
}

/// Whether a run must be trusted first: the template asks for permissions
/// or programs.
pub open spec fn needs_trust_spec(m: Manifest) -> bool {
    requested(m).0.len() > 0 || requested(m).2.len() > 0
}

/// A template that asks for any permission, or for any program, must be
/// trusted before it runs; one that asks for neither runs without trust.
pub proof fn law_permissions_or_programs_need_trust(m: Manifest)
    ensures
        m.requires matches Some(r) && r.permissions@.len() > 0 ==> needs_trust_spec(m),
        m.requires matches Some(r) && r.programs@.len() > 0 ==> needs_trust_spec(m),
        m.requires is None ==> !needs_trust_spec(m),
        m.requires matches Some(r) && r.permissions@.len() == 0 && r.programs@.len() == 0
            ==> !needs_trust_spec(m),
{
}

/// Whether a template must be trusted before it runs.
pub fn needs_trust(m: &Manifest) -> (b: bool)
    ensures
        b == needs_trust_spec(*m),
{
    match &m.requires {
        Some(r) => r.permissions.len() > 0 || r.programs.len() > 0,
        None => false,
    }
}

fn copy_strings(v: &Vec<String>) -> (out: Vec<String>)
    ensures
        views(out@) == views(v@),
{
    let mut out: Vec<String> = Vec::new();
    let mut i: usize = 0;
    while i < v.len()
        invariant
            i <= v.len(),
            views(out@) == views(v@).take(i as int),
        decreases v.len() - i,
    {
        let ghost before = views(out@);
        out.push(v[i].clone());
        assert(views(out@) =~= before.push(v@[i as int]@));
        assert(views(v@).take(i + 1) =~= views(v@).take(i as int).push(v@[i as int]@));
        i = i + 1;
    }
    assert(views(v@).take(v@.len() as int) =~= views(v@));
    out
}

/// The runtime configuration of a run of `record` creating `project_name`
/// in `project_dir`: the grants are what the manifest asks for.
pub fn runtime_config(
    record: &TemplateRecord,
    project_name: &str,
    project_dir: &str,
    fields: Vec<(String, String)>,
) -> (c: RuntimeConfig)
    ensures
        c.fields@ == fields@,
        c.project_name@ == project_name@,
        c.project_dir@ == project_dir@,
        c.template_name@ == record.name@,
        c.template_dir@ == record.dir@,
        c.env_allowlist@.len() == 0,
        (c.permissions@, views(c.allowed_commands@), views(c.allowed_programs@)) == requested(
            record.manifest,
        ),
{
    let (permissions, allowed_commands, allowed_programs) = match &record.manifest.requires {
        Some(r) => {
            let mut perms: Vec<Permission> = Vec::new();
            let mut i: usize = 0;
            while i < r.permissions.len()
                invariant
                    i <= r.permissions.len(),
                    perms@ == r.permissions@.take(i as int),
                decreases r.permissions.len() - i,
            {
                perms.push(r.permissions[i]);
                assert(perms@ =~= r.permissions@.take(i + 1));
                i = i + 1;
            }
            assert(r.permissions@.take(r.permissions@.len() as int) =~= r.permissions@);
            (perms, copy_strings(&r.commands), copy_strings(&r.programs))
        },
        None => {
            let a: Vec<String> = Vec::new();
            let b: Vec<String> = Vec::new();
            assert(views(a@) =~= Seq::<Seq<char>>::empty());
            assert(views(b@) =~= Seq::<Seq<char>>::empty());
            (Vec::new(), a, b)
        },
    };
    RuntimeConfig {
        project_name: project_name.to_owned(),
        project_dir: project_dir.to_owned(),
        template_name: record.name.clone(),
        template_dir: record.dir.clone(),
        env_allowlist: Vec::new(),
        allowed_commands,
        allowed_programs,
        permissions,
        fields,
    }
}

/// The lines that tell the user what a template asks for.
pub open spec fn summary_spec(name: Seq<char>, perms: Seq<Permission>, commands: Seq<Seq<char>>, programs: Seq<Seq<char>>) -> Seq<Seq<char>> {
    seq!["Template \""@ + name + "\" is requesting elevated permissions:\n"@] + (if perms.contains(
        Permission::Execution,
    ) {
        if commands.len() == 0 {
            seq!["  • exec        — may execute external commands"@]
        } else {
            seq![
                "  • exec        — may execute external commands: "@ + crate::casing::join_spec(
                    commands,
                    ", "@,
                ),
            ]
        }
    } else {
        Seq::empty()
    }) + (if perms.contains(Permission::EscapeCwd) {
        seq![
            "  • escape_cwd  — may read and write paths outside the project directory (!!!)"@,
        ]
    } else {
        Seq::empty()
    }) + (if perms.contains(Permission::Network) {
        seq!["  • network     — may make network requests"@]
    } else {
        Seq::empty()
    }) + (if perms.contains(Permission::ReadEnv) {
        seq!["  • read_env    — may read environment variables beyond: HOME, USER, PATH, SHELL"@]
    } else {
        Seq::empty()
    }) + (if programs.len() > 0 {
        seq![
            "  • program     — use the following program APIs: "@ + crate::casing::join_spec(
                programs,
                ", "@,
            ),
        ]
    } else {
        Seq::empty()
    })
}

fn join_list(l: &Vec<String>) -> (out: String)
    ensures
        out@ == crate::casing::join_spec(views(l@), ", "@),
{
    let mut out = String::new();
    let mut i: usize = 0;
    while i < l.len()
        invariant
            i <= l.len(),
            out@ == crate::casing::join_spec(views(l@).take(i as int), ", "@),
        decreases l.len() - i,
    {
        assert(views(l@).take(i + 1).drop_last() =~= views(l@).take(i as int));
        assert(views(l@).take(i + 1).last() == l@[i as int]@);
        if i > 0 {
            out.append(", ");
        } else {
            assert(views(l@).take(1) =~= seq![l@[0]@]);
        }
        out.append(l[i].as_str());
        i = i + 1;
    }
    assert(views(l@).take(l@.len() as int) =~= views(l@));
    out
}

fn has_perm(perms: &Vec<Permission>, p: Permission) -> (b: bool)
    ensures
        b == perms@.contains(p),
{
    let mut i: usize = 0;
    while i < perms.len()
        invariant
            i <= perms.len(),
            forall|k: int| 0 <= k < i ==> perms@[k] != p,
        decreases perms.len() - i,
    {
        if perms[i] == p {
            return true;
        }
        i = i + 1;
    }
    false
}

/// The permission summary shown before an untrusted run, line by line.
pub fn permission_summary(
    template_name: &str,
    permissions: &Vec<Permission>,
    allowed_commands: &Vec<String>,
    allowed_programs: &Vec<String>,
) -> (lines: Vec<String>)
    ensures
        views(lines@) == summary_spec(
            template_name@,
            permissions@,
            views(allowed_commands@),
            views(allowed_programs@),
        ),
{
    let mut lines: Vec<String> = Vec::new();
    let mut head = "Template \"".to_owned();
    head.append(template_name);
    head.append("\" is requesting elevated permissions:\n");
    lines.push(head);
    let ghost l0 = views(lines@);
    let ghost e = Seq::<Seq<char>>::empty();
    if has_perm(permissions, Permission::Execution) {
        if allowed_commands.len() == 0 {
            lines.push("  • exec        — may execute external commands".to_owned());
        } else {
            let mut m = "  • exec        — may execute external commands: ".to_owned();
            let j = join_list(allowed_commands);
            m.append(j.as_str());
            lines.push(m);
        }
    }
    let ghost l1 = views(lines@);
    if has_perm(permissions, Permission::EscapeCwd) {
        lines.push(
            "  • escape_cwd  — may read and write paths outside the project directory (!!!)".to_owned(),
        );
    }
    let ghost l2 = views(lines@);
    if has_perm(permissions, Permission::Network) {
        lines.push("  • network     — may make network requests".to_owned());
    }
    let ghost l3 = views(lines@);
    if has_perm(permissions, Permission::ReadEnv) {
        lines.push(
            "  • read_env    — may read environment variables beyond: HOME, USER, PATH, SHELL".to_owned(),
        );
    }
    let ghost l4 = views(lines@);
    if allowed_programs.len() > 0 {
        let mut m = "  • program     — use the following program APIs: ".to_owned();
        let j = join_list(allowed_programs);
        m.append(j.as_str());
        lines.push(m);
    }
    assert(views(lines@) =~= summary_spec(
        template_name@,
        permissions@,
        views(allowed_commands@),
        views(allowed_programs@),
    ));
    lines
}

/// The user's answer to the trust prompt.
#[derive(Debug, Clone, Copy, PartialEq, Eq, Structural)]
pub enum TrustChoice {
    /// Trust the template and run it.
    Trust,
    /// Run it this once.
    RunOnce,
    /// Do not run it.
    Quit,
}

pub open spec fn ascii_lower(c: char) -> char {
    if 'A' <= c <= 'Z' {
        ((c as u32) + 32) as char
    } else {
        c
    }
}

/// An answer's meaning, after trimming and lowering ASCII case; `None`
/// asks again.
pub open spec fn trust_answer_spec(a: Seq<char>) -> Option<TrustChoice> {
    let t = crate::text::trim_seq(a).map_values(|c: char| ascii_lower(c));
    if t == "y"@ || t == "yes"@ {
        Some(TrustChoice::Trust)
    } else if t == "n"@ || t == "no"@ {
        Some(TrustChoice::RunOnce)
    } else if t == "q"@ || t == "quit"@ {
        Some(TrustChoice::Quit)
    } else {
        None
    }
}

/// Reads the answer to the trust prompt.
pub fn parse_trust_answer(line: &str) -> (c: Option<TrustChoice>)
    ensures
        c == trust_answer_spec(line@),
{
    let t = crate::text::trim(line);
    let v = crate::text::chars_of(t.as_str());
    let mut low = String::new();
    let mut i: usize = 0;
    while i < v.len()
        invariant
            i <= v.len(),
            low@ == v@.take(i as int).map_values(|c: char| ascii_lower(c)),
        decreases v.len() - i,
    {
        let c = v[i];
        let l = if 'A' <= c && c <= 'Z' {
            ((c as u32) + 32) as u8 as char
        } else {
            c
        };
        proof {
            if 'A' <= c && c <= 'Z' {
                assert(((c as u32) + 32) < 128);
            }
        }
        assert(l == ascii_lower(c));
        crate::text::push_char(&mut low, l);
        assert(v@.take(i + 1).map_values(|c: char| ascii_lower(c)) =~= v@.take(i as int).map_values(
            |c: char| ascii_lower(c),
        ).push(l));
        i = i + 1;
    }
    assert(v@.take(v@.len() as int) =~= v@);
    let s = low.as_str();
    if str_eq(s, "y") || str_eq(s, "yes") {
        Some(TrustChoice::Trust)
    } else if str_eq(s, "n") || str_eq(s, "no") {
        Some(TrustChoice::RunOnce)
    } else if str_eq(s, "q") || str_eq(s, "quit") {
        Some(TrustChoice::Quit)
    } else {
        None
    }
}

/// What `forge new` does next about trust.
#[derive(Debug, Clone, Copy, PartialEq, Eq, Structural)]
pub enum TrustStep {
    /// Run the template: it needs no trust or is trusted.
    Run,
    /// Ask whether to trust it (again, when the last answer was not one of
    /// y, n or q).
    Ask,
    /// Record the template as trusted, then run it.
    TrustAndRun,
    /// Run it this once without recording trust; `by_default` when
    /// `--default` chose this without asking.
    RunOnce { by_default: bool },
    /// Stop: the user quit.
    Quit,
}

/// The next trust step: a template that needs trust and is not trusted is
/// run once under `--default`; otherwise the user is asked until the answer
/// is y (trust), n (run once) or q (quit). `answer` is the last answer read,
/// if any.
pub fn trust_step(needs_trust: bool, trusted: bool, use_defaults: bool, answer: Option<&str>) -> (step:
    TrustStep)
    ensures
        !needs_trust || trusted ==> step == TrustStep::Run,
        needs_trust && !trusted && use_defaults ==> step == (TrustStep::RunOnce { by_default: true }),
        needs_trust && !trusted && !use_defaults ==> step == match answer {
            None => TrustStep::Ask,
            Some(a) => match trust_answer_spec(a@) {
                Some(TrustChoice::Trust) => TrustStep::TrustAndRun,
                Some(TrustChoice::RunOnce) => TrustStep::RunOnce { by_default: false },
                Some(TrustChoice::Quit) => TrustStep::Quit,
                None => TrustStep::Ask,
            },
        },
{
    if !needs_trust || trusted {
        return TrustStep::Run;
    }
    if use_defaults {
        return TrustStep::RunOnce { by_default: true };
    }
    match answer {
        None => TrustStep::Ask,
        Some(a) => match parse_trust_answer(a) {
            Some(TrustChoice::Trust) => TrustStep::TrustAndRun,
            Some(TrustChoice::RunOnce) => TrustStep::RunOnce { by_default: false },
            Some(TrustChoice::Quit) => TrustStep::Quit,
            None => TrustStep::Ask,
        },
    }
}

// ---------------------------------------------------------------------------
// Checking a template
// ---------------------------------------------------------------------------

/// The files a `main.lua` text renders: the first argument of each
/// `forge.render(...)` or `forge.render_to(...)` call given as a string
/// literal, in order (what `regex::Regex::captures_iter` finds for the
/// pattern, group 1).
pub uninterp spec fn regex_group1(pattern: Seq<char>, text: Seq<char>) -> Seq<Seq<char>>;

/// `regex::Regex::new(pattern)`, then `captures_iter(text)`, keeping each
/// capture's group 1; the pattern must be the one `scan_render_refs` uses,
/// which compiles.
#[verifier::external_body]
fn regex_captures(pattern: &str, text: &str) -> (out: Vec<String>)
    requires
        pattern@ == render_ref_pattern(),
    ensures
        views(out@) == regex_group1(pattern@, text@),
{
    match regex::Regex::new(pattern) {
        Ok(re) => re.captures_iter(text).filter_map(|c| c.get(1).map(|m| m.as_str().to_string())).collect(),
        Err(_) => Vec::new(),
    }
}

pub open spec fn render_ref_pattern() -> Seq<char> {
    "forge\\.(?:render|render_to)\\(\\s*['\\\"]([^'\\\"]+)['\\\"]"@
}

/// The template files a `main.lua` refers to.
pub fn scan_render_refs(source: &str) -> (refs: Vec<String>)
    ensures
        views(refs@) == regex_group1(render_ref_pattern(), source@),
{
    regex_captures("forge\\.(?:render|render_to)\\(\\s*['\\\"]([^'\\\"]+)['\\\"]", source)
}

/// The findings of `forge check` on a template: a missing `main.lua` alone,
/// else its syntax error, if any, then every referenced file that is
/// missing.
pub fn validation_errors(main_exists: bool, syntax_error: Option<&str>, refs: &Vec<String>, present: &Vec<bool>) -> (errors: Vec<String>)
    requires
        present@.len() == refs@.len(),
    ensures
        !main_exists ==> views(errors@) == seq!["main.lua missing"@],
        main_exists ==> views(errors@) == (match syntax_error {
            Some(e) => seq!["main.lua syntax error: "@ + e@],
            None => Seq::<Seq<char>>::empty(),
        }) + missing_refs(views(refs@), present@),
{
    let mut errors: Vec<String> = Vec::new();
    if !main_exists {
        errors.push("main.lua missing".to_owned());
        assert(views(errors@) =~= seq!["main.lua missing"@]);
        return errors;
    }
    match syntax_error {
        Some(e) => {
            let mut m = "main.lua syntax error: ".to_owned();
            m.append(e);
            errors.push(m);
        },
        None => {},
    }
    let ghost head = views(errors@);
    let mut i: usize = 0;
    while i < refs.len()
        invariant
            i <= refs.len(),
            present@.len() == refs@.len(),
            views(errors@) == head + missing_refs(views(refs@).take(i as int), present@.take(i as int)),
        decreases refs.len() - i,
    {
        assert(views(refs@).take(i + 1).drop_last() =~= views(refs@).take(i as int));
        assert(present@.take(i + 1).drop_last() =~= present@.take(i as int));
        assert(views(refs@).take(i + 1).last() == refs@[i as int]@);
        if !present[i] {
            let mut m = "referenced file not found: files/".to_owned();
            m.append(refs[i].as_str());
            let ghost before = views(errors@);
            errors.push(m);
            assert(views(errors@) =~= before.push("referenced file not found: files/"@ + refs@[i as int]@));
        }
        i = i + 1;
    }
    assert(views(refs@).take(refs@.len() as int) =~= views(refs@));
    assert(present@.take(present@.len() as int) =~= present@);
    match syntax_error {
        Some(e) => assert(head =~= seq!["main.lua syntax error: "@ + e@]),
        None => assert(head =~= Seq::<Seq<char>>::empty()),
    }
    errors
}

/// The messages of the referenced files that are missing.
pub open spec fn missing_refs(refs: Seq<Seq<char>>, present: Seq<bool>) -> Seq<Seq<char>>
    decreases refs.len(),
{
    if refs.len() == 0 || present.len() == 0 {
        Seq::empty()
    } else {
        missing_refs(refs.drop_last(), present.drop_last()) + (if present.last() {
            Seq::empty()
        } else {
            seq!["referenced file not found: files/"@ + refs.last()]
        })
    }
}


/// Whether `m` is the message of a reference whose file is missing.
pub open spec fn is_missing_ref_message(refs: Seq<Seq<char>>, present: Seq<bool>, m: Seq<char>) -> bool {
    exists|i: int|
        0 <= i < refs.len() && !present[i] && m == "referenced file not found: files/"@ + #[trigger] refs[i]
}

/// Every missing referenced file is reported, and nothing else: for each
/// reference whose file is missing the findings hold its message, each
/// finding is the message of a missing reference, and there are as many
/// findings as missing references.
#[verifier::spinoff_prover]
pub proof fn law_every_missing_ref_reported(refs: Seq<Seq<char>>, present: Seq<bool>)
    requires
        refs.len() == present.len(),
    ensures
        forall|i: int|
            0 <= i < refs.len() && !present[i] ==> missing_refs(refs, present).contains(
                "referenced file not found: files/"@ + #[trigger] refs[i],
            ),
        forall|k: int|
            0 <= k < missing_refs(refs, present).len() ==> is_missing_ref_message(
                refs,
                present,
                #[trigger] missing_refs(refs, present)[k],
            ),
        missing_refs(refs, present).len() == present.filter(|b: bool| !b).len(),
    decreases refs.len(),
{
    if refs.len() > 0 {
        let r = refs.drop_last();
        let p = present.drop_last();
        law_every_missing_ref_reported(r, p);
        let head = missing_refs(r, p);
        let n = refs.len() - 1;
        let msg = "referenced file not found: files/"@ + refs[n];
        let tail: Seq<Seq<char>> = if present.last() {
            Seq::empty()
        } else {
            seq![msg]
        };
        assert(missing_refs(refs, present) == head + tail);
        assert forall|i: int| 0 <= i < refs.len() && !present[i] implies missing_refs(
            refs,
            present,
        ).contains("referenced file not found: files/"@ + #[trigger] refs[i]) by {
            if i < n {
                assert(r[i] == refs[i] && p[i] == present[i]);
                let j = choose|j: int|
                    0 <= j < head.len() && head[j] == "referenced file not found: files/"@ + r[i];
                assert((head + tail)[j] == head[j]);
            } else {
                assert((head + tail)[head.len() as int] == msg);
            }
        }
        assert forall|k: int| 0 <= k < missing_refs(refs, present).len() implies is_missing_ref_message(
            refs,
            present,
            #[trigger] missing_refs(refs, present)[k],
        ) by {
            if k < head.len() {
                assert((head + tail)[k] == head[k]);
                assert(is_missing_ref_message(r, p, head[k]));
                let i = choose|i: int|
                    0 <= i < r.len() && !p[i] && head[k] == "referenced file not found: files/"@
                        + #[trigger] r[i];
                assert(r[i] == refs[i] && p[i] == present[i]);
                assert(0 <= i < refs.len() && !present[i] && missing_refs(refs, present)[k]
                    == "referenced file not found: files/"@ + refs[i]);
            } else {
                assert((head + tail)[k] == msg);
                assert(!present[n]);
                assert(0 <= n < refs.len() && !present[n] && missing_refs(refs, present)[k]
                    == "referenced file not found: files/"@ + refs[n]);
            }
        }
        let f = |b: bool| !b;
        assert(present =~= p.push(present.last()));
        p.lemma_filter_push(present.last(), f);
    } else {
        assert(missing_refs(refs, present).len() == 0);
        assert(present.filter(|b: bool| !b) =~= Seq::<bool>::empty()) by {
            reveal(Seq::filter);
        }
    }
}

} // verus!

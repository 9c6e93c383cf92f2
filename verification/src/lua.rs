//! The template runtime's data and decisions: errors, configuration, the
//! prompt and exec interfaces, the exec policy, and the argument schema of
//! `forge.args`. The Lua state itself lives with the caller.
use crate::manifest::Permission;
use crate::search::{first_index, lemma_first_at, lemma_first_none};
use crate::text::{blank, chars_of, is_blank, str_eq, string_from_chars, views};
use vstd::prelude::*;

verus! {

/// The kind of a runtime failure.
#[derive(Debug, Clone, Copy, PartialEq, Eq, Structural)]
pub enum ErrorKind {
    Abort,
    SandboxViolation,
    Render,
    Exec,
}

/// A runtime failure, with the message shown to the user.
#[derive(Debug, Clone)]
pub struct LuaError {
    pub kind: ErrorKind,
    pub msg: String,
}

impl LuaError {
    pub fn new(kind: ErrorKind, msg: &str) -> (e: Self)
        ensures
            e.kind == kind,
            e.msg@ == msg@,
    {
        LuaError { kind, msg: msg.to_owned() }
    }

    /// The message shown to the user.
    pub fn message(&self) -> (m: String)
        ensures
            m@ == self.msg@,
    {
        self.msg.as_str().to_owned()
    }
}

/// Options of a text prompt.
#[derive(Debug, Clone)]
pub struct PromptInputOptions {
    pub default: String,
}

/// Options of a yes/no prompt.
#[derive(Debug, Clone, Copy)]
pub struct PromptConfirmOptions {
    pub default: bool,
}

/// Options of a choice among strings.
#[derive(Debug, Clone)]
pub struct PromptSelectOptions {
    pub message: String,
    pub options: Vec<String>,
    pub default: String,
}

/// How a command runs: its working directory (relative to the project; empty
/// for the project itself), whether a failure is returned rather than raised,
/// and whether its output goes straight to the terminal.
#[derive(Debug, Clone)]
pub struct ExecOptions {
    pub cwd: String,
    pub allow_fail: bool,
    pub passthrough: bool,
}

impl ExecOptions {
    pub fn new() -> (o: Self)
        ensures
            o.cwd@ == Seq::<char>::empty(),
            !o.allow_fail,
            !o.passthrough,
    {
        ExecOptions { cwd: String::new(), allow_fail: false, passthrough: false }
    }
}

/// What a command did.
#[derive(Debug, Clone)]
pub struct ExecResult {
    pub ok: bool,
    pub code: i32,
    pub stdout: String,
    pub stderr: String,
}

/// Where a template's log messages go.
pub trait Logger {
    fn info(&self, msg: &str);

    fn warn(&self, msg: &str);

    fn error(&self, msg: &str);

    fn success(&self, msg: &str);
}

/// Asks the user for values.
pub trait PromptProvider {
    fn input(&self, message: &str, opts: PromptInputOptions) -> Result<String, LuaError>;

    fn confirm(&self, message: &str, opts: PromptConfirmOptions) -> Result<bool, LuaError>;

    fn select(&self, opts: PromptSelectOptions) -> Result<String, LuaError>;
}

/// Runs a command line in a directory, with the environment reduced to the
/// allowlist unless `inherit_env` holds.
pub trait ExecRunner {
    fn run(
        &self,
        argv: &[String],
        opts: &ExecOptions,
        cwd: &str,
        env_allowlist: &[String],
        inherit_env: bool,
    ) -> Result<ExecResult, LuaError>;
}

/// Answers every prompt with its default, without asking anyone.
pub struct DefaultPrompts;

impl PromptProvider for DefaultPrompts {
    fn input(&self, message: &str, opts: PromptInputOptions) -> (res: Result<String, LuaError>)
        ensures
            res matches Ok(s) && s@ == opts.default@,
    {
        Ok(opts.default)
    }

    fn confirm(&self, message: &str, opts: PromptConfirmOptions) -> (res: Result<bool, LuaError>)
        ensures
            res == Ok::<bool, LuaError>(opts.default),
    {
        Ok(opts.default)
    }

    fn select(&self, opts: PromptSelectOptions) -> (res: Result<String, LuaError>)
        ensures
            opts.default@.len() > 0 ==> (res matches Ok(s) && s@ == opts.default@),
            opts.default@.len() == 0 && opts.options@.len() > 0 ==> (res matches Ok(s) && s@
                == opts.options@[0]@),
            opts.default@.len() == 0 && opts.options@.len() == 0 ==> (res matches Err(e) && e.kind
                == ErrorKind::Abort && e.msg@ == "select prompt has no default and no options"@),
    {
        if !opts.default.as_str().is_empty() {
            return Ok(opts.default);
        }
        if opts.options.len() > 0 {
            return Ok(opts.options[0].as_str().to_owned());
        }
        Err(LuaError::new(ErrorKind::Abort, "select prompt has no default and no options"))
    }
}

/// Prompts on the terminal: the text of each question, and how a typed
/// line is read. The terminal itself is the caller's.
pub struct StdioPrompts;

/// The digits of a positive index typed by the user, as a number.
pub open spec fn choice_index(t: Seq<char>) -> Option<u64> {
    crate::manifest::u64_text(t)
}

impl StdioPrompts {
    /// The question of a text prompt: the message, the default in brackets
    /// when there is one, then `: `.
    pub fn input_question(message: &str, default: &str) -> (q: String)
        ensures
            q@ == message@ + (if default@.len() > 0 {
                " ["@ + default@ + "]"@
            } else {
                Seq::empty()
            }) + ": "@,
    {
        let mut q = message.to_owned();
        if !default.is_empty() {
            q.append(" [");
            q.append(default);
            q.append("]");
        }
        q.append(": ");
        q
    }

    /// The answer to a text prompt: the trimmed line, or the default when it
    /// is empty.
    pub fn input_answer(line: &str, default: &str) -> (a: String)
        ensures
            crate::text::trim_seq(line@).len() == 0 ==> a@ == default@,
            crate::text::trim_seq(line@).len() > 0 ==> a@ == crate::text::trim_seq(line@),
    {
        let t = crate::text::trim(line);
        if t.as_str().is_empty() {
            default.to_owned()
        } else {
            t
        }
    }

    /// The question of a yes/no prompt, showing the default in upper case.
    pub fn confirm_question(message: &str, default: bool) -> (q: String)
        ensures
            q@ == message@ + " "@ + (if default {
                "[Y/n]"@
            } else {
                "[y/N]"@
            }) + ": "@,
    {
        let mut q = message.to_owned();
        q.append(" ");
        q.append(if default { "[Y/n]" } else { "[y/N]" });
        q.append(": ");
        q
    }

    /// The answer to a yes/no prompt: the default on an empty line, else
    /// whether the line is `y` or `yes` in any ASCII case.
    pub fn confirm_answer(line: &str, default: bool) -> (b: bool)
        ensures
            crate::text::trim_seq(line@).len() == 0 ==> b == default,
            crate::text::trim_seq(line@).len() > 0 ==> b == (crate::templates::trust_answer_spec(
                line@,
            ) == Some(crate::templates::TrustChoice::Trust)),
    {
        let t = crate::text::trim(line);
        if t.as_str().is_empty() {
            return default;
        }
        match crate::templates::parse_trust_answer(line) {
            Some(crate::templates::TrustChoice::Trust) => true,
            _ => false,
        }
    }

    /// The answer to a choice: the default on an empty line (when there is
    /// one), else an option by its number (from 1) or by its text.
    pub fn select_answer(line: &str, options: &Vec<String>, default: &str) -> (res: Result<
        String,
        LuaError,
    >)
        ensures
            ({
                let t = crate::text::trim_seq(line@);
                if t.len() == 0 && default@.len() > 0 {
                    res matches Ok(a) && a@ == default@
                } else if choice_index(t) is Some && 1 <= choice_index(t).unwrap() <= options@.len() {
                    res matches Ok(a) && a@ == options@[choice_index(t).unwrap() - 1]@
                } else if views(options@).contains(t) {
                    res matches Ok(a) && a@ == t
                } else {
                    res matches Err(e) && e.kind == ErrorKind::Abort && e.msg@ == "invalid selection"@
                }
            }),
    {
        let t = crate::text::trim(line);
        if t.as_str().is_empty() && !default.is_empty() {
            return Ok(default.to_owned());
        }
        match crate::manifest::parse_u64(t.as_str()) {
            Some(n) => {
                if 1 <= n && n <= options.len() as u64 {
                    return Ok(options[(n - 1) as usize].clone());
                }
            },
            None => {},
        }
        if crate::text::contains_str(options, t.as_str()) {
            return Ok(t);
        }
        Err(LuaError::new(ErrorKind::Abort, "invalid selection"))
    }
}

/// What a template run is allowed to do, and where.
#[derive(Debug, Clone)]
pub struct RuntimeConfig {
    pub project_name: String,
    pub project_dir: String,
    pub template_name: String,
    pub template_dir: String,
    pub env_allowlist: Vec<String>,
    pub allowed_commands: Vec<String>,
    pub allowed_programs: Vec<String>,
    pub permissions: Vec<Permission>,
    /// The user's stored fields, name and value.
    pub fields: Vec<(String, String)>,
}

/// Whether an entry is the field `name`.
pub open spec fn named(name: Seq<char>) -> spec_fn((String, String)) -> bool {
    |e: (String, String)| e.0@ == name
}

/// The environment variables a command sees when none are listed.
pub open spec fn default_env_allowlist() -> Seq<Seq<char>> {
    seq!["HOME"@, "USER"@, "PATH"@, "SHELL"@]
}

impl RuntimeConfig {
    /// The value of a stored field (`forge.fields.get`): the first entry of
    /// that name.
    pub fn field(&self, name: &str) -> (res: Result<String, LuaError>)
        ensures
            match first_index(self.fields@, named(name@)) {
                Some(i) => (res matches Ok(v) && v@ == self.fields@[i].1@),
                None => (res matches Err(e) && e.kind == ErrorKind::Abort && e.msg@
                    == "field not found: "@ + name@),
            },
    {
        let mut i: usize = 0;
        while i < self.fields.len()
            invariant
                i <= self.fields.len(),
                forall|k: int| 0 <= k < i ==> !(named(name@))(#[trigger] self.fields@[k]),
            decreases self.fields.len() - i,
        {
            if str_eq(self.fields[i].0.as_str(), name) {
                proof {
                    lemma_first_at(self.fields@, named(name@), i as int);
                }
                return Ok(self.fields[i].1.clone());
            }
            i = i + 1;
        }
        proof {
            lemma_first_none(self.fields@, named(name@));
        }
        let mut m = "field not found: ".to_owned();
        m.append(name);
        Err(LuaError { kind: ErrorKind::Abort, msg: m })
    }

    /// Whether the template was granted `permission`.
    pub fn has_permission(&self, permission: Permission) -> (b: bool)
        ensures
            b == self.permissions@.contains(permission),
    {
        let mut i: usize = 0;
        while i < self.permissions.len()
            invariant
                i <= self.permissions.len(),
                forall|k: int| 0 <= k < i ==> self.permissions@[k] != permission,
            decreases self.permissions.len() - i,
        {
            if self.permissions[i] == permission {
                return true;
            }
            i = i + 1;
        }
        false
    }

    /// The variables a command may see: the configured list, or `HOME`,
    /// `USER`, `PATH` and `SHELL` when none is configured.
    pub fn effective_env_allowlist(&self) -> (out: Vec<String>)
        ensures
            self.env_allowlist@.len() == 0 ==> views(out@) == default_env_allowlist(),
            self.env_allowlist@.len() > 0 ==> views(out@) == views(self.env_allowlist@),
    {
        if self.env_allowlist.len() == 0 {
            let out = vec![
                "HOME".to_owned(),
                "USER".to_owned(),
                "PATH".to_owned(),
                "SHELL".to_owned(),
            ];
            assert(views(out@) =~= default_env_allowlist());
            out
        } else {
            let mut out: Vec<String> = Vec::new();
            let mut i: usize = 0;
            while i < self.env_allowlist.len()
                invariant
                    i <= self.env_allowlist.len(),
                    views(out@) == views(self.env_allowlist@).take(i as int),
                decreases self.env_allowlist.len() - i,
            {
                let ghost before = views(out@);
                out.push(self.env_allowlist[i].as_str().to_owned());
                assert(views(out@) =~= before.push(self.env_allowlist@[i as int]@));
                assert(views(self.env_allowlist@).take(i + 1) =~= views(self.env_allowlist@).take(
                    i as int,
                ).push(self.env_allowlist@[i as int]@));
                i = i + 1;
            }
            assert(views(self.env_allowlist@).take(self.env_allowlist@.len() as int) =~= views(
                self.env_allowlist@,
            ));
            out
        }
    }
}

impl RuntimeConfig {
    /// The variables a template reads through `forge.env`: every variable of
    /// the process (`process_keys`) when it holds the `read_env` permission,
    /// else the effective allowlist.
    pub fn visible_env_keys(&self, process_keys: Vec<String>) -> (out: Vec<String>)
        ensures
            self.permissions@.contains(Permission::ReadEnv) ==> out@ == process_keys@,
            !self.permissions@.contains(Permission::ReadEnv) && self.env_allowlist@.len() == 0
                ==> views(out@) == default_env_allowlist(),
            !self.permissions@.contains(Permission::ReadEnv) && self.env_allowlist@.len() > 0
                ==> views(out@) == views(self.env_allowlist@),
    {
        if self.has_permission(Permission::ReadEnv) {
            process_keys
        } else {
            self.effective_env_allowlist()
        }
    }
}

// ---------------------------------------------------------------------------
// The exec policy
// ---------------------------------------------------------------------------

/// How a command line reached the runtime: `forge.exec` (raw) or a
/// `forge.prog` helper (program).
#[derive(Debug, Clone, Copy, PartialEq, Eq, Structural)]
pub enum ExecMode {
    Raw,
    Program,
}

/// The last non-empty, non-`.` piece of a `/`-separated path.
pub open spec fn last_normal(segs: Seq<Seq<char>>) -> Option<Seq<char>>
    decreases segs.len(),
{
    if segs.len() == 0 {
        None
    } else if segs.last().len() == 0 || segs.last() == "."@ {
        last_normal(segs.drop_last())
    } else {
        Some(segs.last())
    }
}

/// The file name of a path, as `Path::file_name` gives it: its last normal
/// component, none when the path ends in `..` or has no such component.
pub open spec fn file_name_spec(p: Seq<char>) -> Option<Seq<char>> {
    match last_normal(crate::text::split_seq(p, '/')) {
        Some(n) => if n == ".."@ {
            None
        } else {
            Some(n)
        },
        None => None,
    }
}

/// The file name of a path.
#[verifier::loop_isolation(false)]
pub fn file_name(p: &str) -> (res: Option<String>)
    ensures
        match res {
            Some(n) => file_name_spec(p@) == Some(n@),
            None => file_name_spec(p@) is None,
        },
{
    let segs = crate::text::split_char(p, '/');
    let ghost s = views(segs@);
    let mut k: usize = segs.len();
    assert(s.take(k as int) =~= s);
    while k > 0
        invariant
            s == views(segs@),
            k <= segs.len(),
            last_normal(s) == last_normal(s.take(k as int)),
        decreases k,
    {
        let ghost pre = s.take(k as int);
        assert(pre.drop_last() =~= s.take(k - 1));
        assert(pre.last() == segs@[k - 1]@);
        let seg = segs[k - 1].as_str();
        if !seg.is_empty() && !str_eq(seg, ".") {
            if str_eq(seg, "..") {
                return None;
            }
            return Some(seg.to_owned());
        }
        k = k - 1;
    }
    None
}

/// Whether `argv0`, or its file name, is among `allowed`.
pub open spec fn declared_spec(argv0: Seq<char>, allowed: Seq<Seq<char>>) -> bool {
    match file_name_spec(argv0) {
        None => false,
        Some(f) => exists|i: int| 0 <= i < allowed.len() && (allowed[i] == argv0 || allowed[i] == f),
    }
}

/// Whether a command was declared: by its full text or by its file name.
#[verifier::loop_isolation(false)]
pub fn command_declared(argv0: &str, allowed_commands: &Vec<String>) -> (b: bool)
    ensures
        b == declared_spec(argv0@, views(allowed_commands@)),
{
    let name = match file_name(argv0) {
        None => {
            return false;
        },
        Some(n) => n,
    };
    let ghost a = views(allowed_commands@);
    let mut i: usize = 0;
    while i < allowed_commands.len()
        invariant
            a == views(allowed_commands@),
            i <= allowed_commands.len(),
            forall|k: int| 0 <= k < i ==> a[k] != argv0@ && a[k] != name@,
        decreases allowed_commands.len() - i,
    {
        assert(a[i as int] == allowed_commands@[i as int]@);
        let c = allowed_commands[i].as_str();
        if str_eq(c, argv0) || str_eq(c, name.as_str()) {
            return true;
        }
        i = i + 1;
    }
    false
}

/// The verdict on a command line before it runs.
pub open spec fn exec_check_spec(permissions: Seq<Permission>, commands: Seq<Seq<char>>, programs: Seq<Seq<char>>, argv: Seq<Seq<char>>, mode: ExecMode) -> Option<(ErrorKind, Seq<char>)> {
    if argv.len() == 0 {
        Some((ErrorKind::Exec, "empty command"@))
    } else {
        match mode {
            ExecMode::Raw => if !permissions.contains(Permission::Execution) {
                Some(
                    (
                        ErrorKind::Exec,
                        "forge.exec requires [requires].permissions to include execution"@,
                    ),
                )
            } else if !declared_spec(argv[0], commands) {
                Some((ErrorKind::Exec, "command not declared in [requires].commands: "@ + argv[0]))
            } else {
                None
            },
            ExecMode::Program => if !declared_spec(argv[0], programs) {
                Some((ErrorKind::Exec, "program not declared in [requires].programs: "@ + argv[0]))
            } else {
                None
            },
        }
    }
}

/// Checks a command line against the template's grants: raw commands need
/// the `execution` permission and a declared command; program helpers need
/// a declared program.
pub fn check_exec(cfg: &RuntimeConfig, argv: &Vec<String>, mode: ExecMode) -> (res: Result<(), LuaError>)
    ensures
        match exec_check_spec(
            cfg.permissions@,
            views(cfg.allowed_commands@),
            views(cfg.allowed_programs@),
            views(argv@),
            mode,
        ) {
            Some((k, m)) => res matches Err(e) && e.kind == k && e.msg@ == m,
            None => res is Ok,
        },
{
    if argv.len() == 0 {
        return Err(LuaError::new(ErrorKind::Exec, "empty command"));
    }
    assert(views(argv@)[0] == argv@[0]@);
    let argv0 = argv[0].as_str();
    match mode {
        ExecMode::Raw => {
            if !cfg.has_permission(Permission::Execution) {
                return Err(
                    LuaError::new(
                        ErrorKind::Exec,
                        "forge.exec requires [requires].permissions to include execution",
                    ),
                );
            }
            if !command_declared(argv0, &cfg.allowed_commands) {
                let mut m = "command not declared in [requires].commands: ".to_owned();
                m.append(argv0);
                return Err(LuaError { kind: ErrorKind::Exec, msg: m });
            }
        },
        ExecMode::Program => {
            if !command_declared(argv0, &cfg.allowed_programs) {
                let mut m = "program not declared in [requires].programs: ".to_owned();
                m.append(argv0);
                return Err(LuaError { kind: ErrorKind::Exec, msg: m });
            }
        },
    }
    Ok(())
}

/// A raw command line passes the check only when the template holds the
/// `execution` permission and declared the command; an empty command line
/// never passes.
pub proof fn law_raw_exec_needs_grant(
    permissions: Seq<Permission>,
    commands: Seq<Seq<char>>,
    programs: Seq<Seq<char>>,
    argv: Seq<Seq<char>>,
)
    ensures
        exec_check_spec(permissions, commands, programs, argv, ExecMode::Raw) is None ==> argv.len()
            > 0 && permissions.contains(Permission::Execution) && declared_spec(argv[0], commands),
{
}

/// A program helper's verdict depends on the declared programs alone: the
/// permissions and the declared commands play no part in it.
pub proof fn law_program_exec_ignores_permissions(
    permissions1: Seq<Permission>,
    commands1: Seq<Seq<char>>,
    permissions2: Seq<Permission>,
    commands2: Seq<Seq<char>>,
    programs: Seq<Seq<char>>,
    argv: Seq<Seq<char>>,
)
    ensures
        exec_check_spec(permissions1, commands1, programs, argv, ExecMode::Program)
            == exec_check_spec(permissions2, commands2, programs, argv, ExecMode::Program),
{
}

/// What a finished command gives back to the template: its result, or, when
/// it failed and failure was not allowed, an abort carrying its stderr.
pub fn exec_outcome(res: ExecResult, allow_fail: bool) -> (out: Result<ExecResult, LuaError>)
    ensures
        !res.ok && !allow_fail ==> (out matches Err(e) && e.kind == ErrorKind::Abort && e.msg@
            == res.stderr@),
        res.ok || allow_fail ==> (out matches Ok(r) && r.ok == res.ok && r.code == res.code
            && r.stdout@ == res.stdout@ && r.stderr@ == res.stderr@),
{
    if !res.ok && !allow_fail {
        return Err(LuaError { kind: ErrorKind::Abort, msg: res.stderr });
    }
    Ok(res)
}

// ---------------------------------------------------------------------------
// Program helpers (`forge.prog`)
// ---------------------------------------------------------------------------

pub open spec fn argv_view(v: Vec<String>) -> Seq<Seq<char>> {
    views(v@)
}

fn strings_of(items: &Vec<String>) -> (out: Vec<String>)
    ensures
        views(out@) == views(items@),
{
    let mut out: Vec<String> = Vec::new();
    let mut i: usize = 0;
    while i < items.len()
        invariant
            i <= items.len(),
            views(out@) == views(items@).take(i as int),
        decreases items.len() - i,
    {
        let ghost before = views(out@);
        out.push(items[i].as_str().to_owned());
        assert(views(out@) =~= before.push(items@[i as int]@));
        assert(views(items@).take(i + 1) =~= views(items@).take(i as int).push(items@[i as int]@));
        i = i + 1;
    }
    assert(views(items@).take(items@.len() as int) =~= views(items@));
    out
}

/// `head` followed by `args`.
fn with_args(head: Vec<String>, args: &Vec<String>) -> (out: Vec<String>)
    ensures
        views(out@) == views(head@) + views(args@),
{
    let mut out = head;
    let ghost first = views(out@);
    let mut i: usize = 0;
    while i < args.len()
        invariant
            i <= args.len(),
            views(out@) == first + views(args@).take(i as int),
        decreases args.len() - i,
    {
        let ghost before = views(out@);
        out.push(args[i].as_str().to_owned());
        assert(views(out@) =~= before.push(args@[i as int]@));
        assert(views(args@).take(i + 1) =~= views(args@).take(i as int).push(args@[i as int]@));
        i = i + 1;
    }
    assert(views(args@).take(args@.len() as int) =~= views(args@));
    out
}

/// `git init`.
pub fn git_init_argv() -> (out: Vec<String>)
    ensures
        views(out@) == seq!["git"@, "init"@],
{
    let out = vec!["git".to_owned(), "init".to_owned()];
    assert(views(out@) =~= seq!["git"@, "init"@]);
    out
}

/// `git add ARGS...`; at least one argument is needed.
pub fn git_add_argv(args: &Vec<String>) -> (res: Result<Vec<String>, LuaError>)
    ensures
        args@.len() == 0 ==> (res matches Err(e) && e.kind == ErrorKind::Exec && e.msg@
            == "forge.prog.git.add requires at least one argument"@),
        args@.len() > 0 ==> (res matches Ok(v) && views(v@) == seq!["git"@, "add"@] + views(args@)),
{
    if args.len() == 0 {
        return Err(LuaError::new(ErrorKind::Exec, "forge.prog.git.add requires at least one argument"));
    }
    let head = vec!["git".to_owned(), "add".to_owned()];
    assert(views(head@) =~= seq!["git"@, "add"@]);
    Ok(with_args(head, args))
}

/// `git commit -m MESSAGE`; the message must not be blank.
pub fn git_commit_argv(message: &str) -> (res: Result<Vec<String>, LuaError>)
    ensures
        is_blank(message@) ==> (res matches Err(e) && e.kind == ErrorKind::Exec && e.msg@
            == "forge.prog.git.commit requires a non-empty message"@),
        !is_blank(message@) ==> (res matches Ok(v) && views(v@) == seq![
            "git"@,
            "commit"@,
            "-m"@,
            message@,
        ]),
{
    if blank(message) {
        return Err(
            LuaError::new(ErrorKind::Exec, "forge.prog.git.commit requires a non-empty message"),
        );
    }
    let out = vec!["git".to_owned(), "commit".to_owned(), "-m".to_owned(), message.to_owned()];
    assert(views(out@) =~= seq!["git"@, "commit"@, "-m"@, message@]);
    Ok(out)
}

/// The `forge.prog.cargo` helpers.
#[derive(Debug, Clone, Copy, PartialEq, Eq, Structural)]
pub enum CargoCommand {
    Init,
    New,
    Build,
    Check,
    Test,
    Run,
    Fmt,
    Clippy,
    GenLockfile,
    Add,
}

/// The name a helper has in Lua.
pub open spec fn cargo_lua_name(c: CargoCommand) -> Seq<char> {
    match c {
        CargoCommand::Init => "init"@,
        CargoCommand::New => "new"@,
        CargoCommand::Build => "build"@,
        CargoCommand::Check => "check"@,
        CargoCommand::Test => "test"@,
        CargoCommand::Run => "run"@,
        CargoCommand::Fmt => "fmt"@,
        CargoCommand::Clippy => "clippy"@,
        CargoCommand::GenLockfile => "gen_lockfile"@,
        CargoCommand::Add => "add"@,
    }
}

/// The cargo subcommand a helper runs.
pub open spec fn cargo_subcommand(c: CargoCommand) -> Seq<char> {
    match c {
        CargoCommand::GenLockfile => "generate-lockfile"@,
        _ => cargo_lua_name(c),
    }
}

/// Helpers that need at least one non-blank argument.
pub open spec fn cargo_needs_args(c: CargoCommand) -> bool {
    c == CargoCommand::New || c == CargoCommand::Add
}

pub open spec fn all_blank(args: Seq<Seq<char>>) -> bool {
    forall|i: int| 0 <= i < args.len() ==> is_blank(#[trigger] args[i])
}

impl CargoCommand {
    /// The name the helper has in Lua.
    pub fn lua_name(&self) -> (s: &'static str)
        ensures
            s@ == cargo_lua_name(*self),
    {
        match self {
            CargoCommand::Init => "init",
            CargoCommand::New => "new",
            CargoCommand::Build => "build",
            CargoCommand::Check => "check",
            CargoCommand::Test => "test",
            CargoCommand::Run => "run",
            CargoCommand::Fmt => "fmt",
            CargoCommand::Clippy => "clippy",
            CargoCommand::GenLockfile => "gen_lockfile",
            CargoCommand::Add => "add",
        }
    }

    /// Every helper, in the order they are registered.
    pub fn all() -> (v: Vec<CargoCommand>)
        ensures
            v@ == seq![
                CargoCommand::Init,
                CargoCommand::New,
                CargoCommand::Build,
                CargoCommand::Check,
                CargoCommand::Test,
                CargoCommand::Run,
                CargoCommand::Fmt,
                CargoCommand::Clippy,
                CargoCommand::GenLockfile,
                CargoCommand::Add,
            ],
    {
        let v = vec![
            CargoCommand::Init,
            CargoCommand::New,
            CargoCommand::Build,
            CargoCommand::Check,
            CargoCommand::Test,
            CargoCommand::Run,
            CargoCommand::Fmt,
            CargoCommand::Clippy,
            CargoCommand::GenLockfile,
            CargoCommand::Add,
        ];
        assert(v@ =~= seq![
            CargoCommand::Init,
            CargoCommand::New,
            CargoCommand::Build,
            CargoCommand::Check,
            CargoCommand::Test,
            CargoCommand::Run,
            CargoCommand::Fmt,
            CargoCommand::Clippy,
            CargoCommand::GenLockfile,
            CargoCommand::Add,
        ]);
        v
    }
}

fn all_args_blank(args: &Vec<String>) -> (b: bool)
    ensures
        b == all_blank(views(args@)),
{
    let mut i: usize = 0;
    while i < args.len()
        invariant
            i <= args.len(),
            forall|k: int| 0 <= k < i ==> is_blank(#[trigger] views(args@)[k]),
        decreases args.len() - i,
    {
        assert(views(args@)[i as int] == args@[i as int]@);
        if !blank(args[i].as_str()) {
            return false;
        }
        i = i + 1;
    }
    true
}

/// `cargo SUBCOMMAND ARGS...` for a helper; `new` and `add` need at least
/// one non-blank argument.
pub fn cargo_argv(cmd: CargoCommand, args: &Vec<String>) -> (res: Result<Vec<String>, LuaError>)
    ensures
        cargo_needs_args(cmd) && all_blank(views(args@)) ==> (res matches Err(e) && e.kind
            == ErrorKind::Exec && e.msg@ == "forge.prog.cargo."@ + cargo_lua_name(cmd)
            + " requires at least one argument"@),
        !(cargo_needs_args(cmd) && all_blank(views(args@))) ==> (res matches Ok(v) && views(v@)
            == seq!["cargo"@, cargo_subcommand(cmd)] + views(args@)),
{
    if (cmd == CargoCommand::New || cmd == CargoCommand::Add) && all_args_blank(args) {
        let mut m = "forge.prog.cargo.".to_owned();
        m.append(cmd.lua_name());
        m.append(" requires at least one argument");
        return Err(LuaError { kind: ErrorKind::Exec, msg: m });
    }
    let sub = match cmd {
        CargoCommand::GenLockfile => "generate-lockfile",
        _ => cmd.lua_name(),
    };
    let head = vec!["cargo".to_owned(), sub.to_owned()];
    assert(views(head@) =~= seq!["cargo"@, cargo_subcommand(cmd)]);
    Ok(with_args(head, args))
}

/// The options of `forge.prog.dotnet.new`.
#[derive(Debug, Clone)]
pub struct DotnetNewOptions {
    pub name: Option<String>,
    pub output: Option<String>,
    pub format: Option<String>,
    pub no_restore: bool,
}

pub open spec fn value_option(o: Option<String>, flag: Seq<char>) -> Seq<Seq<char>> {
    match o {
        Some(v) => seq![flag, v@],
        None => Seq::empty(),
    }
}

pub open spec fn blank_option(o: Option<String>) -> bool {
    o matches Some(v) && is_blank(v@)
}

pub open spec fn option_msg(key: Seq<char>) -> Seq<char> {
    "forge.prog.dotnet.new option `"@ + key + "` must not be empty"@
}

/// The first option of `dotnet new` that is given but blank, if any.
pub open spec fn dotnet_new_check(opts: DotnetNewOptions) -> Option<Seq<char>> {
    if blank_option(opts.name) {
        Some(option_msg("name"@))
    } else if blank_option(opts.output) {
        Some(option_msg("output"@))
    } else if blank_option(opts.format) {
        Some(option_msg("format"@))
    } else {
        None
    }
}

fn push_value_option(argv: &mut Vec<String>, value: &Option<String>, key: &str, flag: &str) -> (res:
    Result<(), LuaError>)
    ensures
        blank_option(*value) ==> (res matches Err(e) && e.kind == ErrorKind::Exec && e.msg@
            == option_msg(key@)),
        !blank_option(*value) ==> res is Ok && views(final(argv)@) == views(old(argv)@)
            + value_option(*value, flag@),
{
    match value {
        Some(v) => {
            if blank(v.as_str()) {
                let mut m = "forge.prog.dotnet.new option `".to_owned();
                m.append(key);
                m.append("` must not be empty");
                return Err(LuaError { kind: ErrorKind::Exec, msg: m });
            }
            let ghost before = views(argv@);
            argv.push(flag.to_owned());
            argv.push(v.as_str().to_owned());
            assert(views(argv@) =~= before + seq![flag@, v@]);
            Ok(())
        },
        None => {
            assert(views(argv@) =~= views(argv@) + Seq::<Seq<char>>::empty());
            Ok(())
        },
    }
}

/// `dotnet new TEMPLATE [--name N] [--output O] [--format F] [--no-restore]`.
pub fn dotnet_new_argv(template: &str, opts: Option<&DotnetNewOptions>) -> (res: Result<
    Vec<String>,
    LuaError,
>)
    ensures
        is_blank(template@) ==> (res matches Err(e) && e.kind == ErrorKind::Exec && e.msg@
            == "forge.prog.dotnet.new requires a non-empty template"@),
        !is_blank(template@) && opts is None ==> (res matches Ok(v) && views(v@) == seq![
            "dotnet"@,
            "new"@,
            template@,
        ]),
        !is_blank(template@) && opts is Some ==> match dotnet_new_check(*opts.unwrap()) {
            Some(m) => (res matches Err(e) && e.kind == ErrorKind::Exec && e.msg@ == m),
            None => (res matches Ok(v) && views(v@) == seq!["dotnet"@, "new"@, template@]
                + value_option(opts.unwrap().name, "--name"@) + value_option(
                opts.unwrap().output,
                "--output"@,
            ) + value_option(opts.unwrap().format, "--format"@) + (if opts.unwrap().no_restore {
                seq!["--no-restore"@]
            } else {
                Seq::empty()
            })),
        },
{
    if blank(template) {
        return Err(
            LuaError::new(ErrorKind::Exec, "forge.prog.dotnet.new requires a non-empty template"),
        );
    }
    let mut argv = vec!["dotnet".to_owned(), "new".to_owned(), template.to_owned()];
    assert(views(argv@) =~= seq!["dotnet"@, "new"@, template@]);
    match opts {
        None => Ok(argv),
        Some(o) => {
            push_value_option(&mut argv, &o.name, "name", "--name")?;
            push_value_option(&mut argv, &o.output, "output", "--output")?;
            push_value_option(&mut argv, &o.format, "format", "--format")?;
            if o.no_restore {
                let ghost before = views(argv@);
                argv.push("--no-restore".to_owned());
                assert(views(argv@) =~= before + seq!["--no-restore"@]);
            } else {
                assert(views(argv@) =~= views(argv@) + Seq::<Seq<char>>::empty());
            }
            Ok(argv)
        },
    }
}

pub open spec fn path_msg(operation: Seq<char>, name: Seq<char>) -> Seq<char> {
    "forge.prog.dotnet."@ + operation + " requires a non-empty "@ + name
}

fn require_path(operation: &str, name: &str, value: &str) -> (res: Result<(), LuaError>)
    ensures
        is_blank(value@) ==> (res matches Err(e) && e.kind == ErrorKind::Exec && e.msg@ == path_msg(
            operation@,
            name@,
        )),
        !is_blank(value@) ==> res is Ok,
{
    if blank(value) {
        let mut m = "forge.prog.dotnet.".to_owned();
        m.append(operation);
        m.append(" requires a non-empty ");
        m.append(name);
        return Err(LuaError { kind: ErrorKind::Exec, msg: m });
    }
    Ok(())
}

/// `dotnet sln SOLUTION add PROJECT`.
pub fn dotnet_sln_add_argv(solution: &str, project: &str) -> (res: Result<Vec<String>, LuaError>)
    ensures
        is_blank(solution@) ==> (res matches Err(e) && e.kind == ErrorKind::Exec && e.msg@
            == path_msg("sln_add"@, "solution"@)),
        !is_blank(solution@) && is_blank(project@) ==> (res matches Err(e) && e.kind
            == ErrorKind::Exec && e.msg@ == path_msg("sln_add"@, "project"@)),
        !is_blank(solution@) && !is_blank(project@) ==> (res matches Ok(v) && views(v@) == seq![
            "dotnet"@,
            "sln"@,
            solution@,
            "add"@,
            project@,
        ]),
{
    require_path("sln_add", "solution", solution)?;
    require_path("sln_add", "project", project)?;
    let out = vec![
        "dotnet".to_owned(),
        "sln".to_owned(),
        solution.to_owned(),
        "add".to_owned(),
        project.to_owned(),
    ];
    assert(views(out@) =~= seq!["dotnet"@, "sln"@, solution@, "add"@, project@]);
    Ok(out)
}

/// `dotnet restore SOLUTION [--use-lock-file]`.
pub fn dotnet_restore_argv(solution: &str, use_lock_file: bool) -> (res: Result<
    Vec<String>,
    LuaError,
>)
    ensures
        is_blank(solution@) ==> (res matches Err(e) && e.kind == ErrorKind::Exec && e.msg@
            == path_msg("restore"@, "solution"@)),
        !is_blank(solution@) ==> (res matches Ok(v) && views(v@) == seq![
            "dotnet"@,
            "restore"@,
            solution@,
        ] + (if use_lock_file {
            seq!["--use-lock-file"@]
        } else {
            Seq::empty()
        })),
{
    require_path("restore", "solution", solution)?;
    let mut out = vec!["dotnet".to_owned(), "restore".to_owned(), solution.to_owned()];
    if use_lock_file {
        out.push("--use-lock-file".to_owned());
        assert(views(out@) =~= seq!["dotnet"@, "restore"@, solution@] + seq!["--use-lock-file"@]);
    } else {
        assert(views(out@) =~= seq!["dotnet"@, "restore"@, solution@] + Seq::<Seq<char>>::empty());
    }
    Ok(out)
}

// ---------------------------------------------------------------------------
// The runtime's flags
// ---------------------------------------------------------------------------

/// What has happened so far in a run: whether `forge.args` was called, the
/// `on_init` hook ran, and the template aborted.
#[derive(Debug, Clone, Copy)]
pub struct RunFlags {
    pub args_declared: bool,
    pub init_ran: bool,
    pub aborted: bool,
}

impl RunFlags {
    pub fn new() -> (f: Self)
        ensures
            !f.args_declared && !f.init_ran && !f.aborted,
    {
        RunFlags { args_declared: false, init_ran: false, aborted: false }
    }

    /// Records that `on_init` is due; true only the first time, when the
    /// hook must run.
    pub fn begin_init(&mut self) -> (first: bool)
        ensures
            first == !old(self).init_ran,
            final(self).init_ran,
            final(self).args_declared == old(self).args_declared,
            final(self).aborted == old(self).aborted,
    {
        let first = !self.init_ran;
        self.init_ran = true;
        first
    }

    /// Records a call of `forge.args`, which may happen once.
    pub fn declare_args(&mut self) -> (res: Result<(), LuaError>)
        ensures
            old(self).args_declared ==> (res matches Err(e) && e.kind == ErrorKind::Abort && e.msg@
                == "forge.args may only be called once"@),
            !old(self).args_declared ==> res is Ok,
            final(self).args_declared,
            final(self).init_ran == old(self).init_ran,
            final(self).aborted == old(self).aborted,
    {
        if self.args_declared {
            return Err(LuaError::new(ErrorKind::Abort, "forge.args may only be called once"));
        }
        self.args_declared = true;
        Ok(())
    }

    /// Records an abort and gives the error that carries its message.
    pub fn abort(&mut self, msg: &str) -> (e: LuaError)
        ensures
            e.kind == ErrorKind::Abort,
            e.msg@ == msg@,
            final(self).aborted,
            final(self).args_declared == old(self).args_declared,
            final(self).init_ran == old(self).init_ran,
    {
        self.aborted = true;
        LuaError::new(ErrorKind::Abort, msg)
    }
}

// ---------------------------------------------------------------------------
// `forge.args`
// ---------------------------------------------------------------------------

/// The default of an argument, as far as the rules read it: whether it is
/// nil, whether it is `true`, and its text.
#[derive(Debug, Clone)]
pub struct ArgDefault {
    pub is_nil: bool,
    pub is_true: bool,
    pub text: String,
}

/// What the runtime does next for an argument.
#[derive(Debug, Clone)]
pub enum ArgStep {
    /// Take the default as the value.
    UseDefault,
    /// Ask for a text.
    Input { message: String, default: String },
    /// Ask yes or no.
    Confirm { message: String, default: bool },
    /// Ask for one of the options.
    Select { message: String, options: Vec<String>, default: String },
}

pub enum ArgStepView {
    UseDefault,
    Input { message: Seq<char>, default: Seq<char> },
    Confirm { message: Seq<char>, default: bool },
    Select { message: Seq<char>, options: Seq<Seq<char>>, default: Seq<char> },
}

impl View for ArgStep {
    type V = ArgStepView;

    open spec fn view(&self) -> ArgStepView {
        match self {
            ArgStep::UseDefault => ArgStepView::UseDefault,
            ArgStep::Input { message, default } => ArgStepView::Input {
                message: message@,
                default: default@,
            },
            ArgStep::Confirm { message, default } => ArgStepView::Confirm {
                message: message@,
                default: *default,
            },
            ArgStep::Select { message, options, default } => ArgStepView::Select {
                message: message@,
                options: views(options@),
                default: default@,
            },
        }
    }
}

/// An argument's value, once the answer is in.
#[derive(Debug, Clone)]
pub enum ArgValue {
    /// The default, unchanged.
    UseDefault,
    /// A string.
    Text(String),
    /// The text of a number, still to be read as one.
    Number(String),
    /// A boolean.
    Flag(bool),
}

pub enum ArgValueView {
    UseDefault,
    Text(Seq<char>),
    Number(Seq<char>),
    Flag(bool),
}

impl View for ArgValue {
    type V = ArgValueView;

    open spec fn view(&self) -> ArgValueView {
        match self {
            ArgValue::UseDefault => ArgValueView::UseDefault,
            ArgValue::Text(s) => ArgValueView::Text(s@),
            ArgValue::Number(s) => ArgValueView::Number(s@),
            ArgValue::Flag(b) => ArgValueView::Flag(*b),
        }
    }
}

pub open spec fn quoted(s: Seq<char>) -> Seq<char> {
    "\""@ + s + "\""@
}

/// The first step for an argument `name` of type `arg_type`; `options` are
/// the choices of a select argument, if it lists any.
pub open spec fn plan_arg_spec(name: Seq<char>, arg_type: Seq<char>, prompt: Seq<char>, default: ArgDefault, options: Option<Seq<Seq<char>>>, has_provider: bool) -> Result<ArgStepView, Seq<char>> {
    if !has_provider {
        if !default.is_nil {
            Ok(ArgStepView::UseDefault)
        } else {
            Err("missing prompt provider and no default for "@ + quoted(name))
        }
    } else if arg_type == "string"@ || arg_type == "number"@ {
        Ok(ArgStepView::Input { message: prompt, default: default.text@ })
    } else if arg_type == "boolean"@ {
        Ok(ArgStepView::Confirm { message: prompt, default: default.is_true })
    } else if arg_type == "select"@ {
        match options {
            Some(o) => if o.len() > 0 {
                Ok(ArgStepView::Select { message: prompt, options: o, default: default.text@ })
            } else {
                Err("select arg "@ + quoted(name) + " missing options"@)
            },
            None => Err("select arg "@ + quoted(name) + " missing options"@),
        }
    } else {
        Err("unsupported arg type "@ + quoted(arg_type))
    }
}

pub open spec fn opt_views(o: Option<&Vec<String>>) -> Option<Seq<Seq<char>>> {
    match o {
        Some(v) => Some(views(v@)),
        None => None,
    }
}

fn quote_into(m: &mut String, s: &str)
    ensures
        final(m)@ == old(m)@ + quoted(s@),
{
    m.append("\"");
    m.append(s);
    m.append("\"");
}

/// Decides how an argument of `forge.args` gets its value: from its default
/// when there is no one to ask, else by a prompt fitting its type.
pub fn plan_arg(
    name: &str,
    arg_type: &str,
    prompt: &str,
    default: &ArgDefault,
    options: Option<&Vec<String>>,
    has_provider: bool,
) -> (res: Result<ArgStep, LuaError>)
    ensures
        match plan_arg_spec(name@, arg_type@, prompt@, *default, opt_views(options), has_provider) {
            Ok(step) => (res matches Ok(s) && s@ == step),
            Err(m) => (res matches Err(e) && e.kind == ErrorKind::Abort && e.msg@ == m),
        },
{
    if !has_provider {
        if !default.is_nil {
            return Ok(ArgStep::UseDefault);
        }
        let mut m = "missing prompt provider and no default for ".to_owned();
        quote_into(&mut m, name);
        return Err(LuaError { kind: ErrorKind::Abort, msg: m });
    }
    if str_eq(arg_type, "string") || str_eq(arg_type, "number") {
        Ok(
            ArgStep::Input {
                message: prompt.to_owned(),
                default: default.text.as_str().to_owned(),
            },
        )
    } else if str_eq(arg_type, "boolean") {
        Ok(ArgStep::Confirm { message: prompt.to_owned(), default: default.is_true })
    } else if str_eq(arg_type, "select") {
        match options {
            Some(o) => {
                if o.len() > 0 {
                    Ok(
                        ArgStep::Select {
                            message: prompt.to_owned(),
                            options: strings_of(o),
                            default: default.text.as_str().to_owned(),
                        },
                    )
                } else {
                    let mut m = "select arg ".to_owned();
                    quote_into(&mut m, name);
                    m.append(" missing options");
                    Err(LuaError { kind: ErrorKind::Abort, msg: m })
                }
            },
            None => {
                let mut m = "select arg ".to_owned();
                quote_into(&mut m, name);
                m.append(" missing options");
                Err(LuaError { kind: ErrorKind::Abort, msg: m })
            },
        }
    } else {
        let mut m = "unsupported arg type ".to_owned();
        quote_into(&mut m, arg_type);
        Err(LuaError { kind: ErrorKind::Abort, msg: m })
    }
}

/// The value of a string, number or select argument, given the text the
/// user answered: an empty answer keeps a non-nil default, and a select
/// answer must be one of the options.
pub open spec fn finish_arg_spec(name: Seq<char>, arg_type: Seq<char>, answer: Seq<char>, default: ArgDefault, options: Seq<Seq<char>>) -> Result<ArgValueView, Seq<char>> {
    if answer.len() == 0 && !default.is_nil && (arg_type == "string"@ || arg_type == "number"@
        || arg_type == "select"@) {
        Ok(ArgValueView::UseDefault)
    } else if arg_type == "string"@ {
        Ok(ArgValueView::Text(answer))
    } else if arg_type == "number"@ {
        Ok(ArgValueView::Number(answer))
    } else if arg_type == "select"@ {
        if options.contains(answer) {
            Ok(ArgValueView::Text(answer))
        } else {
            Err("invalid option "@ + quoted(answer) + " for "@ + quoted(name))
        }
    } else {
        Err("unsupported arg type "@ + quoted(arg_type))
    }
}

/// A typed answer is kept: a non-empty answer to a string argument is the
/// argument's text and one to a number argument its number, whatever the
/// default; an answer among a selection's options is the chosen text; the
/// default is used only for an empty answer, and an empty answer with no
/// default is the empty text.
pub proof fn law_typed_answer_is_kept(
    name: Seq<char>,
    arg_type: Seq<char>,
    answer: Seq<char>,
    default: ArgDefault,
    other_default: ArgDefault,
    options: Seq<Seq<char>>,
)
    ensures
        answer.len() > 0 && arg_type == "string"@ ==> finish_arg_spec(name, arg_type, answer, default, options)
            == Ok::<ArgValueView, Seq<char>>(ArgValueView::Text(answer)),
        answer.len() > 0 && arg_type == "number"@ ==> finish_arg_spec(name, arg_type, answer, default, options)
            == Ok::<ArgValueView, Seq<char>>(ArgValueView::Number(answer)),
        answer.len() > 0 && arg_type == "select"@ && options.contains(answer) ==> finish_arg_spec(
            name,
            arg_type,
            answer,
            default,
            options,
        ) == Ok::<ArgValueView, Seq<char>>(ArgValueView::Text(answer)),
        answer.len() > 0 ==> finish_arg_spec(name, arg_type, answer, default, options) == finish_arg_spec(
            name,
            arg_type,
            answer,
            other_default,
            options,
        ),
        finish_arg_spec(name, arg_type, answer, default, options) == Ok::<ArgValueView, Seq<char>>(
            ArgValueView::UseDefault,
        ) ==> answer.len() == 0 && !default.is_nil,
        answer.len() == 0 && default.is_nil && arg_type == "string"@ ==> finish_arg_spec(
            name,
            arg_type,
            answer,
            default,
            options,
        ) == Ok::<ArgValueView, Seq<char>>(ArgValueView::Text(Seq::empty())),
{
    reveal_strlit("string");
    reveal_strlit("number");
    reveal_strlit("select");
    assert("string"@[0] != "number"@[0]);
    assert("string"@[1] != "select"@[1]);
    assert("number"@[0] != "select"@[0]);
    if answer.len() == 0 {
        assert(answer =~= Seq::<char>::empty());
    }
}

/// Turns the answer to an argument's prompt into its value.
pub fn finish_arg(
    name: &str,
    arg_type: &str,
    answer: &str,
    default: &ArgDefault,
    options: &Vec<String>,
) -> (res: Result<ArgValue, LuaError>)
    ensures
        match finish_arg_spec(name@, arg_type@, answer@, *default, views(options@)) {
            Ok(v) => (res matches Ok(x) && x@ == v),
            Err(m) => (res matches Err(e) && e.kind == ErrorKind::Abort && e.msg@ == m),
        },
{
    let is_string = str_eq(arg_type, "string");
    let is_number = str_eq(arg_type, "number");
    let is_select = str_eq(arg_type, "select");
    if answer.is_empty() && !default.is_nil && (is_string || is_number || is_select) {
        return Ok(ArgValue::UseDefault);
    }
    if is_string {
        Ok(ArgValue::Text(answer.to_owned()))
    } else if is_number {
        Ok(ArgValue::Number(answer.to_owned()))
    } else if is_select {
        if crate::text::contains_str(options, answer) {
            Ok(ArgValue::Text(answer.to_owned()))
        } else {
            let mut m = "invalid option ".to_owned();
            quote_into(&mut m, answer);
            m.append(" for ");
            quote_into(&mut m, name);
            Err(LuaError { kind: ErrorKind::Abort, msg: m })
        }
    } else {
        let mut m = "unsupported arg type ".to_owned();
        quote_into(&mut m, arg_type);
        Err(LuaError { kind: ErrorKind::Abort, msg: m })
    }
}

/// The message when an argument's `validate` function refused its value.
pub fn validation_failed(name: &str) -> (e: LuaError)
    ensures
        e.kind == ErrorKind::Abort,
        e.msg@ == "validation failed for "@ + quoted(name@),
{
    let mut m = "validation failed for ".to_owned();
    quote_into(&mut m, name);
    LuaError { kind: ErrorKind::Abort, msg: m }
}


/// What an argument's `validate` function returned.
#[derive(Debug)]
pub enum ValidateResult {
    /// `true` or nothing: the value passes.
    Pass,
    /// A string: the message to show.
    Message(String),
    /// Anything else.
    Other,
}

/// What happens to a value after its `validate` function ran.
#[derive(Debug)]
pub enum ValidateStep {
    /// Keep the value.
    Accept,
    /// Show the message and prompt for the value again.
    Reprompt(String),
    /// Stop the run with this error.
    Fail(LuaError),
}

/// Whether a `validate` result asks for the value again: a non-empty
/// message for a value that can be asked for again.
pub open spec fn reprompts(result: &ValidateResult, can_reprompt: bool) -> bool {
    result is Message && result->Message_0@.len() > 0 && can_reprompt
}

/// The step after `validate`: a passing value is kept; a non-empty message
/// is shown and the user prompted again when the value came from a prompt
/// that can be answered again (`can_reprompt`); anything else stops the run.
pub fn validate_step(name: &str, result: ValidateResult, can_reprompt: bool) -> (step: ValidateStep)
    ensures
        result is Pass ==> step is Accept,
        reprompts(&result, can_reprompt) ==> (step matches ValidateStep::Reprompt(x) && x@
            == result->Message_0@),
        !(result is Pass) && !reprompts(&result, can_reprompt) ==> (step matches ValidateStep::Fail(
            e,
        ) && e.kind == ErrorKind::Abort && e.msg@ == "validation failed for "@ + quoted(name@)),
{
    match result {
        ValidateResult::Pass => ValidateStep::Accept,
        ValidateResult::Message(m) => {
            if !m.as_str().is_empty() && can_reprompt {
                ValidateStep::Reprompt(m)
            } else {
                ValidateStep::Fail(validation_failed(name))
            }
        },
        ValidateResult::Other => ValidateStep::Fail(validation_failed(name)),
    }
}

} // verus!

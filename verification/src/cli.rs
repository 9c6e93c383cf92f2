//! The command-line grammar of `forge`: subcommands, their positional
//! arguments and their flags, parsed from the argument vector.
use crate::text::{chars_of, str_eq};
use vstd::prelude::*;

verus! {

/// A parsed command line.
#[derive(Debug)]
pub struct Cli {
    pub command: Commands,
}

/// The top-level subcommands.
#[derive(Debug)]
#[allow(inconsistent_fields)]
pub enum Commands {
    /// Scaffold a new project from a template.
    New { template: String, name: String, local: bool, global: bool, default: bool },
    /// List available templates.
    List { global: bool, local: bool },
    /// Print details about a template.
    Info { template: String, local: bool, global: bool },
    /// Scaffold a new blank template.
    Create { name: String, local: bool, global: bool },
    /// Remove one or more templates.
    Remove { names: Vec<String>, local: bool, global: bool },
    /// Check a template without executing it.
    Check { template: String, local: bool, global: bool },
    /// Manage template trust.
    Trust { action: TrustAction },
    /// Manage Forge configuration.
    Config { action: ConfigAction },
    /// Manage stored fields.
    Fields { action: FieldsAction },
    /// Manage remote template packages.
    Package { action: PackageAction },
}

/// `forge trust ...`
#[derive(Debug)]
pub enum TrustAction {
    Add { template: String, local: bool, global: bool },
    Remove { template: String, local: bool, global: bool },
    List,
}

/// `forge config ...`
#[derive(Debug)]
pub enum ConfigAction {
    SetValue { key: String, value: String },
    Get { key: String },
    List,
    Edit,
}

/// `forge fields ...`
#[derive(Debug)]
pub enum FieldsAction {
    SetField { assignment: String },
    Get { name: String },
    Clear { name: String },
    List,
}

/// `forge package ...`
#[derive(Debug)]
pub enum PackageAction {
    Probe { repo: String },
    Install { repo: String, templates: Vec<String>, interactive: bool },
    Remove { names: Vec<String> },
    Update { names: Vec<String> },
    List,
}

/// Why a command line was refused.
#[derive(Debug)]
pub enum CliError {
    /// No subcommand where one is required.
    MissingSubcommand,
    /// A word in subcommand position that names no subcommand.
    UnknownSubcommand(String),
    /// A token that starts with `-` and is no flag of the subcommand, or a
    /// positional argument beyond those the subcommand takes.
    UnexpectedArgument(String),
    /// A flag given twice.
    DuplicateFlag(String),
    /// `--local` and `--global` together.
    ConflictingScope,
    /// Fewer positional arguments than the subcommand requires.
    MissingArgument,
    /// `--help`, `-h` or the `help` subcommand: the help of the subcommand
    /// named by this path (the program's own help when it is empty) is to
    /// be shown instead of running anything.
    DisplayHelp(Vec<String>),
    /// `--version` or `-V` right after the program name: the version is to
    /// be shown instead of running anything.
    DisplayVersion,
}

// ----- the mathematical model -------------------------------------------------

pub enum CommandView {
    New { template: Seq<char>, name: Seq<char>, local: bool, global: bool, default: bool },
    List { global: bool, local: bool },
    Info { template: Seq<char>, local: bool, global: bool },
    Create { name: Seq<char>, local: bool, global: bool },
    Remove { names: Seq<Seq<char>>, local: bool, global: bool },
    Check { template: Seq<char>, local: bool, global: bool },
    TrustAdd { template: Seq<char>, local: bool, global: bool },
    TrustRemove { template: Seq<char>, local: bool, global: bool },
    TrustList,
    ConfigSet { key: Seq<char>, value: Seq<char> },
    ConfigGet { key: Seq<char> },
    ConfigList,
    ConfigEdit,
    FieldsSet { assignment: Seq<char> },
    FieldsGet { name: Seq<char> },
    FieldsClear { name: Seq<char> },
    FieldsList,
    PackageProbe { repo: Seq<char> },
    PackageInstall { repo: Seq<char>, templates: Seq<Seq<char>>, interactive: bool },
    PackageRemove { names: Seq<Seq<char>> },
    PackageUpdate { names: Seq<Seq<char>> },
    PackageList,
}

pub enum CliErrorView {
    MissingSubcommand,
    UnknownSubcommand(Seq<char>),
    UnexpectedArgument(Seq<char>),
    DuplicateFlag(Seq<char>),
    ConflictingScope,
    MissingArgument,
    DisplayHelp(Seq<Seq<char>>),
    DisplayVersion,
}

/// The characters of each string.
pub open spec fn strings_view(v: Seq<String>) -> Seq<Seq<char>> {
    v.map_values(|s: String| s@)
}

/// The characters of each argument.
pub open spec fn tokens_view(v: Seq<&str>) -> Seq<Seq<char>> {
    v.map_values(|s: &str| s@)
}

impl View for Cli {
    type V = CommandView;

    open spec fn view(&self) -> CommandView {
        match &self.command {
            Commands::New { template, name, local, global, default } => CommandView::New {
                template: template@,
                name: name@,
                local: *local,
                global: *global,
                default: *default,
            },
            Commands::List { global, local } => CommandView::List { global: *global, local: *local },
            Commands::Info { template, local, global } => CommandView::Info {
                template: template@,
                local: *local,
                global: *global,
            },
            Commands::Create { name, local, global } => CommandView::Create {
                name: name@,
                local: *local,
                global: *global,
            },
            Commands::Remove { names, local, global } => CommandView::Remove {
                names: strings_view(names@),
                local: *local,
                global: *global,
            },
            Commands::Check { template, local, global } => CommandView::Check {
                template: template@,
                local: *local,
                global: *global,
            },
            Commands::Trust { action } => match action {
                TrustAction::Add { template, local, global } => CommandView::TrustAdd {
                    template: template@,
                    local: *local,
                    global: *global,
                },
                TrustAction::Remove { template, local, global } => CommandView::TrustRemove {
                    template: template@,
                    local: *local,
                    global: *global,
                },
                TrustAction::List => CommandView::TrustList,
            },
            Commands::Config { action } => match action {
                ConfigAction::SetValue { key, value } => CommandView::ConfigSet {
                    key: key@,
                    value: value@,
                },
                ConfigAction::Get { key } => CommandView::ConfigGet { key: key@ },
                ConfigAction::List => CommandView::ConfigList,
                ConfigAction::Edit => CommandView::ConfigEdit,
            },
            Commands::Fields { action } => match action {
                FieldsAction::SetField { assignment } => CommandView::FieldsSet {
                    assignment: assignment@,
                },
                FieldsAction::Get { name } => CommandView::FieldsGet { name: name@ },
                FieldsAction::Clear { name } => CommandView::FieldsClear { name: name@ },
                FieldsAction::List => CommandView::FieldsList,
            },
            Commands::Package { action } => match action {
                PackageAction::Probe { repo } => CommandView::PackageProbe { repo: repo@ },
                PackageAction::Install { repo, templates, interactive } =>
                    CommandView::PackageInstall {
                    repo: repo@,
                    templates: strings_view(templates@),
                    interactive: *interactive,
                },
                PackageAction::Remove { names } => CommandView::PackageRemove {
                    names: strings_view(names@),
                },
                PackageAction::Update { names } => CommandView::PackageUpdate {
                    names: strings_view(names@),
                },
                PackageAction::List => CommandView::PackageList,
            },
        }
    }
}

impl View for CliError {
    type V = CliErrorView;

    open spec fn view(&self) -> CliErrorView {
        match self {
            CliError::MissingSubcommand => CliErrorView::MissingSubcommand,
            CliError::UnknownSubcommand(s) => CliErrorView::UnknownSubcommand(s@),
            CliError::UnexpectedArgument(s) => CliErrorView::UnexpectedArgument(s@),
            CliError::DuplicateFlag(s) => CliErrorView::DuplicateFlag(s@),
            CliError::ConflictingScope => CliErrorView::ConflictingScope,
            CliError::MissingArgument => CliErrorView::MissingArgument,
            CliError::DisplayHelp(p) => CliErrorView::DisplayHelp(strings_view(p@)),
            CliError::DisplayVersion => CliErrorView::DisplayVersion,
        }
    }
}

/// Which flags a subcommand accepts.
#[derive(Clone, Copy)]
pub struct FlagMask {
    pub default: bool,
    pub local: bool,
    pub global: bool,
    pub interactive: bool,
}

/// The flags seen so far and the positional arguments, in order.
pub struct Scan {
    pub default: bool,
    pub local: bool,
    pub global: bool,
    pub interactive: bool,
    /// Whether `--` was seen: every later token is a positional argument.
    pub escaped: bool,
    pub positionals: Seq<Seq<char>>,
}

/// Which flag a token spells: 0 `--default`, 1 `--local`/`-l`,
/// 2 `--global`/`-g`, 3 `--interactive`, -1 none.
pub open spec fn flag_slot(t: Seq<char>) -> int {
    if t == "--default"@ {
        0
    } else if t == "--local"@ || t == "-l"@ {
        1
    } else if t == "--global"@ || t == "-g"@ {
        2
    } else if t == "--interactive"@ {
        3
    } else {
        -1
    }
}

/// A token that reads as an option: `-` followed by at least one character.
pub open spec fn is_dash_arg(t: Seq<char>) -> bool {
    t.len() > 1 && t[0] == '-'
}

/// A positional argument: refused when the subcommand takes no more
/// (`max` not negative and already reached).
pub open spec fn push_positional(st: Scan, t: Seq<char>, max: int) -> Result<Scan, CliErrorView> {
    if 0 <= max <= st.positionals.len() {
        Err(CliErrorView::UnexpectedArgument(t))
    } else {
        Ok(Scan { positionals: st.positionals.push(t), ..st })
    }
}

/// Whether a token asks for help.
pub open spec fn is_help_flag(t: Seq<char>) -> bool {
    t == "--help"@ || t == "-h"@
}

/// One token of a subcommand's arguments; `path` names the subcommand.
pub open spec fn scan_step(st: Scan, t: Seq<char>, allowed: FlagMask, max: int, path: Seq<Seq<char>>) -> Result<Scan, CliErrorView> {
    let k = flag_slot(t);
    if st.escaped {
        push_positional(st, t, max)
    } else if t == "--"@ {
        Ok(Scan { escaped: true, ..st })
    } else if is_help_flag(t) {
        Err(CliErrorView::DisplayHelp(path))
    } else if k == 0 && allowed.default {
        if st.default { Err(CliErrorView::DuplicateFlag(t)) } else { Ok(Scan { default: true, ..st }) }
    } else if k == 1 && allowed.local {
        if st.local { Err(CliErrorView::DuplicateFlag(t)) } else { Ok(Scan { local: true, ..st }) }
    } else if k == 2 && allowed.global {
        if st.global { Err(CliErrorView::DuplicateFlag(t)) } else { Ok(Scan { global: true, ..st }) }
    } else if k == 3 && allowed.interactive {
        if st.interactive {
            Err(CliErrorView::DuplicateFlag(t))
        } else {
            Ok(Scan { interactive: true, ..st })
        }
    } else if is_dash_arg(t) {
        Err(CliErrorView::UnexpectedArgument(t))
    } else {
        push_positional(st, t, max)
    }
}

pub open spec fn empty_scan() -> Scan {
    Scan {
        default: false,
        local: false,
        global: false,
        interactive: false,
        escaped: false,
        positionals: seq![],
    }
}

/// The tokens of a subcommand read left to right; the first refused token
/// (or the first request for help) decides.
pub open spec fn scan_spec(toks: Seq<Seq<char>>, allowed: FlagMask, max: int, path: Seq<Seq<char>>) -> Result<Scan, CliErrorView>
    decreases toks.len(),
{
    if toks.len() == 0 {
        Ok(empty_scan())
    } else {
        match scan_spec(toks.drop_last(), allowed, max, path) {
            Ok(st) => scan_step(st, toks.last(), allowed, max, path),
            Err(e) => Err(e),
        }
    }
}

/// A subcommand's arguments: scanned (at most `max` positional arguments
/// when `max` is not negative), then `--local` with `--global` refused, then
/// at least `min` positional arguments required.
pub open spec fn leaf_spec(toks: Seq<Seq<char>>, allowed: FlagMask, min: int, max: int, path: Seq<Seq<char>>) -> Result<
    Scan,
    CliErrorView,
> {
    match scan_spec(toks, allowed, max, path) {
        Err(e) => Err(e),
        Ok(st) => if st.local && st.global {
            Err(CliErrorView::ConflictingScope)
        } else if st.positionals.len() < min {
            Err(CliErrorView::MissingArgument)
        } else {
            Ok(st)
        },
    }
}

/// The names of the top-level subcommands (`help` included).
pub open spec fn is_top_name(t: Seq<char>) -> bool {
    t == "new"@ || t == "list"@ || t == "info"@ || t == "create"@ || t == "remove"@ || t
        == "check"@ || t == "trust"@ || t == "config"@ || t == "fields"@ || t == "package"@ || t
        == "help"@
}

/// The names of the subcommands of a group (`help` included).
pub open spec fn is_child_name(g: Seq<char>, t: Seq<char>) -> bool {
    ||| g == "trust"@ && (t == "add"@ || t == "remove"@ || t == "list"@ || t == "help"@)
    ||| g == "config"@ && (t == "set"@ || t == "get"@ || t == "list"@ || t == "edit"@ || t
        == "help"@)
    ||| g == "fields"@ && (t == "set"@ || t == "get"@ || t == "clear"@ || t == "list"@ || t
        == "help"@)
    ||| g == "package"@ && (t == "probe"@ || t == "install"@ || t == "remove"@ || t == "update"@
        || t == "list"@ || t == "help"@)
}

/// `forge <group> help [name]`: the help of the group or of one of its
/// subcommands; any other word is an unknown subcommand.
pub open spec fn group_help_spec(g: Seq<char>, toks: Seq<Seq<char>>) -> CliErrorView {
    if toks.len() == 0 {
        CliErrorView::DisplayHelp(seq![g])
    } else if !is_child_name(g, toks[0]) {
        CliErrorView::UnknownSubcommand(toks[0])
    } else if toks.len() == 1 {
        CliErrorView::DisplayHelp(seq![g, toks[0]])
    } else {
        CliErrorView::UnknownSubcommand(toks[1])
    }
}

/// `forge help [name [name]]`: the help of the program, of a subcommand or
/// of a group's subcommand; any other word is an unknown subcommand.
pub open spec fn help_spec(toks: Seq<Seq<char>>) -> CliErrorView {
    if toks.len() == 0 {
        CliErrorView::DisplayHelp(Seq::empty())
    } else if !is_top_name(toks[0]) {
        CliErrorView::UnknownSubcommand(toks[0])
    } else if toks.len() == 1 {
        CliErrorView::DisplayHelp(seq![toks[0]])
    } else if !is_child_name(toks[0], toks[1]) {
        CliErrorView::UnknownSubcommand(toks[1])
    } else if toks.len() == 2 {
        CliErrorView::DisplayHelp(seq![toks[0], toks[1]])
    } else {
        CliErrorView::UnknownSubcommand(toks[2])
    }
}

/// The first word after a group's name that is not a subcommand name:
/// help, an unexpected option, or an unknown subcommand.
pub open spec fn group_word_spec(g: Seq<char>, a: Seq<char>, toks: Seq<Seq<char>>) -> CliErrorView {
    if is_help_flag(a) {
        CliErrorView::DisplayHelp(seq![g])
    } else if a == "help"@ {
        group_help_spec(g, toks)
    } else if is_dash_arg(a) {
        CliErrorView::UnexpectedArgument(a)
    } else {
        CliErrorView::UnknownSubcommand(a)
    }
}

pub open spec fn scope_flags() -> FlagMask {
    FlagMask { default: false, local: true, global: true, interactive: false }
}

pub open spec fn no_flags() -> FlagMask {
    FlagMask { default: false, local: false, global: false, interactive: false }
}

/// `forge trust <action> ...`, given the words after `trust`.
pub open spec fn trust_spec(rest: Seq<Seq<char>>) -> Result<CommandView, CliErrorView> {
    if rest.len() == 0 {
        Err(CliErrorView::MissingSubcommand)
    } else {
        let a = rest[0];
        let toks = rest.skip(1);
        if a == "add"@ {
            match leaf_spec(toks, scope_flags(), 1, 1, seq!["trust"@, a]) {
                Ok(st) => Ok(
                    CommandView::TrustAdd {
                        template: st.positionals[0],
                        local: st.local,
                        global: st.global,
                    },
                ),
                Err(e) => Err(e),
            }
        } else if a == "remove"@ {
            match leaf_spec(toks, scope_flags(), 1, 1, seq!["trust"@, a]) {
                Ok(st) => Ok(
                    CommandView::TrustRemove {
                        template: st.positionals[0],
                        local: st.local,
                        global: st.global,
                    },
                ),
                Err(e) => Err(e),
            }
        } else if a == "list"@ {
            match leaf_spec(toks, no_flags(), 0, 0, seq!["trust"@, a]) {
                Ok(st) => Ok(CommandView::TrustList),
                Err(e) => Err(e),
            }
        } else {
            Err(group_word_spec("trust"@, a, toks))
        }
    }
}

/// `forge config <action> ...`, given the words after `config`.
pub open spec fn config_spec(rest: Seq<Seq<char>>) -> Result<CommandView, CliErrorView> {
    if rest.len() == 0 {
        Err(CliErrorView::MissingSubcommand)
    } else {
        let a = rest[0];
        let toks = rest.skip(1);
        if a == "set"@ {
            match leaf_spec(toks, no_flags(), 2, 2, seq!["config"@, a]) {
                Ok(st) => Ok(CommandView::ConfigSet { key: st.positionals[0], value: st.positionals[1] }),
                Err(e) => Err(e),
            }
        } else if a == "get"@ {
            match leaf_spec(toks, no_flags(), 1, 1, seq!["config"@, a]) {
                Ok(st) => Ok(CommandView::ConfigGet { key: st.positionals[0] }),
                Err(e) => Err(e),
            }
        } else if a == "list"@ {
            match leaf_spec(toks, no_flags(), 0, 0, seq!["config"@, a]) {
                Ok(st) => Ok(CommandView::ConfigList),
                Err(e) => Err(e),
            }
        } else if a == "edit"@ {
            match leaf_spec(toks, no_flags(), 0, 0, seq!["config"@, a]) {
                Ok(st) => Ok(CommandView::ConfigEdit),
                Err(e) => Err(e),
            }
        } else {
            Err(group_word_spec("config"@, a, toks))
        }
    }
}

/// `forge fields <action> ...`, given the words after `fields`.
pub open spec fn fields_spec(rest: Seq<Seq<char>>) -> Result<CommandView, CliErrorView> {
    if rest.len() == 0 {
        Err(CliErrorView::MissingSubcommand)
    } else {
        let a = rest[0];
        let toks = rest.skip(1);
        if a == "set"@ {
            match leaf_spec(toks, no_flags(), 1, 1, seq!["fields"@, a]) {
                Ok(st) => Ok(CommandView::FieldsSet { assignment: st.positionals[0] }),
                Err(e) => Err(e),
            }
        } else if a == "get"@ {
            match leaf_spec(toks, no_flags(), 1, 1, seq!["fields"@, a]) {
                Ok(st) => Ok(CommandView::FieldsGet { name: st.positionals[0] }),
                Err(e) => Err(e),
            }
        } else if a == "clear"@ {
            match leaf_spec(toks, no_flags(), 1, 1, seq!["fields"@, a]) {
                Ok(st) => Ok(CommandView::FieldsClear { name: st.positionals[0] }),
                Err(e) => Err(e),
            }
        } else if a == "list"@ {
            match leaf_spec(toks, no_flags(), 0, 0, seq!["fields"@, a]) {
                Ok(st) => Ok(CommandView::FieldsList),
                Err(e) => Err(e),
            }
        } else {
            Err(group_word_spec("fields"@, a, toks))
        }
    }
}

/// `forge package <action> ...`, given the words after `package`.
pub open spec fn package_spec(rest: Seq<Seq<char>>) -> Result<CommandView, CliErrorView> {
    if rest.len() == 0 {
        Err(CliErrorView::MissingSubcommand)
    } else {
        let a = rest[0];
        let toks = rest.skip(1);
        if a == "probe"@ {
            match leaf_spec(toks, no_flags(), 1, 1, seq!["package"@, a]) {
                Ok(st) => Ok(CommandView::PackageProbe { repo: st.positionals[0] }),
                Err(e) => Err(e),
            }
        } else if a == "install"@ {
            match leaf_spec(toks,
                FlagMask { default: false, local: false, global: false, interactive: true },
                1,
                -1, seq!["package"@, a]) {
                Ok(st) => Ok(
                    CommandView::PackageInstall {
                        repo: st.positionals[0],
                        templates: st.positionals.skip(1),
                        interactive: st.interactive,
                    },
                ),
                Err(e) => Err(e),
            }
        } else if a == "remove"@ {
            match leaf_spec(toks, no_flags(), 0, -1, seq!["package"@, a]) {
                Ok(st) => Ok(CommandView::PackageRemove { names: st.positionals }),
                Err(e) => Err(e),
            }
        } else if a == "update"@ {
            match leaf_spec(toks, no_flags(), 0, -1, seq!["package"@, a]) {
                Ok(st) => Ok(CommandView::PackageUpdate { names: st.positionals }),
                Err(e) => Err(e),
            }
        } else if a == "list"@ {
            match leaf_spec(toks, no_flags(), 0, 0, seq!["package"@, a]) {
                Ok(st) => Ok(CommandView::PackageList),
                Err(e) => Err(e),
            }
        } else {
            Err(group_word_spec("package"@, a, toks))
        }
    }
}

/// The command that a full argument vector (program name first) denotes.
pub open spec fn cli_spec(args: Seq<Seq<char>>) -> Result<CommandView, CliErrorView> {
    if args.len() < 2 {
        Err(CliErrorView::MissingSubcommand)
    } else {
        let sub = args[1];
        let toks = args.skip(2);
        if sub == "new"@ {
            match leaf_spec(toks,
                FlagMask { default: true, local: true, global: true, interactive: false },
                2,
                2, seq![sub]) {
                Ok(st) => Ok(
                    CommandView::New {
                        template: st.positionals[0],
                        name: st.positionals[1],
                        local: st.local,
                        global: st.global,
                        default: st.default,
                    },
                ),
                Err(e) => Err(e),
            }
        } else if sub == "list"@ {
            match leaf_spec(toks, scope_flags(), 0, 0, seq![sub]) {
                Ok(st) => Ok(CommandView::List { global: st.global, local: st.local }),
                Err(e) => Err(e),
            }
        } else if sub == "info"@ {
            match leaf_spec(toks, scope_flags(), 1, 1, seq![sub]) {
                Ok(st) => Ok(
                    CommandView::Info { template: st.positionals[0], local: st.local, global: st.global },
                ),
                Err(e) => Err(e),
            }
        } else if sub == "create"@ {
            match leaf_spec(toks, scope_flags(), 1, 1, seq![sub]) {
                Ok(st) => Ok(
                    CommandView::Create { name: st.positionals[0], local: st.local, global: st.global },
                ),
                Err(e) => Err(e),
            }
        } else if sub == "remove"@ {
            match leaf_spec(toks, scope_flags(), 1, -1, seq![sub]) {
                Ok(st) => Ok(
                    CommandView::Remove { names: st.positionals, local: st.local, global: st.global },
                ),
                Err(e) => Err(e),
            }
        } else if sub == "check"@ {
            match leaf_spec(toks, scope_flags(), 1, 1, seq![sub]) {
                Ok(st) => Ok(
                    CommandView::Check { template: st.positionals[0], local: st.local, global: st.global },
                ),
                Err(e) => Err(e),
            }
        } else if sub == "trust"@ {
            trust_spec(toks)
        } else if sub == "config"@ {
            config_spec(toks)
        } else if sub == "fields"@ {
            fields_spec(toks)
        } else if sub == "package"@ {
            package_spec(toks)
        } else if is_help_flag(sub) {
            Err(CliErrorView::DisplayHelp(Seq::empty()))
        } else if sub == "--version"@ || sub == "-V"@ {
            Err(CliErrorView::DisplayVersion)
        } else if sub == "help"@ {
            Err(help_spec(toks))
        } else if is_dash_arg(sub) {
            Err(CliErrorView::UnexpectedArgument(sub))
        } else {
            Err(CliErrorView::UnknownSubcommand(sub))
        }
    }
}

/// Whether a command carries both `--local` and `--global`.
pub open spec fn both_scopes(c: CommandView) -> bool {
    match c {
        CommandView::New { local, global, .. } => local && global,
        CommandView::List { local, global } => local && global,
        CommandView::Info { local, global, .. } => local && global,
        CommandView::Create { local, global, .. } => local && global,
        CommandView::Remove { local, global, .. } => local && global,
        CommandView::Check { local, global, .. } => local && global,
        CommandView::TrustAdd { local, global, .. } => local && global,
        CommandView::TrustRemove { local, global, .. } => local && global,
        _ => false,
    }
}

/// `--local` and `--global` exclude each other: no accepted command line
/// carries both.
pub proof fn law_scopes_exclusive(args: Seq<Seq<char>>)
    ensures
        cli_spec(args) matches Ok(c) ==> !both_scopes(c),
{
}

// ----- the parser ----------------------------------------------------------------

/// The flags and positional arguments of one subcommand.
pub struct ScanOut {
    pub default: bool,
    pub local: bool,
    pub global: bool,
    pub interactive: bool,
    pub escaped: bool,
    pub positionals: Vec<String>,
}

impl View for ScanOut {
    type V = Scan;

    open spec fn view(&self) -> Scan {
        Scan {
            default: self.default,
            local: self.local,
            global: self.global,
            interactive: self.interactive,
            escaped: self.escaped,
            positionals: strings_view(self.positionals@),
        }
    }
}

fn flag_slot_of(t: &str) -> (k: i8)
    ensures
        k as int == flag_slot(t@),
{
    if str_eq(t, "--default") {
        0
    } else if str_eq(t, "--local") || str_eq(t, "-l") {
        1
    } else if str_eq(t, "--global") || str_eq(t, "-g") {
        2
    } else if str_eq(t, "--interactive") {
        3
    } else {
        -1
    }
}

fn dash_arg(t: &str) -> (b: bool)
    ensures
        b == is_dash_arg(t@),
{
    let v = chars_of(t);
    v.len() > 1 && v[0] == '-'
}

proof fn lemma_strings_view_push(v: Seq<String>, s: String)
    ensures
        strings_view(v.push(s)) == strings_view(v).push(s@),
{
    assert(strings_view(v.push(s)) =~= strings_view(v).push(s@));
}

/// Once a prefix of the tokens is refused, so is every extension of it.
proof fn lemma_scan_err_extends(toks: Seq<Seq<char>>, n: int, allowed: FlagMask, max: int, path: Seq<Seq<char>>)
    requires
        0 <= n <= toks.len(),
        scan_spec(toks.take(n), allowed, max, path) is Err,
    ensures
        scan_spec(toks, allowed, max, path) == scan_spec(toks.take(n), allowed, max, path),
    decreases toks.len() - n,
{
    if n < toks.len() {
        let next = toks.take(n + 1);
        assert(next.drop_last() =~= toks.take(n));
        lemma_scan_err_extends(toks, n + 1, allowed, max, path);
    } else {
        assert(toks.take(n) =~= toks);
    }
}

/// A copy of a list of strings.
fn copy_strings(v: &Vec<String>) -> (out: Vec<String>)
    ensures
        strings_view(out@) == strings_view(v@),
{
    let mut out: Vec<String> = Vec::new();
    let mut i: usize = 0;
    while i < v.len()
        invariant
            i <= v.len(),
            strings_view(out@) == strings_view(v@).take(i as int),
        decreases v.len() - i,
    {
        let ghost before = strings_view(out@);
        out.push(v[i].as_str().to_owned());
        assert(strings_view(out@) =~= before.push(v@[i as int]@));
        assert(strings_view(v@).take(i + 1) =~= strings_view(v@).take(i as int).push(v@[i as int]@));
        i = i + 1;
    }
    assert(strings_view(v@).take(v@.len() as int) =~= strings_view(v@));
    out
}

fn is_help_flag_of(t: &str) -> (b: bool)
    ensures
        b == is_help_flag(t@),
{
    str_eq(t, "--help") || str_eq(t, "-h")
}

/// Reads `args[start..]` as the arguments of the subcommand named by
/// `path`, taking at most `max` positional arguments when `max` is not
/// negative.
fn scan(args: &[&str], start: usize, allowed: FlagMask, max: i8, path: &Vec<String>) -> (res: Result<ScanOut, CliError>)
    requires
        start <= args@.len(),
    ensures
        match res {
            Ok(out) => scan_spec(tokens_view(args@).skip(start as int), allowed, max as int, strings_view(path@)) == Ok::<
                Scan,
                CliErrorView,
            >(out@),
            Err(e) => scan_spec(tokens_view(args@).skip(start as int), allowed, max as int, strings_view(path@)) == Err::<
                Scan,
                CliErrorView,
            >(e@),
        },
{
    let ghost toks = tokens_view(args@).skip(start as int);
    let ghost pv = strings_view(path@);
    let mut out = ScanOut {
        default: false,
        local: false,
        global: false,
        interactive: false,
        escaped: false,
        positionals: Vec::new(),
    };
    assert(toks.take(0) =~= Seq::<Seq<char>>::empty());
    assert(out@.positionals =~= Seq::<Seq<char>>::empty());
    let mut i = start;
    while i < args.len()
        invariant
            start <= i <= args@.len(),
            toks == tokens_view(args@).skip(start as int),
            pv == strings_view(path@),
            scan_spec(toks.take(i - start), allowed, max as int, pv) == Ok::<Scan, CliErrorView>(out@),
        decreases args@.len() - i,
    {
        let t = args[i];
        let ghost before = out@;
        let ghost pre = toks.take(i - start);
        let ghost next = toks.take(i + 1 - start);
        assert(next.drop_last() =~= pre);
        assert(toks[i - start] == tokens_view(args@)[i as int]);
        assert(next.last() == t@);
        assert(scan_spec(next, allowed, max as int, pv) == scan_step(before, t@, allowed, max as int, pv));
        let k = flag_slot_of(t);
        let positional = if out.escaped {
            true
        } else if str_eq(t, "--") {
            out.escaped = true;
            false
        } else if is_help_flag_of(t) {
            proof { lemma_scan_err_extends(toks, i + 1 - start, allowed, max as int, pv); }
            return Err(CliError::DisplayHelp(copy_strings(path)));
        } else if k == 0 && allowed.default {
            if out.default {
                proof { lemma_scan_err_extends(toks, i + 1 - start, allowed, max as int, pv); }
                return Err(CliError::DuplicateFlag(t.to_owned()));
            }
            out.default = true;
            false
        } else if k == 1 && allowed.local {
            if out.local {
                proof { lemma_scan_err_extends(toks, i + 1 - start, allowed, max as int, pv); }
                return Err(CliError::DuplicateFlag(t.to_owned()));
            }
            out.local = true;
            false
        } else if k == 2 && allowed.global {
            if out.global {
                proof { lemma_scan_err_extends(toks, i + 1 - start, allowed, max as int, pv); }
                return Err(CliError::DuplicateFlag(t.to_owned()));
            }
            out.global = true;
            false
        } else if k == 3 && allowed.interactive {
            if out.interactive {
                proof { lemma_scan_err_extends(toks, i + 1 - start, allowed, max as int, pv); }
                return Err(CliError::DuplicateFlag(t.to_owned()));
            }
            out.interactive = true;
            false
        } else if dash_arg(t) {
            proof { lemma_scan_err_extends(toks, i + 1 - start, allowed, max as int, pv); }
            return Err(CliError::UnexpectedArgument(t.to_owned()));
        } else {
            true
        };
        if positional {
            if max >= 0 && out.positionals.len() >= max as usize {
                proof { lemma_scan_err_extends(toks, i + 1 - start, allowed, max as int, pv); }
                return Err(CliError::UnexpectedArgument(t.to_owned()));
            }
            let owned = t.to_owned();
            proof {
                lemma_strings_view_push(out.positionals@, owned);
            }
            out.positionals.push(owned);
            assert(out@.positionals =~= before.positionals.push(t@));
        }
        i = i + 1;
    }
    assert(toks.take(args@.len() - start) =~= toks);
    Ok(out)
}

/// Reads `args[start..]` as the arguments of the subcommand named by
/// `path` and applies the scope conflict and the least number of positional
/// arguments (`max < 0`: no bound on their number).
fn leaf(args: &[&str], start: usize, allowed: FlagMask, min: usize, max: i8, path: Vec<String>) -> (res: Result<
    ScanOut,
    CliError,
>)
    requires
        start <= args@.len(),
    ensures
        match res {
            Ok(out) => leaf_spec(tokens_view(args@).skip(start as int), allowed, min as int, max as int, strings_view(path@))
                == Ok::<Scan, CliErrorView>(out@),
            Err(e) => leaf_spec(tokens_view(args@).skip(start as int), allowed, min as int, max as int, strings_view(path@))
                == Err::<Scan, CliErrorView>(e@),
        },
{
    let out = match scan(args, start, allowed, max, &path) {
        Ok(out) => out,
        Err(e) => return Err(e),
    };
    if out.local && out.global {
        return Err(CliError::ConflictingScope);
    }
    if out.positionals.len() < min {
        return Err(CliError::MissingArgument);
    }
    Ok(out)
}

/// The path of a group's subcommand.
fn pair(g: &str, a: &str) -> (v: Vec<String>)
    ensures
        strings_view(v@) == seq![g@, a@],
{
    let v = vec![g.to_owned(), a.to_owned()];
    assert(strings_view(v@) =~= seq![g@, a@]);
    v
}

/// The path of a top-level subcommand.
fn single(a: &str) -> (v: Vec<String>)
    ensures
        strings_view(v@) == seq![a@],
{
    let v = vec![a.to_owned()];
    assert(strings_view(v@) =~= seq![a@]);
    v
}

fn is_top_name_of(t: &str) -> (b: bool)
    ensures
        b == is_top_name(t@),
{
    str_eq(t, "new") || str_eq(t, "list") || str_eq(t, "info") || str_eq(t, "create") || str_eq(
        t,
        "remove",
    ) || str_eq(t, "check") || str_eq(t, "trust") || str_eq(t, "config") || str_eq(t, "fields")
        || str_eq(t, "package") || str_eq(t, "help")
}

fn is_child_name_of(g: &str, t: &str) -> (b: bool)
    ensures
        b == is_child_name(g@, t@),
{
    (str_eq(g, "trust") && (str_eq(t, "add") || str_eq(t, "remove") || str_eq(t, "list") || str_eq(
        t,
        "help",
    ))) || (str_eq(g, "config") && (str_eq(t, "set") || str_eq(t, "get") || str_eq(t, "list")
        || str_eq(t, "edit") || str_eq(t, "help"))) || (str_eq(g, "fields") && (str_eq(t, "set")
        || str_eq(t, "get") || str_eq(t, "clear") || str_eq(t, "list") || str_eq(t, "help"))) || (
    str_eq(g, "package") && (str_eq(t, "probe") || str_eq(t, "install") || str_eq(t, "remove")
        || str_eq(t, "update") || str_eq(t, "list") || str_eq(t, "help")))
}

/// `forge <group> help ...`, the words after `help` starting at `start`.
fn group_help(g: &str, args: &[&str], start: usize) -> (e: CliError)
    requires
        start <= args@.len(),
    ensures
        e@ == group_help_spec(g@, tokens_view(args@).skip(start as int)),
{
    let ghost toks = tokens_view(args@).skip(start as int);
    if start >= args.len() {
        let v = single(g);
        return CliError::DisplayHelp(v);
    }
    assert(toks[0] == args@[start as int]@);
    let a = args[start];
    if !is_child_name_of(g, a) {
        return CliError::UnknownSubcommand(a.to_owned());
    }
    if start + 1 >= args.len() {
        return CliError::DisplayHelp(pair(g, a));
    }
    assert(toks[1] == args@[start + 1]@);
    CliError::UnknownSubcommand(args[start + 1].to_owned())
}

/// `forge help ...`, the words after `help` starting at index 2.
fn help_target(args: &[&str]) -> (e: CliError)
    requires
        2 <= args@.len(),
    ensures
        e@ == help_spec(tokens_view(args@).skip(2)),
{
    let ghost toks = tokens_view(args@).skip(2);
    if args.len() <= 2 {
        let v: Vec<String> = Vec::new();
        assert(strings_view(v@) =~= Seq::<Seq<char>>::empty());
        return CliError::DisplayHelp(v);
    }
    assert(toks[0] == args@[2]@);
    let a = args[2];
    if !is_top_name_of(a) {
        return CliError::UnknownSubcommand(a.to_owned());
    }
    if args.len() <= 3 {
        return CliError::DisplayHelp(single(a));
    }
    assert(toks[1] == args@[3]@);
    let b = args[3];
    if !is_child_name_of(a, b) {
        return CliError::UnknownSubcommand(b.to_owned());
    }
    if args.len() <= 4 {
        return CliError::DisplayHelp(pair(a, b));
    }
    assert(toks[2] == args@[4]@);
    CliError::UnknownSubcommand(args[4].to_owned())
}

/// The error for the first word after a group's name when it names none of
/// the group's subcommands.
fn group_word(g: &str, args: &[&str]) -> (e: CliError)
    requires
        3 <= args@.len(),
    ensures
        e@ == group_word_spec(g@, args@[2]@, tokens_view(args@).skip(3)),
{
    let a = args[2];
    if is_help_flag_of(a) {
        CliError::DisplayHelp(single(g))
    } else if str_eq(a, "help") {
        group_help(g, args, 3)
    } else if dash_arg(a) {
        CliError::UnexpectedArgument(a.to_owned())
    } else {
        CliError::UnknownSubcommand(a.to_owned())
    }
}

proof fn lemma_strings_view_skip(v: Seq<String>, n: int)
    requires
        0 <= n <= v.len(),
    ensures
        strings_view(v.skip(n)) == strings_view(v).skip(n),
{
    assert(strings_view(v.skip(n)) =~= strings_view(v).skip(n));
}

/// The first positional argument.
fn first(out: &ScanOut) -> (s: String)
    requires
        out.positionals.len() >= 1,
    ensures
        s@ == out@.positionals[0],
{
    out.positionals[0].clone()
}

/// The second positional argument.
fn second(out: &ScanOut) -> (s: String)
    requires
        out.positionals.len() >= 2,
    ensures
        s@ == out@.positionals[1],
{
    out.positionals[1].clone()
}

fn parse_trust(args: &[&str]) -> (res: Result<Commands, CliError>)
    requires
        args@.len() >= 2,
    ensures
        match res {
            Ok(c) => trust_spec(tokens_view(args@).skip(2)) == Ok::<CommandView, CliErrorView>(
                (Cli { command: c })@,
            ),
            Err(e) => trust_spec(tokens_view(args@).skip(2)) == Err::<CommandView, CliErrorView>(e@),
        },
{
    if args.len() < 3 {
        return Err(CliError::MissingSubcommand);
    }
    proof {
        assert(tokens_view(args@).skip(2).skip(1) =~= tokens_view(args@).skip(3));
    }
    let a = args[2];
    assert(tokens_view(args@).skip(2)[0] == a@);
    if str_eq(a, "add") {
        let out = leaf(args, 3, FlagMask { default: false, local: true, global: true, interactive: false }, 1, 1, pair("trust", a))?;
        Ok(Commands::Trust { action: TrustAction::Add { template: first(&out), local: out.local, global: out.global } })
    } else if str_eq(a, "remove") {
        let out = leaf(args, 3, FlagMask { default: false, local: true, global: true, interactive: false }, 1, 1, pair("trust", a))?;
        Ok(Commands::Trust { action: TrustAction::Remove { template: first(&out), local: out.local, global: out.global } })
    } else if str_eq(a, "list") {
        let _out = leaf(args, 3, FlagMask { default: false, local: false, global: false, interactive: false }, 0, 0, pair("trust", a))?;
        Ok(Commands::Trust { action: TrustAction::List })
    } else {
        Err(group_word("trust", args))
    }
}

fn scope_mask() -> (m: FlagMask)
    ensures
        m == scope_flags(),
{
    FlagMask { default: false, local: true, global: true, interactive: false }
}

fn no_mask() -> (m: FlagMask)
    ensures
        m == no_flags(),
{
    FlagMask { default: false, local: false, global: false, interactive: false }
}

fn parse_config(args: &[&str]) -> (res: Result<Commands, CliError>)
    requires
        args@.len() >= 2,
    ensures
        match res {
            Ok(c) => config_spec(tokens_view(args@).skip(2)) == Ok::<CommandView, CliErrorView>(
                (Cli { command: c })@,
            ),
            Err(e) => config_spec(tokens_view(args@).skip(2)) == Err::<CommandView, CliErrorView>(e@),
        },
{
    if args.len() < 3 {
        return Err(CliError::MissingSubcommand);
    }
    proof {
        assert(tokens_view(args@).skip(2).skip(1) =~= tokens_view(args@).skip(3));
    }
    let a = args[2];
    assert(tokens_view(args@).skip(2)[0] == a@);
    if str_eq(a, "set") {
        let out = leaf(args, 3, no_mask(), 2, 2, pair("config", a))?;
        Ok(Commands::Config { action: ConfigAction::SetValue { key: first(&out), value: second(&out) } })
    } else if str_eq(a, "get") {
        let out = leaf(args, 3, no_mask(), 1, 1, pair("config", a))?;
        Ok(Commands::Config { action: ConfigAction::Get { key: first(&out) } })
    } else if str_eq(a, "list") {
        let _out = leaf(args, 3, no_mask(), 0, 0, pair("config", a))?;
        Ok(Commands::Config { action: ConfigAction::List })
    } else if str_eq(a, "edit") {
        let _out = leaf(args, 3, no_mask(), 0, 0, pair("config", a))?;
        Ok(Commands::Config { action: ConfigAction::Edit })
    } else {
        Err(group_word("config", args))
    }
}

fn parse_fields(args: &[&str]) -> (res: Result<Commands, CliError>)
    requires
        args@.len() >= 2,
    ensures
        match res {
            Ok(c) => fields_spec(tokens_view(args@).skip(2)) == Ok::<CommandView, CliErrorView>(
                (Cli { command: c })@,
            ),
            Err(e) => fields_spec(tokens_view(args@).skip(2)) == Err::<CommandView, CliErrorView>(e@),
        },
{
    if args.len() < 3 {
        return Err(CliError::MissingSubcommand);
    }
    proof {
        assert(tokens_view(args@).skip(2).skip(1) =~= tokens_view(args@).skip(3));
    }
    let a = args[2];
    assert(tokens_view(args@).skip(2)[0] == a@);
    if str_eq(a, "set") {
        let out = leaf(args, 3, no_mask(), 1, 1, pair("fields", a))?;
        Ok(Commands::Fields { action: FieldsAction::SetField { assignment: first(&out) } })
    } else if str_eq(a, "get") {
        let out = leaf(args, 3, no_mask(), 1, 1, pair("fields", a))?;
        Ok(Commands::Fields { action: FieldsAction::Get { name: first(&out) } })
    } else if str_eq(a, "clear") {
        let out = leaf(args, 3, no_mask(), 1, 1, pair("fields", a))?;
        Ok(Commands::Fields { action: FieldsAction::Clear { name: first(&out) } })
    } else if str_eq(a, "list") {
        let _out = leaf(args, 3, no_mask(), 0, 0, pair("fields", a))?;
        Ok(Commands::Fields { action: FieldsAction::List })
    } else {
        Err(group_word("fields", args))
    }
}

/// All positional arguments after the first.
fn rest_of(out: ScanOut) -> (v: Vec<String>)
    requires
        out.positionals.len() >= 1,
    ensures
        strings_view(v@) == out@.positionals.skip(1),
{
    let mut v = out.positionals;
    let ghost before = v@;
    v.remove(0);
    assert(v@ =~= before.skip(1));
    proof {
        lemma_strings_view_skip(before, 1);
    }
    v
}

fn parse_package(args: &[&str]) -> (res: Result<Commands, CliError>)
    requires
        args@.len() >= 2,
    ensures
        match res {
            Ok(c) => package_spec(tokens_view(args@).skip(2)) == Ok::<CommandView, CliErrorView>(
                (Cli { command: c })@,
            ),
            Err(e) => package_spec(tokens_view(args@).skip(2)) == Err::<CommandView, CliErrorView>(e@),
        },
{
    if args.len() < 3 {
        return Err(CliError::MissingSubcommand);
    }
    proof {
        assert(tokens_view(args@).skip(2).skip(1) =~= tokens_view(args@).skip(3));
    }
    let a = args[2];
    assert(tokens_view(args@).skip(2)[0] == a@);
    if str_eq(a, "probe") {
        let out = leaf(args, 3, no_mask(), 1, 1, pair("package", a))?;
        Ok(Commands::Package { action: PackageAction::Probe { repo: first(&out) } })
    } else if str_eq(a, "install") {
        let out = leaf(
            args,
            3,
            FlagMask { default: false, local: false, global: false, interactive: true },
            1,
            -1, pair("package", a))?;
        let repo = first(&out);
        let interactive = out.interactive;
        let templates = rest_of(out);
        Ok(Commands::Package { action: PackageAction::Install { repo, templates, interactive } })
    } else if str_eq(a, "remove") {
        let out = leaf(args, 3, no_mask(), 0, -1, pair("package", a))?;
        Ok(Commands::Package { action: PackageAction::Remove { names: out.positionals } })
    } else if str_eq(a, "update") {
        let out = leaf(args, 3, no_mask(), 0, -1, pair("package", a))?;
        Ok(Commands::Package { action: PackageAction::Update { names: out.positionals } })
    } else if str_eq(a, "list") {
        let _out = leaf(args, 3, no_mask(), 0, 0, pair("package", a))?;
        Ok(Commands::Package { action: PackageAction::List })
    } else {
        Err(group_word("package", args))
    }
}

impl Cli {
    /// Parses a full argument vector, program name first, as `forge` reads it.
    pub fn try_parse_from(args: &[&str]) -> (res: Result<Cli, CliError>)
        ensures
            match res {
                Ok(cli) => cli_spec(tokens_view(args@)) == Ok::<CommandView, CliErrorView>(cli@),
                Err(e) => cli_spec(tokens_view(args@)) == Err::<CommandView, CliErrorView>(e@),
            },
    {
        if args.len() < 2 {
            return Err(CliError::MissingSubcommand);
        }
        let sub = args[1];
        assert(tokens_view(args@)[1] == sub@);
        let command = if str_eq(sub, "new") {
            let out = leaf(
                args,
                2,
                FlagMask { default: true, local: true, global: true, interactive: false },
                2,
                2, single(sub))?;
            Commands::New {
                template: first(&out),
                name: second(&out),
                local: out.local,
                global: out.global,
                default: out.default,
            }
        } else if str_eq(sub, "list") {
            let out = leaf(args, 2, scope_mask(), 0, 0, single(sub))?;
            Commands::List { global: out.global, local: out.local }
        } else if str_eq(sub, "info") {
            let out = leaf(args, 2, scope_mask(), 1, 1, single(sub))?;
            Commands::Info { template: first(&out), local: out.local, global: out.global }
        } else if str_eq(sub, "create") {
            let out = leaf(args, 2, scope_mask(), 1, 1, single(sub))?;
            Commands::Create { name: first(&out), local: out.local, global: out.global }
        } else if str_eq(sub, "remove") {
            let out = leaf(args, 2, scope_mask(), 1, -1, single(sub))?;
            Commands::Remove { names: out.positionals, local: out.local, global: out.global }
        } else if str_eq(sub, "check") {
            let out = leaf(args, 2, scope_mask(), 1, 1, single(sub))?;
            Commands::Check { template: first(&out), local: out.local, global: out.global }
        } else if str_eq(sub, "trust") {
            parse_trust(args)?
        } else if str_eq(sub, "config") {
            parse_config(args)?
        } else if str_eq(sub, "fields") {
            parse_fields(args)?
        } else if str_eq(sub, "package") {
            parse_package(args)?
        } else if is_help_flag_of(sub) {
            let v: Vec<String> = Vec::new();
            assert(strings_view(v@) =~= Seq::<Seq<char>>::empty());
            return Err(CliError::DisplayHelp(v));
        } else if str_eq(sub, "--version") || str_eq(sub, "-V") {
            return Err(CliError::DisplayVersion);
        } else if str_eq(sub, "help") {
            return Err(help_target(args));
        } else if dash_arg(sub) {
            return Err(CliError::UnexpectedArgument(sub.to_owned()));
        } else {
            return Err(CliError::UnknownSubcommand(sub.to_owned()));
        };
        Ok(Cli { command })
    }
}

} // verus!

//! The user's configuration (`~/.forge/config.toml`): its model, its reading
//! from TOML, and the `forge config set/get/list` operations on it.
use crate::text::{blank, is_blank, is_ws, lemma_split_blank, split_char, split_seq, str_eq, views};
use crate::toml_doc::{lookup, parse_toml, table_get, toml_document, TomlValue};
use vstd::prelude::*;

verus! {

/// Where unscoped template commands look first.
#[derive(Debug, Clone, Copy, PartialEq, Eq, Structural)]
pub enum TemplateScope {
    Local,
    Global,
}

/// `[user]`: defaults for new templates.
#[derive(Debug, Clone)]
pub struct UserConfig {
    pub name: String,
    pub email: String,
}

/// `[templates]`.
#[derive(Debug, Clone, Copy)]
pub struct TemplatesConfig {
    pub default_scope: TemplateScope,
}

/// The whole configuration.
#[derive(Debug, Clone)]
pub struct AppConfig {
    pub user: UserConfig,
    pub templates: TemplatesConfig,
}

impl Default for UserConfig {
    fn default() -> (c: Self)
        ensures
            c.name@ == Seq::<char>::empty(),
            c.email@ == Seq::<char>::empty(),
    {
        UserConfig { name: String::new(), email: String::new() }
    }
}

impl Default for TemplatesConfig {
    fn default() -> (c: Self)
        ensures
            c.default_scope == TemplateScope::Local,
    {
        TemplatesConfig { default_scope: TemplateScope::Local }
    }
}

impl Default for AppConfig {
    fn default() -> (c: Self)
        ensures
            c@ == default_model(),
    {
        AppConfig { user: UserConfig::default(), templates: TemplatesConfig::default() }
    }
}

/// The configuration as plain values.
pub struct ConfigModel {
    pub name: Seq<char>,
    pub email: Seq<char>,
    pub scope: TemplateScope,
}

impl View for AppConfig {
    type V = ConfigModel;

    open spec fn view(&self) -> ConfigModel {
        ConfigModel { name: self.user.name@, email: self.user.email@, scope: self.templates.default_scope }
    }
}

pub open spec fn default_model() -> ConfigModel {
    ConfigModel { name: Seq::empty(), email: Seq::empty(), scope: TemplateScope::Local }
}

/// Why a configuration operation failed.
#[derive(Debug)]
pub enum ConfigError {
    /// The stored configuration is not valid TOML of the expected shape.
    InvalidConfig,
    /// The key path is blank.
    EmptyKeyPath,
    /// The key path has an empty segment.
    InvalidKeyPath(String),
    /// The key path names nothing in the configuration.
    KeyPathNotFound(String),
    /// The new value does not fit the configuration's shape.
    UpdateFailed,
}

pub enum ConfigErrorView {
    InvalidConfig,
    EmptyKeyPath,
    InvalidKeyPath(Seq<char>),
    KeyPathNotFound(Seq<char>),
    UpdateFailed,
}

impl View for ConfigError {
    type V = ConfigErrorView;

    open spec fn view(&self) -> ConfigErrorView {
        match self {
            ConfigError::InvalidConfig => ConfigErrorView::InvalidConfig,
            ConfigError::EmptyKeyPath => ConfigErrorView::EmptyKeyPath,
            ConfigError::InvalidKeyPath(k) => ConfigErrorView::InvalidKeyPath(k@),
            ConfigError::KeyPathNotFound(k) => ConfigErrorView::KeyPathNotFound(k@),
            ConfigError::UpdateFailed => ConfigErrorView::UpdateFailed,
        }
    }
}

impl ConfigError {
    /// The message shown to the user.
    pub fn message(&self) -> (m: String)
        ensures
            m@ == match self@ {
                ConfigErrorView::InvalidConfig => "invalid config.toml"@,
                ConfigErrorView::EmptyKeyPath => "key path cannot be empty"@,
                ConfigErrorView::InvalidKeyPath(k) => "invalid key path: "@ + k,
                ConfigErrorView::KeyPathNotFound(k) => "key path not found: "@ + k,
                ConfigErrorView::UpdateFailed => "failed to update config"@,
            },
    {
        match self {
            ConfigError::InvalidConfig => "invalid config.toml".to_owned(),
            ConfigError::EmptyKeyPath => "key path cannot be empty".to_owned(),
            ConfigError::InvalidKeyPath(k) => {
                let mut m = "invalid key path: ".to_owned();
                m.append(k.as_str());
                m
            },
            ConfigError::KeyPathNotFound(k) => {
                let mut m = "key path not found: ".to_owned();
                m.append(k.as_str());
                m
            },
            ConfigError::UpdateFailed => "failed to update config".to_owned(),
        }
    }
}

/// The name of a scope in the configuration file.
pub open spec fn scope_name(s: TemplateScope) -> Seq<char> {
    match s {
        TemplateScope::Local => "local"@,
        TemplateScope::Global => "global"@,
    }
}

/// A string field of a section: absent means empty, a non-string is refused.
pub open spec fn string_field(t: Seq<(String, TomlValue)>, key: Seq<char>) -> Option<Seq<char>> {
    match lookup(t, key) {
        None => Some(Seq::empty()),
        Some(TomlValue::String(s)) => Some(s@),
        Some(_) => None,
    }
}

/// `[user]` read from TOML, missing fields defaulting to empty.
pub open spec fn user_from(v: TomlValue) -> Option<(Seq<char>, Seq<char>)> {
    match v {
        TomlValue::Table(t) => match (string_field(t@, "name"@), string_field(t@, "email"@)) {
            (Some(n), Some(e)) => Some((n, e)),
            _ => None,
        },
        _ => None,
    }
}

/// A scope read from its name.
pub open spec fn scope_from(s: Seq<char>) -> Option<TemplateScope> {
    if s == "local"@ {
        Some(TemplateScope::Local)
    } else if s == "global"@ {
        Some(TemplateScope::Global)
    } else {
        None
    }
}

/// `[templates]` read from TOML, the scope defaulting to local.
pub open spec fn templates_from(v: TomlValue) -> Option<TemplateScope> {
    match v {
        TomlValue::Table(t) => match lookup(t@, "default_scope"@) {
            None => Some(TemplateScope::Local),
            Some(TomlValue::String(s)) => scope_from(s@),
            Some(_) => None,
        },
        _ => None,
    }
}

/// The configuration read from a TOML document: missing sections and
/// fields take their defaults, unknown keys are ignored.
pub open spec fn config_from(v: TomlValue) -> Option<ConfigModel> {
    match v {
        TomlValue::Table(t) => {
            let user = match lookup(t@, "user"@) {
                None => Some((Seq::<char>::empty(), Seq::<char>::empty())),
                Some(u) => user_from(u),
            };
            let scope = match lookup(t@, "templates"@) {
                None => Some(TemplateScope::Local),
                Some(s) => templates_from(s),
            };
            match (user, scope) {
                (Some(u), Some(s)) => Some(ConfigModel { name: u.0, email: u.1, scope: s }),
                _ => None,
            }
        },
        _ => None,
    }
}

/// The configuration held in a file's text; `None` when there is no file.
pub open spec fn loaded_config(raw: Option<Seq<char>>) -> Option<ConfigModel> {
    match raw {
        None => Some(default_model()),
        Some(text) => match toml_document(text) {
            Ok(v) => config_from(v),
            Err(_) => None,
        },
    }
}

fn string_field_of(t: &Vec<(String, TomlValue)>, key: &str) -> (res: Option<String>)
    ensures
        match res {
            Some(s) => string_field(t@, key@) == Some(s@),
            None => string_field(t@, key@) is None,
        },
{
    match table_get(t, key) {
        None => Some(String::new()),
        Some(TomlValue::String(s)) => Some(s.clone()),
        Some(_) => None,
    }
}

fn user_of(v: &TomlValue) -> (res: Option<UserConfig>)
    ensures
        match res {
            Some(u) => user_from(*v) == Some((u.name@, u.email@)),
            None => user_from(*v) is None,
        },
{
    match v {
        TomlValue::Table(t) => {
            let name = match string_field_of(t, "name") {
                Some(n) => n,
                None => return None,
            };
            let email = match string_field_of(t, "email") {
                Some(e) => e,
                None => return None,
            };
            Some(UserConfig { name, email })
        },
        _ => None,
    }
}

fn scope_of(s: &str) -> (res: Option<TemplateScope>)
    ensures
        res == scope_from(s@),
{
    if str_eq(s, "local") {
        Some(TemplateScope::Local)
    } else if str_eq(s, "global") {
        Some(TemplateScope::Global)
    } else {
        None
    }
}

fn templates_of(v: &TomlValue) -> (res: Option<TemplateScope>)
    ensures
        res == templates_from(*v),
{
    match v {
        TomlValue::Table(t) => match table_get(t, "default_scope") {
            None => Some(TemplateScope::Local),
            Some(TomlValue::String(s)) => scope_of(s.as_str()),
            Some(_) => None,
        },
        _ => None,
    }
}

/// Reads the configuration from a parsed TOML document.
pub fn config_of(v: &TomlValue) -> (res: Option<AppConfig>)
    ensures
        match res {
            Some(c) => config_from(*v) == Some(c@),
            None => config_from(*v) is None,
        },
{
    match v {
        TomlValue::Table(t) => {
            let user = match table_get(t, "user") {
                None => UserConfig::default(),
                Some(u) => match user_of(u) {
                    Some(u) => u,
                    None => return None,
                },
            };
            let scope = match table_get(t, "templates") {
                None => TemplateScope::Local,
                Some(s) => match templates_of(s) {
                    Some(s) => s,
                    None => return None,
                },
            };
            Some(AppConfig { user, templates: TemplatesConfig { default_scope: scope } })
        },
        _ => None,
    }
}

/// What a raw `forge config set` value means: the TOML document it spells,
/// or, when it is no TOML document, the text itself as a string.
pub open spec fn parsed_value_string(raw: Seq<char>) -> Option<Seq<char>> {
    match toml_document(raw) {
        Ok(TomlValue::String(s)) => Some(s@),
        Ok(_) => None,
        Err(_) => Some(raw),
    }
}

/// `[user]` replaced by a raw value.
pub open spec fn parsed_value_user(raw: Seq<char>) -> Option<(Seq<char>, Seq<char>)> {
    match toml_document(raw) {
        Ok(v) => user_from(v),
        Err(_) => None,
    }
}

/// `[templates]` replaced by a raw value.
pub open spec fn parsed_value_templates(raw: Seq<char>) -> Option<TemplateScope> {
    match toml_document(raw) {
        Ok(v) => templates_from(v),
        Err(_) => None,
    }
}

/// Whether some segment of a key path is empty.
pub open spec fn has_empty_segment(keys: Seq<Seq<char>>) -> bool {
    exists|i: int| 0 <= i < keys.len() && (#[trigger] keys[i]).len() == 0
}

/// `forge config set KEY VALUE` on the configuration model. The value is
/// set at the dotted key path inside the configuration's TOML form and the
/// configuration read back from it: unknown keys vanish, values of the
/// wrong shape are refused.
pub open spec fn set_spec(c: ConfigModel, key: Seq<char>, raw: Seq<char>) -> Result<
    ConfigModel,
    ConfigErrorView,
> {
    let keys = split_seq(key, '.');
    if is_blank(key) {
        Err(ConfigErrorView::EmptyKeyPath)
    } else if has_empty_segment(keys) {
        Err(ConfigErrorView::InvalidKeyPath(key))
    } else if keys.len() == 1 {
        if keys[0] == "user"@ {
            match parsed_value_user(raw) {
                Some(u) => Ok(ConfigModel { name: u.0, email: u.1, ..c }),
                None => Err(ConfigErrorView::UpdateFailed),
            }
        } else if keys[0] == "templates"@ {
            match parsed_value_templates(raw) {
                Some(s) => Ok(ConfigModel { scope: s, ..c }),
                None => Err(ConfigErrorView::UpdateFailed),
            }
        } else {
            Ok(c)
        }
    } else if keys.len() == 2 && keys[0] == "user"@ {
        if keys[1] == "name"@ {
            match parsed_value_string(raw) {
                Some(s) => Ok(ConfigModel { name: s, ..c }),
                None => Err(ConfigErrorView::UpdateFailed),
            }
        } else if keys[1] == "email"@ {
            match parsed_value_string(raw) {
                Some(s) => Ok(ConfigModel { email: s, ..c }),
                None => Err(ConfigErrorView::UpdateFailed),
            }
        } else {
            Ok(c)
        }
    } else if keys.len() == 2 && keys[0] == "templates"@ {
        if keys[1] == "default_scope"@ {
            match parsed_value_string(raw) {
                Some(s) => match scope_from(s) {
                    Some(sc) => Ok(ConfigModel { scope: sc, ..c }),
                    None => Err(ConfigErrorView::UpdateFailed),
                },
                None => Err(ConfigErrorView::UpdateFailed),
            }
        } else {
            Ok(c)
        }
    } else {
        Err(ConfigErrorView::KeyPathNotFound(key))
    }
}

/// A value read out of the configuration.
#[derive(Debug)]
pub enum ConfigValue {
    /// A string leaf.
    Text(String),
    /// A section, as its `(key, value)` pairs sorted by key.
    Section(Vec<(String, String)>),
}

pub enum ConfigValueView {
    Text(Seq<char>),
    Section(Seq<(Seq<char>, Seq<char>)>),
}

impl View for ConfigValue {
    type V = ConfigValueView;

    open spec fn view(&self) -> ConfigValueView {
        match self {
            ConfigValue::Text(s) => ConfigValueView::Text(s@),
            ConfigValue::Section(v) => ConfigValueView::Section(
                v@.map_values(|p: (String, String)| (p.0@, p.1@)),
            ),
        }
    }
}

/// `forge config get KEY` on the configuration model.
pub open spec fn get_spec(c: ConfigModel, key: Seq<char>) -> Result<ConfigValueView, ConfigErrorView> {
    let keys = split_seq(key, '.');
    if is_blank(key) {
        Err(ConfigErrorView::EmptyKeyPath)
    } else if keys.len() == 1 && keys[0] == "user"@ {
        Ok(ConfigValueView::Section(seq![("email"@, c.email), ("name"@, c.name)]))
    } else if keys.len() == 1 && keys[0] == "templates"@ {
        Ok(ConfigValueView::Section(seq![("default_scope"@, scope_name(c.scope))]))
    } else if keys.len() == 2 && keys[0] == "user"@ && keys[1] == "name"@ {
        Ok(ConfigValueView::Text(c.name))
    } else if keys.len() == 2 && keys[0] == "user"@ && keys[1] == "email"@ {
        Ok(ConfigValueView::Text(c.email))
    } else if keys.len() == 2 && keys[0] == "templates"@ && keys[1] == "default_scope"@ {
        Ok(ConfigValueView::Text(scope_name(c.scope)))
    } else {
        Err(ConfigErrorView::KeyPathNotFound(key))
    }
}

/// Every leaf of the configuration as `section.key = value`, sorted by key.
pub open spec fn flattened_spec(c: ConfigModel) -> Seq<(Seq<char>, Seq<char>)> {
    seq![
        ("templates.default_scope"@, scope_name(c.scope)),
        ("user.email"@, c.email),
        ("user.name"@, c.name),
    ]
}

fn scope_text(s: TemplateScope) -> (out: String)
    ensures
        out@ == scope_name(s),
{
    match s {
        TemplateScope::Local => "local".to_owned(),
        TemplateScope::Global => "global".to_owned(),
    }
}

fn any_empty(keys: &Vec<String>) -> (res: bool)
    ensures
        res == has_empty_segment(views(keys@)),
{
    let mut i: usize = 0;
    while i < keys.len()
        invariant
            i <= keys.len(),
            forall|j: int| 0 <= j < i ==> (#[trigger] views(keys@)[j]).len() != 0,
        decreases keys.len() - i,
    {
        if keys[i].as_str().is_empty() {
            assert(views(keys@)[i as int].len() == 0);
            return true;
        }
        i = i + 1;
    }
    false
}

/// `ConfigStorage::parse_value`: the TOML document a raw value spells, or the
/// raw text as a string when it is none.
fn parse_value(raw: &str) -> (v: TomlValue)
    ensures
        match toml_document(raw@) {
            Ok(d) => v == d,
            Err(_) => v matches TomlValue::String(s) && s@ == raw@,
        },
{
    match parse_toml(raw) {
        Ok(v) => v,
        Err(_) => TomlValue::String(raw.to_owned()),
    }
}

/// The configuration of one user, with the path of the file it lives in.
/// Reading and writing the file is the caller's part.
pub struct ConfigStorage {
    config: AppConfig,
    config_file: String,
}

impl ConfigStorage {
    pub closed spec fn file(&self) -> Seq<char> {
        self.config_file@
    }

    pub closed spec fn model(&self) -> ConfigModel {
        self.config@
    }

    /// The configuration held in the file's text (`None`: no file, all
    /// defaults).
    pub fn new(config_file: &str, raw: Option<&str>) -> (res: Result<Self, ConfigError>)
        ensures
            match loaded_config(
                match raw {
                    Some(t) => Some(t@),
                    None => None,
                },
            ) {
                Some(m) => res matches Ok(s) && s.model() == m && s.file() == config_file@,
                None => res matches Err(e) && e@ == ConfigErrorView::InvalidConfig,
            },
    {
        let config = match raw {
            None => AppConfig::default(),
            Some(text) => match parse_toml(text) {
                Ok(v) => match config_of(&v) {
                    Some(c) => c,
                    None => return Err(ConfigError::InvalidConfig),
                },
                Err(_) => return Err(ConfigError::InvalidConfig),
            },
        };
        Ok(ConfigStorage { config, config_file: config_file.to_owned() })
    }

    /// The path of the configuration file.
    pub fn config_path(&self) -> (p: &str)
        ensures
            p@ == self.file(),
    {
        self.config_file.as_str()
    }

    /// The configuration.
    pub fn get_config(&self) -> (c: &AppConfig)
        ensures
            c@ == self.model(),
    {
        &self.config
    }

    /// Sets the value at a dotted key path (`forge config set`); on success
    /// the caller saves the configuration.
    pub fn try_set_value(&mut self, key_path: &str, raw_value: &str) -> (res: Result<(), ConfigError>)
        ensures
            final(self).file() == old(self).file(),
            match set_spec(old(self).model(), key_path@, raw_value@) {
                Ok(m) => res is Ok && final(self).model() == m,
                Err(e) => res matches Err(x) && x@ == e && final(self).model() == old(
                    self,
                ).model(),
            },
    {
        if blank(key_path) {
            return Err(ConfigError::EmptyKeyPath);
        }
        let keys = split_char(key_path, '.');
        if any_empty(&keys) {
            return Err(ConfigError::InvalidKeyPath(key_path.to_owned()));
        }
        let ghost ks = views(keys@);
        let n = keys.len();
        if n == 1 {
            assert(ks[0] == keys@[0]@);
            if str_eq(keys[0].as_str(), "user") {
                let v = parse_value(raw_value);
                match user_of(&v) {
                    Some(u) => {
                        self.config.user = u;
                        Ok(())
                    },
                    None => Err(ConfigError::UpdateFailed),
                }
            } else if str_eq(keys[0].as_str(), "templates") {
                let v = parse_value(raw_value);
                match templates_of(&v) {
                    Some(s) => {
                        self.config.templates.default_scope = s;
                        Ok(())
                    },
                    None => Err(ConfigError::UpdateFailed),
                }
            } else {
                Ok(())
            }
        } else if n == 2 {
            assert(ks[0] == keys@[0]@ && ks[1] == keys@[1]@);
            let section = keys[0].as_str();
            let leaf = keys[1].as_str();
            if str_eq(section, "user") {
                if str_eq(leaf, "name") || str_eq(leaf, "email") {
                    let v = parse_value(raw_value);
                    match v {
                        TomlValue::String(s) => {
                            if str_eq(leaf, "name") {
                                self.config.user.name = s;
                            } else {
                                self.config.user.email = s;
                            }
                            Ok(())
                        },
                        _ => Err(ConfigError::UpdateFailed),
                    }
                } else {
                    Ok(())
                }
            } else if str_eq(section, "templates") {
                if str_eq(leaf, "default_scope") {
                    let v = parse_value(raw_value);
                    match v {
                        TomlValue::String(s) => match scope_of(s.as_str()) {
                            Some(sc) => {
                                self.config.templates.default_scope = sc;
                                Ok(())
                            },
                            None => Err(ConfigError::UpdateFailed),
                        },
                        _ => Err(ConfigError::UpdateFailed),
                    }
                } else {
                    Ok(())
                }
            } else {
                Err(ConfigError::KeyPathNotFound(key_path.to_owned()))
            }
        } else {
            Err(ConfigError::KeyPathNotFound(key_path.to_owned()))
        }
    }

    /// The value at a dotted key path (`forge config get`).
    pub fn try_get_value(&self, key_path: &str) -> (res: Result<ConfigValue, ConfigError>)
        ensures
            match get_spec(self.model(), key_path@) {
                Ok(v) => res matches Ok(x) && x@ == v,
                Err(e) => res matches Err(x) && x@ == e,
            },
    {
        if blank(key_path) {
            return Err(ConfigError::EmptyKeyPath);
        }
        let keys = split_char(key_path, '.');
        let ghost ks = views(keys@);
        let n = keys.len();
        if n == 1 && str_eq(keys[0].as_str(), "user") {
            let v = vec![
                ("email".to_owned(), self.config.user.email.clone()),
                ("name".to_owned(), self.config.user.name.clone()),
            ];
            let r = ConfigValue::Section(v);
            assert(r@ matches ConfigValueView::Section(s) && s =~= seq![
                ("email"@, self.model().email),
                ("name"@, self.model().name),
            ]);
            Ok(r)
        } else if n == 1 && str_eq(keys[0].as_str(), "templates") {
            let v = vec![("default_scope".to_owned(), scope_text(self.config.templates.default_scope))];
            let r = ConfigValue::Section(v);
            assert(r@ matches ConfigValueView::Section(s) && s =~= seq![
                ("default_scope"@, scope_name(self.model().scope)),
            ]);
            Ok(r)
        } else if n == 2 && str_eq(keys[0].as_str(), "user") && str_eq(keys[1].as_str(), "name") {
            Ok(ConfigValue::Text(self.config.user.name.clone()))
        } else if n == 2 && str_eq(keys[0].as_str(), "user") && str_eq(keys[1].as_str(), "email") {
            Ok(ConfigValue::Text(self.config.user.email.clone()))
        } else if n == 2 && str_eq(keys[0].as_str(), "templates") && str_eq(
            keys[1].as_str(),
            "default_scope",
        ) {
            Ok(ConfigValue::Text(scope_text(self.config.templates.default_scope)))
        } else {
            Err(ConfigError::KeyPathNotFound(key_path.to_owned()))
        }
    }

    /// Every leaf of the configuration as `(dotted key, value)`, sorted by key
    /// (`forge config list`).
    pub fn get_flattened_config(&self) -> (out: Vec<(String, String)>)
        ensures
            out@.map_values(|p: (String, String)| (p.0@, p.1@)) == flattened_spec(self.model()),
    {
        let out = vec![
            ("templates.default_scope".to_owned(), scope_text(self.config.templates.default_scope)),
            ("user.email".to_owned(), self.config.user.email.clone()),
            ("user.name".to_owned(), self.config.user.name.clone()),
        ];
        assert(out@.map_values(|p: (String, String)| (p.0@, p.1@)) =~= flattened_spec(
            self.model(),
        ));
        out
    }
}


/// A key path whose first segment is `user` or `templates` is not blank.
proof fn lemma_named_key_not_blank(key: Seq<char>)
    requires
        split_seq(key, '.').len() >= 1,
        split_seq(key, '.')[0] == "user"@ || split_seq(key, '.')[0] == "templates"@,
    ensures
        !is_blank(key),
{
    reveal_strlit("user");
    reveal_strlit("templates");
    if is_blank(key) {
        lemma_split_blank(key, '.');
        assert(is_blank(split_seq(key, '.')[0]));
        assert(!is_ws(split_seq(key, '.')[0][0]));
    }
}

/// Reading `user.name` or `user.email` after setting it gives back the
/// value that was set, and the other settings keep their values.
pub proof fn law_config_get_user_after_set(c: ConfigModel, key: Seq<char>, leaf: Seq<char>, raw: Seq<char>)
    requires
        split_seq(key, '.') == seq!["user"@, leaf],
        leaf == "name"@ || leaf == "email"@,
        parsed_value_string(raw) is Some,
    ensures
        set_spec(c, key, raw) matches Ok(m) && get_spec(m, key) == Ok::<ConfigValueView, ConfigErrorView>(
            ConfigValueView::Text(parsed_value_string(raw)->0),
        ) && m.scope == c.scope && (leaf == "name"@ ==> m.email == c.email) && (leaf == "email"@
            ==> m.name == c.name),
{
    reveal_strlit("user");
    reveal_strlit("name");
    reveal_strlit("email");
    reveal_strlit("templates");
    lemma_named_key_not_blank(key);
    let keys = split_seq(key, '.');
    assert(!has_empty_segment(keys)) by {
        assert forall|i: int| 0 <= i < keys.len() implies (#[trigger] keys[i]).len() != 0 by {
            if i == 1 {
                assert(keys[1] == leaf);
            }
        }
    }
    assert(keys[0] != "templates"@) by {
        assert(keys[0][0] != "templates"@[0]);
    }
    assert("name"@ != "email"@) by {
        assert("name"@[0] != "email"@[0]);
    }
}

/// Reading `templates.default_scope` after setting it to a scope name gives
/// back that name, and the user settings keep their values.
pub proof fn law_config_get_scope_after_set(c: ConfigModel, key: Seq<char>, raw: Seq<char>)
    requires
        split_seq(key, '.') == seq!["templates"@, "default_scope"@],
        parsed_value_string(raw) matches Some(s) && scope_from(s) is Some,
    ensures
        set_spec(c, key, raw) matches Ok(m) && get_spec(m, key) == Ok::<ConfigValueView, ConfigErrorView>(
            ConfigValueView::Text(parsed_value_string(raw)->0),
        ) && m.name == c.name && m.email == c.email,
{
    reveal_strlit("user");
    reveal_strlit("templates");
    reveal_strlit("default_scope");
    reveal_strlit("local");
    reveal_strlit("global");
    lemma_named_key_not_blank(key);
    let keys = split_seq(key, '.');
    assert(!has_empty_segment(keys)) by {
        assert forall|i: int| 0 <= i < keys.len() implies (#[trigger] keys[i]).len() != 0 by {
            if i == 1 {
                assert(keys[1] == "default_scope"@);
            }
        }
    }
    assert(keys[0] != "user"@) by {
        assert(keys[0][0] != "user"@[0]);
    }
}

} // verus!

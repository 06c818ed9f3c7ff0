//! Service configurations: what a valid one is, and the environment that a service gets.
use crate::env::{EnvMap, PairView};
use crate::paths::{base_name, file_name, join, joined};
use crate::text::{blank, cat2, cat3, cat4, chars_of, debug_form, debug_text, has_char, is_ascii_alphanumeric, is_blank, opt_view, same, same_opt, ascii_alphanumeric};
use vstd::prelude::*;
use vstd::string::StringExecFns;

pub mod laws;

verus! {

pub const CONFIG_FILE: &'static str = ".served.json5";

pub const LEGACY_CONFIG_FILE: &'static str = ".served.json";

pub const ENV_FILE: &'static str = ".env.served";

pub const DEFAULT_LOG_MAX_BYTES: u64 = 10_485_760;

pub const DEFAULT_LOG_MAX_FILES: u32 = 3;

#[derive(Debug, Clone)]
pub enum ConfigError {
    MissingDirectory(String),
    NotDirectory(String),
    MissingConfig(String),
    InvalidName(String),
    EmptyCommand,
    InvalidEnvKey(String),
    InvalidLogMaxBytes,
    InvalidLogMaxFiles,
    Io(String),
    Json5 { path: String, source: String },
    Dotenv(String),
}

/// The text of a configuration error.
pub open spec fn error_text(e: ConfigError) -> Seq<char> {
    match e {
        ConfigError::MissingDirectory(d) => "service directory does not exist: "@ + d@,
        ConfigError::NotDirectory(d) => "service directory is not a directory: "@ + d@,
        ConfigError::MissingConfig(d) => "missing .served.json5 or .served.json in "@ + d@,
        ConfigError::InvalidName(n) => "invalid service name "@ + debug_form(n@)
            + "; use letters, digits, '.', '_' or '-'"@,
        ConfigError::EmptyCommand => "service command must not be empty"@,
        ConfigError::InvalidEnvKey(k) => "invalid environment key "@ + debug_form(k@),
        ConfigError::InvalidLogMaxBytes => "log_max_bytes must be greater than zero"@,
        ConfigError::InvalidLogMaxFiles => "log_max_files must be greater than zero"@,
        ConfigError::Io(e) => "I/O error while reading service configuration: "@ + e@,
        ConfigError::Json5 { path, source } => "invalid JSON5 in "@ + path@ + ": "@ + source@,
        ConfigError::Dotenv(e) => "invalid dotenv data: "@ + e@,
    }
}

impl ConfigError {
    pub fn message(&self) -> (r: String)
        ensures
            r@ == error_text(*self),
    {
        match self {
            ConfigError::MissingDirectory(d) => cat2("service directory does not exist: ", d.as_str()),
            ConfigError::NotDirectory(d) => cat2("service directory is not a directory: ", d.as_str()),
            ConfigError::MissingConfig(d) => cat2("missing .served.json5 or .served.json in ", d.as_str()),
            ConfigError::InvalidName(n) => {
                let shown = debug_text(n.as_str());
                cat3("invalid service name ", shown.as_str(), "; use letters, digits, '.', '_' or '-'")
            },
            ConfigError::EmptyCommand => "service command must not be empty".to_owned(),
            ConfigError::InvalidEnvKey(k) => {
                let shown = debug_text(k.as_str());
                cat2("invalid environment key ", shown.as_str())
            },
            ConfigError::InvalidLogMaxBytes => "log_max_bytes must be greater than zero".to_owned(),
            ConfigError::InvalidLogMaxFiles => "log_max_files must be greater than zero".to_owned(),
            ConfigError::Io(e) => cat2("I/O error while reading service configuration: ", e.as_str()),
            ConfigError::Json5 { path, source } => cat4("invalid JSON5 in ", path.as_str(), ": ", source.as_str()),
            ConfigError::Dotenv(e) => cat2("invalid dotenv data: ", e.as_str()),
        }
    }
}

/// When a service that has ended is started again.
#[derive(Debug, Clone, Copy, PartialEq, Eq, Structural)]
pub enum RestartPolicy {
    Never,
    OnFailure,
    Always,
}

impl Default for RestartPolicy {
    fn default() -> (r: Self)
        ensures
            r == RestartPolicy::Never,
    {
        RestartPolicy::Never
    }
}

/// How a policy is written.
pub open spec fn policy_text(p: RestartPolicy) -> Seq<char> {
    match p {
        RestartPolicy::Never => "never"@,
        RestartPolicy::OnFailure => "on-failure"@,
        RestartPolicy::Always => "always"@,
    }
}

/// Whether a service under `p` runs again after it ended well (`success`) or not.
pub open spec fn restarts(p: RestartPolicy, success: bool) -> bool {
    p is Always || (p is OnFailure && !success)
}

/// The three policies are written differently.
pub proof fn lemma_policy_texts_differ()
    ensures
        forall|p: RestartPolicy, q: RestartPolicy|
            #[trigger] policy_text(p) == #[trigger] policy_text(q) ==> p == q,
{
    reveal_strlit("never");
    reveal_strlit("on-failure");
    reveal_strlit("always");
    assert("never"@.len() == 5 && "on-failure"@.len() == 10 && "always"@.len() == 6);
}

impl RestartPolicy {
    pub fn should_restart(self, success: bool) -> (r: bool)
        ensures
            r == restarts(self, success),
            self is Always ==> r,
            self is OnFailure ==> r == !success,
            self is Never ==> !r,
    {
        match self {
            RestartPolicy::Never => false,
            RestartPolicy::OnFailure => !success,
            RestartPolicy::Always => true,
        }
    }

    /// Reads back exactly what `as_str` writes.
    pub fn parse(value: &str) -> (r: Option<Self>)
        ensures
            match r {
                Some(p) => policy_text(p) == value@,
                None => forall|p: RestartPolicy| value@ != #[trigger] policy_text(p),
            },
    {
        proof {
            lemma_policy_texts_differ();
        }
        if same(value, "never") {
            assert(policy_text(RestartPolicy::Never) == value@);
            Some(RestartPolicy::Never)
        } else if same(value, "on-failure") {
            Some(RestartPolicy::OnFailure)
        } else if same(value, "always") {
            Some(RestartPolicy::Always)
        } else {
            None
        }
    }

    pub fn as_str(self) -> (r: &'static str)
        ensures
            r@ == policy_text(self),
    {
        match self {
            RestartPolicy::Never => "never",
            RestartPolicy::OnFailure => "on-failure",
            RestartPolicy::Always => "always",
        }
    }
}

/// Parsing what a policy is written as gives that policy back.
pub proof fn law_policy_round_trip(p: RestartPolicy, q: RestartPolicy)
    requires
        policy_text(q) == policy_text(p),
    ensures
        p == q,
{
    lemma_policy_texts_differ();
}

#[derive(Debug)]
pub struct ServiceConfig {
    pub name: String,
    pub command: String,
    pub cwd: Option<String>,
    pub tty: bool,
    pub sync_rows_cols: bool,
    pub restart: RestartPolicy,
    pub persist_logs: bool,
    pub log_max_bytes: u64,
    pub log_max_files: u32,
    pub env: EnvMap,
}

/// A configuration by what its texts hold.
#[verifier::ext_equal]
pub struct ConfigView {
    pub name: Seq<char>,
    pub command: Seq<char>,
    pub cwd: Option<Seq<char>>,
    pub tty: bool,
    pub sync_rows_cols: bool,
    pub restart: RestartPolicy,
    pub persist_logs: bool,
    pub log_max_bytes: u64,
    pub log_max_files: u32,
    pub env: Seq<PairView>,
}

impl View for ServiceConfig {
    type V = ConfigView;

    open spec fn view(&self) -> ConfigView {
        ConfigView {
            name: self.name@,
            command: self.command@,
            cwd: opt_view(self.cwd),
            tty: self.tty,
            sync_rows_cols: self.sync_rows_cols,
            restart: self.restart,
            persist_logs: self.persist_logs,
            log_max_bytes: self.log_max_bytes,
            log_max_files: self.log_max_files,
            env: self.env@,
        }
    }
}

impl Clone for ServiceConfig {
    fn clone(&self) -> (r: Self)
        ensures
            r@ == self@,
    {
        ServiceConfig {
            name: self.name.clone(),
            command: self.command.clone(),
            cwd: match &self.cwd {
                Some(c) => Some(c.clone()),
                None => None,
            },
            tty: self.tty,
            sync_rows_cols: self.sync_rows_cols,
            restart: self.restart,
            persist_logs: self.persist_logs,
            log_max_bytes: self.log_max_bytes,
            log_max_files: self.log_max_files,
            env: self.env.clone(),
        }
    }
}

pub fn default_tty() -> (r: bool)
    ensures
        r,
{
    true
}

pub fn default_sync_rows_cols() -> (r: bool)
    ensures
        r,
{
    true
}

pub fn default_log_max_bytes() -> (r: u64)
    ensures
        r == DEFAULT_LOG_MAX_BYTES,
{
    DEFAULT_LOG_MAX_BYTES
}

pub fn default_log_max_files() -> (r: u32)
    ensures
        r == DEFAULT_LOG_MAX_FILES,
{
    DEFAULT_LOG_MAX_FILES
}

/// The characters that a service name may hold.
pub open spec fn name_char(c: char) -> bool {
    ascii_alphanumeric(c) || c == '.' || c == '_' || c == '-'
}

pub fn is_name_char(c: char) -> (r: bool)
    ensures
        r == name_char(c),
{
    is_ascii_alphanumeric(c) || c == '.' || c == '_' || c == '-'
}

pub open spec fn valid_name(name: Seq<char>) -> bool {
    &&& name.len() > 0
    &&& name != "."@
    &&& name != ".."@
    &&& forall|i: int| 0 <= i < name.len() ==> name_char(#[trigger] name[i])
}

pub fn is_valid_name(name: &str) -> (r: bool)
    ensures
        r == valid_name(name@),
{
    if name.is_empty() || same(name, ".") || same(name, "..") {
        return false;
    }
    let v = chars_of(name);
    let mut i: usize = 0;
    while i < v.len()
        invariant
            v@ == name@,
            i <= v@.len(),
            forall|j: int| 0 <= j < i ==> name_char(#[trigger] name@[j]),
        decreases v@.len() - i,
    {
        if !is_name_char(v[i]) {
            assert(!name_char(name@[i as int]));
            return false;
        }
        i += 1;
    }
    true
}

pub open spec fn valid_env_key(key: Seq<char>) -> bool {
    key.len() > 0 && !key.contains('=') && !key.contains('\0')
}

/// Keys are not empty and hold neither `=` nor NUL.
pub fn validate_env_key(key: &str) -> (r: Result<(), ConfigError>)
    ensures
        match r {
            Ok(()) => valid_env_key(key@),
            Err(ConfigError::InvalidEnvKey(k)) => !valid_env_key(key@) && k@ == key@,
            Err(_) => false,
        },
{
    if key.is_empty() || has_char(key, '=') || has_char(key, '\0') {
        return Err(ConfigError::InvalidEnvKey(key.to_owned()));
    }
    Ok(())
}

/// All keys of `env` are valid.
pub open spec fn valid_keys(env: Seq<PairView>) -> bool {
    forall|i: int| 0 <= i < env.len() ==> valid_env_key(#[trigger] env[i].0)
}

/// `key` is the first invalid key of `env`.
pub open spec fn first_invalid_key(env: Seq<PairView>, key: Seq<char>) -> bool {
    exists|i: int|
        {
            &&& 0 <= i < env.len()
            &&& (#[trigger] env[i]).0 == key
            &&& !valid_env_key(key)
            &&& valid_keys(env.take(i))
        }
}

/// Whether a configuration runs nothing.
pub open spec fn blank_command(c: ConfigView) -> bool {
    blank(c.command)
}

/// What `validate` accepts.
pub open spec fn valid_config(c: ConfigView) -> bool {
    &&& valid_name(c.name)
    &&& !blank(c.command)
    &&& c.log_max_bytes > 0
    &&& c.log_max_files > 0
    &&& valid_keys(c.env)
}

/// What `validate` answers: the first rule that a configuration breaks decides.
pub open spec fn validation(c: ConfigView, r: Result<(), ConfigError>) -> bool {
    match r {
        Ok(()) => valid_config(c),
        Err(ConfigError::InvalidName(n)) => n@ == c.name && !valid_name(c.name),
        Err(ConfigError::EmptyCommand) => valid_name(c.name) && blank(c.command),
        Err(ConfigError::InvalidLogMaxBytes) => {
            &&& valid_name(c.name)
            &&& !blank(c.command)
            &&& c.log_max_bytes == 0
        },
        Err(ConfigError::InvalidLogMaxFiles) => {
            &&& valid_name(c.name)
            &&& !blank(c.command)
            &&& c.log_max_bytes > 0
            &&& c.log_max_files == 0
        },
        Err(ConfigError::InvalidEnvKey(k)) => {
            &&& valid_name(c.name)
            &&& !blank(c.command)
            &&& c.log_max_bytes > 0
            &&& c.log_max_files > 0
            &&& first_invalid_key(c.env, k@)
        },
        Err(_) => false,
    }
}

/// The configuration that a directory starts with.
pub open spec fn template_view(directory: Seq<char>) -> ConfigView {
    ConfigView {
        name: default_name(directory),
        command: "./run.sh"@,
        cwd: None,
        tty: true,
        sync_rows_cols: true,
        restart: RestartPolicy::Never,
        persist_logs: false,
        log_max_bytes: DEFAULT_LOG_MAX_BYTES,
        log_max_files: DEFAULT_LOG_MAX_FILES,
        env: Seq::empty(),
    }
}

impl ServiceConfig {
    pub fn validate(&self) -> (r: Result<(), ConfigError>)
        ensures
            validation(self@, r),
    {
        if !is_valid_name(self.name.as_str()) {
            return Err(ConfigError::InvalidName(self.name.clone()));
        }
        if is_blank(self.command.as_str()) {
            return Err(ConfigError::EmptyCommand);
        }
        if self.log_max_bytes == 0 {
            return Err(ConfigError::InvalidLogMaxBytes);
        }
        if self.log_max_files == 0 {
            return Err(ConfigError::InvalidLogMaxFiles);
        }
        let mut i: usize = 0;
        while i < self.env.len()
            invariant
                i <= self.env@.len(),
                valid_name(self@.name),
                !blank(self@.command),
                self.log_max_bytes > 0,
                self.log_max_files > 0,
                valid_keys(self.env@.take(i as int)),
            decreases self.env@.len() - i,
        {
            let key = self.env.key(i);
            match validate_env_key(key.as_str()) {
                Ok(()) => {
                    assert forall|j: int| 0 <= j < i + 1 implies valid_env_key(
                        (#[trigger] self.env@.take(i + 1)[j]).0,
                    ) by {
                        if j < i {
                            assert(valid_env_key(self.env@.take(i as int)[j].0));
                        }
                    }
                },
                Err(e) => {
                    assert(self.env@[i as int].0 == key@);
                    return Err(e);
                },
            }
            i += 1;
        }
        assert(self.env@.take(self.env@.len() as int) =~= self.env@);
        Ok(())
    }

    /// Whether two configurations say the same.
    pub fn same_as(&self, other: &ServiceConfig) -> (r: bool)
        ensures
            r == (self@ == other@),
    {
        let r = same(self.name.as_str(), other.name.as_str()) && same(
            self.command.as_str(),
            other.command.as_str(),
        ) && same_opt(&self.cwd, &other.cwd) && self.tty == other.tty && self.sync_rows_cols
            == other.sync_rows_cols && self.restart == other.restart && self.persist_logs
            == other.persist_logs && self.log_max_bytes == other.log_max_bytes && self.log_max_files
            == other.log_max_files && self.env.same_as(&other.env);
        r
    }

    pub fn template(directory: &str) -> (r: Self)
        ensures
            r@ == template_view(directory@),
    {
        ServiceConfig {
            name: default_service_name(directory),
            command: "./run.sh".to_owned(),
            cwd: None,
            tty: default_tty(),
            sync_rows_cols: default_sync_rows_cols(),
            restart: RestartPolicy::Never,
            persist_logs: false,
            log_max_bytes: default_log_max_bytes(),
            log_max_files: default_log_max_files(),
            env: EnvMap::new(),
        }
    }
}

/// `c` where a name may hold it, `-` elsewhere.
pub open spec fn name_or_dash(c: char) -> char {
    if name_char(c) { c } else { '-' }
}

/// The service name that a directory suggests.
pub open spec fn default_name(directory: Seq<char>) -> Seq<char> {
    let base = match base_name(directory) {
        Some(b) => b,
        None => "service"@,
    };
    base.map_values(|c: char| name_or_dash(c))
}

pub fn default_service_name(directory: &str) -> (r: String)
    ensures
        r@ == default_name(directory@),
{
    let base = match file_name(directory) {
        Some(b) => b,
        None => "service".to_owned(),
    };
    let v = chars_of(base.as_str());
    let mut out = String::new();
    let mut i: usize = 0;
    while i < v.len()
        invariant
            v@ == base@,
            i <= v@.len(),
            out@ == base@.take(i as int).map_values(|c: char| name_or_dash(c)),
        decreases v@.len() - i,
    {
        let c = v[i];
        out.push(if is_name_char(c) { c } else { '-' });
        i += 1;
        assert(out@ =~= base@.take(i as int).map_values(|c: char| name_or_dash(c)));
    }
    assert(base@.take(base@.len() as int) =~= base@);
    out
}

/// A configuration with the directory it runs in and the environment it runs with.
#[derive(Debug)]
pub struct LoadedService {
    pub directory: String,
    pub config_file: Option<String>,
    pub config: ServiceConfig,
    pub environment: EnvMap,
}

#[verifier::ext_equal]
pub struct LoadedView {
    pub directory: Seq<char>,
    pub config_file: Option<Seq<char>>,
    pub config: ConfigView,
    pub environment: Seq<PairView>,
}

impl View for LoadedService {
    type V = LoadedView;

    open spec fn view(&self) -> LoadedView {
        LoadedView {
            directory: self.directory@,
            config_file: opt_view(self.config_file),
            config: self.config@,
            environment: self.environment@,
        }
    }
}

impl Clone for LoadedService {
    fn clone(&self) -> (r: Self)
        ensures
            r@ == self@,
    {
        LoadedService {
            directory: self.directory.clone(),
            config_file: match &self.config_file {
                Some(c) => Some(c.clone()),
                None => None,
            },
            config: self.config.clone(),
            environment: self.environment.clone(),
        }
    }
}

#[derive(Debug, Clone, Copy, PartialEq, Eq, Structural)]
pub enum ConfigFileStatus {
    Current,
    Legacy,
    CurrentWithLegacy,
}

/// Which file of a directory holds its configuration.
#[derive(Debug, Clone)]
pub struct ResolvedConfigFile {
    pub directory: String,
    pub status: ConfigFileStatus,
}

impl ResolvedConfigFile {
    pub open spec fn spec_path(&self) -> Seq<char> {
        if self.status is Legacy {
            joined(self.directory@, LEGACY_CONFIG_FILE@)
        } else {
            joined(self.directory@, CONFIG_FILE@)
        }
    }

    pub fn path(&self) -> (r: String)
        ensures
            r@ == self.spec_path(),
    {
        match self.status {
            ConfigFileStatus::Legacy => join(self.directory.as_str(), LEGACY_CONFIG_FILE),
            _ => join(self.directory.as_str(), CONFIG_FILE),
        }
    }

    /// What to tell the user about an old file, if there is one.
    pub fn deprecation_warning(&self) -> (r: Option<String>)
        ensures
            ({
                let current = joined(self.directory@, CONFIG_FILE@);
                let legacy = joined(self.directory@, LEGACY_CONFIG_FILE@);
                match self.status {
                    ConfigFileStatus::Current => r is None,
                    ConfigFileStatus::Legacy => r is Some && r->0@ == legacy
                        + " is deprecated; rename it to "@ + current,
                    ConfigFileStatus::CurrentWithLegacy => r is Some && r->0@
                        == "ignoring deprecated "@ + legacy + " because "@ + current + " exists"@,
                }
            }),
    {
        let current = join(self.directory.as_str(), CONFIG_FILE);
        let legacy = join(self.directory.as_str(), LEGACY_CONFIG_FILE);
        match self.status {
            ConfigFileStatus::Current => None,
            ConfigFileStatus::Legacy => Some(
                cat3(legacy.as_str(), " is deprecated; rename it to ", current.as_str()),
            ),
            ConfigFileStatus::CurrentWithLegacy => {
                let mut out = cat4("ignoring deprecated ", legacy.as_str(), " because ", current.as_str());
                out.append(" exists");
                Some(out)
            },
        }
    }
}

/// Which of the two files, where present, is read: the current one comes first.
pub fn resolve_config_file(directory: &str, has_current: bool, has_legacy: bool) -> (r: Option<
    ResolvedConfigFile,
>)
    ensures
        r is Some == (has_current || has_legacy),
        r is Some ==> r->0.directory@ == directory@,
        has_current && !has_legacy ==> r->0.status is Current,
        has_current && has_legacy ==> r->0.status is CurrentWithLegacy,
        !has_current && has_legacy ==> r->0.status is Legacy,
        has_current ==> r->0.spec_path() == joined(directory@, ".served.json5"@),
        !has_current && has_legacy ==> r->0.spec_path() == joined(directory@, ".served.json"@),
{
    if has_current {
        let status = if has_legacy {
            ConfigFileStatus::CurrentWithLegacy
        } else {
            ConfigFileStatus::Current
        };
        Some(ResolvedConfigFile { directory: directory.to_owned(), status })
    } else if has_legacy {
        Some(ResolvedConfigFile { directory: directory.to_owned(), status: ConfigFileStatus::Legacy })
    } else {
        None
    }
}

pub fn has_config_file(directory: &str, has_current: bool, has_legacy: bool) -> (r: bool)
    ensures
        r == (has_current || has_legacy),
{
    resolve_config_file(directory, has_current, has_legacy).is_some()
}

/// Whether a service directory can be read from, and which file of it.
pub fn check_directory(
    directory: &str,
    exists: bool,
    is_dir: bool,
    has_current: bool,
    has_legacy: bool,
) -> (r: Result<ResolvedConfigFile, ConfigError>)
    ensures
        match r {
            Ok(f) => {
                &&& exists && is_dir && (has_current || has_legacy)
                &&& f.directory@ == directory@
                &&& f.status == (if !has_current { ConfigFileStatus::Legacy } else if has_legacy {
                    ConfigFileStatus::CurrentWithLegacy
                } else { ConfigFileStatus::Current })
            },
            Err(ConfigError::MissingDirectory(d)) => !exists && d@ == directory@,
            Err(ConfigError::NotDirectory(d)) => exists && !is_dir && d@ == directory@,
            Err(ConfigError::MissingConfig(d)) => {
                &&& exists && is_dir && !has_current && !has_legacy
                &&& d@ == directory@
            },
            Err(_) => false,
        },
{
    if !exists {
        return Err(ConfigError::MissingDirectory(directory.to_owned()));
    }
    if !is_dir {
        return Err(ConfigError::NotDirectory(directory.to_owned()));
    }
    match resolve_config_file(directory, has_current, has_legacy) {
        Some(f) => Ok(f),
        None => Err(ConfigError::MissingConfig(directory.to_owned())),
    }
}

/// One entry of a dotenv file, or why it could not be read.
pub type DotenvItem = Result<(String, String), String>;

/// The first `n` entries set over `base`.
pub open spec fn dotenv_layer(
    base: Map<Seq<char>, Seq<char>>,
    items: Seq<DotenvItem>,
    n: int,
) -> Map<Seq<char>, Seq<char>>
    decreases n,
{
    if n <= 0 {
        base
    } else {
        match items[n - 1] {
            Ok(p) => dotenv_layer(base, items, n - 1).insert(p.0@, p.1@),
            Err(_) => dotenv_layer(base, items, n - 1),
        }
    }
}

/// The entry can be used: it was read and its key is valid.
pub open spec fn usable_item(item: DotenvItem) -> bool {
    item is Ok && valid_env_key(item->Ok_0.0@)
}

/// `e` is what makes the entry unusable.
pub open spec fn item_error(item: DotenvItem, e: ConfigError) -> bool {
    match item {
        Ok(p) => e matches ConfigError::InvalidEnvKey(k) && k@ == p.0@ && !valid_env_key(p.0@),
        Err(t) => e matches ConfigError::Dotenv(m) && m@ == t@,
    }
}

/// The outcome of loading: the service, or the first thing that is wrong with it. The environment
/// is the manager's, with the dotenv entries over it and the configuration's own on top.
pub open spec fn load_outcome(
    directory: Seq<char>,
    config_file: Option<Seq<char>>,
    config: ConfigView,
    config_env: Map<Seq<char>, Seq<char>>,
    manager: Map<Seq<char>, Seq<char>>,
    dotenv: Seq<DotenvItem>,
    r: Result<LoadedService, ConfigError>,
) -> bool {
    match r {
        Ok(s) => {
            &&& valid_config(config)
            &&& forall|i: int| 0 <= i < dotenv.len() ==> usable_item(#[trigger] dotenv[i])
            &&& s.directory@ == directory
            &&& opt_view(s.config_file) == config_file
            &&& s.config@ == config
            &&& s.environment.map() == dotenv_layer(
                manager,
                dotenv,
                dotenv.len() as int,
            ).union_prefer_right(config_env)
        },
        Err(e) => {
            ||| !valid_config(config) && validation(config, Err(e))
            ||| valid_config(config) && exists|i: int|
                {
                    &&& 0 <= i < dotenv.len()
                    &&& item_error(#[trigger] dotenv[i], e)
                    &&& forall|j: int| 0 <= j < i ==> usable_item(#[trigger] dotenv[j])
                }
        },
    }
}

/// Puts a parsed configuration together with its directory and its environment.
pub fn load_service(
    directory: &str,
    config_file: Option<String>,
    config: ServiceConfig,
    dotenv: &Vec<DotenvItem>,
    manager_environment: &EnvMap,
) -> (r: Result<LoadedService, ConfigError>)
    ensures
        load_outcome(
            directory@,
            opt_view(config_file),
            config@,
            config.env.map(),
            manager_environment.map(),
            dotenv@,
            r,
        ),
{
    match config.validate() {
        Ok(()) => {},
        Err(e) => {
            return Err(e);
        },
    }
    let mut environment = manager_environment.clone();
    let mut i: usize = 0;
    while i < dotenv.len()
        invariant
            i <= dotenv@.len(),
            valid_config(config@),
            forall|j: int| 0 <= j < i ==> usable_item(#[trigger] dotenv@[j]),
            environment.map() == dotenv_layer(manager_environment.map(), dotenv@, i as int),
        decreases dotenv@.len() - i,
    {
        match &dotenv[i] {
            Ok(pair) => {
                match validate_env_key(pair.0.as_str()) {
                    Ok(()) => {},
                    Err(e) => {
                        assert(item_error(dotenv@[i as int], e));
                        return Err(e);
                    },
                }
                environment.insert(pair.0.clone(), pair.1.clone());
            },
            Err(text) => {
                let e = ConfigError::Dotenv(text.clone());
                assert(item_error(dotenv@[i as int], e));
                return Err(e);
            },
        }
        i += 1;
    }
    environment.extend(&config.env);
    Ok(LoadedService { directory: directory.to_owned(), config_file, config, environment })
}

/// The manager's own variables as a set; of a repeated name the last value counts.
pub fn manager_environment(vars: &Vec<(String, String)>) -> (r: EnvMap)
    ensures
        r.map() == last_wins(vars@, vars@.len() as int),
{
    let mut out = EnvMap::new();
    let mut i: usize = 0;
    assert(out.map() =~= Map::<Seq<char>, Seq<char>>::empty());
    while i < vars.len()
        invariant
            i <= vars@.len(),
            out.map() == last_wins(vars@, i as int),
        decreases vars@.len() - i,
    {
        out.insert(vars[i].0.clone(), vars[i].1.clone());
        i += 1;
    }
    out
}

/// The first `n` pairs as a map, later pairs over earlier ones.
pub open spec fn last_wins(pairs: Seq<(String, String)>, n: int) -> Map<Seq<char>, Seq<char>>
    decreases n,
{
    if n <= 0 {
        Map::empty()
    } else {
        last_wins(pairs, n - 1).insert(pairs[n - 1].0@, pairs[n - 1].1@)
    }
}

pub const TEMPLATE_HEAD: &'static str = "// served service configuration (JSON5)
//
// This file is read by the manager when the service is enabled or restarted.
// Existing files are never rewritten by `served edit`; keep your own comments.
{
  // Globally unique service name. Use only letters, digits, '.', '_' and '-'.
  // Renaming an enabled service requires disabling and enabling it again.
  name: \"";

pub const TEMPLATE_TAIL: &'static str = "\",

  // Shell script executed with `/bin/sh -c` from the working directory.
  // Multiple commands may be separated by real newlines or shell operators.
  command: \"./run.sh\",

  // Working directory: an absolute path, or a path relative to this
  // configuration. With null the command runs in the directory of this file.
  // A directory given with `served enable --workdir` takes precedence.
  cwd: null,

  // Allocate a runner-owned PTY. When false, stdout/stderr use pipes and
  // attach is read-only; when true, one attach client may write to the PTY.
  tty: true,

  // When tty is true, attach keeps the PTY rows/columns in sync with the
  // attaching terminal. Changes apply to the running PTY; false keeps its size.
  // This setting has no effect for pipe services.
  syncRowsCols: true,

  // Restart policy after the process exits: 'never', 'on-failure', or 'always'.
  // 'on-failure' restarts only a non-zero exit; 'always' also restarts success.
  restart: \"never\",

  // Keep complete raw output on disk under the served state directory when true.
  // When false, the manager keeps bounded in-memory history only.
  persist_logs: false,

  // Maximum bytes in one persistent log segment. When this limit is reached,
  // served rotates the segment and keeps writing to latest.log.
  log_max_bytes: 10485760,

  // Number of archived persistent segments to keep. latest.log is kept in
  // addition to these archives. Older segments are removed first.
  log_max_files: 3,

  // Literal environment values layered over the manager environment. These
  // values are not shell-expanded. A legacy .env.served file is read first
  // when present, so keys here take precedence over that compatibility source.
  env: {
    // PORT: \"8080\",
  },
}
";

/// The annotated source of the configuration that `ServiceConfig::template` describes.
pub fn template_source(directory: &str) -> (r: String)
    ensures
        r@ == TEMPLATE_HEAD@ + template_view(directory@).name + TEMPLATE_TAIL@,
{
    let config = ServiceConfig::template(directory);
    cat3(TEMPLATE_HEAD, config.name.as_str(), TEMPLATE_TAIL)
}

/// What has to be written so that a directory has a configuration: nothing where it has one,
/// whatever is in it.
pub fn write_template(directory: &str, has_current: bool, has_legacy: bool) -> (r: (
    ResolvedConfigFile,
    Option<String>,
))
    ensures
        r.0.directory@ == directory@,
        r.1 is Some == (!has_current && !has_legacy),
        r.1 is Some ==> r.0.status is Current && r.1->0@ == TEMPLATE_HEAD@ + default_name(
            directory@,
        ) + TEMPLATE_TAIL@,
        has_current && has_legacy ==> r.0.status is CurrentWithLegacy,
        has_current && !has_legacy ==> r.0.status is Current,
        !has_current && has_legacy ==> r.0.status is Legacy,
{
    match resolve_config_file(directory, has_current, has_legacy) {
        Some(f) => (f, None),
        None => (
            ResolvedConfigFile { directory: directory.to_owned(), status: ConfigFileStatus::Current },
            Some(template_source(directory)),
        ),
    }
}

/// A variable of a configuration counts over every other source; one that only the manager has
/// is passed on as it is.
pub proof fn law_environment_order(
    directory: Seq<char>,
    config_file: Option<Seq<char>>,
    config: ConfigView,
    config_env: Map<Seq<char>, Seq<char>>,
    manager: Map<Seq<char>, Seq<char>>,
    dotenv: Seq<DotenvItem>,
    service: LoadedService,
    key: Seq<char>,
)
    requires
        load_outcome(directory, config_file, config, config_env, manager, dotenv, Ok(service)),
    ensures
        config_env.contains_key(key) ==> service.environment.map()[key] == config_env[key],
        !config_env.contains_key(key) && (forall|i: int|
            0 <= i < dotenv.len() ==> (#[trigger] dotenv[i])->Ok_0.0@ != key)
            && manager.contains_key(key) ==> service.environment.map().contains_key(key)
            && service.environment.map()[key] == manager[key],
{
    if forall|i: int| 0 <= i < dotenv.len() ==> (#[trigger] dotenv[i])->Ok_0.0@ != key {
        lemma_layer_leaves_others(manager, dotenv, dotenv.len() as int, key);
    }
}

proof fn lemma_layer_leaves_others(base: Map<Seq<char>, Seq<char>>, items: Seq<DotenvItem>, n: int, key: Seq<char>)
    requires
        0 <= n <= items.len(),
        forall|i: int| 0 <= i < items.len() ==> (#[trigger] items[i])->Ok_0.0@ != key,
    ensures
        dotenv_layer(base, items, n).contains_key(key) == base.contains_key(key),
        base.contains_key(key) ==> dotenv_layer(base, items, n)[key] == base[key],
    decreases n,
{
    if n > 0 {
        lemma_layer_leaves_others(base, items, n - 1, key);
        assert(items[n - 1]->Ok_0.0@ != key);
    }
}

} // verus!

//! Where services come from: what is registered, what is run once, and what an earlier manager
//! has left running.
use crate::client::{names_in, path_names, paths_match, same_path};
use crate::config::{error_text, resolve_config_file, validation, ConfigError, ConfigView, LoadedService, LoadedView, RestartPolicy, ServiceConfig, policy_text};
use crate::manager::shell::{command_line, shell_command};
use crate::manager::table::{find, target_refusal, validate_target_name, ManagerState, Table};
use crate::paths::{absolute, base_name, file_name, is_absolute, join, joined};
use crate::process::{matches as is_process, ProcessInfo};
use crate::protocol::RunSpec;
use crate::runner_protocol::{launch_opt, LaunchSpec, LaunchView, RunnerMetadata, RunnerStatus};
use crate::text::{cat2, cat3, debug_form, debug_text, decimal, decimal_text, opt_view, same, split, views};
use vstd::prelude::*;

verus! {

pub const ENABLED_DEFINITION_VERSION: u32 = 1;

pub const TRANSIENT_DEFINITION_VERSION: u32 = 1;

/// Where the configuration of a service is.
#[derive(Debug, Clone)]
pub enum ServiceSource {
    Directory(String),
    File(String),
}

pub open spec fn source_path(s: ServiceSource) -> Seq<char> {
    match s {
        ServiceSource::Directory(p) => p@,
        ServiceSource::File(p) => p@,
    }
}

/// What is written down of an enabled service.
#[derive(Debug)]
pub struct EnabledDefinition {
    pub version: u32,
    pub source: ServiceSource,
    pub workdir: Option<String>,
}

pub open spec fn sound_definition(d: EnabledDefinition) -> bool {
    &&& d.version == ENABLED_DEFINITION_VERSION
    &&& absolute(source_path(d.source))
    &&& d.workdir matches Some(w) ==> absolute(w@)
}

impl EnabledDefinition {
    /// Accepts what was read back, or says that it cannot be used.
    pub fn checked(self) -> (r: Result<Self, String>)
        ensures
            match r {
                Ok(d) => d == self && sound_definition(self),
                Err(e) => !sound_definition(self) && e@
                    == "unsupported or invalid enabled definition"@,
            },
    {
        let placed = match &self.source {
            ServiceSource::Directory(p) => is_absolute(p.as_str()),
            ServiceSource::File(p) => is_absolute(p.as_str()),
        };
        let directed = match &self.workdir {
            Some(w) => is_absolute(w.as_str()),
            None => true,
        };
        if self.version != ENABLED_DEFINITION_VERSION || !placed || !directed {
            return Err("unsupported or invalid enabled definition".to_owned());
        }
        Ok(self)
    }

    /// What a plain link stands for. `directory` is where it leads.
    pub fn of_link(directory: String, is_dir: bool) -> (r: Result<Self, String>)
        ensures
            match r {
                Ok(d) => is_dir && d == (EnabledDefinition {
                    version: ENABLED_DEFINITION_VERSION,
                    source: ServiceSource::Directory(directory),
                    workdir: None,
                }),
                Err(e) => !is_dir && e@ == "legacy enable link must point to a directory"@,
            },
    {
        if !is_dir {
            return Err("legacy enable link must point to a directory".to_owned());
        }
        Ok(
            EnabledDefinition {
                version: ENABLED_DEFINITION_VERSION,
                source: ServiceSource::Directory(directory),
                workdir: None,
            },
        )
    }

    /// A plain link is enough for a directory with nothing else said; else a record is written.
    pub fn is_plain(&self) -> (r: bool)
        ensures
            r == (self.source is Directory && self.workdir is None),
    {
        match &self.source {
            ServiceSource::Directory(_) => self.workdir.is_none(),
            ServiceSource::File(_) => false,
        }
    }
}

/// The directory above the last name of an absolute path.
pub open spec fn parent_of(path: Seq<char>) -> Option<Seq<char>> {
    let names = names_in(split(path, '/'), true);
    if names.len() == 0 {
        None
    } else {
        Some(rooted(names.drop_last()))
    }
}

/// The absolute path through these names.
pub open spec fn rooted(names: Seq<Seq<char>>) -> Seq<char>
    decreases names.len(),
{
    if names.len() == 0 {
        seq!['/']
    } else {
        joined(rooted(names.drop_last()), names.last())
    }
}

fn parent_directory(path: &str) -> (r: Option<String>)
    requires
        absolute(path@),
    ensures
        opt_view(r) == parent_of(path@),
{
    let names = path_names(path);
    let ghost all = views(names@);
    assert(all.len() == names@.len());
    let n: usize = names.len();
    if n == 0 {
        return None;
    }
    let mut out = String::new();
    out.push('/');
    assert(out@ =~= rooted(all.take(0)));
    let mut i: usize = 0;
    while i < n - 1
        invariant
            0 < n == names@.len(),
            i < n,
            all == views(names@),
            out@ == rooted(all.take(i as int)),
        decreases n - i,
    {
        assert(all.take(i + 1).drop_last() =~= all.take(i as int));
        assert(all.take(i + 1).last() == names@[i as int]@);
        out = join(out.as_str(), names[i].as_str());
        i += 1;
    }
    assert(all.take(i as int) =~= all.drop_last());
    Some(out)
}

/// Where the source of a service that is to be enabled is looked for, before links are followed.
#[derive(Debug)]
pub enum SourcePlan {
    Directory(String),
    File { parent: String, name: Option<String> },
}

pub open spec fn plan_path(p: SourcePlan) -> Seq<char> {
    match p {
        SourcePlan::Directory(d) => d@,
        SourcePlan::File { parent, .. } => parent@,
    }
}

impl SourcePlan {
    /// The directory whose real path is needed.
    pub fn path(&self) -> (r: &str)
        ensures
            r@ == plan_path(*self),
    {
        match self {
            SourcePlan::Directory(d) => d.as_str(),
            SourcePlan::File { parent, .. } => parent.as_str(),
        }
    }
}

pub fn plan_source(directory: String, file: Option<String>) -> (r: Result<SourcePlan, String>)
    ensures
        match file {
            None => r == Ok::<SourcePlan, String>(SourcePlan::Directory(directory)),
            Some(f) => if !absolute(f@) {
                r is Err && r->Err_0@ == "configuration path must be absolute"@
            } else {
                match parent_of(f@) {
                    None => r is Err && r->Err_0@ == "configuration path must name a file"@,
                    Some(p) => r matches Ok(SourcePlan::File { parent, name }) && parent@ == p
                        && opt_view(name) == base_name(f@),
                }
            },
        },
{
    let file = match file {
        None => {
            return Ok(SourcePlan::Directory(directory));
        },
        Some(f) => f,
    };
    if !is_absolute(file.as_str()) {
        return Err("configuration path must be absolute".to_owned());
    }
    match parent_directory(file.as_str()) {
        None => Err("configuration path must name a file".to_owned()),
        Some(parent) => Ok(SourcePlan::File { parent, name: file_name(file.as_str()) }),
    }
}

/// The source, once the real path of its directory is known.
pub fn place_source(plan: SourcePlan, canonical: Result<String, String>) -> (r: Result<ServiceSource, String>)
    ensures
        match canonical {
            Err(e) => r == Err::<ServiceSource, String>(e),
            Ok(found_at) => match plan {
                SourcePlan::Directory(_) => r == Ok::<ServiceSource, String>(
                    ServiceSource::Directory(found_at),
                ),
                SourcePlan::File { name: Some(n), .. } => r matches Ok(ServiceSource::File(f)) && f@
                    == joined(found_at@, n@),
                SourcePlan::File { name: None, .. } => r is Err && r->Err_0@
                    == "configuration path must name a file"@,
            },
        },
{
    let found_at = match canonical {
        Ok(found_at) => found_at,
        Err(e) => {
            return Err(e);
        },
    };
    match plan {
        SourcePlan::Directory(_) => Ok(ServiceSource::Directory(found_at)),
        SourcePlan::File { name: Some(name), .. } => Ok(
            ServiceSource::File(join(found_at.as_str(), name.as_str())),
        ),
        SourcePlan::File { name: None, .. } => Err(
            "configuration path must name a file".to_owned(),
        ),
    }
}

/// The directory that a service runs in: the override, else what the configuration says as seen
/// from its file, else the directory of the file.
pub open spec fn work_directory(
    workdir: Option<Seq<char>>,
    cwd: Option<Seq<char>>,
    config_directory: Seq<char>,
) -> Seq<char> {
    match (workdir, cwd) {
        (Some(w), _) => w,
        (None, Some(c)) => joined(config_directory, c),
        (None, None) => config_directory,
    }
}

pub fn select_directory(workdir: &Option<String>, cwd: &Option<String>, config_directory: &str) -> (r: String)
    ensures
        r@ == work_directory(opt_view(*workdir), opt_view(*cwd), config_directory@),
{
    match workdir {
        Some(w) => w.clone(),
        None => match cwd {
            Some(c) => join(config_directory, c.as_str()),
            None => config_directory.to_owned(),
        },
    }
}

/// The real path of a directory, where it is one.
pub fn canonical_directory(path: &str, exists: bool, is_dir: bool, canonical: Result<String, String>) -> (r: Result<String, ConfigError>)
    ensures
        match r {
            Ok(found_at) => exists && is_dir && canonical == Ok::<String, String>(found_at),
            Err(ConfigError::MissingDirectory(d)) => !exists && d@ == path@,
            Err(ConfigError::NotDirectory(d)) => exists && !is_dir && d@ == path@,
            Err(ConfigError::Io(e)) => exists && is_dir && canonical == Err::<String, String>(e),
            Err(_) => false,
        },
{
    if !exists {
        return Err(ConfigError::MissingDirectory(path.to_owned()));
    }
    if !is_dir {
        return Err(ConfigError::NotDirectory(path.to_owned()));
    }
    match canonical {
        Ok(found_at) => Ok(found_at),
        Err(e) => Err(ConfigError::Io(e)),
    }
}

pub open spec fn already(name: Seq<char>, how: Seq<char>) -> Seq<char> {
    "service name "@ + debug_form(name) + how
}

fn already_text(name: &str, how: &str) -> (r: String)
    ensures
        r@ == already(name@, how@),
{
    let quoted = debug_text(name);
    cat3("service name ", quoted.as_str(), how)
}

/// Why a service of that name is not enabled.
pub open spec fn enable_refusal(name: Seq<char>, linked: bool, transient: bool) -> Option<Seq<char>> {
    if linked {
        Some(already(name, " is already enabled"@))
    } else if transient {
        Some(already(name, " is already managed"@))
    } else {
        None
    }
}

/// A service is not enabled over another one of its name. `linked` is whether there is anything
/// in the registry under that name, `transient` whether a temporary service has left a record.
pub fn check_enable(name: &str, linked: bool, transient: bool) -> (r: Result<(), String>)
    ensures
        r is Ok <==> !linked && !transient,
        linked ==> r is Err && r->Err_0@ == already(name@, " is already enabled"@),
        !linked && transient ==> r is Err && r->Err_0@ == already(name@, " is already managed"@),
        match enable_refusal(name@, linked, transient) {
            Some(e) => r is Err && r->Err_0@ == e,
            None => r is Ok,
        },
{
    if linked {
        return Err(already_text(name, " is already enabled"));
    }
    if transient {
        return Err(already_text(name, " is already managed"));
    }
    Ok(())
}

/// What is found on disk of a temporary service that is asked for.
#[derive(Debug)]
pub struct RunFacts {
    pub exists: bool,
    pub is_dir: bool,
    /// The real path of its directory.
    pub canonical: Result<String, String>,
    /// A service of that name is enabled.
    pub linked: bool,
    /// A temporary service of that name has left a record.
    pub transient: bool,
}

/// The configuration of a temporary service.
pub open spec fn run_config(spec: RunSpec, policy: RestartPolicy) -> ConfigView {
    ConfigView {
        name: spec.name@,
        command: command_line(views(spec.argv@)),
        cwd: None,
        tty: spec.tty,
        sync_rows_cols: spec.sync_rows_cols,
        restart: policy,
        persist_logs: spec.persist_logs,
        log_max_bytes: spec.log_max_bytes,
        log_max_files: spec.log_max_files,
        env: spec.env@,
    }
}

/// Why the manager runs nothing before it looks at the configuration.
pub open spec fn run_refusal(spec: RunSpec, facts: RunFacts) -> Option<Seq<char>> {
    if forall|p: RestartPolicy| policy_text(p) != spec.restart@ {
        Some("invalid restart policy "@ + debug_form(spec.restart@))
    } else if spec.argv@.len() == 0 || spec.argv@[0]@.len() == 0 {
        Some("temporary service program must not be empty"@)
    } else if !facts.exists {
        Some("service directory does not exist: "@ + spec.directory@)
    } else if !facts.is_dir {
        Some("service directory is not a directory: "@ + spec.directory@)
    } else {
        match facts.canonical {
            Err(e) => Some(e@),
            Ok(_) => None,
        }
    }
}

/// A temporary service with the environment of the manager and its own on top; or why there is
/// none.
pub open spec fn is_run_outcome(
    t: Table,
    base: Map<Seq<char>, Seq<char>>,
    spec: RunSpec,
    facts: RunFacts,
    r: Result<LoadedService, String>,
) -> bool {
    match run_refusal(spec, facts) {
        Some(e) => r is Err && r->Err_0@ == e,
        None => exists|policy: RestartPolicy|
            {
                let config = run_config(spec, policy);
                let taken = find(t.entries, spec.name@) is Some || facts.linked || facts.transient;
                &&& #[trigger] policy_text(policy) == spec.restart@
                &&& match r {
                    Ok(s) => {
                        &&& validation(config, Ok(()))
                        &&& !taken
                        &&& s.directory@ == facts.canonical->Ok_0@
                        &&& s.config_file is None
                        &&& s.config@ == config
                        &&& s.environment.map() == base.union_prefer_right(spec.env.map())
                    },
                    Err(e) => {
                        ||| exists|problem: ConfigError|
                            #[trigger] error_text(problem) == e@ && validation(config, Err(problem))
                        ||| validation(config, Ok(())) && taken && e@ == already(
                            spec.name@,
                            " is already managed"@,
                        )
                    },
                }
            },
    }
}

impl ManagerState {
    /// The service that a client asks to run for once.
    pub fn run_temporary(&self, spec: RunSpec, facts: RunFacts) -> (r: Result<LoadedService, String>)
        ensures
            is_run_outcome(self.table(), self.base_environment.map(), spec, facts, r),
    {
        let policy = match RestartPolicy::parse(spec.restart.as_str()) {
            Some(p) => p,
            None => {
                let quoted = debug_text(spec.restart.as_str());
                return Err(cat2("invalid restart policy ", quoted.as_str()));
            },
        };
        assert(policy_text(policy) == spec.restart@);
        if spec.argv.len() == 0 || spec.argv[0].as_str().is_empty() {
            return Err("temporary service program must not be empty".to_owned());
        }
        if !facts.exists {
            return Err(cat2("service directory does not exist: ", spec.directory.as_str()));
        }
        if !facts.is_dir {
            return Err(cat2("service directory is not a directory: ", spec.directory.as_str()));
        }
        let directory = match facts.canonical {
            Ok(d) => d,
            Err(e) => {
                return Err(e);
            },
        };
        let config = ServiceConfig {
            cwd: None,
            name: spec.name.clone(),
            command: shell_command(&spec.argv),
            tty: spec.tty,
            sync_rows_cols: spec.sync_rows_cols,
            restart: policy,
            persist_logs: spec.persist_logs,
            log_max_bytes: spec.log_max_bytes,
            log_max_files: spec.log_max_files,
            env: spec.env.clone(),
        };
        assert(config@ =~= run_config(spec, policy));
        match config.validate() {
            Ok(()) => {},
            Err(problem) => {
                assert(validation(config@, Err(problem)));
                return Err(problem.message());
            },
        }
        if self.contains(spec.name.as_str()) || facts.linked || facts.transient {
            return Err(already_text(spec.name.as_str(), " is already managed"));
        }
        let mut environment = self.base_environment.clone();
        environment.extend(&config.env);
        Ok(LoadedService { directory, config_file: None, config, environment })
    }
}

/// What a manager that has just come up does about a name in its registry.
#[derive(Debug)]
pub enum RestoreStep {
    Ensure(LoadedService),
    /// Another service has that name.
    Duplicate,
    /// The configuration names another service.
    Renamed(String),
    Invalid(String),
}

/// What is done about a name in the registry.
pub open spec fn restored(name: Seq<char>, loaded: Result<LoadedService, String>, taken: bool) -> RestoreStep {
    match loaded {
        Err(e) => RestoreStep::Invalid(e),
        Ok(s) => if s.config.name@ != name {
            RestoreStep::Renamed(s.config.name)
        } else if taken {
            RestoreStep::Duplicate
        } else {
            RestoreStep::Ensure(s)
        },
    }
}

pub fn restore_enabled(name: &str, loaded: Result<LoadedService, String>, taken: bool) -> (r: RestoreStep)
    ensures
        r == (match loaded {
            Err(e) => RestoreStep::Invalid(e),
            Ok(s) => if s.config.name@ != name@ {
                RestoreStep::Renamed(s.config.name)
            } else if taken {
                RestoreStep::Duplicate
            } else {
                RestoreStep::Ensure(s)
            },
        }),
        r == restored(name@, loaded, taken),
{
    match loaded {
        Err(e) => RestoreStep::Invalid(e),
        Ok(service) => {
            if !same(service.config.name.as_str(), name) {
                RestoreStep::Renamed(service.config.name)
            } else if taken {
                RestoreStep::Duplicate
            } else {
                RestoreStep::Ensure(service)
            }
        },
    }
}

/// The service that a live runner holds stopped. It stays as the runner knows it: its
/// configuration is not read again before it is started. `found` is whether the two files that a
/// directory may be configured by are there.
pub open spec fn is_held(
    status: RunnerStatus,
    source: ServiceSource,
    found: (bool, bool),
    r: Option<LoadedService>,
) -> bool {
    match launch_opt(status.spec) {
        Some(launch) => if status.manually_stopped {
            r is Some && r->0@ == (LoadedView {
                directory: launch.directory,
                config_file: source_file(source, found),
                config: launch.config,
                environment: launch.environment,
            })
        } else {
            r is None
        },
        None => r is None,
    }
}

pub fn adopt_stopped(status: RunnerStatus, source: &ServiceSource, found: (bool, bool)) -> (r: Option<LoadedService>)
    ensures
        match launch_opt(status.spec) {
            Some(launch) => if status.manually_stopped {
                r is Some && r->0@ == (LoadedView {
                    directory: launch.directory,
                    config_file: source_file(*source, found),
                    config: launch.config,
                    environment: launch.environment,
                })
            } else {
                r is None
            },
            None => r is None,
        },
        is_held(status, *source, found, r),
{
    if !status.manually_stopped {
        return None;
    }
    match status.spec {
        None => None,
        Some(spec) => {
            let mut service = spec.into_loaded();
            service.config_file = match source {
                ServiceSource::File(file) => Some(file.clone()),
                ServiceSource::Directory(directory) => match resolve_config_file(
                    directory.as_str(),
                    found.0,
                    found.1,
                ) {
                    Some(f) => Some(f.path()),
                    None => None,
                },
            };
            Some(service)
        },
    }
}

/// The file that a service is configured by.
pub open spec fn source_file(source: ServiceSource, found: (bool, bool)) -> Option<Seq<char>> {
    match source {
        ServiceSource::File(file) => Some(file@),
        ServiceSource::Directory(directory) => if found.0 {
            Some(joined(directory@, crate::config::CONFIG_FILE@))
        } else if found.1 {
            Some(joined(directory@, crate::config::LEGACY_CONFIG_FILE@))
        } else {
            None
        },
    }
}

/// What is written down of a temporary service, so that another manager can take it over.
#[derive(Debug)]
pub struct TransientDefinition {
    pub version: u32,
    pub spec: LaunchSpec,
}

impl TransientDefinition {
    pub fn checked(self) -> (r: Result<Self, String>)
        ensures
            match r {
                Ok(d) => d == self && self.version == TRANSIENT_DEFINITION_VERSION,
                Err(e) => self.version != TRANSIENT_DEFINITION_VERSION && e@
                    == "unsupported transient definition version "@ + decimal(self.version as nat),
            },
    {
        if self.version != TRANSIENT_DEFINITION_VERSION {
            let n = decimal_text(self.version as u64);
            return Err(cat2("unsupported transient definition version ", n.as_str()));
        }
        Ok(self)
    }
}

/// What is done about a directory that a runner may have been in.
#[derive(Debug, Clone, Copy, PartialEq, Eq, Structural)]
pub enum TransientStep {
    Skip,
    /// An enabled service has that name: what is left of the temporary one is removed.
    Overridden,
    Read,
}

/// What is done about a directory of that name.
pub open spec fn transient_step(name: Seq<char>, recorded: bool, taken: bool) -> TransientStep {
    if target_refusal(name) is Some || !recorded {
        TransientStep::Skip
    } else if taken {
        TransientStep::Overridden
    } else {
        TransientStep::Read
    }
}

pub fn inspect_transient(name: &str, recorded: bool, taken: bool) -> (r: TransientStep)
    ensures
        r == (if target_refusal(name@) is Some || !recorded {
            TransientStep::Skip
        } else if taken {
            TransientStep::Overridden
        } else {
            TransientStep::Read
        }),
        r == transient_step(name@, recorded, taken),
{
    if validate_target_name(name).is_err() || !recorded {
        return TransientStep::Skip;
    }
    if taken {
        TransientStep::Overridden
    } else {
        TransientStep::Read
    }
}

/// A record may be followed where it is of that service, is valid, and its directory is still
/// where it was.
pub open spec fn consistent(name: Seq<char>, launch: LaunchView, canonical: Option<Seq<char>>) -> bool {
    &&& launch.config.name == name
    &&& validation(launch.config, Ok(()))
    &&& canonical matches Some(c) && same_path(c, launch.directory)
}

pub fn is_consistent(name: &str, spec: &LaunchSpec, canonical: &Option<String>) -> (r: bool)
    ensures
        r == consistent(name@, spec@, opt_view(*canonical)),
{
    if !same(spec.config.name.as_str(), name) || spec.config.validate().is_err() {
        return false;
    }
    match canonical {
        Some(c) => paths_match(c.as_str(), spec.directory.as_str()),
        None => false,
    }
}

/// Why the record of a temporary service is done away with.
#[derive(Debug)]
pub enum TransientFault {
    /// It cannot be read.
    Invalid(String),
    /// It is of another service, is not valid, or its directory has moved.
    Inconsistent,
    /// Nothing runs any more.
    NoRunner,
}

/// What is made of a record.
pub open spec fn judged(
    name: Seq<char>,
    definition: Result<LaunchSpec, String>,
    canonical: Option<Seq<char>>,
    alive: bool,
) -> Result<LaunchSpec, TransientFault> {
    match definition {
        Err(e) => Err(TransientFault::Invalid(e)),
        Ok(spec) => if !consistent(name, spec@, canonical) {
            Err(TransientFault::Inconsistent)
        } else if !alive {
            Err(TransientFault::NoRunner)
        } else {
            Ok(spec)
        },
    }
}

/// Whether a record is followed. `alive` is whether its runner or its service is still there.
pub fn judge_transient(name: &str, definition: Result<LaunchSpec, String>, canonical: &Option<String>, alive: bool) -> (r: Result<LaunchSpec, TransientFault>)
    ensures
        match definition {
            Err(e) => r == Err::<LaunchSpec, TransientFault>(TransientFault::Invalid(e)),
            Ok(spec) => if !consistent(name@, spec@, opt_view(*canonical)) {
                r matches Err(TransientFault::Inconsistent)
            } else if !alive {
                r matches Err(TransientFault::NoRunner)
            } else {
                r == Ok::<LaunchSpec, TransientFault>(spec)
            },
        },
        r == judged(name@, definition, opt_view(*canonical), alive),
{
    match definition {
        Err(e) => Err(TransientFault::Invalid(e)),
        Ok(spec) => {
            if !is_consistent(name, &spec, canonical) {
                Err(TransientFault::Inconsistent)
            } else if !alive {
                Err(TransientFault::NoRunner)
            } else {
                Ok(spec)
            }
        },
    }
}

/// What is done about a temporary service whose runner is alive.
#[derive(Debug)]
pub enum AdoptStep {
    Ensure(LoadedService),
    /// The runner runs something else: both are done away with.
    Discard,
    /// The runner does not answer; it is left alone.
    Leave(String),
}

/// What is done about a temporary service, by what its runner says.
pub open spec fn is_adoption(spec: LaunchView, status: Result<RunnerStatus, String>, r: AdoptStep) -> bool {
    match status {
        Err(e) => r == AdoptStep::Leave(e),
        Ok(s) => if launch_opt(s.spec) == Some(spec) {
            r matches AdoptStep::Ensure(service) && service@ == (LoadedView {
                directory: spec.directory,
                config_file: None,
                config: spec.config,
                environment: spec.environment,
            })
        } else {
            r is Discard
        },
    }
}

pub fn adopt_transient(spec: LaunchSpec, status: Result<RunnerStatus, String>) -> (r: AdoptStep)
    ensures
        match status {
            Err(e) => r == AdoptStep::Leave(e),
            Ok(s) => if launch_opt(s.spec) == Some(spec@) {
                r matches AdoptStep::Ensure(service) && service@ == (LoadedView {
                    directory: spec@.directory,
                    config_file: None,
                    config: spec@.config,
                    environment: spec@.environment,
                })
            } else {
                r is Discard
            },
        },
        is_adoption(spec@, status, r),
{
    match status {
        Err(e) => AdoptStep::Leave(e),
        Ok(s) => {
            let same_spec = match &s.spec {
                Some(other) => other.same_as(&spec),
                None => false,
            };
            if same_spec {
                AdoptStep::Ensure(spec.into_loaded())
            } else {
                AdoptStep::Discard
            }
        },
    }
}

/// Nothing that is registered goes by that name.
pub open spec fn orphaned(name: Seq<char>, taken: bool, linked: bool, transient: bool) -> bool {
    target_refusal(name) is None && !taken && !linked && !transient
}

/// A runner that belongs to nothing that is registered.
pub fn is_orphan(name: &str, taken: bool, linked: bool, transient: bool) -> (r: bool)
    ensures
        r == (target_refusal(name@) is None && !taken && !linked && !transient),
        r == orphaned(name@, taken, linked, transient),
{
    validate_target_name(name).is_ok() && !taken && !linked && !transient
}

/// Whether a runner, or the process of its service, is still there. `runner` and `service` are
/// what is known of the processes of these numbers.
pub open spec fn identity_alive(
    metadata: RunnerMetadata,
    runner: Option<ProcessInfo>,
    service: Option<ProcessInfo>,
) -> bool {
    identity_holds(runner, metadata.runner_start_time) || (metadata.service_pid is Some
        && metadata.service_start_time is Some && identity_holds(service, metadata.service_start_time))
}

pub fn runner_identity_alive(metadata: &RunnerMetadata, runner: Option<ProcessInfo>, service: Option<ProcessInfo>) -> (r: bool)
    ensures
        r == (identity_holds(runner, metadata.runner_start_time) || (metadata.service_pid is Some
            && metadata.service_start_time is Some && identity_holds(
            service,
            metadata.service_start_time,
        ))),
        r == identity_alive(*metadata, runner, service),
{
    if is_process(runner, metadata.runner_start_time) {
        return true;
    }
    metadata.service_pid.is_some() && metadata.service_start_time.is_some() && is_process(
        service,
        metadata.service_start_time,
    )
}

pub open spec fn identity_holds(info: Option<ProcessInfo>, started: Option<u64>) -> bool {
    info matches Some(p) && p.alive && (started matches Some(s) ==> s == p.start_time)
}

/// A working directory that was chosen when a service was enabled outlasts every change to its
/// configuration.
pub proof fn law_override_outlasts_the_configuration(workdir: Seq<char>, before: Option<Seq<char>>, after: Option<Seq<char>>, a: Seq<char>, b: Seq<char>)
    ensures
        work_directory(Some(workdir), before, a) == work_directory(Some(workdir), after, b),
{
}

/// A name that is in use is refused, whatever else a client asks for.
pub proof fn law_names_in_use_are_refused(t: Table, base: Map<Seq<char>, Seq<char>>, spec: RunSpec, facts: RunFacts, r: Result<LoadedService, String>)
    requires
        is_run_outcome(t, base, spec, facts, r),
        find(t.entries, spec.name@) is Some || facts.linked || facts.transient,
    ensures
        r is Err,
{
}

} // verus!

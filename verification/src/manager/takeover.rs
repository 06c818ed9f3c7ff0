//! What a manager takes over from the one before it, and what it clears away.
use crate::client::names_in;
use crate::config::{valid_config, LoadedService, RestartPolicy};
use crate::manager::definition::{
    consistent, enable_refusal, identity_alive, is_adoption, is_held, is_run_outcome, judged, orphaned, parent_of,
    restored, rooted, sound_definition, source_file, source_path, transient_step, work_directory, AdoptStep,
    EnabledDefinition, RestoreStep, RunFacts, ServiceSource, TransientFault,
};
use crate::manager::retire::{first_error, may_remove, needs_stop, retire_end, retire_step, Patience, RetireEnd};
use crate::manager::table::{find, target_refusal, Table};
use crate::paths::{absolute, base_name, joined, last_name};
use crate::process::ProcessInfo;
use crate::protocol::RunSpec;
use crate::runner_protocol::{launch_opt, LaunchSpec, RunnerMetadata, RunnerStatus};
use crate::text::split;
use vstd::prelude::*;

verus! {

/// A temporary service is what was asked for, word by word: its name, its settings, its variables
/// over those of the manager, in the directory that was found. It has no configuration file, and
/// no other service has its name.
pub proof fn law_temporary_services_are_as_asked(
    t: Table,
    base: Map<Seq<char>, Seq<char>>,
    spec: RunSpec,
    facts: RunFacts,
    s: LoadedService,
)
    requires
        is_run_outcome(t, base, spec, facts, Ok(s)),
    ensures
        s.config@.name == spec.name@,
        s.config@.tty == spec.tty,
        s.config@.sync_rows_cols == spec.sync_rows_cols,
        s.config@.persist_logs == spec.persist_logs,
        s.config@.log_max_bytes == spec.log_max_bytes,
        s.config@.log_max_files == spec.log_max_files,
        s.config@.env == spec.env@,
        s.config@.cwd is None,
        s.config@.restart is Never <==> spec.restart@ == "never"@,
        s.config@.restart is OnFailure <==> spec.restart@ == "on-failure"@,
        s.config@.restart is Always <==> spec.restart@ == "always"@,
        s.config_file is None,
        facts.exists && facts.is_dir,
        facts.canonical is Ok && s.directory@ == facts.canonical->Ok_0@,
        find(t.entries, spec.name@) is None && !facts.linked && !facts.transient,
        valid_config(s.config@),
        forall|k: Seq<char>|
            spec.env.map().contains_key(k) ==> s.environment.map().contains_key(k) && #[trigger] s.environment.map()[k]
                == spec.env.map()[k],
        forall|k: Seq<char>|
            !spec.env.map().contains_key(k) ==> (s.environment.map().contains_key(k) <==> base.contains_key(k)) && (
            base.contains_key(k) ==> #[trigger] s.environment.map()[k] == base[k]),
{
    crate::config::lemma_policy_texts_differ();
    assert(crate::config::policy_text(RestartPolicy::Never) == "never"@);
    assert(crate::config::policy_text(RestartPolicy::OnFailure) == "on-failure"@);
    assert(crate::config::policy_text(RestartPolicy::Always) == "always"@);
}

/// Where a service runs: in the directory that was chosen for it; else, as seen from its
/// configuration, in the one that this names; else where the configuration is.
pub proof fn law_where_a_service_runs(workdir: Option<Seq<char>>, cwd: Option<Seq<char>>, home: Seq<char>)
    ensures
        workdir matches Some(w) ==> work_directory(workdir, cwd, home) == w,
        workdir is None && cwd is None ==> work_directory(workdir, cwd, home) == home,
        workdir is None && (cwd matches Some(c) && absolute(c)) ==> work_directory(workdir, cwd, home) == cwd->0,
        workdir is None && (cwd matches Some(c) && !absolute(c)) && home.len() > 0 ==> {
            let d = work_directory(workdir, cwd, home);
            d.take(home.len() as int) == home && d.len() >= home.len() + cwd->0.len()
        },
{
    if cwd is Some {
        crate::config::laws::law_paths_join(home, cwd->0);
    }
}

/// An enabled service comes back under its own name, as its configuration says now, unless that
/// name is in use; a name whose configuration is of another service brings nothing back.
pub proof fn law_enabled_services_come_back(name: Seq<char>, loaded: Result<LoadedService, String>, taken: bool)
    ensures
        ({
            let step = restored(name, loaded, taken);
            &&& step matches RestoreStep::Ensure(s) ==> loaded == Ok::<LoadedService, String>(s) && s.config.name@
                == name && !taken
            &&& (loaded matches Ok(s) && s.config.name@ == name) && !taken ==> step is Ensure
            &&& loaded is Err ==> step is Invalid
            &&& step is Duplicate ==> taken
            &&& step is Renamed ==> loaded is Ok && loaded->Ok_0.config.name@ != name
        }),
{
}

/// A service that was stopped by hand is taken over as its runner holds it, and only such a one.
pub proof fn law_stopped_services_stay_as_they_are(
    status: RunnerStatus,
    source: ServiceSource,
    found: (bool, bool),
    r: Option<LoadedService>,
)
    requires
        is_held(status, source, found, r),
    ensures
        r is Some <==> status.manually_stopped && status.spec is Some,
        r matches Some(s) ==> {
            let launch = launch_opt(status.spec)->0;
            &&& s@.config == launch.config
            &&& s@.directory == launch.directory
            &&& s@.environment == launch.environment
            &&& s@.config_file == source_file(source, found)
        },
        source_file(source, found) is None ==> source is Directory && !found.0 && !found.1,
        source matches ServiceSource::File(f) ==> source_file(source, found) == Some(f@),
        source matches ServiceSource::Directory(d) ==> (found.0 ==> source_file(source, found) == Some(
            joined(d@, ".served.json5"@),
        )),
        source matches ServiceSource::Directory(d) ==> (!found.0 && found.1 ==> source_file(source, found) == Some(
            joined(d@, ".served.json"@),
        )),
{
}

/// A temporary service lives on under a new manager exactly where its record is sound and its own,
/// something of it still runs, and its runner runs what the record says. It lives on unchanged.
pub proof fn law_temporary_services_live_on(
    name: Seq<char>,
    definition: Result<LaunchSpec, String>,
    canonical: Option<Seq<char>>,
    alive: bool,
    status: Result<RunnerStatus, String>,
    r: AdoptStep,
)
    requires
        definition matches Ok(spec) ==> is_adoption(spec@, status, r),
    ensures
        judged(name, definition, canonical, alive) is Ok <==> {
            &&& definition is Ok
            &&& definition->Ok_0@.config.name == name
            &&& valid_config(definition->Ok_0@.config)
            &&& consistent(name, definition->Ok_0@, canonical)
            &&& canonical is Some
            &&& alive
        },
        judged(name, definition, canonical, alive) matches Ok(spec) ==> {
            &&& definition == Ok::<LaunchSpec, String>(spec)
            &&& r is Ensure <==> status is Ok && launch_opt(status->Ok_0.spec) == Some(spec@)
            &&& r matches AdoptStep::Ensure(s) ==> s@.config == spec@.config && s@.directory == spec@.directory
                && s@.environment == spec@.environment && s@.config_file is None
            &&& status is Err ==> r is Leave
        },
        judged(name, definition, canonical, alive) matches Err(TransientFault::NoRunner) ==> !alive,
{
}

/// Of every directory of a runner exactly one thing is made: it is left alone where its name is
/// none; else it is taken over, cleared for the enabled service of its name, or it is an orphan,
/// unless what it belongs to is registered.
pub proof fn law_nothing_registered_is_cleared(name: Seq<char>, recorded: bool, taken: bool, linked: bool)
    ensures
        orphaned(name, taken, linked, recorded) ==> !taken && !linked && !recorded,
        orphaned(name, taken, linked, recorded) ==> transient_step(name, recorded, taken) is Skip,
        transient_step(name, recorded, taken) is Read ==> recorded && !taken && target_refusal(name) is None,
        transient_step(name, recorded, taken) is Overridden ==> recorded && taken && target_refusal(name) is None,
        target_refusal(name) is None && recorded ==> transient_step(name, recorded, taken) !is Skip,
        target_refusal(name) is None && !taken && !linked && !recorded ==> orphaned(name, taken, linked, recorded),
        target_refusal(name) is Some ==> !orphaned(name, taken, linked, recorded) && transient_step(
            name,
            recorded,
            taken,
        ) is Skip,
{
}

/// A process is known again by its number and the time at which it began: one that began at
/// another time is not taken for it, and one that has ended counts for nothing.
pub proof fn law_processes_are_told_apart(
    metadata: RunnerMetadata,
    runner: Option<ProcessInfo>,
    service: Option<ProcessInfo>,
)
    ensures
        runner is None && service is None ==> !identity_alive(metadata, runner, service),
        (runner matches Some(p) ==> !p.alive) && (service matches Some(p) ==> !p.alive) ==> !identity_alive(
            metadata,
            runner,
            service,
        ),
        (runner matches Some(p) && p.alive && metadata.runner_start_time == Some(p.start_time)) ==> identity_alive(
            metadata,
            runner,
            service,
        ),
        metadata.service_pid is Some && (service matches Some(p) && p.alive && metadata.service_start_time == Some(
            p.start_time,
        )) ==> identity_alive(metadata, runner, service),
        (runner matches Some(p) ==> metadata.runner_start_time is Some && metadata.runner_start_time->0
            != p.start_time) && (service matches Some(p) ==> metadata.service_start_time != Some(p.start_time))
            ==> !identity_alive(metadata, runner, service),
{
}

/// What is left of a runner is cleared only where nothing of it runs: neither before it was told
/// to stop nor after that failed. A runner that may be there is told to stop, and one that did not
/// stop is reported.
pub proof fn law_live_runners_are_not_swept_away(
    name: Seq<char>,
    socket: bool,
    alive: bool,
    result: Result<(), String>,
    still: bool,
)
    ensures
        retire_step(name, socket, alive) is Clean ==> !socket && !alive,
        target_refusal(name) is None && (socket || alive) ==> retire_step(name, socket, alive) is Stop,
        target_refusal(name) is None ==> retire_step(name, socket, alive) !is Skip,
        retire_end(result, still) is Clean ==> !still,
        result is Ok ==> retire_end(result, still) is Forget,
        result matches Err(e) && still ==> retire_end(result, still) is Keep,
        retire_end(result, still) matches RetireEnd::Keep(e) ==> result == Err::<(), String>(e),
        needs_stop(socket, alive) <==> socket || alive,
        !needs_stop(socket, alive) ==> may_remove(false, alive),
        may_remove(result is Ok, still) <==> !(retire_end(result, still) is Keep),
{
}

/// What is waited for is looked for a hundred times, and then given up.
pub proof fn law_patience_ends(p: Patience)
    ensures
        p.looks < 100 ==> p.after_look().looks == p.looks + 1,
        p.after_look().lasts() <==> p.looks + 1 < 100,
        !p.lasts() ==> !p.after_look().lasts(),
{
}

/// Of several failures the first one is told.
pub proof fn law_the_first_failure_is_told(results: Seq<Result<(), String>>, i: int)
    requires
        0 <= i < results.len(),
        results[i] is Err,
        forall|j: int| 0 <= j < i ==> #[trigger] results[j] is Ok,
    ensures
        first_error(results) == Some(results[i]->Err_0@),
    decreases results.len(),
{
    let front = results.drop_last();
    assert forall|j: int| 0 <= j < front.len() implies front[j] == results[j] by {}
    if i < front.len() {
        law_the_first_failure_is_told(front, i);
    } else {
        crate::manager::retire::law_every_failure_is_told(front);
        assert forall|j: int| 0 <= j < front.len() implies #[trigger] front[j] is Ok by {
            assert(results[j] is Ok);
        }
    }
}

proof fn lemma_names(pieces: Seq<Seq<char>>)
    ensures
        ({
            let names = names_in(pieces, true);
            &&& names.len() == 0 ==> last_name(pieces) is None
            &&& names.len() > 0 && names.last() == ".."@ ==> last_name(pieces) is None
            &&& names.len() > 0 && names.last() != ".."@ ==> last_name(pieces) == Some(names.last())
        }),
    decreases pieces.len(),
{
    if pieces.len() > 0 {
        lemma_names(pieces.drop_last());
    }
}

/// A file lies in its parent: the path of the parent and the name of the file lead to it, name by
/// name.
pub proof fn law_a_file_lies_in_its_parent(path: Seq<char>, name: Seq<char>)
    requires
        base_name(path) == Some(name),
    ensures
        parent_of(path) is Some,
        joined(parent_of(path)->0, name) == rooted(names_in(split(path, '/'), true)),
        names_in(split(path, '/'), true).last() == name,
{
    lemma_names(split(path, '/'));
}

/// A name is enabled once: not while it is enabled, and not while a temporary service has it.
pub proof fn law_names_are_enabled_once(name: Seq<char>, linked: bool, transient: bool)
    ensures
        enable_refusal(name, linked, transient) is None <==> !linked && !transient,
{
}

/// A record of an enabled service is used where its version is known, and where it says for good
/// where the configuration is and where the service runs.
pub proof fn law_records_say_where(d: EnabledDefinition)
    ensures
        sound_definition(d) <==> {
            &&& d.version == 1
            &&& source_path(d.source).len() > 0 && source_path(d.source)[0] == '/'
            &&& d.workdir matches Some(w) ==> w@.len() > 0 && w@[0] == '/'
        },
        d.source matches ServiceSource::Directory(p) ==> source_path(d.source) == p@,
        d.source matches ServiceSource::File(p) ==> source_path(d.source) == p@,
{
}

} // verus!

//! The services that a manager looks after.
use crate::client::{only_name, unique_service_name_for_directory};
use crate::config::{is_valid_name, valid_name, LoadedService, LoadedView};
use crate::env::EnvMap;
use crate::paths::ServedPaths;
use crate::protocol::{ServiceInfo, ServiceKind, ServiceState, Target};
use crate::runner_protocol::{clone_opt, RunnerServiceState, RunnerStatus, StatusView};
use crate::text::{cat2, cat3, debug_form, debug_text, lemma_text_lt_total, lemma_text_lt_transitive, opt_view, same, text_less, text_lt, views};
use vstd::prelude::*;

verus! {

#[derive(Debug)]
pub struct ManagedService {
    pub definition: LoadedService,
    pub kind: ServiceKind,
    pub runner_socket: String,
    pub status: RunnerStatus,
    /// Tells what the present watcher reports from what an earlier one did.
    pub watcher_generation: u64,
}

#[verifier::ext_equal]
pub struct EntryView {
    pub definition: LoadedView,
    pub kind: ServiceKind,
    pub socket: Seq<char>,
    pub status: StatusView,
    pub generation: u64,
}

impl View for ManagedService {
    type V = EntryView;

    open spec fn view(&self) -> EntryView {
        EntryView {
            definition: self.definition@,
            kind: self.kind,
            socket: self.runner_socket@,
            status: self.status@,
            generation: self.watcher_generation,
        }
    }
}

pub open spec fn entry_name(e: EntryView) -> Seq<char> {
    e.definition.config.name
}

pub open spec fn entry_views(services: Seq<ManagedService>) -> Seq<EntryView> {
    Seq::new(services.len(), |i: int| services[i]@)
}

/// No two services have the same name.
pub open spec fn distinct_names(entries: Seq<EntryView>) -> bool {
    forall|i: int, j: int|
        0 <= i < j < entries.len() ==> entry_name(#[trigger] entries[i]) != entry_name(
            #[trigger] entries[j],
        )
}

/// Where the service of that name stands.
pub open spec fn place_of(entries: Seq<EntryView>, name: Seq<char>, i: int) -> Option<int>
    decreases entries.len() - i,
{
    if i < 0 || i >= entries.len() {
        None
    } else if entry_name(entries[i]) == name {
        Some(i)
    } else {
        place_of(entries, name, i + 1)
    }
}

pub open spec fn find(entries: Seq<EntryView>, name: Seq<char>) -> Option<int> {
    place_of(entries, name, 0)
}

pub proof fn lemma_find(entries: Seq<EntryView>, name: Seq<char>, i: int)
    requires
        0 <= i <= entries.len(),
    ensures
        match place_of(entries, name, i) {
            Some(k) => i <= k < entries.len() && entry_name(entries[k]) == name && forall|j: int|
                i <= j < k ==> entry_name(#[trigger] entries[j]) != name,
            None => forall|j: int|
                i <= j < entries.len() ==> entry_name(#[trigger] entries[j]) != name,
        },
    decreases entries.len() - i,
{
    if i < entries.len() && entry_name(entries[i]) != name {
        lemma_find(entries, name, i + 1);
    }
}

/// The entries, and the number that the next watcher gets.
#[verifier::ext_equal]
pub struct Table {
    pub entries: Seq<EntryView>,
    pub next: u64,
}

pub open spec fn next_generation(n: u64) -> u64 {
    if n == u64::MAX { 1 } else { (n + 1) as u64 }
}

/// The table with a service in it, in place of one of the same name.
pub open spec fn kept(t: Table, definition: LoadedView, kind: ServiceKind, socket: Seq<char>, status: StatusView) -> Table {
    let entry = EntryView { definition, kind, socket, status, generation: t.next };
    Table {
        entries: match find(t.entries, definition.config.name) {
            Some(i) => t.entries.update(i, entry),
            None => t.entries.push(entry),
        },
        next: next_generation(t.next),
    }
}

/// The table without a service.
pub open spec fn forgotten(t: Table, name: Seq<char>) -> Table {
    Table {
        entries: match find(t.entries, name) {
            Some(i) => t.entries.remove(i),
            None => t.entries,
        },
        ..t
    }
}

/// The table with another status for a service.
pub open spec fn noted(t: Table, name: Seq<char>, status: StatusView) -> Table {
    Table {
        entries: match find(t.entries, name) {
            Some(i) => t.entries.update(i, EntryView { status, ..t.entries[i] }),
            None => t.entries,
        },
        ..t
    }
}

/// The status of a service whose runner is lost.
pub open spec fn lost(status: StatusView) -> StatusView {
    StatusView {
        state: RunnerServiceState::Failed,
        pid: None,
        attach_active: false,
        ..status
    }
}

pub open spec fn not_managed(name: Seq<char>) -> Seq<char> {
    "service "@ + debug_form(name) + " is not managed"@
}

pub open spec fn public_state(state: RunnerServiceState) -> ServiceState {
    match state {
        RunnerServiceState::Starting => ServiceState::Starting,
        RunnerServiceState::Running => ServiceState::Running,
        RunnerServiceState::Restarting => ServiceState::Restarting,
        RunnerServiceState::Stopped => ServiceState::Stopped,
        RunnerServiceState::Failed => ServiceState::Failed,
    }
}

pub fn public_service_state(state: &RunnerServiceState) -> (r: ServiceState)
    ensures
        r == public_state(*state),
{
    match *state {
        RunnerServiceState::Starting => ServiceState::Starting,
        RunnerServiceState::Running => ServiceState::Running,
        RunnerServiceState::Restarting => ServiceState::Restarting,
        RunnerServiceState::Stopped => ServiceState::Stopped,
        RunnerServiceState::Failed => ServiceState::Failed,
    }
}

/// A name that can stand for a service: letters, digits, dots, underscores and dashes, but
/// neither of the two names that every directory has.
pub open spec fn target_refusal(name: Seq<char>) -> Option<Seq<char>> {
    if valid_name(name) && name != "."@ && name != ".."@ {
        None
    } else {
        Some("invalid service name "@ + debug_form(name))
    }
}

pub fn validate_target_name(name: &str) -> (r: Result<(), String>)
    ensures
        match target_refusal(name@) {
            None => r is Ok,
            Some(e) => r is Err && r->Err_0@ == e,
        },
{
    if is_valid_name(name) && !same(name, ".") && !same(name, "..") {
        return Ok(());
    }
    let shown = debug_text(name);
    Err(cat2("invalid service name ", shown.as_str()))
}

/// The names of the services that run in a directory.
pub open spec fn names_in_directory(entries: Seq<EntryView>, directory: Seq<char>) -> Seq<Seq<char>>
    decreases entries.len(),
{
    if entries.len() == 0 {
        Seq::empty()
    } else {
        let front = names_in_directory(entries.drop_last(), directory);
        if entries.last().definition.directory == directory {
            front.push(entry_name(entries.last()))
        } else {
            front
        }
    }
}

/// The service that is meant. `canonical` is the exact form of the directory that was named.
pub open spec fn resolved(entries: Seq<EntryView>, target: Target, canonical: Result<String, String>) -> Result<
    Seq<char>,
    Seq<char>,
> {
    match target {
        Target::Name(name) => match target_refusal(name@) {
            Some(e) => Err(e),
            None => if find(entries, name@) is Some {
                Ok(name@)
            } else {
                Err(not_managed(name@))
            },
        },
        Target::Directory(_) => match canonical {
            Err(e) => Err(e@),
            Ok(directory) => only_name(names_in_directory(entries, directory@), directory@),
        },
    }
}

/// What a client is told about a service.
pub open spec fn is_info(i: ServiceInfo, e: EntryView) -> bool {
    &&& i.name@ == e.definition.config.name
    &&& i.directory@ == e.definition.directory
    &&& opt_view(i.config_file) == e.definition.config_file
    &&& i.kind == e.kind
    &&& i.state == public_state(e.status.state)
    &&& i.pid == e.status.pid
    &&& i.tty == e.definition.config.tty
    &&& i.restart@ == e.status.restart
    &&& i.persist_logs == e.status.persist_logs
    &&& i.attach_active == e.status.attach_active
    &&& i.output_tail@ == e.status.output_tail
}

/// All services, ordered by name.
pub open spec fn is_listing(infos: Seq<ServiceInfo>, entries: Seq<EntryView>) -> bool {
    &&& infos.len() == entries.len()
    &&& forall|i: int, j: int|
        0 <= i < j < infos.len() ==> text_lt(#[trigger] infos[i].name@, #[trigger] infos[j].name@)
    &&& forall|k: int|
        0 <= k < entries.len() ==> exists|i: int|
            0 <= i < infos.len() && is_info(#[trigger] infos[i], #[trigger] entries[k])
}

#[derive(Debug)]
pub struct ManagerState {
    pub paths: ServedPaths,
    pub base_environment: EnvMap,
    pub services: Vec<ManagedService>,
    pub next_watcher_generation: u64,
}

impl ManagerState {
    pub open spec fn table(&self) -> Table {
        Table { entries: entry_views(self.services@), next: self.next_watcher_generation }
    }

    pub open spec fn wf(&self) -> bool {
        &&& distinct_names(entry_views(self.services@))
        &&& self.next_watcher_generation > 0
    }

    /// Everything but the services.
    pub open spec fn same_ground(&self, other: ManagerState) -> bool {
        self.paths == other.paths && self.base_environment == other.base_environment
    }

    pub fn new(paths: ServedPaths, base_environment: EnvMap) -> (r: Self)
        ensures
            r.wf(),
            r.paths == paths,
            r.base_environment == base_environment,
            r.table() == (Table { entries: Seq::empty(), next: 1 }),
    {
        let r = ManagerState {
            paths,
            base_environment,
            services: Vec::new(),
            next_watcher_generation: 1,
        };
        assert(entry_views(r.services@) =~= Seq::<EntryView>::empty());
        r
    }

    pub fn position(&self, name: &str) -> (r: Option<usize>)
        ensures
            match r {
                Some(i) => find(self.table().entries, name@) == Some(i as int) && i
                    < self.services@.len() && entry_name(self.services@[i as int]@) == name@,
                None => find(self.table().entries, name@) is None,
            },
    {
        let ghost entries = entry_views(self.services@);
        let mut i: usize = 0;
        while i < self.services.len()
            invariant
                i <= self.services@.len(),
                entries == entry_views(self.services@),
                find(entries, name@) == place_of(entries, name@, i as int),
            decreases self.services@.len() - i,
        {
            assert(entries[i as int] == self.services@[i as int]@);
            if same(self.services[i].definition.config.name.as_str(), name) {
                return Some(i);
            }
            i += 1;
        }
        None
    }

    pub fn contains(&self, name: &str) -> (r: bool)
        ensures
            r == find(self.table().entries, name@) is Some,
    {
        self.position(name).is_some()
    }

    /// Looks after a service from now on. Gives the number of its watcher.
    pub fn track_service(&mut self, service: LoadedService, kind: ServiceKind, runner_socket: String, status: RunnerStatus) -> (r: u64)
        requires
            old(self).wf(),
        ensures
            final(self).wf(),
            final(self).same_ground(*old(self)),
            r == old(self).next_watcher_generation,
            final(self).table() == kept(
                old(self).table(),
                service@,
                kind,
                runner_socket@,
                status@,
            ),
    {
        let generation = self.next_watcher_generation;
        self.next_watcher_generation = if generation == 0xffff_ffff_ffff_ffff {
            1
        } else {
            generation + 1
        };
        let ghost before = entry_views(self.services@);
        let place = self.position(service.config.name.as_str());
        let entry = ManagedService {
            definition: service,
            kind,
            runner_socket,
            status,
            watcher_generation: generation,
        };
        proof {
            lemma_find(before, service@.config.name, 0);
        }
        match place {
            Some(i) => {
                self.services.set(i, entry);
                assert(entry_views(self.services@) =~= before.update(i as int, entry@));
            },
            None => {
                self.services.push(entry);
                assert(entry_views(self.services@) =~= before.push(entry@));
            },
        }
        generation
    }

    /// No longer looks after a service.
    pub fn forget_service(&mut self, name: &str)
        requires
            old(self).wf(),
        ensures
            final(self).wf(),
            final(self).same_ground(*old(self)),
            final(self).table() == forgotten(old(self).table(), name@),
    {
        let ghost before = entry_views(self.services@);
        match self.position(name) {
            Some(i) => {
                self.services.remove(i);
                assert(entry_views(self.services@) =~= before.remove(i as int));
                assert(distinct_names(before.remove(i as int))) by {
                    assert forall|a: int, b: int|
                        0 <= a < b < before.remove(i as int).len() implies entry_name(
                        #[trigger] before.remove(i as int)[a],
                    ) != entry_name(#[trigger] before.remove(i as int)[b]) by {
                        let x = if a < i { a } else { a + 1 };
                        let y = if b < i { b } else { b + 1 };
                        assert(before.remove(i as int)[a] == before[x]);
                        assert(before.remove(i as int)[b] == before[y]);
                    }
                }
            },
            None => {},
        }
    }

    /// Notes the status of a service.
    pub fn note_status(&mut self, name: &str, status: RunnerStatus)
        requires
            old(self).wf(),
        ensures
            final(self).wf(),
            final(self).same_ground(*old(self)),
            final(self).table() == noted(old(self).table(), name@, status@),
    {
        let ghost before = entry_views(self.services@);
        match self.position(name) {
            Some(i) => {
                let old_entry = &self.services[i];
                let entry = ManagedService {
                    definition: old_entry.definition.clone(),
                    kind: old_entry.kind,
                    runner_socket: old_entry.runner_socket.clone(),
                    status,
                    watcher_generation: old_entry.watcher_generation,
                };
                let ghost view = EntryView { status: status@, ..before[i as int] };
                assert(entry@ =~= view);
                self.services.set(i, entry);
                assert(entry_views(self.services@) =~= before.update(i as int, view));
            },
            None => {},
        }
    }

    /// Takes in what a watcher reports. What an earlier watcher reports no longer counts.
    pub fn runner_status(&mut self, name: &str, generation: u64, status: RunnerStatus)
        requires
            old(self).wf(),
        ensures
            final(self).wf(),
            final(self).same_ground(*old(self)),
            final(self).table() == (match find(old(self).table().entries, name@) {
                Some(i) => if old(self).table().entries[i].generation == generation {
                    noted(old(self).table(), name@, status@)
                } else {
                    old(self).table()
                },
                None => old(self).table(),
            }),
    {
        match self.position(name) {
            Some(i) => {
                if self.services[i].watcher_generation == generation {
                    self.note_status(name, status);
                }
            },
            None => {},
        }
    }

    /// A watcher has lost its runner. Gives the service that another runner is needed for.
    pub fn runner_unavailable(&self, name: &str, generation: u64) -> (r: Option<(LoadedService, ServiceKind)>)
        ensures
            match find(self.table().entries, name@) {
                Some(i) => {
                    let e = self.table().entries[i];
                    if e.generation == generation {
                        r is Some && (r->0).0@ == e.definition && (r->0).1 == e.kind
                    } else {
                        r is None
                    }
                },
                None => r is None,
            },
    {
        match self.position(name) {
            Some(i) => {
                let service = &self.services[i];
                if service.watcher_generation == generation {
                    Some((service.definition.clone(), service.kind))
                } else {
                    None
                }
            },
            None => None,
        }
    }

    /// No runner could be had for a service.
    pub fn mark_failed(&mut self, name: &str)
        requires
            old(self).wf(),
        ensures
            final(self).wf(),
            final(self).same_ground(*old(self)),
            final(self).table() == (match find(old(self).table().entries, name@) {
                Some(i) => noted(
                    old(self).table(),
                    name@,
                    lost(old(self).table().entries[i].status),
                ),
                None => old(self).table(),
            }),
    {
        match self.position(name) {
            Some(i) => {
                let mut status = self.services[i].status.clone();
                status.state = RunnerServiceState::Failed;
                status.pid = None;
                status.attach_active = false;
                self.note_status(name, status);
            },
            None => {},
        }
    }

    /// The service that is meant. `canonical` is the exact form of the directory that was named.
    pub fn resolve_target(&self, target: &Target, canonical: Result<String, String>) -> (r: Result<String, String>)
        ensures
            match resolved(self.table().entries, *target, canonical) {
                Ok(n) => r is Ok && r->Ok_0@ == n,
                Err(e) => r is Err && r->Err_0@ == e,
            },
    {
        match target {
            Target::Name(name) => {
                match validate_target_name(name.as_str()) {
                    Ok(()) => {},
                    Err(e) => {
                        return Err(e);
                    },
                }
                if self.contains(name.as_str()) {
                    Ok(name.clone())
                } else {
                    Err(unmanaged(name.as_str()))
                }
            },
            Target::Directory(_) => {
                let directory = match canonical {
                    Ok(d) => d,
                    Err(e) => {
                        return Err(e);
                    },
                };
                let ghost entries = entry_views(self.services@);
                let mut names: Vec<String> = Vec::new();
                let mut i: usize = 0;
                assert(views(names@) =~= names_in_directory(entries.take(0), directory@));
                while i < self.services.len()
                    invariant
                        i <= self.services@.len(),
                        entries == entry_views(self.services@),
                        views(names@) == names_in_directory(entries.take(i as int), directory@),
                    decreases self.services@.len() - i,
                {
                    let ghost before = names@;
                    let service = &self.services[i];
                    assert(entries.take(i + 1).drop_last() =~= entries.take(i as int));
                    assert(entries.take(i + 1).last() == service@);
                    if same(service.definition.directory.as_str(), directory.as_str()) {
                        names.push(service.definition.config.name.clone());
                        assert(views(names@) =~= views(before).push(entry_name(service@)));
                    }
                    i += 1;
                }
                assert(entries.take(i as int) =~= entries);
                unique_service_name_for_directory(&names, directory.as_str())
            },
        }
    }

    /// All services, ordered by name.
    pub fn list_services(&self) -> (r: Vec<ServiceInfo>)
        requires
            self.wf(),
        ensures
            is_listing(r@, self.table().entries),
    {
        let ghost entries = entry_views(self.services@);
        let mut out: Vec<ServiceInfo> = Vec::new();
        let mut i: usize = 0;
        while i < self.services.len()
            invariant
                i <= self.services@.len(),
                entries == entry_views(self.services@),
                distinct_names(entries),
                is_listing(out@, entries.take(i as int)),
                forall|a: int|
                    0 <= a < out@.len() ==> exists|k: int|
                        0 <= k < i && is_info(#[trigger] out@[a], #[trigger] entries[k]),
            decreases self.services@.len() - i,
        {
            let info = info_of(&self.services[i]);
            let mut place: usize = 0;
            while place < out.len() && text_less(out[place].name.as_str(), info.name.as_str())
                invariant
                    place <= out@.len(),
                    forall|a: int| 0 <= a < place ==> text_lt(#[trigger] out@[a].name@, info.name@),
                decreases out@.len() - place,
            {
                place += 1;
            }
            let ghost before = out@;
            proof {
                assert(entries[i as int] == self.services@[i as int]@);
                lemma_listed_elsewhere(before, entries, i as int, info);
                lemma_insert_in_order(before, place as int, info);
            }
            out.insert(place, info);
            proof {
                lemma_listing_grows(before, out@, entries, i as int, place as int, info);
            }
            i += 1;
        }
        assert(entries.take(i as int) =~= entries);
        out
    }
}

/// The name of a service that is still to be listed is not listed yet.
proof fn lemma_listed_elsewhere(infos: Seq<ServiceInfo>, entries: Seq<EntryView>, i: int, info: ServiceInfo)
    requires
        0 <= i < entries.len(),
        distinct_names(entries),
        is_info(info, entries[i]),
        forall|a: int|
            0 <= a < infos.len() ==> exists|k: int|
                0 <= k < i && is_info(#[trigger] infos[a], #[trigger] entries[k]),
    ensures
        forall|a: int| 0 <= a < infos.len() ==> (#[trigger] infos[a]).name@ != info.name@,
{
    assert forall|a: int| 0 <= a < infos.len() implies (#[trigger] infos[a]).name@ != info.name@ by {
        let k = choose|k: int| 0 <= k < i && is_info(infos[a], #[trigger] entries[k]);
        assert(entry_name(entries[k]) != entry_name(entries[i]));
    }
}

proof fn lemma_insert_in_order(infos: Seq<ServiceInfo>, place: int, info: ServiceInfo)
    requires
        0 <= place <= infos.len(),
        forall|i: int, j: int|
            0 <= i < j < infos.len() ==> text_lt(#[trigger] infos[i].name@, #[trigger] infos[j].name@),
        forall|a: int| 0 <= a < place ==> text_lt(#[trigger] infos[a].name@, info.name@),
        place < infos.len() ==> !text_lt(infos[place].name@, info.name@),
        forall|a: int| 0 <= a < infos.len() ==> (#[trigger] infos[a]).name@ != info.name@,
    ensures
        forall|a: int| place <= a < infos.len() ==> text_lt(info.name@, #[trigger] infos[a].name@),
{
    assert forall|a: int| place <= a < infos.len() implies text_lt(
        info.name@,
        #[trigger] infos[a].name@,
    ) by {
        assert(infos[place].name@ != info.name@);
        lemma_text_lt_total(info.name@, infos[place].name@);
        if a > place {
            lemma_text_lt_transitive(info.name@, infos[place].name@, infos[a].name@);
        }
    }
}

proof fn lemma_listing_grows(
    before: Seq<ServiceInfo>,
    after: Seq<ServiceInfo>,
    entries: Seq<EntryView>,
    i: int,
    place: int,
    info: ServiceInfo,
)
    requires
        0 <= i < entries.len(),
        0 <= place <= before.len(),
        after == before.insert(place, info),
        is_listing(before, entries.take(i)),
        is_info(info, entries[i]),
        forall|a: int| 0 <= a < place ==> text_lt(#[trigger] before[a].name@, info.name@),
        forall|a: int| place <= a < before.len() ==> text_lt(info.name@, #[trigger] before[a].name@),
        forall|a: int|
            0 <= a < before.len() ==> exists|k: int|
                0 <= k < i && is_info(#[trigger] before[a], #[trigger] entries[k]),
    ensures
        is_listing(after, entries.take(i + 1)),
        forall|a: int|
            0 <= a < after.len() ==> exists|k: int|
                0 <= k < i + 1 && is_info(#[trigger] after[a], #[trigger] entries[k]),
{
    let all = entries.take(i + 1);
    assert forall|a: int, b: int| 0 <= a < b < after.len() implies text_lt(
        #[trigger] after[a].name@,
        #[trigger] after[b].name@,
    ) by {
        if a < place {
            assert(after[a] == before[a]);
        }
        if a > place {
            assert(after[a] == before[a - 1]);
        }
        if b < place {
            assert(after[b] == before[b]);
        }
        if b > place {
            assert(after[b] == before[b - 1]);
        }
    }
    assert forall|k: int| 0 <= k < all.len() implies exists|a: int|
        0 <= a < after.len() && is_info(#[trigger] after[a], #[trigger] all[k]) by {
        if k == i {
            assert(after[place] == info);
            assert(is_info(after[place], all[k]));
        } else {
            assert(entries.take(i)[k] == all[k]);
            let a = choose|a: int| 0 <= a < before.len() && is_info(#[trigger] before[a], entries.take(i)[k]);
            let at = if a < place { a } else { a + 1 };
            assert(after[at] == before[a]);
            assert(is_info(after[at], all[k]));
        }
    }
    assert forall|a: int| 0 <= a < after.len() implies exists|k: int|
        0 <= k < i + 1 && is_info(#[trigger] after[a], #[trigger] entries[k]) by {
        if a == place {
            assert(is_info(after[a], entries[i]));
        } else {
            let b = if a < place { a } else { a - 1 };
            assert(after[a] == before[b]);
            let k = choose|k: int| 0 <= k < i && is_info(before[b], #[trigger] entries[k]);
            assert(is_info(after[a], entries[k]));
        }
    }
}

pub(crate) fn unmanaged(name: &str) -> (r: String)
    ensures
        r@ == not_managed(name@),
{
    let shown = debug_text(name);
    cat3("service ", shown.as_str(), " is not managed")
}

fn info_of(service: &ManagedService) -> (r: ServiceInfo)
    ensures
        is_info(r, service@),
{
    ServiceInfo {
        name: service.definition.config.name.clone(),
        directory: service.definition.directory.clone(),
        config_file: clone_opt(&service.definition.config_file),
        kind: service.kind,
        state: public_service_state(&service.status.state),
        pid: service.status.pid,
        tty: service.definition.config.tty,
        restart: service.status.restart.clone(),
        persist_logs: service.status.persist_logs,
        attach_active: service.status.attach_active,
        output_tail: service.status.output_tail.clone(),
    }
}

/// Every watcher has a number, and none has the number zero.
pub proof fn law_generations_are_never_zero(t: Table, definition: LoadedView, kind: ServiceKind, socket: Seq<char>, status: StatusView)
    requires
        t.next > 0,
    ensures
        kept(t, definition, kind, socket, status).next > 0,
        t.next < u64::MAX ==> kept(t, definition, kind, socket, status).next > t.next,
{
}

/// Looking after a service again replaces what was known of it and leaves all others alone.
pub proof fn law_names_stay_distinct(t: Table, definition: LoadedView, kind: ServiceKind, socket: Seq<char>, status: StatusView)
    requires
        distinct_names(t.entries),
    ensures
        distinct_names(kept(t, definition, kind, socket, status).entries),
        forall|i: int|
            0 <= i < t.entries.len() && entry_name(#[trigger] t.entries[i]) != definition.config.name
                ==> kept(t, definition, kind, socket, status).entries[i] == t.entries[i],
{
    lemma_find(t.entries, definition.config.name, 0);
}

} // verus!

//! The runners that an earlier manager left behind, and that are this manager's to bury.
use crate::runner_protocol::RunnerMetadata;
use crate::text::{opt_view, same};
use vstd::prelude::*;

verus! {

/// A process, and when it started.
#[derive(Debug, Clone, Copy, PartialEq, Eq, Structural)]
pub struct Inherited {
    pub pid: i32,
    pub started: u64,
}

/// What is found in the directory of a runner: its name, what the runner wrote down, and when
/// the process of that number started.
#[derive(Debug)]
pub struct Trace {
    pub directory: Option<String>,
    pub metadata: RunnerMetadata,
    pub started: Option<u64>,
}

pub open spec fn inherited(t: Trace) -> Option<Inherited> {
    if opt_view(t.directory) == Some(t.metadata.name@) && 0 < t.metadata.runner_pid <= i32::MAX
        && t.started is Some && (t.metadata.runner_start_time is None
        || t.metadata.runner_start_time == t.started) {
        Some(Inherited { pid: t.metadata.runner_pid as i32, started: t.started->0 })
    } else {
        None
    }
}

/// The process that a trace leads to, where it is still the one that left it.
pub fn captured(t: &Trace) -> (r: Option<Inherited>)
    ensures
        r == inherited(*t),
{
    let named = match &t.directory {
        Some(d) => same(d.as_str(), t.metadata.name.as_str()),
        None => false,
    };
    if !named || t.metadata.runner_pid == 0 || t.metadata.runner_pid > 0x7fff_ffff {
        return None;
    }
    let started = match t.started {
        Some(s) => s,
        None => {
            return None;
        },
    };
    match t.metadata.runner_start_time {
        Some(expected) => {
            if expected != started {
                return None;
            }
        },
        None => {},
    }
    Some(Inherited { pid: t.metadata.runner_pid as i32, started })
}

/// What is known of a process now.
#[derive(Debug, Clone, Copy, PartialEq, Eq, Structural)]
pub enum Sight {
    /// The process of that number is gone, or another.
    Replaced,
    /// It has not ended.
    Alive,
    /// The question was interrupted, or answered with something else.
    Unclear,
    /// It is not a child of the manager.
    NotAChild,
    /// It has ended, and was waited for.
    Ended,
}

pub open spec fn still_kept(sight: Sight) -> bool {
    sight is Alive || sight is Unclear
}

/// The processes that stay, of the first `n`.
pub open spec fn remaining(runners: Seq<Inherited>, sights: Seq<Sight>, n: int) -> Seq<Inherited>
    decreases n,
{
    if n <= 0 {
        Seq::empty()
    } else if still_kept(sights[n - 1]) {
        remaining(runners, sights, n - 1).push(runners[n - 1])
    } else {
        remaining(runners, sights, n - 1)
    }
}

pub open spec fn all_inherited(traces: Seq<Trace>, n: int) -> Seq<Inherited>
    decreases n,
{
    if n <= 0 {
        Seq::empty()
    } else {
        match inherited(traces[n - 1]) {
            Some(i) => all_inherited(traces, n - 1).push(i),
            None => all_inherited(traces, n - 1),
        }
    }
}

#[derive(Debug)]
pub struct InheritedRunners {
    pub runners: Vec<Inherited>,
}

impl InheritedRunners {
    /// The runners that are there before this manager starts any.
    pub fn capture(traces: &Vec<Trace>) -> (r: Self)
        ensures
            r.runners@ == all_inherited(traces@, traces@.len() as int),
    {
        let mut runners: Vec<Inherited> = Vec::new();
        let mut i: usize = 0;
        while i < traces.len()
            invariant
                i <= traces@.len(),
                runners@ == all_inherited(traces@, i as int),
            decreases traces@.len() - i,
        {
            match captured(&traces[i]) {
                Some(x) => {
                    runners.push(x);
                },
                None => {},
            }
            i += 1;
        }
        InheritedRunners { runners }
    }

    /// Whether a process may be waited for: only where it is the one that was found.
    pub fn is_same(&self, i: usize, started: Option<u64>) -> (r: bool)
        requires
            i < self.runners@.len(),
        ensures
            r == (started == Some(self.runners@[i as int].started)),
    {
        match started {
            Some(s) => s == self.runners[i].started,
            None => false,
        }
    }

    /// Lets go of the processes that are over or are not this manager's.
    pub fn reap(&mut self, sights: &Vec<Sight>)
        requires
            sights@.len() == old(self).runners@.len(),
        ensures
            final(self).runners@ == remaining(
                old(self).runners@,
                sights@,
                sights@.len() as int,
            ),
    {
        let mut out: Vec<Inherited> = Vec::new();
        let mut i: usize = 0;
        while i < sights.len()
            invariant
                i <= sights@.len(),
                sights@.len() == self.runners@.len(),
                out@ == remaining(self.runners@, sights@, i as int),
            decreases sights@.len() - i,
        {
            match sights[i] {
                Sight::Alive | Sight::Unclear => {
                    out.push(self.runners[i]);
                },
                _ => {},
            }
            i += 1;
        }
        self.runners = out;
    }
}

/// Burying adds no process: whatever is kept was found at the start.
pub proof fn law_only_captured_runners_are_reaped(runners: Seq<Inherited>, sights: Seq<Sight>, n: int, i: int)
    requires
        0 <= n <= runners.len(),
        sights.len() == runners.len(),
        0 <= i < remaining(runners, sights, n).len(),
    ensures
        exists|k: int|
            0 <= k < n && #[trigger] runners[k] == remaining(runners, sights, n)[i] && still_kept(
                sights[k],
            ),
    decreases n,
{
    let before = remaining(runners, sights, n - 1);
    if still_kept(sights[n - 1]) && i == before.len() {
        assert(runners[n - 1] == remaining(runners, sights, n)[i]);
    } else {
        law_only_captured_runners_are_reaped(runners, sights, n - 1, i);
        let k = choose|k: int|
            0 <= k < n - 1 && #[trigger] runners[k] == before[i] && still_kept(sights[k]);
        assert(runners[k] == remaining(runners, sights, n)[i]);
    }
}

/// A process is let go exactly where it is over or not this manager's: one that lives, or of
/// which nothing is known, is kept.
pub proof fn law_live_runners_are_kept(runners: Seq<Inherited>, sights: Seq<Sight>, n: int, k: int)
    requires
        0 <= k < n <= runners.len(),
        sights.len() == runners.len(),
        sights[k] is Alive || sights[k] is Unclear,
    ensures
        remaining(runners, sights, n).contains(runners[k]),
    decreases n,
{
    let now = remaining(runners, sights, n);
    if k == n - 1 {
        assert(now.last() == runners[k]);
    } else {
        law_live_runners_are_kept(runners, sights, n - 1, k);
        let before = remaining(runners, sights, n - 1);
        let i = before.index_of(runners[k]);
        assert(now[i] == runners[k]);
    }
}

/// Where all processes are over, gone, or not this manager's, none is kept.
pub proof fn law_what_is_over_is_let_go(runners: Seq<Inherited>, sights: Seq<Sight>, n: int)
    requires
        0 <= n <= runners.len(),
        sights.len() == runners.len(),
        forall|k: int|
            0 <= k < n ==> (#[trigger] sights[k]) is Ended || sights[k] is Replaced || sights[k] is NotAChild,
    ensures
        remaining(runners, sights, n).len() == 0,
    decreases n,
{
    if n > 0 {
        law_what_is_over_is_let_go(runners, sights, n - 1);
        assert(sights[n - 1] is Ended || sights[n - 1] is Replaced || sights[n - 1] is NotAChild);
    }
}

/// A trace leads to a process only where it is of that directory, names a process that is there,
/// and that process began when the runner did, where that is known.
pub proof fn law_traces_lead_to_their_runner(t: Trace)
    ensures
        inherited(t) matches Some(p) ==> {
            &&& opt_view(t.directory) == Some(t.metadata.name@)
            &&& p.pid == t.metadata.runner_pid && p.pid > 0
            &&& t.started == Some(p.started)
            &&& t.metadata.runner_start_time matches Some(s) ==> s == p.started
        },
        opt_view(t.directory) == Some(t.metadata.name@) && 0 < t.metadata.runner_pid <= 0x7fff_ffff && t.started
            is Some && t.metadata.runner_start_time == t.started ==> inherited(t) is Some,
{
}

/// Every trace that leads to a runner is followed, and none that does not.
pub proof fn law_every_runner_left_behind_is_found(traces: Seq<Trace>, n: int, k: int)
    requires
        0 <= k < n <= traces.len(),
    ensures
        inherited(traces[k]) matches Some(p) ==> all_inherited(traces, n).contains(p),
        all_inherited(traces, n).len() <= n,
    decreases n,
{
    let now = all_inherited(traces, n);
    let before = all_inherited(traces, n - 1);
    if n > 1 {
        law_every_runner_left_behind_is_found(traces, n - 1, if k < n - 1 { k } else { 0 });
    } else {
        assert(all_inherited(traces, 0).len() == 0);
    }
    if inherited(traces[k]) is Some {
        let p = inherited(traces[k])->0;
        if k == n - 1 {
            assert(now.last() == p);
        } else {
            let i = before.index_of(p);
            assert(now[i] == p);
        }
    }
}

} // verus!

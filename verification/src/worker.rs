//! What a worker is told and what it reports.
use crate::protocol::Target;
use vstd::prelude::*;

pub mod runtime;

verus! {

pub const BACKOFF_BASE_MILLIS: u64 = 250;

pub const BACKOFF_MAX_MILLIS: u64 = 30_000;

pub const WORKER_EVENT_CAPACITY: usize = 256;

/// What happened to a service. Delays are in milliseconds.
#[derive(Debug)]
pub enum WorkerEvent {
    Starting { name: String, persist_logs: bool },
    Started { name: String, pid: u32, tty: bool },
    Output { name: String, bytes: Vec<u8> },
    Exited { name: String, code: Option<i32>, success: bool },
    Restarting { name: String, delay: u64 },
    Stopped { name: String },
    Failed { name: String, error: String },
    AttachChanged { name: String, active: bool },
}

/// `2` to the power of `n`.
pub open spec fn doubled(n: nat) -> nat
    decreases n,
{
    if n == 0 { 1 } else { 2 * doubled((n - 1) as nat) }
}

/// How long to wait before the next start: a quarter of a second after the first attempt, twice
/// as long after each further one, thirty seconds at most.
pub open spec fn backoff_millis(attempt: u32) -> int {
    let n = if attempt <= 1 { 0 } else if attempt >= 8 { 7 } else { attempt - 1 };
    let d = BACKOFF_BASE_MILLIS * doubled(n as nat);
    if d > BACKOFF_MAX_MILLIS { BACKOFF_MAX_MILLIS as int } else { d }
}

/// The delay before the next start, in milliseconds.
pub fn backoff(attempt: u32) -> (r: u64)
    ensures
        r == backoff_millis(attempt),
{
    let n: u32 = if attempt <= 1 { 0 } else if attempt >= 8 { 7 } else { attempt - 1 };
    let mut delay: u64 = BACKOFF_BASE_MILLIS;
    let mut i: u32 = 0;
    while i < n
        invariant
            i <= n <= 7,
            delay == BACKOFF_BASE_MILLIS * doubled(i as nat),
            delay <= 250 * 128,
            i == 0 ==> delay == 250,
            i == 1 ==> delay == 500,
            i == 2 ==> delay == 1000,
            i == 3 ==> delay == 2000,
            i == 4 ==> delay == 4000,
            i == 5 ==> delay == 8000,
            i == 6 ==> delay == 16000,
        decreases n - i,
    {
        assert(doubled((i + 1) as nat) == 2 * doubled(i as nat));
        assert(BACKOFF_BASE_MILLIS * (2 * doubled(i as nat)) == 2 * (BACKOFF_BASE_MILLIS * doubled(i as nat))) by (nonlinear_arith);
        delay = delay * 2;
        i += 1;
    }
    if delay > BACKOFF_MAX_MILLIS {
        BACKOFF_MAX_MILLIS
    } else {
        delay
    }
}

/// A later attempt never waits less, and no attempt waits longer than the longest delay.
pub proof fn law_backoff_grows(a: u32, b: u32)
    requires
        a <= b,
    ensures
        backoff_millis(a) <= backoff_millis(b) <= BACKOFF_MAX_MILLIS,
        backoff_millis(a) >= BACKOFF_BASE_MILLIS,
{
    reveal_with_fuel(doubled, 8);
}

/// The first delay is a quarter of a second, and each further one is twice the one before it, up
/// to half a minute.
pub proof fn law_delays_double(attempt: u32)
    requires
        1 <= attempt < u32::MAX,
    ensures
        backoff_millis(0) == 250,
        backoff_millis(1) == 250,
        2 * backoff_millis(attempt) <= 30_000 ==> backoff_millis((attempt + 1) as u32) == 2 * backoff_millis(
            attempt,
        ),
        2 * backoff_millis(attempt) > 30_000 ==> backoff_millis((attempt + 1) as u32) == 30_000,
{
    reveal_with_fuel(doubled, 9);
}

pub fn target_name(target: &Target) -> (r: Option<&String>)
    ensures
        match *target {
            Target::Name(n) => r == Some(&n),
            Target::Directory(_) => r is None,
        },
{
    match target {
        Target::Name(name) => Some(name),
        Target::Directory(_) => None,
    }
}

} // verus!

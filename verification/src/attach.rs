//! A session with a service: the warning where there can be none, what is done with what is
//! typed, and how the size of the terminal is passed on.
use crate::client::AttachUnavailable;
use crate::text::{cat2, cat4, debug_form, debug_text, decimal, decimal_text, integer_form, integer_text, is_trim_of, lemma_trim_unique, same, trim};
use vstd::prelude::*;
use vstd::string::StringExecFns;

verus! {

pub open spec fn warning_text(name: Seq<char>, failures: u32, seconds: u64) -> Seq<char> {
    "warning: service "@ + debug_form(name) + " is not running after "@ + decimal(failures as nat)
        + " failures in "@ + decimal(seconds as nat) + " seconds"@
}

/// What is said about a service that keeps failing.
pub fn crash_warning(unavailable: &AttachUnavailable) -> (r: String)
    ensures
        r@ == warning_text(
            unavailable.name@,
            unavailable.recent_failures,
            unavailable.window_seconds,
        ),
{
    let name = debug_text(unavailable.name.as_str());
    let failures = decimal_text(unavailable.recent_failures as u64);
    let seconds = decimal_text(unavailable.window_seconds);
    let mut text = cat4(
        "warning: service ",
        name.as_str(),
        " is not running after ",
        failures.as_str(),
    );
    text.append(" failures in ");
    text.append(seconds.as_str());
    text.append(" seconds");
    text
}

/// What a failed attach leads to.
#[derive(Debug)]
pub enum FailedAttach {
    /// There is no log to look at.
    NoLog { warning: String },
    /// The log is named, and where somebody is there to answer, offered.
    Log { warning: String, path: String, ask: bool },
}

/// What is said where attaching was not possible.
pub fn direct_failure(unavailable: &AttachUnavailable, interactive: bool) -> (r: FailedAttach)
    ensures
        ({
            let text = warning_text(
                unavailable.name@,
                unavailable.recent_failures,
                unavailable.window_seconds,
            );
            match unavailable.latest_log {
                None => r matches FailedAttach::NoLog { warning } && warning@ == text,
                Some(p) => r matches FailedAttach::Log { warning, path, ask } && warning@ == text
                    && path@ == p@ && ask == interactive,
            }
        }),
{
    let warning = crash_warning(unavailable);
    match &unavailable.latest_log {
        None => FailedAttach::NoLog { warning },
        Some(path) => FailedAttach::Log { warning, path: path.clone(), ask: interactive },
    }
}

/// Whether an answer is yes. Space around it does not matter.
pub open spec fn says_yes(answer: Seq<char>) -> bool {
    is_trim_of("y"@, answer) || is_trim_of("Y"@, answer)
}

pub fn is_affirmative(answer: &str) -> (r: bool)
    ensures
        r == says_yes(answer@),
{
    let word = trim(answer);
    let r = same(word.as_str(), "y") || same(word.as_str(), "Y");
    proof {
        if is_trim_of("y"@, answer@) {
            lemma_trim_unique("y"@, word@, answer@);
        }
        if is_trim_of("Y"@, answer@) {
            lemma_trim_unique("Y"@, word@, answer@);
        }
    }
    r
}

/// Whether a session is one with a terminal on both sides.
pub fn is_interactive(stream: bool, no_stdin: bool, stdin_terminal: bool, stdout_terminal: bool) -> (r: bool)
    ensures
        r == (!stream && !no_stdin && stdin_terminal && stdout_terminal),
{
    !stream && !no_stdin && stdin_terminal && stdout_terminal
}

/// The first wait before another connection, in milliseconds.
pub const BASE_RETRY_MILLIS: u64 = 250;

/// The longest wait, in milliseconds.
pub const MAX_RETRY_MILLIS: u64 = 5_000;

/// Passes the size of the terminal on, over a connection of its own. Times are in milliseconds.
#[derive(Debug, Clone, Copy)]
pub struct ResizeController {
    pub connected: bool,
    pub current_size: Option<(u16, u16)>,
    pub applied_size: Option<(u16, u16)>,
    pub retry_at: u64,
    pub retry_delay: u64,
}

#[derive(Debug, Clone, Copy)]
pub enum ResizeStep {
    Idle,
    Connect,
    Send { cols: u16, rows: u16 },
}

/// The size that counts: the last one that was not empty.
pub open spec fn seen_size(before: Option<(u16, u16)>, size: Option<(u16, u16)>) -> Option<(u16, u16)> {
    match size {
        Some(s) => if s.0 > 0 && s.1 > 0 { size } else { before },
        None => before,
    }
}

/// What is done about a size.
pub open spec fn resize_step(c: ResizeController, now: u64) -> ResizeStep {
    match c.current_size {
        None => ResizeStep::Idle,
        Some(s) => if !c.connected {
            if now < c.retry_at { ResizeStep::Idle } else { ResizeStep::Connect }
        } else if c.applied_size == c.current_size {
            ResizeStep::Idle
        } else {
            ResizeStep::Send { cols: s.0, rows: s.1 }
        },
    }
}

/// After a failure the next try comes later, twice as late each time, up to a limit.
pub open spec fn postponed(c: ResizeController, now: u64) -> ResizeController {
    ResizeController {
        retry_at: if now + c.retry_delay > u64::MAX { u64::MAX } else {
            (now + c.retry_delay) as u64
        },
        retry_delay: if 2 * c.retry_delay < MAX_RETRY_MILLIS {
            (2 * c.retry_delay) as u64
        } else {
            MAX_RETRY_MILLIS
        },
        ..c
    }
}

/// The controller once a connection was tried.
pub open spec fn after_connecting(c: ResizeController, ok: bool, now: u64) -> ResizeController {
    if ok {
        ResizeController { connected: true, applied_size: None, retry_delay: BASE_RETRY_MILLIS, ..c }
    } else {
        postponed(c, now)
    }
}

/// The controller once a size was sent.
pub open spec fn after_sending(c: ResizeController, cols: u16, rows: u16, ok: bool, now: u64) -> ResizeController {
    if ok {
        ResizeController { applied_size: Some((cols, rows)), retry_delay: BASE_RETRY_MILLIS, ..c }
    } else {
        postponed(ResizeController { connected: false, ..c }, now)
    }
}

impl ResizeController {
    pub fn new(now: u64) -> (r: Self)
        ensures
            r == (ResizeController {
                connected: false,
                current_size: None,
                applied_size: None,
                retry_at: now,
                retry_delay: BASE_RETRY_MILLIS,
            }),
    {
        ResizeController {
            connected: false,
            current_size: None,
            applied_size: None,
            retry_at: now,
            retry_delay: BASE_RETRY_MILLIS,
        }
    }

    fn next(&self, now: u64) -> (r: ResizeStep)
        ensures
            r == resize_step(*self, now),
    {
        match self.current_size {
            None => ResizeStep::Idle,
            Some((cols, rows)) => {
                if !self.connected {
                    return if now < self.retry_at { ResizeStep::Idle } else { ResizeStep::Connect };
                }
                let applied = match self.applied_size {
                    Some((c, w)) => c == cols && w == rows,
                    None => false,
                };
                if applied {
                    ResizeStep::Idle
                } else {
                    ResizeStep::Send { cols, rows }
                }
            },
        }
    }

    /// Looks at the size of the terminal, where it is known. Says what is to be done.
    pub fn sync(&mut self, size: Option<(u16, u16)>, now: u64) -> (r: ResizeStep)
        ensures
            *final(self) == (ResizeController {
                current_size: seen_size(old(self).current_size, size),
                ..*old(self)
            }),
            r == resize_step(*final(self), now),
    {
        match size {
            Some((cols, rows)) => {
                if cols > 0 && rows > 0 {
                    self.current_size = Some((cols, rows));
                }
            },
            None => {},
        }
        self.next(now)
    }

    fn schedule_retry(&mut self, now: u64)
        ensures
            *final(self) == postponed(*old(self), now),
    {
        self.retry_at = now.saturating_add(self.retry_delay);
        let doubled = self.retry_delay.saturating_add(self.retry_delay);
        self.retry_delay = if doubled < MAX_RETRY_MILLIS { doubled } else { MAX_RETRY_MILLIS };
    }

    /// A connection was tried. With one, the size is sent in any case.
    pub fn connected(&mut self, ok: bool, now: u64) -> (r: ResizeStep)
        ensures
            *final(self) == (if ok {
                ResizeController {
                    connected: true,
                    applied_size: None,
                    retry_delay: BASE_RETRY_MILLIS,
                    ..*old(self)
                }
            } else {
                postponed(*old(self), now)
            }),
            r == (if ok { resize_step(*final(self), now) } else { ResizeStep::Idle }),
            *final(self) == after_connecting(*old(self), ok, now),
    {
        if ok {
            self.connected = true;
            self.applied_size = None;
            self.retry_delay = BASE_RETRY_MILLIS;
            self.next(now)
        } else {
            self.schedule_retry(now);
            ResizeStep::Idle
        }
    }

    /// A size was sent. Where that failed, the connection is given up.
    pub fn sent(&mut self, cols: u16, rows: u16, ok: bool, now: u64)
        ensures
            *final(self) == (if ok {
                ResizeController {
                    applied_size: Some((cols, rows)),
                    retry_delay: BASE_RETRY_MILLIS,
                    ..*old(self)
                }
            } else {
                postponed(ResizeController { connected: false, ..*old(self) }, now)
            }),
            *final(self) == after_sending(*old(self), cols, rows, ok, now),
    {
        if ok {
            self.applied_size = Some((cols, rows));
            self.retry_delay = BASE_RETRY_MILLIS;
        } else {
            self.connected = false;
            self.schedule_retry(now);
        }
    }
}

/// However often it fails, the next try is never more than the longest wait away, and the wait
/// never shrinks.
pub proof fn law_retries_stay_near(c: ResizeController, now: u64)
    requires
        BASE_RETRY_MILLIS <= c.retry_delay <= MAX_RETRY_MILLIS,
    ensures
        BASE_RETRY_MILLIS <= postponed(c, now).retry_delay <= MAX_RETRY_MILLIS,
        postponed(c, now).retry_delay >= c.retry_delay,
        postponed(c, now).retry_at <= now + MAX_RETRY_MILLIS,
{
}

/// A size that was taken is not sent again.
pub proof fn law_applied_size_rests(c: ResizeController, now: u64)
    requires
        c.connected,
        c.applied_size == c.current_size,
    ensures
        resize_step(c, now) is Idle,
{
}

/// What is done with what was typed.
#[derive(Debug, Clone, Copy, PartialEq, Eq, Structural)]
pub enum InputStep {
    /// It goes to the service.
    Send,
    /// The session ends; the service is left alone.
    Leave,
    /// Nothing more will be typed, but the session goes on.
    StopReading,
}

pub open spec fn has_interrupt(bytes: Seq<u8>) -> bool {
    exists|i: int| 0 <= i < bytes.len() && #[trigger] bytes[i] == 3
}

pub open spec fn input_choice(bytes: Seq<u8>, interactive: bool) -> InputStep {
    if bytes.len() == 0 {
        if interactive { InputStep::Leave } else { InputStep::StopReading }
    } else if interactive && has_interrupt(bytes) {
        InputStep::Leave
    } else {
        InputStep::Send
    }
}

/// What comes from a terminal is passed on unless it holds an interrupt or is the end; what comes
/// from elsewhere is passed on whatever it holds, and its end leaves the session as it is.
pub proof fn law_what_is_typed_reaches_the_service(bytes: Seq<u8>, interactive: bool)
    ensures
        input_choice(bytes, interactive) is Send <==> bytes.len() > 0 && !(interactive && bytes.contains(3)),
        input_choice(bytes, interactive) is Leave <==> interactive && (bytes.len() == 0 || bytes.contains(3)),
        input_choice(bytes, interactive) is StopReading <==> !interactive && bytes.len() == 0,
{
    if has_interrupt(bytes) {
        let i = choose|i: int| 0 <= i < bytes.len() && #[trigger] bytes[i] == 3;
        assert(bytes[i] == 3);
    }
}

/// It makes no difference whether it was typed at once: a session is left exactly where one of
/// the pieces ends it.
pub proof fn law_typing_in_pieces(a: Seq<u8>, b: Seq<u8>, interactive: bool)
    requires
        a.len() > 0,
        b.len() > 0,
    ensures
        input_choice(a + b, interactive) is Leave <==> input_choice(a, interactive) is Leave || input_choice(
            b,
            interactive,
        ) is Leave,
        input_choice(a + b, interactive) is Send <==> input_choice(a, interactive) is Send && input_choice(
            b,
            interactive,
        ) is Send,
{
    let c = a + b;
    if has_interrupt(a) {
        let i = choose|i: int| 0 <= i < a.len() && #[trigger] a[i] == 3;
        assert(c[i] == 3);
    }
    if has_interrupt(b) {
        let i = choose|i: int| 0 <= i < b.len() && #[trigger] b[i] == 3;
        assert(c[a.len() + i] == 3);
    }
    if has_interrupt(c) {
        let i = choose|i: int| 0 <= i < c.len() && #[trigger] c[i] == 3;
        if i < a.len() {
            assert(a[i] == 3);
        } else {
            assert(b[i - a.len()] == 3);
        }
    }
}

/// The size of the terminal reaches the service: as soon as it is time a connection is tried,
/// over a new connection the size is sent, and it is sent again whenever it changes. Once it was
/// taken, all rests.
pub proof fn law_the_size_is_passed_on(c: ResizeController, size: (u16, u16), now: u64, later: u64)
    requires
        size.0 > 0 && size.1 > 0,
    ensures
        ({
            let seen = ResizeController { current_size: seen_size(c.current_size, Some(size)), ..c };
            let joined = after_connecting(seen, true, now);
            let done = after_sending(joined, size.0, size.1, true, now);
            &&& seen.current_size == Some(size)
            &&& !c.connected && now >= c.retry_at ==> resize_step(seen, now) is Connect
            &&& !c.connected && now < c.retry_at ==> resize_step(seen, now) is Idle
            &&& c.connected && c.applied_size != Some(size) ==> resize_step(seen, now) == (ResizeStep::Send {
                cols: size.0,
                rows: size.1,
            })
            &&& resize_step(joined, now) == (ResizeStep::Send { cols: size.0, rows: size.1 })
            &&& resize_step(done, later) is Idle
            &&& done.current_size == Some(size)
        }),
        seen_size(c.current_size, None) == c.current_size,
        seen_size(c.current_size, Some((0, size.1))) == c.current_size,
        seen_size(c.current_size, Some((size.0, 0))) == c.current_size,
{
}

/// After a failure the size is not forgotten: nothing is tried before the wait is over, and then
/// a connection is tried again. The waits are a quarter of a second, a half, and so on, and five
/// seconds at most; a success brings the first one back.
pub proof fn law_failures_are_tried_again(c: ResizeController, cols: u16, rows: u16, now: u64, later: u64)
    requires
        c.current_size is Some,
        c.retry_delay <= 5_000,
        now <= u64::MAX - 5_000,
    ensures
        ({
            let lost = after_sending(c, cols, rows, false, now);
            &&& !lost.connected
            &&& lost.current_size == c.current_size
            &&& lost.retry_at == now + c.retry_delay
            &&& lost.retry_delay == if 2 * c.retry_delay < 5_000 {
                2 * c.retry_delay
            } else {
                5_000
            }
            &&& later < now + c.retry_delay ==> resize_step(lost, later) is Idle
            &&& later >= now + c.retry_delay ==> resize_step(lost, later) is Connect
        }),
        ({
            let failed = after_connecting(ResizeController { connected: false, ..c }, false, now);
            &&& !failed.connected
            &&& failed.retry_at == now + c.retry_delay
            &&& later < now + c.retry_delay ==> resize_step(failed, later) is Idle
            &&& later >= now + c.retry_delay ==> resize_step(failed, later) is Connect
        }),
        after_connecting(c, true, now).retry_delay == 250,
        after_sending(c, cols, rows, true, now).retry_delay == 250,
{
}

/// What is done with what was typed. An interrupt from a terminal ends the session and is not
/// passed on; the end of the input ends it there too.
pub fn input_step(bytes: &Vec<u8>, interactive: bool) -> (r: InputStep)
    ensures
        r == (if bytes@.len() == 0 {
            if interactive { InputStep::Leave } else { InputStep::StopReading }
        } else if interactive && has_interrupt(bytes@) {
            InputStep::Leave
        } else {
            InputStep::Send
        }),
        r == input_choice(bytes@, interactive),
{
    if bytes.len() == 0 {
        return if interactive { InputStep::Leave } else { InputStep::StopReading };
    }
    if !interactive {
        return InputStep::Send;
    }
    let mut i: usize = 0;
    while i < bytes.len()
        invariant
            i <= bytes@.len(),
            interactive,
            bytes@.len() > 0,
            forall|k: int| 0 <= k < i ==> #[trigger] bytes@[k] != 3,
        decreases bytes@.len() - i,
    {
        if bytes[i] == 3 {
            assert(bytes@[i as int] == 3);
            return InputStep::Leave;
        }
        i += 1;
    }
    InputStep::Send
}

/// A session that the signal of that number has ended.
#[derive(Debug, Clone, Copy, PartialEq, Eq, Structural)]
pub struct Interrupted(pub i32);

impl Interrupted {
    pub fn message(self) -> (r: String)
        ensures
            r@ == "attach interrupted by signal "@ + integer_form(self.0 as int),
    {
        let n = integer_text(self.0);
        cat2("attach interrupted by signal ", n.as_str())
    }
}

/// The status that a program ends with which a signal has ended.
pub fn interrupted_status(signal: i32) -> (r: i32)
    requires
        0 <= signal <= 127,
    ensures
        r == 128 + signal,
{
    128 + signal
}

} // verus!

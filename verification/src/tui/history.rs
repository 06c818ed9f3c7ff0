//! Reading what runs have written: the list of runs, and the text of one, which is fetched in
//! pieces as far as it is looked at.
use crate::logs::store::DEFAULT_CHUNK_LIMIT;
use crate::protocol::{HistoryRecord, Request, Response, Target};
use crate::text::views;
use crate::tui::keys::{sat_sub, scrolled, KeyCode};
use crate::tui::layout::{lines_of, text_lines};
use crate::tui::model::{back, reader_opt, HistoryView, Reader, ReaderView, Tone};
use crate::tui::view::{body_rows, rows_of};
use crate::tui::widget::{Footer, Size};
use vstd::prelude::*;
use vstd::string::StringExecFns;

verus! {

#[verifier::ext_equal]
pub struct OutputView {
    pub id: Seq<char>,
    pub content: Seq<char>,
    pub offset: u64,
    pub eof: bool,
    pub total_lines: u64,
    pub scroll: u64,
}

impl View for HistoryView {
    type V = OutputView;

    open spec fn view(&self) -> OutputView {
        OutputView {
            id: self.id@,
            content: self.content@,
            offset: self.offset,
            eof: self.eof,
            total_lines: self.total_lines,
            scroll: self.scroll,
        }
    }
}

pub open spec fn unread(id: Seq<char>) -> OutputView {
    OutputView { id, content: Seq::empty(), offset: 0, eof: false, total_lines: 0, scroll: 0 }
}

/// The place held within the lines that there are.
pub open spec fn clamped(v: OutputView) -> OutputView {
    OutputView {
        scroll: if v.total_lines == 0 {
            0
        } else if v.scroll >= v.total_lines {
            (v.total_lines - 1) as u64
        } else {
            v.scroll
        },
        ..v
    }
}

/// The last line is shown.
pub open spec fn at_end(v: OutputView) -> OutputView {
    OutputView { scroll: if v.total_lines == 0 { 0 } else { (v.total_lines - 1) as u64 }, ..v }
}

/// Whether more has to be fetched: fewer than twelve lines are left behind the place.
pub open spec fn wants_more(v: OutputView) -> bool {
    !v.eof && v.scroll + 12 >= lines_of(v.content).len()
}

/// What a reply makes of the text that has been read.
pub open spec fn read_on(v: OutputView, reply: Result<Response, String>) -> Result<OutputView, Seq<char>> {
    match reply {
        Err(e) => Err(e@),
        Ok(Response::HistoryChunk { next_offset, total_lines, eof, content, .. }) => {
            if next_offset <= v.offset && !eof {
                Err("history reader made no progress"@)
            } else {
                Ok(
                    clamped(
                        OutputView {
                            content: v.content + content@,
                            offset: next_offset,
                            total_lines,
                            eof,
                            ..v
                        },
                    ),
                )
            }
        },
        Ok(_) => Err("unexpected manager response"@),
    }
}

pub fn clamp_history_scroll(view: &mut HistoryView)
    ensures
        final(view)@ == clamped(old(view)@),
{
    if view.total_lines == 0 {
        view.scroll = 0;
    } else if view.scroll > view.total_lines - 1 {
        view.scroll = view.total_lines - 1;
    }
}

/// Takes in a reply with the next piece of the text.
pub fn load_history_chunk(view: &mut HistoryView, reply: Result<Response, String>) -> (r: Result<(), String>)
    ensures
        match read_on(old(view)@, reply) {
            Ok(v) => r is Ok && final(view)@ == v,
            Err(e) => r is Err && r->Err_0@ == e && final(view)@ == old(view)@,
        },
{
    match reply {
        Err(e) => Err(e),
        Ok(
            Response::HistoryChunk {
                service: _,
                id: _,
                offset: _,
                next_offset,
                total: _,
                total_lines,
                eof,
                content,
            },
        ) => {
            if next_offset <= view.offset && !eof {
                return Err("history reader made no progress".to_owned());
            }
            view.content.append(content.as_str());
            view.offset = next_offset;
            view.total_lines = total_lines;
            view.eof = eof;
            clamp_history_scroll(view);
            Ok(())
        },
        Ok(_) => Err("unexpected manager response".to_owned()),
    }
}

/// Whether more of the text has to be fetched before it is shown.
pub fn needs_chunk(view: &HistoryView) -> (r: bool)
    ensures
        r == wants_more(view@),
{
    if view.eof {
        return false;
    }
    let lines = text_lines(view.content.as_str());
    assert(views(lines@).len() == lines@.len());
    view.scroll.saturating_add(12) >= lines.len() as u64
}

/// What a piece is fetched for.
#[derive(Debug)]
pub enum Goal {
    /// To have something to show below.
    More,
    /// To come to the end, however many pieces that takes.
    End,
    /// To begin with a run.
    First(String),
}

pub enum GoalView {
    More,
    End,
    First(Seq<char>),
}

impl View for Goal {
    type V = GoalView;

    open spec fn view(&self) -> GoalView {
        match self {
            Goal::More => GoalView::More,
            Goal::End => GoalView::End,
            Goal::First(id) => GoalView::First(id@),
        }
    }
}

#[derive(Debug)]
pub enum HistoryStep {
    Stay,
    Leave,
    Fetch(Goal),
}

pub enum HistoryStepView {
    Stay,
    Leave,
    Fetch(GoalView),
}

impl View for HistoryStep {
    type V = HistoryStepView;

    open spec fn view(&self) -> HistoryStepView {
        match self {
            HistoryStep::Stay => HistoryStepView::Stay,
            HistoryStep::Leave => HistoryStepView::Leave,
            HistoryStep::Fetch(goal) => HistoryStepView::Fetch(goal@),
        }
    }
}

#[derive(Debug)]
pub struct HistoryUi {
    pub records: Vec<HistoryRecord>,
    pub selected: usize,
    pub view: Option<HistoryView>,
    pub help: Option<Reader>,
    pub message: Option<Reader>,
}

#[verifier::ext_equal]
pub struct HistoryState {
    pub selected: usize,
    pub view: Option<OutputView>,
    pub help: Option<ReaderView>,
    pub message: Option<ReaderView>,
}

pub open spec fn output_opt(v: Option<HistoryView>) -> Option<OutputView> {
    match v {
        Some(v) => Some(v@),
        None => None,
    }
}

pub open spec fn failure(text: Seq<char>) -> Option<ReaderView> {
    Some(ReaderView { tone: Tone::Error, title: "History failed"@, content: text, scroll: 0 })
}

pub open spec fn history_help(reading: bool) -> Seq<char> {
    if reading {
        "Up/Down, j/k  Scroll logical lines\nPgUp/PgDn  Page\ng/Home  First line\nG/End  Last line\nEsc/q  Back to history\n\nPosition counts logical lines, not wrapped rows."@
    } else {
        "Up/Down, j/k  Select run\nEnter  Read output\nEsc/q  Back to service\n\ndisk: persistent log\nmemory: bounded in-memory history"@
    }
}

pub open spec fn with_view(s: HistoryState, v: OutputView) -> HistoryState {
    HistoryState { view: Some(v), ..s }
}

/// Going down: more is fetched where too little is left.
pub open spec fn gone_down(s: HistoryState, v: OutputView, by: u64) -> (HistoryState, HistoryStepView) {
    let lower = OutputView {
        scroll: if v.scroll + by > u64::MAX { u64::MAX } else { (v.scroll + by) as u64 },
        ..v
    };
    if wants_more(lower) {
        (with_view(s, lower), HistoryStepView::Fetch(GoalView::More))
    } else {
        (with_view(s, clamped(lower)), HistoryStepView::Stay)
    }
}

pub open spec fn gone_up(v: OutputView, by: u64) -> OutputView {
    OutputView { scroll: if v.scroll < by { 0 } else { (v.scroll - by) as u64 }, ..v }
}

/// What a key does while a text is read.
pub open spec fn reading_key(s: HistoryState, v: OutputView, key: KeyCode, rows: usize) -> (
    HistoryState,
    HistoryStepView,
) {
    if back(key) {
        (HistoryState { view: None, ..s }, HistoryStepView::Stay)
    } else {
        match key {
            KeyCode::Up => (with_view(s, gone_up(v, 1)), HistoryStepView::Stay),
            KeyCode::Char('k') => (with_view(s, gone_up(v, 1)), HistoryStepView::Stay),
            KeyCode::Down => gone_down(s, v, 1),
            KeyCode::Char('j') => gone_down(s, v, 1),
            KeyCode::PageUp => (with_view(s, gone_up(v, rows as u64)), HistoryStepView::Stay),
            KeyCode::PageDown => gone_down(s, v, rows as u64),
            KeyCode::Home => (with_view(s, OutputView { scroll: 0, ..v }), HistoryStepView::Stay),
            KeyCode::Char('g') => (with_view(s, OutputView { scroll: 0, ..v }), HistoryStepView::Stay),
            KeyCode::End => to_the_end(s, v),
            KeyCode::Char('G') => to_the_end(s, v),
            _ => (s, HistoryStepView::Stay),
        }
    }
}

pub open spec fn to_the_end(s: HistoryState, v: OutputView) -> (HistoryState, HistoryStepView) {
    if v.eof {
        (with_view(s, at_end(v)), HistoryStepView::Stay)
    } else {
        (s, HistoryStepView::Fetch(GoalView::End))
    }
}

/// What a key does in the list of runs.
pub open spec fn choosing_key(s: HistoryState, records: Seq<HistoryRecord>, key: KeyCode) -> (
    HistoryState,
    HistoryStepView,
) {
    if back(key) {
        (s, HistoryStepView::Leave)
    } else {
        match key {
            KeyCode::Up => (
                HistoryState { selected: sat_sub(s.selected, 1), ..s },
                HistoryStepView::Stay,
            ),
            KeyCode::Char('k') => (
                HistoryState { selected: sat_sub(s.selected, 1), ..s },
                HistoryStepView::Stay,
            ),
            KeyCode::Down => (one_down(s, records), HistoryStepView::Stay),
            KeyCode::Char('j') => (one_down(s, records), HistoryStepView::Stay),
            KeyCode::Enter => if s.selected < records.len() {
                (
                    s,
                    HistoryStepView::Fetch(GoalView::First(records[s.selected as int].id@)),
                )
            } else {
                (s, HistoryStepView::Stay)
            },
            _ => (s, HistoryStepView::Stay),
        }
    }
}

pub open spec fn one_down(s: HistoryState, records: Seq<HistoryRecord>) -> HistoryState {
    if records.len() == 0 {
        s
    } else if s.selected + 1 < records.len() {
        HistoryState { selected: (s.selected + 1) as usize, ..s }
    } else {
        HistoryState { selected: (records.len() - 1) as usize, ..s }
    }
}

/// What a key does.
pub open spec fn history_key(
    s: HistoryState,
    records: Seq<HistoryRecord>,
    key: KeyCode,
    release: bool,
    control: bool,
    usable: bool,
    rows: usize,
) -> (HistoryState, HistoryStepView) {
    if release {
        (s, HistoryStepView::Stay)
    } else if key == KeyCode::Char('c') && control {
        (s, HistoryStepView::Leave)
    } else if !usable && !back(key) {
        (s, HistoryStepView::Stay)
    } else if s.help is Some {
        if back(key) || key == KeyCode::Char('?') {
            (HistoryState { help: None, ..s }, HistoryStepView::Stay)
        } else {
            let h = s.help->0;
            (
                HistoryState {
                    help: Some(ReaderView { scroll: scrolled(h.scroll, key, rows), ..h }),
                    ..s
                },
                HistoryStepView::Stay,
            )
        }
    } else if s.message is Some {
        if back(key) {
            (HistoryState { message: None, ..s }, HistoryStepView::Stay)
        } else {
            let m = s.message->0;
            (
                HistoryState {
                    message: Some(ReaderView { scroll: scrolled(m.scroll, key, rows), ..m }),
                    ..s
                },
                HistoryStepView::Stay,
            )
        }
    } else if key == KeyCode::Char('?') {
        (
            HistoryState {
                help: Some(
                    ReaderView {
                        tone: Tone::Accent,
                        title: "History / help"@,
                        content: history_help(s.view is Some),
                        scroll: 0,
                    },
                ),
                ..s
            },
            HistoryStepView::Stay,
        )
    } else if s.view is Some {
        reading_key(s, s.view->0, key, rows)
    } else {
        choosing_key(s, records, key)
    }
}

/// What a piece that was fetched does. Where it was not to be had, a message says so.
pub open spec fn after_fetch(s: HistoryState, goal: GoalView, reply: Result<Response, String>) -> (
    HistoryState,
    HistoryStepView,
) {
    match goal {
        GoalView::First(id) => match read_on(unread(id), reply) {
            Ok(v) => (with_view(s, v), HistoryStepView::Stay),
            Err(e) => (HistoryState { message: failure(e), ..s }, HistoryStepView::Stay),
        },
        GoalView::More => match s.view {
            Some(v) => match read_on(v, reply) {
                Ok(v) => (with_view(s, clamped(v)), HistoryStepView::Stay),
                Err(e) => (
                    HistoryState { view: Some(clamped(v)), message: failure(e), ..s },
                    HistoryStepView::Stay,
                ),
            },
            None => (s, HistoryStepView::Stay),
        },
        GoalView::End => match s.view {
            Some(v) => match read_on(v, reply) {
                Ok(v) => if v.eof {
                    (with_view(s, at_end(v)), HistoryStepView::Stay)
                } else {
                    (with_view(s, v), HistoryStepView::Fetch(GoalView::End))
                },
                Err(e) => (
                    HistoryState { view: Some(at_end(v)), message: failure(e), ..s },
                    HistoryStepView::Stay,
                ),
            },
            None => (s, HistoryStepView::Stay),
        },
    }
}

/// What the rows of a screen are counted by.
pub open spec fn history_rows(s: HistoryState, records: usize, size: Size) -> usize {
    if s.help is Some {
        rows_of(size, Footer::Help, None)
    } else if s.message is Some {
        rows_of(size, Footer::Error, None)
    } else if s.view is Some {
        rows_of(size, Footer::Content, None)
    } else {
        rows_of(size, Footer::History, Some(records))
    }
}

impl HistoryUi {
    pub open spec fn state(&self) -> HistoryState {
        HistoryState {
            selected: self.selected,
            view: output_opt(self.view),
            help: reader_opt(self.help),
            message: reader_opt(self.message),
        }
    }

    /// Begins with what the manager answered when it was asked for the runs.
    pub fn open(reply: Response) -> (r: Result<Self, String>)
        ensures
            match reply {
                Response::HistoryList { records, .. } => r is Ok && r->Ok_0.records == records
                    && r->Ok_0.state() == (HistoryState {
                    selected: 0,
                    view: None,
                    help: None,
                    message: None,
                }),
                _ => r is Err && r->Err_0@ == "unexpected manager response"@,
            },
    {
        match reply {
            Response::HistoryList { service: _, records } => Ok(
                HistoryUi { records, selected: 0, view: None, help: None, message: None },
            ),
            _ => Err("unexpected manager response".to_owned()),
        }
    }

    pub fn rows(&self, size: Size) -> (r: usize)
        ensures
            r == history_rows(self.state(), self.records.len(), size),
    {
        if self.help.is_some() {
            body_rows(size, Footer::Help, None)
        } else if self.message.is_some() {
            body_rows(size, Footer::Error, None)
        } else if self.view.is_some() {
            body_rows(size, Footer::Content, None)
        } else {
            body_rows(size, Footer::History, Some(self.records.len()))
        }
    }

    fn go_down(&mut self, view: HistoryView, by: u64) -> (r: HistoryStep)
        ensures
            final(self).records == old(self).records,
            (final(self).state(), r@) == gone_down(old(self).state(), view@, by),
    {
        let mut view = view;
        view.scroll = view.scroll.saturating_add(by);
        if needs_chunk(&view) {
            self.view = Some(view);
            HistoryStep::Fetch(Goal::More)
        } else {
            clamp_history_scroll(&mut view);
            self.view = Some(view);
            HistoryStep::Stay
        }
    }

    fn read_key(&mut self, view: HistoryView, key: KeyCode, rows: usize) -> (r: HistoryStep)
        requires
            old(self).view is None,
        ensures
            final(self).records == old(self).records,
            (final(self).state(), r@) == reading_key(
                HistoryState { view: Some(view@), ..old(self).state() },
                view@,
                key,
                rows,
            ),
    {
        let mut view = view;
        match key {
            KeyCode::Char('q') | KeyCode::Esc => {},
            KeyCode::Up | KeyCode::Char('k') => {
                view.scroll = view.scroll.saturating_sub(1);
                self.view = Some(view);
            },
            KeyCode::Down | KeyCode::Char('j') => {
                return self.go_down(view, 1);
            },
            KeyCode::PageUp => {
                view.scroll = view.scroll.saturating_sub(rows as u64);
                self.view = Some(view);
            },
            KeyCode::PageDown => {
                return self.go_down(view, rows as u64);
            },
            KeyCode::Home | KeyCode::Char('g') => {
                view.scroll = 0;
                self.view = Some(view);
            },
            KeyCode::End | KeyCode::Char('G') => {
                if view.eof {
                    view.scroll = view.total_lines.saturating_sub(1);
                    self.view = Some(view);
                } else {
                    self.view = Some(view);
                    return HistoryStep::Fetch(Goal::End);
                }
            },
            _ => {
                self.view = Some(view);
            },
        }
        HistoryStep::Stay
    }

    fn choose_key(&mut self, key: KeyCode) -> (r: HistoryStep)
        requires
            old(self).view is None,
        ensures
            final(self).records == old(self).records,
            (final(self).state(), r@) == choosing_key(old(self).state(), old(self).records@, key),
    {
        match key {
            KeyCode::Char('q') | KeyCode::Esc => {
                return HistoryStep::Leave;
            },
            KeyCode::Up | KeyCode::Char('k') => {
                self.selected = self.selected.saturating_sub(1);
            },
            KeyCode::Down | KeyCode::Char('j') => {
                let len: usize = self.records.len();
                if len > 0 {
                    self.selected = if self.selected < len - 1 {
                        self.selected + 1
                    } else {
                        len - 1
                    };
                }
            },
            KeyCode::Enter => {
                if self.selected < self.records.len() {
                    let id = self.records[self.selected].id.clone();
                    return HistoryStep::Fetch(Goal::First(id));
                }
            },
            _ => {},
        }
        HistoryStep::Stay
    }

    /// What a key does. `usable` says whether the screen is large enough.
    pub fn key(&mut self, key: KeyCode, release: bool, control: bool, usable: bool, rows: usize) -> (r: HistoryStep)
        ensures
            final(self).records == old(self).records,
            (final(self).state(), r@) == history_key(
                old(self).state(),
                old(self).records@,
                key,
                release,
                control,
                usable,
                rows,
            ),
    {
        if release {
            return HistoryStep::Stay;
        }
        let interrupt = control && match key {
            KeyCode::Char('c') => true,
            _ => false,
        };
        if interrupt {
            return HistoryStep::Leave;
        }
        let leaving = match key {
            KeyCode::Esc | KeyCode::Char('q') => true,
            _ => false,
        };
        let asked = match key {
            KeyCode::Char('?') => true,
            _ => false,
        };
        if !usable && !leaving {
            return HistoryStep::Stay;
        }
        let mut help: Option<Reader> = None;
        std::mem::swap(&mut help, &mut self.help);
        match help {
            Some(mut help) => {
                if !(leaving || asked) {
                    help.key(key, rows);
                    self.help = Some(help);
                }
                return HistoryStep::Stay;
            },
            None => {},
        }
        let mut message: Option<Reader> = None;
        std::mem::swap(&mut message, &mut self.message);
        match message {
            Some(mut message) => {
                if !leaving {
                    message.key(key, rows);
                    self.message = Some(message);
                }
                return HistoryStep::Stay;
            },
            None => {},
        }
        if asked {
            let text = if self.view.is_some() {
                "Up/Down, j/k  Scroll logical lines\nPgUp/PgDn  Page\ng/Home  First line\nG/End  Last line\nEsc/q  Back to history\n\nPosition counts logical lines, not wrapped rows."
            } else {
                "Up/Down, j/k  Select run\nEnter  Read output\nEsc/q  Back to service\n\ndisk: persistent log\nmemory: bounded in-memory history"
            };
            self.help = Some(Reader::new("History / help", text));
            return HistoryStep::Stay;
        }
        let mut view: Option<HistoryView> = None;
        std::mem::swap(&mut view, &mut self.view);
        match view {
            Some(view) => self.read_key(view, key, rows),
            None => self.choose_key(key),
        }
    }

    /// What the manager is asked for. Nothing where no text is being read.
    pub fn request(&self, name: &str, goal: &Goal) -> (r: Option<Request>)
        ensures
            ({
                let from = match *goal {
                    Goal::First(id) => Some((id@, 0u64)),
                    _ => match self.view {
                        Some(v) => Some((v.id@, v.offset)),
                        None => None,
                    },
                };
                match from {
                    Some(f) => r matches Some(Request::HistoryChunk { target, id, offset, limit })
                        && target matches Target::Name(n) && n@ == name@ && id@ == f.0 && offset
                        == f.1 && limit == DEFAULT_CHUNK_LIMIT,
                    None => r is None,
                }
            }),
    {
        match goal {
            Goal::First(id) => Some(
                Request::HistoryChunk {
                    target: Target::Name(name.to_owned()),
                    id: id.clone(),
                    offset: 0,
                    limit: DEFAULT_CHUNK_LIMIT,
                },
            ),
            _ => match &self.view {
                Some(view) => Some(
                    Request::HistoryChunk {
                        target: Target::Name(name.to_owned()),
                        id: view.id.clone(),
                        offset: view.offset,
                        limit: DEFAULT_CHUNK_LIMIT,
                    },
                ),
                None => None,
            },
        }
    }

    /// Takes in the reply to what was asked for.
    pub fn fetched(&mut self, goal: Goal, reply: Result<Response, String>) -> (r: HistoryStep)
        ensures
            final(self).records == old(self).records,
            (final(self).state(), r@) == after_fetch(old(self).state(), goal@, reply),
    {
        match goal {
            Goal::First(id) => {
                let mut view = HistoryView::new(id);
                assert(view@ =~= unread(id@));
                match load_history_chunk(&mut view, reply) {
                    Ok(()) => {
                        self.view = Some(view);
                    },
                    Err(e) => {
                        self.message = Some(Reader::error("History failed", e.as_str()));
                    },
                }
                HistoryStep::Stay
            },
            Goal::More => {
                let mut view: Option<HistoryView> = None;
                std::mem::swap(&mut view, &mut self.view);
                match view {
                    Some(mut view) => {
                        match load_history_chunk(&mut view, reply) {
                            Ok(()) => {},
                            Err(e) => {
                                self.message = Some(Reader::error("History failed", e.as_str()));
                            },
                        }
                        clamp_history_scroll(&mut view);
                        self.view = Some(view);
                    },
                    None => {},
                }
                HistoryStep::Stay
            },
            Goal::End => {
                let mut view: Option<HistoryView> = None;
                std::mem::swap(&mut view, &mut self.view);
                match view {
                    Some(mut view) => {
                        let mut again = false;
                        match load_history_chunk(&mut view, reply) {
                            Ok(()) => {
                                again = !view.eof;
                            },
                            Err(e) => {
                                self.message = Some(Reader::error("History failed", e.as_str()));
                            },
                        }
                        if !again {
                            view.scroll = view.total_lines.saturating_sub(1);
                        }
                        self.view = Some(view);
                        if again {
                            return HistoryStep::Fetch(Goal::End);
                        }
                    },
                    None => {},
                }
                HistoryStep::Stay
            },
        }
    }
}

/// A piece is fetched again only where the one before it brought the text further.
pub proof fn law_fetching_ends(s: HistoryState, goal: GoalView, reply: Result<Response, String>)
    requires
        after_fetch(s, goal, reply).1 is Fetch,
    ensures
        goal is End,
        s.view is Some,
        after_fetch(s, goal, reply).0.view is Some,
        (after_fetch(s, goal, reply).0.view->0).offset > (s.view->0).offset,
{
}

/// What has been read stays as it is when more is fetched: it is the beginning of what there is
/// afterwards.
pub proof fn law_fetching_keeps_what_was_read(v: OutputView, reply: Result<Response, String>)
    ensures
        read_on(v, reply) matches Ok(w) ==> w.id == v.id && w.content.len() >= v.content.len()
            && w.content.take(v.content.len() as int) == v.content,
{
    if read_on(v, reply) is Ok {
        let w = read_on(v, reply)->Ok_0;
        assert(w.content.take(v.content.len() as int) =~= v.content);
    }
}

} // verus!

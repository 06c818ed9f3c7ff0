//! What keys lead to.
use crate::protocol::{HistoryRecord, Request, Response, ServiceInfo, Target};
use crate::tui::history::{
    after_fetch, choosing_key, clamped, gone_down, gone_up, history_key, reading_key, read_on, unread, wants_more,
    GoalView, HistoryState, HistoryStepView, OutputView,
};
use crate::tui::keys::{scrolled, KeyCode, KeyEvent};
use crate::tui::model::{
    action_at, asks_for, lifecycle_of, loop_step, main_key, refreshed_page, refreshed_place, IntentView,
    LoopContext, LoopStepView, Page, ServiceAction, UiView,
};
use crate::text::starts_with;
use crate::tui::classic::{field_place, EditorPopup};
use crate::tui::layout::{position_of, shown_path};
use crate::tui::plain::{in_popup, is_intent, kept_place, moved, on_fields, EditorState, EditorStep, PlainIntent, PlainUi};
use vstd::prelude::*;

verus! {

/// A key that goes back.
pub open spec fn goes_back(key: KeyCode) -> bool {
    key is Esc || key == KeyCode::Char('q')
}

/// The action that a key stands for, as the menu shows it.
pub open spec fn stands_for(key: KeyCode, a: ServiceAction) -> bool {
    match a {
        ServiceAction::Attach => key == KeyCode::Char('a'),
        ServiceAction::Start => key == KeyCode::Char('s'),
        ServiceAction::Stop => key == KeyCode::Char('x'),
        ServiceAction::Restart => key == KeyCode::Char('r'),
        ServiceAction::History => key == KeyCode::Char('h'),
        ServiceAction::Disable => key == KeyCode::Char('d'),
    }
}

/// What a key does is done to the service that is marked, and to no other: by the key that stands
/// for it, by Enter on its row of the menu, or by confirming on the page that asks. Nothing is
/// done while something else is shown, while something runs, or without the manager.
pub proof fn law_actions_are_about_the_marked_service(
    ui: UiView,
    services: Seq<ServiceInfo>,
    loading: bool,
    unavailable: Option<Seq<char>>,
    key: KeyCode,
    pending: bool,
    rows: usize,
)
    ensures
        main_key(ui, services, loading, unavailable, key, pending, rows).1 matches IntentView::Act(a, name) ==> {
            &&& ui.selected < services.len() && name == services[ui.selected as int].name@
            &&& ui.help is None && ui.message is None && !loading && !pending && unavailable is None
            &&& ui.page is Services ==> stands_for(key, a)
            &&& ui.page matches Page::Actions { selected, .. } ==> stands_for(key, a) || (key is Enter && a
                == action_at(selected as int))
            &&& ui.page is ConfirmDisable ==> a is Disable && key is Enter
            &&& a is Disable ==> ui.page is ConfirmDisable
        },
{
}

/// Where nothing is in the way, the key of an action does it, and the first rows of the menu are
/// what they say.
pub proof fn law_every_action_has_its_key(
    ui: UiView,
    services: Seq<ServiceInfo>,
    key: KeyCode,
    a: ServiceAction,
    rows: usize,
)
    requires
        ui.help is None && ui.message is None,
        ui.selected < services.len(),
        stands_for(key, a),
    ensures
        ui.page is Services && a !is Disable ==> main_key(ui, services, false, None, key, false, rows) == (
            ui,
            IntentView::Act(a, services[ui.selected as int].name@),
        ),
        ui.page is Services && a is Disable ==> {
            let (next, intent) = main_key(ui, services, false, None, key, false, rows);
            intent is Nothing && (next.page matches Page::ConfirmDisable { confirm, .. } && !confirm) && next.selected
                == ui.selected
        },
        action_at(0) is Attach && action_at(1) is Start && action_at(2) is Stop,
        action_at(3) is Restart && action_at(4) is History && action_at(5) is Disable,
{
}

/// What is asked of the manager is what the action says, of the service that it is about.
pub proof fn law_actions_ask_for_what_they_say(a: ServiceAction, name: Seq<char>, r: Request)
    requires
        lifecycle_of(a) is Some,
        asks_for(lifecycle_of(a)->0, name, r),
    ensures
        a is Start ==> (r matches Request::Start { target: Target::Name(n) } && n@ == name),
        a is Stop ==> (r matches Request::Stop { target: Target::Name(n) } && n@ == name),
        a is Restart ==> (r matches Request::Restart { target: Target::Name(n) } && n@ == name),
        a is Disable ==> (r matches Request::Disable { target: Target::Name(n) } && n@ == name),
        a is Start || a is Stop || a is Restart || a is Disable,
{
}

/// The mark goes one row down and one row up, never out of the list, and nothing else changes.
pub proof fn law_the_mark_moves_by_one(
    ui: UiView,
    services: Seq<ServiceInfo>,
    unavailable: Option<Seq<char>>,
    pending: bool,
    rows: usize,
)
    requires
        ui.help is None && ui.message is None && ui.page is Services,
        ui.selected < services.len() <= usize::MAX,
    ensures
        ({
            let down = main_key(ui, services, false, unavailable, KeyCode::Down, pending, rows);
            let up = main_key(ui, services, false, unavailable, KeyCode::Up, pending, rows);
            &&& down.1 is Nothing && up.1 is Nothing
            &&& ui.selected + 1 < services.len() ==> down.0 == (UiView { selected: (ui.selected + 1) as usize, ..ui })
            &&& ui.selected + 1 == services.len() ==> down.0 == ui
            &&& ui.selected > 0 ==> up.0 == (UiView { selected: (ui.selected - 1) as usize, ..ui })
            &&& ui.selected == 0 ==> up.0 == ui
        }),
        main_key(ui, services, false, unavailable, KeyCode::Char('j'), pending, rows) == main_key(
            ui,
            services,
            false,
            unavailable,
            KeyCode::Down,
            pending,
            rows,
        ),
        main_key(ui, services, false, unavailable, KeyCode::Char('k'), pending, rows) == main_key(
            ui,
            services,
            false,
            unavailable,
            KeyCode::Up,
            pending,
            rows,
        ),
{
}

/// The interface is left only where that was asked for, and never under an action that runs: then
/// its end is waited for.
pub proof fn law_leaving_waits_for_the_action(
    ui: UiView,
    services: Seq<ServiceInfo>,
    loading: bool,
    unavailable: Option<Seq<char>>,
    prompt: bool,
    key: KeyCode,
    c: LoopContext,
)
    ensures
        ({
            let step = loop_step(ui, services, loading, unavailable, prompt, key, c).2;
            &&& step is Return ==> !c.pending && !c.release
            &&& step is WaitForAction ==> c.pending && !c.release
            &&& step is Return || step is WaitForAction ==> (key == KeyCode::Char('c') && c.control) || (goes_back(key)
                && !prompt && ui.help is None && ui.message is None && (loading || ui.page is Services))
            &&& !c.release && key == KeyCode::Char('c') && c.control ==> step is Return || step is WaitForAction
            &&& c.release ==> step is Continue && loop_step(ui, services, loading, unavailable, prompt, key, c).0 == ui
            &&& step is OpenLog ==> prompt && (key == KeyCode::Char('y') || key == KeyCode::Char('Y') || key is Enter)
            &&& step matches LoopStepView::Act(a, n) ==> !prompt && !c.pending
        }),
{
}

/// Where the marked service has gone from the list, its page is closed and a place of the list is
/// marked; where it is still there, the page stays open.
pub proof fn law_pages_close_with_their_service(
    before: Seq<ServiceInfo>,
    selected: usize,
    after: Seq<ServiceInfo>,
    page: Page,
)
    requires
        selected < before.len(),
        after.len() <= usize::MAX,
    ensures
        (forall|i: int| 0 <= i < after.len() ==> (#[trigger] after[i]).name@ != before[selected as int].name@) ==> {
            &&& refreshed_page(before, selected, after, page) is Services
            &&& after.len() > 0 ==> refreshed_place(before, selected, after) < after.len()
            &&& refreshed_place(before, selected, after) <= selected
        },
        (exists|i: int| 0 <= i < after.len() && (#[trigger] after[i]).name@ == before[selected as int].name@)
            ==> refreshed_page(before, selected, after, page) == page,
{
    lemma_place(after, before[selected as int].name@, 0);
}

proof fn lemma_place(s: Seq<ServiceInfo>, name: Seq<char>, i: int)
    requires
        0 <= i <= s.len(),
    ensures
        match crate::tui::model::place_of_service(s, name, i) {
            Some(k) => i <= k < s.len() && s[k].name@ == name,
            None => forall|k: int| i <= k < s.len() ==> (#[trigger] s[k]).name@ != name,
        },
    decreases s.len() - i,
{
    if i < s.len() {
        lemma_place(s, name, i + 1);
    }
}

/// The plain interface does what its keys say to the service that is marked: `r` restarts it, `d`
/// disables it, and `a` leads to its terminal where it has one. It is left by `q`, Esc and Ctrl+C.
pub proof fn law_plain_keys(ui: PlainUi, key: KeyEvent, r: PlainIntent)
    requires
        is_intent(ui, key, r),
    ensures
        r is Quit <==> key.code == KeyCode::Char('q') || key.code is Esc || (key.code == KeyCode::Char('c')
            && key.modifiers.control),
        r matches PlainIntent::Send { request, action } ==> {
            &&& ui.selected < ui.services@.len()
            &&& (request matches Request::Restart { target: Target::Name(n) } && n@
                == ui.services@[ui.selected as int].name@ && key.code == KeyCode::Char('r')) || (
            request matches Request::Disable { target: Target::Name(n) } && n@
                == ui.services@[ui.selected as int].name@ && key.code == KeyCode::Char('d'))
        },
        r matches PlainIntent::Attach(n) ==> {
            &&& ui.selected < ui.services@.len()
            &&& n@ == ui.services@[ui.selected as int].name@
            &&& ui.services@[ui.selected as int].tty && key.code == KeyCode::Char('a')
        },
        ui.selected < ui.services@.len() && key.code == KeyCode::Char('r') ==> r is Send,
        ui.selected < ui.services@.len() && key.code == KeyCode::Char('d') ==> r is Send,
{
}

/// The mark of the plain interface goes one row down and one row up and stays in the list.
pub proof fn law_the_plain_mark_moves_by_one(ui: PlainUi, key: KeyEvent)
    requires
        ui.selected < ui.services@.len() <= usize::MAX,
    ensures
        key.code is Down ==> moved(ui, key) == if ui.selected + 1 < ui.services@.len() {
            ui.selected + 1
        } else {
            ui.selected as int
        },
        key.code is Up ==> moved(ui, key) == if ui.selected > 0 {
            ui.selected - 1
        } else {
            0
        },
        !(key.code is Up || key.code is Down || key.code == KeyCode::Char('j') || key.code == KeyCode::Char('k'))
            ==> moved(ui, key) == ui.selected,
{
}

/// A text is scrolled by lines and by pages, to its start and to its end; other keys leave it.
pub proof fn law_scrolling(scroll: usize, rows: usize)
    requires
        0 < rows,
        rows < scroll,
        scroll + rows <= usize::MAX,
    ensures
        scrolled(scroll, KeyCode::Down, rows) == scroll + 1,
        scrolled(scroll, KeyCode::Up, rows) == scroll - 1,
        scrolled(scroll, KeyCode::PageDown, rows) == scroll + rows,
        scrolled(scroll, KeyCode::PageUp, rows) == scroll - rows,
        scrolled(scroll, KeyCode::Home, rows) == 0,
        scrolled(scroll, KeyCode::End, rows) == usize::MAX,
        scrolled(0, KeyCode::Up, rows) == 0 && scrolled(0, KeyCode::PageUp, rows) == 0,
        forall|key: KeyCode|
            !(key is Up || key is Down || key is PageUp || key is PageDown || key is Home || key is End || key
                == KeyCode::Char('j') || key == KeyCode::Char('k') || key == KeyCode::Char('g') || key
                == KeyCode::Char('G')) ==> #[trigger] scrolled(scroll, key, rows) == scroll,
{
}

/// A run is read from its first piece on: Enter asks for the marked one, and nothing else does.
pub proof fn law_the_marked_run_is_read(s: HistoryState, records: Seq<HistoryRecord>, key: KeyCode)
    requires
        records.len() <= usize::MAX,
    ensures
        choosing_key(s, records, key).1 matches HistoryStepView::Fetch(goal) ==> {
            &&& key is Enter && s.selected < records.len()
            &&& goal matches GoalView::First(id) && id == records[s.selected as int].id@
        },
        key is Enter && s.selected < records.len() ==> choosing_key(s, records, key).1 is Fetch,
        choosing_key(s, records, key).1 is Leave <==> goes_back(key),
        s.selected < records.len() ==> choosing_key(s, records, key).0.selected < records.len(),
        key is Down && s.selected + 1 < records.len() ==> choosing_key(s, records, key).0.selected == s.selected + 1,
        key is Up && s.selected > 0 ==> choosing_key(s, records, key).0.selected == s.selected - 1,
{
}

/// A piece is put behind what was read, and the next one begins where it ends. Where nothing came,
/// nothing is lost, and a message says why.
pub proof fn law_pieces_are_put_together(
    v: OutputView,
    reply: Result<Response, String>,
    s: HistoryState,
)
    requires
        s.view == Some(v),
    ensures
        reply matches Ok(Response::HistoryChunk { next_offset, total_lines, eof, content, .. }) ==> (eof || next_offset
            > v.offset ==> (read_on(v, reply) matches Ok(w) && w.content == v.content + content@ && w.offset
            == next_offset && w.eof == eof && w.total_lines == total_lines && w.id == v.id)),
        reply is Err ==> read_on(v, reply) is Err,
        ({
            let after = after_fetch(s, GoalView::More, reply).0;
            &&& read_on(v, reply) is Err ==> after.message is Some && after.view is Some && (after.view->0).content
                == v.content && (after.view->0).offset == v.offset
            &&& read_on(v, reply) is Ok ==> after.view is Some && (after.view->0).content
                == read_on(v, reply)->Ok_0.content && after.message == s.message
        }),
        unread(v.id).offset == 0 && unread(v.id).content.len() == 0 && !unread(v.id).eof,
{
}

/// The place on the screen stays within the lines of the text, goes down and up by what was asked
/// for, and asks for more before the lines run out.
pub proof fn law_the_place_stays_in_the_text(s: HistoryState, v: OutputView, by: u64)
    requires
        v.total_lines > 0,
        v.scroll + by < v.total_lines,
    ensures
        clamped(v).scroll < v.total_lines,
        v.scroll < v.total_lines ==> clamped(v) == v,
        gone_up(OutputView { scroll: (v.scroll + by) as u64, ..v }, by) == v,
        ({
            let (next, step) = gone_down(s, v, by);
            &&& next.view is Some && (next.view->0).scroll == v.scroll + by
            &&& (next.view->0).content == v.content
            &&& step is Fetch <==> wants_more(OutputView { scroll: (v.scroll + by) as u64, ..v })
        }),
        v.eof ==> !wants_more(v),
{
}

/// Going back from a text leads to the list; going back from the list leads out.
pub proof fn law_going_back(s: HistoryState, v: OutputView, records: Seq<HistoryRecord>, key: KeyCode, rows: usize)
    requires
        goes_back(key),
    ensures
        reading_key(s, v, key, rows) == (HistoryState { view: None, ..s }, HistoryStepView::Stay),
        s.help is None && s.message is None && s.view is None ==> history_key(
            s,
            records,
            key,
            false,
            false,
            true,
            rows,
        ).1 is Leave,
        s.help is Some ==> history_key(s, records, key, false, false, true, rows) == (
            HistoryState { help: None, ..s },
            HistoryStepView::Stay,
        ),
{
}

/// The place in a text is counted from one, never beyond the last line; an empty text has none.
pub proof fn law_places_are_counted_from_one(scroll: u64, total: u64)
    ensures
        total == 0 ==> position_of(scroll, total) == (0u64, 0u64),
        total > 0 ==> 1 <= position_of(scroll, total).0 <= total && position_of(scroll, total).1 == total,
        scroll < total ==> position_of(scroll, total).0 == scroll + 1,
        scroll >= total ==> position_of(scroll, total).0 == total,
{
}

/// What lies in the home directory is shown by a tilde and the way from there; everything else is
/// shown as it is.
pub proof fn law_home_is_a_tilde(home: Seq<char>, rest: Seq<char>, other: Seq<char>)
    ensures
        shown_path(home, Some(home)) == "~"@,
        rest.len() > 0 ==> shown_path(home + "/"@ + rest, Some(home)) == "~/"@ + rest,
        shown_path(other, None) == other,
        other != home && !starts_with(other, home + "/"@) ==> shown_path(other, Some(home)) == other,
{
    reveal_strlit("/");
    let prefix = home + "/"@;
    let path = home + "/"@ + rest;
    assert(path.subrange(0, prefix.len() as int) =~= prefix);
    assert(path.skip(prefix.len() as int) =~= rest);
    if rest.len() > 0 {
        assert(path.len() != home.len());
    }
}

/// A mark that is still in the list stays; one that is not goes to its last row.
pub proof fn law_marks_stay_in_shorter_lists(selected: usize, len: nat)
    requires
        len > 0,
    ensures
        kept_place(selected, len) < len,
        selected < len ==> kept_place(selected, len) == selected,
        selected >= len ==> kept_place(selected, len) == len - 1,
{
}

/// In the plain editor only Ctrl+S saves and only Esc gives up; Tab goes to the next field and
/// back. A choice is changed by confirming it, and by nothing else.
pub proof fn law_plain_editor_keys(e: EditorState, key: KeyEvent, r: EditorState, step: EditorStep)
    requires
        on_fields(e, key, r, step),
    ensures
        step is Save <==> key.modifiers.control && key.code == KeyCode::Char('s'),
        step is Cancel <==> !key.modifiers.control && key.code is Esc,
        r.tty == e.tty && r.restart == e.restart,
        step matches EditorStep::Type(i) ==> r == e && (i == 0 <==> e.selected is Name) && (i == 1 <==> e.selected
            is Command) && (i == 2 <==> e.selected is Env),
        !key.modifiers.control && key.code is Tab && !key.modifiers.shift ==> field_place(r.selected) == (field_place(
            e.selected,
        ) + 1) % 5,
        r.popup != e.popup ==> key.code is Enter && (e.selected is Tty || e.selected is Restart),
{
}

/// A popup begins with what is set; Enter sets what is marked, Esc leaves what was.
pub proof fn law_plain_choices(e: EditorState, popup: EditorPopup, key: KeyEvent, r: EditorState)
    requires
        in_popup(e, popup, key, r),
    ensures
        key.code is Esc ==> r == (EditorState { popup: None, ..e }),
        key.code is Enter ==> r.popup is None,
        (key.code is Enter && popup is Tty) ==> r.tty == popup->Tty_selected && r.restart == e.restart,
        (key.code is Enter && popup is Restart) ==> r.restart == popup->Restart_selected && r.tty == e.tty,
        !(key.code is Enter) ==> r.tty == e.tty && r.restart == e.restart,
        r.selected == e.selected,
{
}

} // verus!

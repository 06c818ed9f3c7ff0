//! Keys, as the interface tells them apart.
use vstd::prelude::*;

verus! {

#[derive(Debug, Clone, Copy, PartialEq, Eq, Structural)]
pub enum KeyCode {
    Char(char),
    F(u8),
    Enter,
    Esc,
    Tab,
    BackTab,
    Up,
    Down,
    Left,
    Right,
    Home,
    End,
    PageUp,
    PageDown,
    Backspace,
    Delete,
    Other,
}

#[derive(Debug, Clone, Copy, PartialEq, Eq, Structural)]
pub enum KeyEventKind {
    Press,
    Repeat,
    Release,
}

#[derive(Debug, Clone, Copy, PartialEq, Eq, Structural)]
pub struct KeyModifiers {
    pub shift: bool,
    pub control: bool,
    pub alt: bool,
    pub logo: bool,
    pub other: bool,
}

#[derive(Debug, Clone, Copy, PartialEq, Eq, Structural)]
pub struct KeyEvent {
    pub code: KeyCode,
    pub modifiers: KeyModifiers,
    pub kind: KeyEventKind,
}

pub open spec fn no_modifiers() -> KeyModifiers {
    KeyModifiers { shift: false, control: false, alt: false, logo: false, other: false }
}

pub open spec fn control_only() -> KeyModifiers {
    KeyModifiers { shift: false, control: true, alt: false, logo: false, other: false }
}

pub open spec fn shift_only() -> KeyModifiers {
    KeyModifiers { shift: true, control: false, alt: false, logo: false, other: false }
}

impl KeyModifiers {
    pub fn none() -> (r: Self)
        ensures
            r == no_modifiers(),
    {
        KeyModifiers { shift: false, control: false, alt: false, logo: false, other: false }
    }

    pub fn ctrl() -> (r: Self)
        ensures
            r == control_only(),
    {
        KeyModifiers { shift: false, control: true, alt: false, logo: false, other: false }
    }

    pub fn shifted() -> (r: Self)
        ensures
            r == shift_only(),
    {
        KeyModifiers { shift: true, control: false, alt: false, logo: false, other: false }
    }
}

impl KeyEvent {
    pub fn new(code: KeyCode, modifiers: KeyModifiers) -> (r: Self)
        ensures
            r == (KeyEvent { code, modifiers, kind: KeyEventKind::Press }),
    {
        KeyEvent { code, modifiers, kind: KeyEventKind::Press }
    }
}

pub open spec fn rows_or_one(rows: usize) -> int {
    if rows == 0 { 1 } else { rows as int }
}

pub open spec fn sat_sub(a: usize, b: int) -> usize {
    if a < b { 0 } else { (a - b) as usize }
}

pub open spec fn sat_add(a: usize, b: int) -> usize {
    if a + b > usize::MAX { usize::MAX } else { (a + b) as usize }
}

/// Where a text stands after a key: a line or a page up or down, at its start, or at its end,
/// which is left to whoever knows how long the text is.
pub open spec fn scrolled(scroll: usize, key: KeyCode, rows: usize) -> usize {
    match key {
        KeyCode::Up => sat_sub(scroll, 1),
        KeyCode::Char('k') => sat_sub(scroll, 1),
        KeyCode::Down => sat_add(scroll, 1),
        KeyCode::Char('j') => sat_add(scroll, 1),
        KeyCode::PageUp => sat_sub(scroll, rows_or_one(rows)),
        KeyCode::PageDown => sat_add(scroll, rows_or_one(rows)),
        KeyCode::Home => 0,
        KeyCode::Char('g') => 0,
        KeyCode::End => usize::MAX,
        KeyCode::Char('G') => usize::MAX,
        _ => scroll,
    }
}

pub fn scroll_key(scroll: &mut usize, key: KeyCode, page_rows: usize)
    ensures
        *final(scroll) == scrolled(*old(scroll), key, page_rows),
{
    let page: usize = if page_rows == 0 { 1 } else { page_rows };
    match key {
        KeyCode::Up | KeyCode::Char('k') => {
            *scroll = scroll.saturating_sub(1);
        },
        KeyCode::Down | KeyCode::Char('j') => {
            *scroll = scroll.saturating_add(1);
        },
        KeyCode::PageUp => {
            *scroll = scroll.saturating_sub(page);
        },
        KeyCode::PageDown => {
            *scroll = scroll.saturating_add(page);
        },
        KeyCode::Home | KeyCode::Char('g') => {
            *scroll = 0;
        },
        KeyCode::End | KeyCode::Char('G') => {
            *scroll = usize::MAX;
        },
        _ => {},
    }
}

} // verus!

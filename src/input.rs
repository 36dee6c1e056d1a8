use vstd::prelude::*;

use crate::app::{App, AppModel, SortBy, MAX_TICK_MS, MIN_TICK_MS, TICK_STEP_MS};
use crate::text::{drop_last, pop_char, push_char};

verus! {

/// A key, as far as the dashboard tells keys apart.
#[derive(Clone, Copy, Debug, PartialEq, Eq, Structural)]
pub enum Key {
    Char(char),
    Up,
    Down,
    PageUp,
    PageDown,
    Home,
    End,
    Enter,
    Esc,
    Backspace,
    Other,
}

/// A key press, with whether Control was held.
#[derive(Clone, Copy, Debug, PartialEq, Eq, Structural)]
pub struct KeyPress {
    pub code: Key,
    pub ctrl: bool,
}

/// An input event.
#[derive(Clone, Copy, Debug, PartialEq, Eq, Structural)]
pub enum Event {
    Key(KeyPress),
    Resize(u16, u16),
}

/// What the refresh loop does after an event.
#[derive(Clone, Copy, Debug, PartialEq, Eq, Structural)]
pub enum Control {
    Continue,
    Quit,
}

/// Rows that one page key moves the selection by.
pub const PAGE_ROWS: usize = 10;

/// `a - b`, or 0 where that would fall below 0.
pub open spec fn sat_sub(a: usize, b: usize) -> usize {
    if a >= b {
        (a - b) as usize
    } else {
        0
    }
}

/// `a + b`, or `usize::MAX` where that would exceed it.
pub open spec fn sat_add(a: usize, b: usize) -> usize {
    if a + b <= usize::MAX {
        (a + b) as usize
    } else {
        usize::MAX
    }
}

/// The session with the cursor moved to `index`; the selected process is
/// then the one found at that index by the next projection.
pub open spec fn moved_to(s: AppModel, index: usize) -> AppModel {
    AppModel { selected_index: index, selected_pid: None, ..s }
}

/// The refresh interval one step shorter, not below its minimum.
pub open spec fn faster(t: u64) -> u64 {
    if t >= MIN_TICK_MS + TICK_STEP_MS {
        (t - TICK_STEP_MS) as u64
    } else {
        MIN_TICK_MS
    }
}

/// The refresh interval one step longer, not above its maximum.
pub open spec fn slower(t: u64) -> u64 {
    if t + TICK_STEP_MS <= MAX_TICK_MS {
        (t + TICK_STEP_MS) as u64
    } else {
        MAX_TICK_MS
    }
}

/// A key press while the filter is being typed.
pub open spec fn filtering_key(s: AppModel, code: Key) -> AppModel {
    match code {
        Key::Enter | Key::Esc => AppModel { is_filtering: false, ..s },
        Key::Backspace => AppModel { filter: drop_last(s.filter), ..s },
        Key::Char(c) => AppModel { filter: s.filter.push(c), ..s },
        _ => s,
    }
}

/// A key press in normal mode.
pub open spec fn normal_key(s: AppModel, code: Key) -> (AppModel, Control) {
    match code {
        Key::Char('q') | Key::Esc => (s, Control::Quit),
        Key::Up | Key::Char('k') => (moved_to(s, sat_sub(s.selected_index, 1)), Control::Continue),
        Key::Down | Key::Char('j') => (moved_to(s, sat_add(s.selected_index, 1)), Control::Continue),
        Key::PageUp => (moved_to(s, sat_sub(s.selected_index, PAGE_ROWS)), Control::Continue),
        Key::PageDown => (moved_to(s, sat_add(s.selected_index, PAGE_ROWS)), Control::Continue),
        Key::Home | Key::Char('g') => (moved_to(s, 0), Control::Continue),
        Key::End | Key::Char('G') => (moved_to(s, usize::MAX), Control::Continue),
        Key::Char('/') => (
            AppModel { filter: Seq::<char>::empty(), is_filtering: true, ..s },
            Control::Continue,
        ),
        Key::Char('?') => (AppModel { show_help: !s.show_help, ..s }, Control::Continue),
        Key::Char('+') => (AppModel { tick_rate_ms: faster(s.tick_rate_ms), ..s }, Control::Continue),
        Key::Char('-') => (AppModel { tick_rate_ms: slower(s.tick_rate_ms), ..s }, Control::Continue),
        Key::Char('c') => (AppModel { sort_by: SortBy::Cpu, ..s }, Control::Continue),
        Key::Char('m') => (AppModel { sort_by: SortBy::Mem, ..s }, Control::Continue),
        Key::Char('p') => (AppModel { sort_by: SortBy::Pid, ..s }, Control::Continue),
        _ => (s, Control::Continue),
    }
}

/// The session after an event, and what the loop does next.
pub open spec fn step(s: AppModel, ev: Event) -> (AppModel, Control) {
    match ev {
        Event::Resize(_, _) => (s, Control::Continue),
        Event::Key(k) => if k.ctrl && k.code == Key::Char('c') {
            (s, Control::Quit)
        } else if s.is_filtering {
            (filtering_key(s, k.code), Control::Continue)
        } else {
            normal_key(s, k.code)
        },
    }
}

/// Moves the cursor to `index` and lets go of the selected process.
fn move_to(app: &mut App, index: usize)
    ensures
        final(app)@ == moved_to(old(app)@, index),
{
    app.selected_index = index;
    app.selected_pid = None;
}

fn handle_filtering_key(code: Key, app: &mut App)
    requires
        old(app)@.is_filtering,
    ensures
        final(app)@ == filtering_key(old(app)@, code),
{
    match code {
        Key::Enter | Key::Esc => {
            app.is_filtering = false;
        },
        Key::Backspace => {
            pop_char(&mut app.filter);
        },
        Key::Char(c) => {
            push_char(&mut app.filter, c);
        },
        _ => {},
    }
}

fn handle_normal_key(code: Key, app: &mut App) -> (r: Control)
    requires
        old(app).wf(),
    ensures
        (final(app)@, r) == normal_key(old(app)@, code),
{
    match code {
        Key::Char('q') | Key::Esc => {
            return Control::Quit;
        },
        Key::Up | Key::Char('k') => {
            let i = app.selected_index.saturating_sub(1);
            move_to(app, i);
        },
        Key::Down | Key::Char('j') => {
            let i = app.selected_index.saturating_add(1);
            move_to(app, i);
        },
        Key::PageUp => {
            let i = app.selected_index.saturating_sub(PAGE_ROWS);
            move_to(app, i);
        },
        Key::PageDown => {
            let i = app.selected_index.saturating_add(PAGE_ROWS);
            move_to(app, i);
        },
        Key::Home | Key::Char('g') => {
            move_to(app, 0);
        },
        Key::End | Key::Char('G') => {
            move_to(app, usize::MAX);
        },
        Key::Char('/') => {
            app.filter = String::new();
            app.is_filtering = true;
        },
        Key::Char('?') => {
            app.show_help = !app.show_help;
        },
        Key::Char('+') => {
            let t = app.tick_rate_ms;
            app.tick_rate_ms = if t >= MIN_TICK_MS + TICK_STEP_MS {
                t - TICK_STEP_MS
            } else {
                MIN_TICK_MS
            };
        },
        Key::Char('-') => {
            let t = app.tick_rate_ms;
            app.tick_rate_ms = if t + TICK_STEP_MS <= MAX_TICK_MS {
                t + TICK_STEP_MS
            } else {
                MAX_TICK_MS
            };
        },
        Key::Char('c') => {
            app.sort_by = SortBy::Cpu;
        },
        Key::Char('m') => {
            app.sort_by = SortBy::Mem;
        },
        Key::Char('p') => {
            app.sort_by = SortBy::Pid;
        },
        _ => {},
    }
    proof {
        assert(app@.filter =~= normal_key(old(app)@, code).0.filter);
    }
    Control::Continue
}

/// Applies one input event to the session and says whether the loop goes on.
/// Control-C quits in either mode; a resize changes nothing.
pub fn handle_event(ev: &Event, app: &mut App) -> (r: Control)
    requires
        old(app).wf(),
    ensures
        final(app).wf(),
        (final(app)@, r) == step(old(app)@, *ev),
{
    match ev {
        Event::Resize(_, _) => Control::Continue,
        Event::Key(k) => {
            if k.ctrl && k.code == Key::Char('c') {
                Control::Quit
            } else if app.is_filtering {
                handle_filtering_key(k.code, app);
                Control::Continue
            } else {
                handle_normal_key(k.code, app)
            }
        },
    }
}

} // verus!

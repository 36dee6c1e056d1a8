use rust_top::{handle_event, App, Control, Event, Key, KeyPress, SortBy};

fn key(code: Key) -> Event {
    Event::Key(KeyPress { code, ctrl: false })
}

fn ch(c: char) -> Event {
    key(Key::Char(c))
}

#[test]
fn new_session_defaults() {
    let app = App::new();
    assert_eq!(app.sort_by, SortBy::Cpu);
    assert!(app.filter.is_empty());
    assert!(!app.is_filtering);
    assert!(!app.show_help);
    assert_eq!(app.selected_index, 0);
    assert_eq!(app.selected_pid, None);
    assert_eq!(app.tick_rate_ms, 500);
}

#[test]
fn five_faster_steps_reach_250() {
    let mut app = App::new();
    for _ in 0..5 {
        assert_eq!(handle_event(&ch('+'), &mut app), Control::Continue);
    }
    assert_eq!(app.tick_rate_ms, 250);
    for _ in 0..20 {
        handle_event(&ch('+'), &mut app);
    }
    assert_eq!(app.tick_rate_ms, 100);
}

#[test]
fn slower_steps_stop_at_2000() {
    let mut app = App::new();
    for _ in 0..40 {
        handle_event(&ch('-'), &mut app);
    }
    assert_eq!(app.tick_rate_ms, 2000);
}

#[test]
fn cancel_filter_keeps_text() {
    let mut app = App::new();
    app.filter = "old".to_string();
    handle_event(&ch('/'), &mut app);
    assert!(app.is_filtering);
    assert_eq!(app.filter, "");
    handle_event(&ch('x'), &mut app);
    handle_event(&ch('y'), &mut app);
    assert_eq!(handle_event(&key(Key::Esc), &mut app), Control::Continue);
    assert_eq!(app.filter, "xy");
    assert!(!app.is_filtering);
}

#[test]
fn filtering_consumes_command_keys() {
    let mut app = App::new();
    handle_event(&ch('/'), &mut app);
    for c in ['q', 'm', '+'] {
        assert_eq!(handle_event(&ch(c), &mut app), Control::Continue);
    }
    handle_event(&key(Key::Down), &mut app);
    assert_eq!(app.filter, "qm+");
    assert_eq!(app.sort_by, SortBy::Cpu);
    assert_eq!(app.tick_rate_ms, 500);
    assert_eq!(app.selected_index, 0);
    handle_event(&key(Key::Backspace), &mut app);
    assert_eq!(app.filter, "qm");
    handle_event(&key(Key::Enter), &mut app);
    assert!(!app.is_filtering);
}

#[test]
fn backspace_on_empty_filter() {
    let mut app = App::new();
    handle_event(&ch('/'), &mut app);
    handle_event(&key(Key::Backspace), &mut app);
    assert_eq!(app.filter, "");
    assert!(app.is_filtering);
}

#[test]
fn ctrl_c_quits_in_both_modes() {
    let ctrl_c = Event::Key(KeyPress { code: Key::Char('c'), ctrl: true });
    let mut app = App::new();
    assert_eq!(handle_event(&ctrl_c, &mut app), Control::Quit);
    handle_event(&ch('/'), &mut app);
    assert_eq!(handle_event(&ctrl_c, &mut app), Control::Quit);
    assert_eq!(app.filter, "");
}

#[test]
fn quit_keys_in_normal_mode() {
    let mut app = App::new();
    assert_eq!(handle_event(&ch('q'), &mut app), Control::Quit);
    assert_eq!(handle_event(&key(Key::Esc), &mut app), Control::Quit);
}

#[test]
fn navigation_saturates_and_clears_pid() {
    let mut app = App::new();
    app.selected_pid = Some(4);
    handle_event(&key(Key::Up), &mut app);
    assert_eq!(app.selected_index, 0);
    assert_eq!(app.selected_pid, None);
    handle_event(&ch('j'), &mut app);
    handle_event(&key(Key::PageDown), &mut app);
    assert_eq!(app.selected_index, 11);
    handle_event(&key(Key::PageUp), &mut app);
    handle_event(&ch('k'), &mut app);
    assert_eq!(app.selected_index, 0);
    handle_event(&ch('G'), &mut app);
    assert_eq!(app.selected_index, usize::MAX);
    handle_event(&key(Key::Down), &mut app);
    assert_eq!(app.selected_index, usize::MAX);
    handle_event(&key(Key::Home), &mut app);
    assert_eq!(app.selected_index, 0);
}

#[test]
fn sort_help_and_resize() {
    let mut app = App::new();
    handle_event(&ch('m'), &mut app);
    assert_eq!(app.sort_by, SortBy::Mem);
    handle_event(&ch('p'), &mut app);
    assert_eq!(app.sort_by, SortBy::Pid);
    handle_event(&ch('c'), &mut app);
    assert_eq!(app.sort_by, SortBy::Cpu);
    handle_event(&ch('?'), &mut app);
    assert!(app.show_help);
    handle_event(&ch('?'), &mut app);
    assert!(!app.show_help);
    assert_eq!(handle_event(&Event::Resize(80, 24), &mut app), Control::Continue);
    assert_eq!(handle_event(&key(Key::Other), &mut app), Control::Continue);
    assert_eq!(app.tick_rate_ms, 500);
}

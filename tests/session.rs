use cvterm::app::{count_lines, App, VISIBLE_LINES};
use cvterm::events::{AppEvent, InputEvent};

fn doc(lines: usize) -> String {
    let mut s = String::new();
    for i in 0..lines {
        s.push_str(&format!("line {}\n", i));
    }
    s
}

fn app_with_lines(lines: usize) -> App {
    App::with_document(doc(lines), String::from("hello"), 0)
}

#[test]
fn line_count_follows_str_lines() {
    for text in ["", "a", "a\n", "a\nb", "a\n\n", "\n", "\n\n", "a\r\nb\r\n", "é\nü"] {
        assert_eq!(count_lines(text), text.lines().count(), "{:?}", text);
    }
}

#[test]
fn new_app_is_empty_and_running() {
    let app = App::new();
    assert!(app.running);
    assert_eq!(app.current_frame, 0);
    assert_eq!(app.scroll_position, 0);
    assert_eq!(app.total_lines, 0);
    assert!(app.caret_visible);
    assert_eq!(app.max_scroll(), 0);
}

#[test]
fn max_scroll_is_lines_beyond_viewport() {
    assert_eq!(app_with_lines(20).max_scroll(), 4);
    assert_eq!(app_with_lines(VISIBLE_LINES).max_scroll(), 0);
    assert_eq!(app_with_lines(3).max_scroll(), 0);
}

#[test]
fn scroll_down_caps_at_limit() {
    let mut app = app_with_lines(20);
    for _ in 0..5 {
        app.handle_event(AppEvent::Input(InputEvent::ScrollDown));
    }
    assert_eq!(app.scroll_position, 4);
    for _ in 0..10 {
        app.handle_event(AppEvent::Input(InputEvent::ScrollDown));
    }
    assert_eq!(app.scroll_position, 4);
}

#[test]
fn scroll_down_is_noop_on_short_document() {
    let mut app = app_with_lines(10);
    app.handle_event(AppEvent::Input(InputEvent::ScrollDown));
    assert_eq!(app.scroll_position, 0);
}

#[test]
fn scroll_up_floors_at_zero() {
    let mut app = app_with_lines(30);
    for _ in 0..3 {
        app.handle_event(AppEvent::Input(InputEvent::ScrollDown));
    }
    assert_eq!(app.scroll_position, 3);
    for _ in 0..7 {
        app.handle_event(AppEvent::Input(InputEvent::ScrollUp));
    }
    assert_eq!(app.scroll_position, 0);
    app.handle_event(AppEvent::Input(InputEvent::ScrollUp));
    assert_eq!(app.scroll_position, 0);
}

#[test]
fn tick_advances_frame_and_blinks_caret() {
    let mut app = App::with_document(doc(2), String::new(), 1000);
    app.handle_event(AppEvent::Tick(1100));
    assert_eq!(app.current_frame, 1);
    assert!(app.caret_visible);
    assert_eq!(app.last_tick, 1000);
    app.handle_event(AppEvent::Tick(1350));
    assert_eq!(app.current_frame, 2);
    assert!(!app.caret_visible);
    assert_eq!(app.last_tick, 1350);
    app.handle_event(AppEvent::Tick(1200));
    assert_eq!(app.current_frame, 3);
    assert!(!app.caret_visible);
}

#[test]
fn frame_counter_saturates() {
    let mut app = App::new();
    app.current_frame = usize::MAX;
    app.handle_event(AppEvent::Tick(0));
    assert_eq!(app.current_frame, usize::MAX);
}

#[test]
fn quit_freezes_session() {
    for stop in [InputEvent::Quit, InputEvent::Interrupt] {
        let mut app = app_with_lines(30);
        app.handle_event(AppEvent::Input(InputEvent::ScrollDown));
        app.handle_event(AppEvent::Tick(10));
        app.handle_event(AppEvent::Input(stop));
        assert!(!app.running);
        let (frame, scroll, caret) = (app.current_frame, app.scroll_position, app.caret_visible);
        app.handle_event(AppEvent::Input(InputEvent::ScrollDown));
        app.handle_event(AppEvent::Input(InputEvent::ScrollUp));
        app.handle_event(AppEvent::Tick(100_000));
        app.handle_event(AppEvent::Input(InputEvent::Quit));
        assert!(!app.running);
        assert_eq!(app.current_frame, frame);
        assert_eq!(app.scroll_position, scroll);
        assert_eq!(app.caret_visible, caret);
    }
}

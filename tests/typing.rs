use cvterm::app::{App, SPLASH_FRAMES};
use cvterm::events::AppEvent;
use cvterm::typing::{is_heading, Alignment, StyleRef, TypingWidget, Wrap};

#[test]
fn builders_set_their_field() {
    let w = TypingWidget::new("hello", 3, 2)
        .frame(4)
        .style(StyleRef::Highlight)
        .alignment(Alignment::Center)
        .wrap(None)
        .show_caret(false);
    assert_eq!(w.text, "hello");
    assert_eq!(w.scroll_position, 3);
    assert_eq!(w.scroll_speed, 2);
    assert_eq!(w.current_frame, 4);
    assert_eq!(w.style, StyleRef::Highlight);
    assert_eq!(w.alignment, Alignment::Center);
    assert_eq!(w.wrap, None);
    assert!(!w.show_caret);
    let d = TypingWidget::new("x", 0, 1);
    assert_eq!(d.current_frame, 0);
    assert_eq!(d.style, StyleRef::Text);
    assert_eq!(d.alignment, Alignment::Left);
    assert_eq!(d.wrap, Some(Wrap { trim: true }));
    assert!(d.show_caret);
}

#[test]
fn typed_length_grows_with_frames_and_stops_at_end() {
    let w = TypingWidget::new("abcdefghij", 0, 3);
    assert_eq!(w.frame(0).typed_len(), 0);
    assert_eq!(TypingWidget::new("abcdefghij", 0, 3).frame(2).typed_len(), 6);
    assert_eq!(TypingWidget::new("abcdefghij", 0, 3).frame(4).typed_len(), 10);
    assert_eq!(TypingWidget::new("abcdefghij", 0, 3).frame(usize::MAX).typed_len(), 10);
}

#[test]
fn caret_takes_two_bytes() {
    let w = TypingWidget::new("abcdefghij", 0, 3).frame(2);
    assert_eq!(w.visible_len(), 4);
    let w = TypingWidget::new("abcdefghij", 0, 3).frame(2).show_caret(false);
    assert_eq!(w.visible_len(), 6);
    let w = TypingWidget::new("abcdefghij", 0, 1).frame(1);
    assert_eq!(w.visible_len(), 0);
}

#[test]
fn finished_once_all_typed() {
    assert!(!TypingWidget::new("abcdefghij", 0, 3).frame(3).is_finished());
    assert!(TypingWidget::new("abcdefghij", 0, 3).frame(4).is_finished());
    assert!(TypingWidget::new("", 0, 3).is_finished());
}

#[test]
fn headings_are_recognised() {
    assert!(is_heading("# Title"));
    assert!(is_heading("## Section"));
    assert!(!is_heading("### Deeper"));
    assert!(!is_heading("#Title"));
    assert!(!is_heading("Text # not"));
    assert!(!is_heading("#"));
    assert!(!is_heading(""));
}

#[test]
fn snapshot_shows_splash_then_document() {
    let mut app = App::with_document(String::from("the document"), String::from("hi"), 0);
    let s = app.snapshot();
    assert_eq!(s.text, "hi");
    assert_eq!(s.scroll_speed, 1);
    assert_eq!(s.current_frame, 0);
    assert_eq!(s.alignment, Alignment::Center);
    assert!(s.show_caret);
    for t in 0..SPLASH_FRAMES {
        app.handle_event(AppEvent::Tick(t as u64));
    }
    let s = app.snapshot();
    assert_eq!(s.text, "the document");
    assert_eq!(s.scroll_speed, 10);
    assert_eq!(s.current_frame, 0);
    assert_eq!(s.alignment, Alignment::Left);
    assert_eq!(s.style, StyleRef::Text);
    assert_eq!(s.wrap, Some(Wrap { trim: true }));
    assert!(s.show_caret);
}

#[test]
fn finished_text_caret_follows_blink() {
    let mut app = App::with_document(String::from("doc"), String::from("hi"), 0);
    app.handle_event(AppEvent::Tick(400));
    assert!(!app.caret_visible);
    app.handle_event(AppEvent::Tick(401));
    assert_eq!(app.current_frame, 2);
    assert!(!app.snapshot().show_caret);
    app.handle_event(AppEvent::Tick(401));
    assert!(app.snapshot().show_caret == false);
    app.handle_event(AppEvent::Tick(800));
    assert!(app.snapshot().show_caret);
}

#[test]
fn visible_text_ends_on_a_character_boundary() {
    let w = TypingWidget::new("abécd", 0, 1).frame(3).show_caret(false);
    assert_eq!(w.visible_len(), 3);
    assert_eq!(w.visible_text(), "ab");
    let w = TypingWidget::new("abécd", 0, 1).frame(4).show_caret(false);
    assert_eq!(w.visible_text(), "abé");
    let w = TypingWidget::new("abécd", 0, 1).frame(6);
    assert_eq!(w.visible_text(), "abé");
    let w = TypingWidget::new("abécd", 0, 1).frame(1);
    assert_eq!(w.visible_text(), "");
}

use vstd::prelude::*;
use vstd::string::StringSliceAdditionalSpecFns;
use crate::events::{AppEvent, InputEvent};
use crate::typing::{Alignment, StyleRef, TypingWidget, Wrap};

verus! {

/// How many document lines a viewer sees at once.
pub const VISIBLE_LINES: usize = 16;

/// How far one tick of the redraw clock advances the animation.
pub const TICK_STEP: usize = 1;

/// How long the caret stays in one blink phase, in milliseconds.
pub const BLINK_MS: u64 = 350;

/// How many frames the splash text is shown before the document.
pub const SPLASH_FRAMES: usize = 70;

/// Bytes of the splash text typed per frame.
pub const SPLASH_SPEED: usize = 1;

/// Bytes of the document typed per frame.
pub const DOCUMENT_SPEED: usize = 10;

/// The line-feed byte.
pub const NEWLINE: u8 = 0x0a;

/// How many line feeds `b` holds.
pub open spec fn newline_count(b: Seq<u8>) -> nat
    decreases b.len(),
{
    if b.len() == 0 {
        0
    } else {
        newline_count(b.drop_last()) + if b.last() == NEWLINE {
            1nat
        } else {
            0nat
        }
    }
}

/// How many lines the text `b` (its UTF-8 bytes) has: one per line feed,
/// and one more for a last line that no line feed ends.
pub open spec fn line_count(b: Seq<u8>) -> nat {
    newline_count(b) + if b.len() > 0 && b.last() != NEWLINE {
        1nat
    } else {
        0nat
    }
}

/// The lines of a document, counted over its UTF-8 encoding.
pub open spec fn doc_lines(s: Seq<char>) -> nat {
    line_count(vstd::utf8::encode_utf8(s))
}

/// The largest scroll offset for a document of `total` lines: the viewport
/// never scrolls past the last line.
pub open spec fn max_scroll_for(total: nat) -> nat {
    if total > VISIBLE_LINES {
        (total - VISIBLE_LINES) as nat
    } else {
        0
    }
}

/// The time since `last`, or zero where the clock reads earlier than `last`.
pub open spec fn elapsed_ms(last: u64, now: u64) -> nat {
    if now >= last {
        (now - last) as nat
    } else {
        0
    }
}

/// A frame counter after one tick: it grows by one step, and stays at the
/// largest value once it gets there.
pub open spec fn next_frame(frame: usize) -> usize {
    if frame < usize::MAX {
        (frame + TICK_STEP) as usize
    } else {
        frame
    }
}

proof fn lemma_newline_count_bound(b: Seq<u8>)
    ensures
        newline_count(b) <= b.len(),
    decreases b.len(),
{
    if b.len() > 0 {
        lemma_newline_count_bound(b.drop_last());
    }
}

/// Counts the lines of `text` as `str::lines` yields them.
pub fn count_lines(text: &str) -> (r: usize)
    ensures
        r == line_count(text.spec_bytes()),
{
    let bytes = text.as_bytes();
    let n = bytes.len();
    let mut count: usize = 0;
    let mut i: usize = 0;
    while i < n
        invariant
            bytes@ == text.spec_bytes(),
            n == bytes@.len(),
            i <= n,
            count <= i,
            count == newline_count(bytes@.subrange(0, i as int)),
        decreases n - i,
    {
        assert(bytes@.subrange(0, i + 1).drop_last() =~= bytes@.subrange(0, i as int));
        if bytes[i] == NEWLINE {
            count = count + 1;
        }
        i = i + 1;
    }
    assert(bytes@.subrange(0, n as int) =~= bytes@);
    if n > 0 && bytes[n - 1] != NEWLINE {
        proof {
            lemma_newline_count_bound(bytes@.drop_last());
        }
        count = count + 1;
    }
    count
}

/// The state of one viewer's animation: the document, how far the typing
/// animation has got, where the viewport is scrolled to, and whether the
/// viewer is still connected.
pub struct App {
    /// False once the viewer has asked to leave; the state is then frozen.
    pub running: bool,
    /// The short text shown before the document.
    pub splash: String,
    /// The document.
    pub message: String,
    /// The animation frame, advanced by each tick.
    pub current_frame: usize,
    /// The first document line shown.
    pub scroll_position: usize,
    /// How many lines the document has.
    pub total_lines: usize,
    /// When the caret last changed phase, in milliseconds.
    pub last_tick: u64,
    /// Whether the caret is shown in the current blink phase.
    pub caret_visible: bool,
}

impl App {
    /// The largest scroll offset for this document.
    pub open spec fn scroll_limit(&self) -> nat {
        max_scroll_for(self.total_lines as nat)
    }

    /// The line count is the document's, and the scroll offset lies within
    /// the document.
    pub open spec fn wf(&self) -> bool {
        &&& self.total_lines == doc_lines(self.message@)
        &&& self.scroll_position <= self.scroll_limit()
    }

    /// The state after `event`. A session that is no longer running ignores
    /// every event.
    pub open spec fn after(self, event: AppEvent) -> App {
        if !self.running {
            self
        } else {
            match event {
                AppEvent::Input(InputEvent::Quit) | AppEvent::Input(InputEvent::Interrupt) => App {
                    running: false,
                    ..self
                },
                AppEvent::Input(InputEvent::ScrollUp) => App {
                    scroll_position: if self.scroll_position > 0 {
                        (self.scroll_position - 1) as usize
                    } else {
                        0
                    },
                    ..self
                },
                AppEvent::Input(InputEvent::ScrollDown) => App {
                    scroll_position: if self.scroll_position < self.scroll_limit() {
                        (self.scroll_position + 1) as usize
                    } else {
                        self.scroll_position
                    },
                    ..self
                },
                AppEvent::Tick(now) => {
                    let blink = elapsed_ms(self.last_tick, now) >= BLINK_MS;
                    App {
                        current_frame: next_frame(self.current_frame),
                        caret_visible: if blink {
                            !self.caret_visible
                        } else {
                            self.caret_visible
                        },
                        last_tick: if blink {
                            now
                        } else {
                            self.last_tick
                        },
                        ..self
                    }
                },
            }
        }
    }

    /// A running session with no document, at frame zero.
    pub fn new() -> (r: App)
        ensures
            r.running,
            r.splash@.len() == 0,
            r.message@.len() == 0,
            r.current_frame == 0,
            r.scroll_position == 0,
            r.total_lines == 0,
            r.last_tick == 0,
            r.caret_visible,
            r.wf(),
    {
        let r = App::with_document(String::new(), String::new(), 0);
        assert(vstd::utf8::encode_utf8(r.message@) =~= Seq::<u8>::empty());
        r
    }

    /// A running session that shows `splash` and then `message`, at frame
    /// zero, whose clock started at `now`.
    pub fn with_document(message: String, splash: String, now: u64) -> (r: App)
        ensures
            r.running,
            r.splash == splash,
            r.message == message,
            r.current_frame == 0,
            r.scroll_position == 0,
            r.total_lines == doc_lines(message@),
            r.last_tick == now,
            r.caret_visible,
            r.wf(),
    {
        let total_lines = count_lines(message.as_str());
        App {
            running: true,
            total_lines,
            splash,
            message,
            current_frame: 0,
            scroll_position: 0,
            last_tick: now,
            caret_visible: true,
        }
    }

    /// The largest scroll offset for this document.
    pub fn max_scroll(&self) -> (r: usize)
        ensures
            r == self.scroll_limit(),
    {
        self.total_lines.saturating_sub(VISIBLE_LINES)
    }

    /// What the next redraw shows: the splash text, centred and typed one
    /// byte a frame, for the first frames; after that the document, left
    /// aligned and typed ten bytes a frame, with its own frame count starting
    /// at zero. The caret is shown while typing goes on, and blinks once the
    /// text is complete.
    pub fn snapshot(&self) -> (r: TypingWidget<'_>)
        ensures
            self.current_frame < SPLASH_FRAMES ==> {
                &&& r.text@ == self.splash@
                &&& r.current_frame == self.current_frame
                &&& r.scroll_speed == SPLASH_SPEED
                &&& r.alignment == Alignment::Center
            },
            self.current_frame >= SPLASH_FRAMES ==> {
                &&& r.text@ == self.message@
                &&& r.current_frame == self.current_frame - SPLASH_FRAMES
                &&& r.scroll_speed == DOCUMENT_SPEED
                &&& r.alignment == Alignment::Left
            },
            r.scroll_position == self.scroll_position,
            r.style == StyleRef::Text,
            r.wrap == Some(Wrap { trim: true }),
            r.show_caret == if r.current_frame * r.scroll_speed >= r.text.len() {
                self.caret_visible
            } else {
                true
            },
    {
        let msg = if self.current_frame < SPLASH_FRAMES {
            TypingWidget::new(self.splash.as_str(), self.scroll_position, SPLASH_SPEED).frame(
                self.current_frame,
            ).style(StyleRef::Text).show_caret(true).alignment(Alignment::Center).wrap(
                Some(Wrap { trim: true }),
            )
        } else {
            TypingWidget::new(self.message.as_str(), self.scroll_position, DOCUMENT_SPEED).frame(
                self.current_frame - SPLASH_FRAMES,
            ).style(StyleRef::Text).show_caret(true).alignment(Alignment::Left).wrap(
                Some(Wrap { trim: true }),
            )
        };
        if msg.is_finished() {
            msg.show_caret(self.caret_visible)
        } else {
            msg
        }
    }

    /// Applies one event: Quit and Interrupt stop the session, ScrollUp and
    /// ScrollDown move the viewport by one line within the document, and Tick
    /// advances the animation and the caret's blink. Once the session has
    /// stopped, nothing changes.
    pub fn handle_event(&mut self, event: AppEvent)
        requires
            old(self).wf(),
        ensures
            *final(self) == old(self).after(event),
            final(self).wf(),
    {
        if !self.running {
            return ;
        }
        match event {
            AppEvent::Input(InputEvent::Quit) | AppEvent::Input(InputEvent::Interrupt) => {
                self.running = false;
            },
            AppEvent::Input(InputEvent::ScrollUp) => {
                if self.scroll_position > 0 {
                    self.scroll_position = self.scroll_position - 1;
                }
            },
            AppEvent::Input(InputEvent::ScrollDown) => {
                let max_scroll = self.max_scroll();
                if self.scroll_position < max_scroll {
                    self.scroll_position = self.scroll_position + 1;
                }
            },
            AppEvent::Tick(now) => {
                let elapsed = if now >= self.last_tick {
                    now - self.last_tick
                } else {
                    0
                };
                if elapsed >= BLINK_MS {
                    self.caret_visible = !self.caret_visible;
                    self.last_tick = now;
                }
                self.current_frame = self.current_frame.saturating_add(TICK_STEP);
            },
        }
    }
}

/// The state after applying `events` in order, starting from `a`.
pub open spec fn replay(a: App, events: Seq<AppEvent>) -> App
    decreases events.len(),
{
    if events.len() == 0 {
        a
    } else {
        replay(a.after(events[0]), events.drop_first())
    }
}

/// Every event of `events` is `e`.
pub open spec fn all_are(events: Seq<AppEvent>, e: AppEvent) -> bool {
    forall|i: int| 0 <= i < events.len() ==> events[i] == e
}

proof fn lemma_replay_scroll_down(a: App, events: Seq<AppEvent>)
    requires
        a.wf(),
        a.running,
        all_are(events, AppEvent::Input(InputEvent::ScrollDown)),
    ensures
        replay(a, events).wf(),
        replay(a, events).running,
        replay(a, events).total_lines == a.total_lines,
        replay(a, events).scroll_position == if a.scroll_position + events.len()
            <= a.scroll_limit() {
            a.scroll_position + events.len()
        } else {
            a.scroll_limit() as int
        },
    decreases events.len(),
{
    if events.len() > 0 {
        let next = a.after(events[0]);
        assert(all_are(events.drop_first(), AppEvent::Input(InputEvent::ScrollDown)));
        lemma_replay_scroll_down(next, events.drop_first());
    }
}

proof fn lemma_replay_scroll_up(a: App, events: Seq<AppEvent>)
    requires
        a.wf(),
        a.running,
        all_are(events, AppEvent::Input(InputEvent::ScrollUp)),
    ensures
        replay(a, events).wf(),
        replay(a, events).running,
        replay(a, events).scroll_position == if events.len() <= a.scroll_position {
            a.scroll_position - events.len()
        } else {
            0
        },
    decreases events.len(),
{
    if events.len() > 0 {
        let next = a.after(events[0]);
        assert(all_are(events.drop_first(), AppEvent::Input(InputEvent::ScrollUp)));
        lemma_replay_scroll_up(next, events.drop_first());
    }
}

/// Scrolling down is capped: once at least as many ScrollDown events as there
/// are lines left below the viewport have been applied, the offset is the
/// largest one, and a further ScrollDown leaves the session unchanged.
pub proof fn scroll_down_stops_at_limit(a: App, events: Seq<AppEvent>)
    requires
        a.wf(),
        a.running,
        all_are(events, AppEvent::Input(InputEvent::ScrollDown)),
        a.scroll_position + events.len() >= a.scroll_limit(),
    ensures
        replay(a, events).scroll_position == a.scroll_limit(),
        replay(a, events).after(AppEvent::Input(InputEvent::ScrollDown)) == replay(a, events),
{
    lemma_replay_scroll_down(a, events);
}

/// Scrolling up is floored: once at least as many ScrollUp events as the
/// current offset have been applied, the offset is zero, and a further
/// ScrollUp leaves the session unchanged.
pub proof fn scroll_up_stops_at_top(a: App, events: Seq<AppEvent>)
    requires
        a.wf(),
        a.running,
        all_are(events, AppEvent::Input(InputEvent::ScrollUp)),
        events.len() >= a.scroll_position,
    ensures
        replay(a, events).scroll_position == 0,
        replay(a, events).after(AppEvent::Input(InputEvent::ScrollUp)) == replay(a, events),
{
    lemma_replay_scroll_up(a, events);
}

proof fn lemma_replay_stopped(a: App, events: Seq<AppEvent>)
    requires
        !a.running,
    ensures
        replay(a, events) == a,
    decreases events.len(),
{
    if events.len() > 0 {
        lemma_replay_stopped(a.after(events[0]), events.drop_first());
    }
}

/// Quit and Interrupt stop a session at any point, and a stopped session is
/// frozen: no sequence of later events, ticks included, changes it.
pub proof fn stop_freezes_session(a: App, stop: InputEvent, later: Seq<AppEvent>)
    requires
        stop == InputEvent::Quit || stop == InputEvent::Interrupt,
    ensures
        !a.after(AppEvent::Input(stop)).running,
        replay(a.after(AppEvent::Input(stop)), later) == a.after(AppEvent::Input(stop)),
{
    lemma_replay_stopped(a.after(AppEvent::Input(stop)), later);
}

} // verus!

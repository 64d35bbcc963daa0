use vstd::prelude::*;

verus! {

/// The byte a terminal sends for Ctrl+C.
pub const CTRL_C: u8 = 0x03;

/// The escape byte that starts an arrow-key sequence.
pub const ESC: u8 = 0x1b;

/// What one chunk of client input asks the session to do.
#[derive(Clone, Copy, Debug, PartialEq, Eq, Structural)]
pub enum InputEvent {
    /// Ctrl+C: end the session.
    Interrupt,
    /// `q`: end the session.
    Quit,
    /// `k` or arrow-up: scroll one line up.
    ScrollUp,
    /// `j` or arrow-down: scroll one line down.
    ScrollDown,
}

/// The input events that the session logic consumes.
#[derive(Clone, Copy, Debug, PartialEq, Eq, Structural)]
pub enum AppEvent {
    /// A translated key press.
    Input(InputEvent),
    /// One step of the redraw clock, stamped with the current time in
    /// milliseconds of a monotonic clock.
    Tick(u64),
}

/// The key codes the session logic tells apart.
#[derive(Clone, Copy, Debug, PartialEq, Eq, Structural)]
pub enum KeyCode {
    Char(char),
    Up,
    Down,
    Other,
}

/// The modifier state of a key press.
#[derive(Clone, Copy, Debug, PartialEq, Eq, Structural)]
pub enum KeyModifiers {
    /// No modifier held.
    Plain,
    /// Control held, and nothing else.
    Control,
    /// Any other combination.
    Other,
}

/// A key press as a local terminal reports it.
#[derive(Clone, Copy, Debug, PartialEq, Eq, Structural)]
pub struct KeyEvent {
    pub code: KeyCode,
    pub modifiers: KeyModifiers,
}

/// The event that a whole chunk of bytes received from a client stands for.
pub open spec fn translation(data: Seq<u8>) -> Option<InputEvent> {
    if data == seq![CTRL_C] {
        Some(InputEvent::Interrupt)
    } else if data == seq!['q' as u8] {
        Some(InputEvent::Quit)
    } else if data == seq!['k' as u8] || data == seq![ESC, '[' as u8, 'A' as u8] {
        Some(InputEvent::ScrollUp)
    } else if data == seq!['j' as u8] || data == seq![ESC, '[' as u8, 'B' as u8] {
        Some(InputEvent::ScrollDown)
    } else {
        None
    }
}

/// The event that a key press stands for.
pub open spec fn key_meaning(key: KeyEvent) -> Option<InputEvent> {
    match (key.code, key.modifiers) {
        (KeyCode::Char('q'), KeyModifiers::Plain) => Some(InputEvent::Quit),
        (KeyCode::Char('c'), KeyModifiers::Control) => Some(InputEvent::Interrupt),
        (KeyCode::Up, KeyModifiers::Plain) | (KeyCode::Char('k'), KeyModifiers::Plain) => Some(
            InputEvent::ScrollUp,
        ),
        (KeyCode::Down, KeyModifiers::Plain) | (KeyCode::Char('j'), KeyModifiers::Plain) => Some(
            InputEvent::ScrollDown,
        ),
        _ => None,
    }
}

/// Maps one chunk of bytes received from a client to the event it stands
/// for. Anything unrecognised yields `None`; it is never an error.
pub fn translate(data: &[u8]) -> (r: Option<InputEvent>)
    ensures
        r == translation(data@),
{
    let n = data.len();
    if n == 1 {
        let b = data[0];
        if b == CTRL_C {
            assert(data@ =~= seq![CTRL_C]);
            Some(InputEvent::Interrupt)
        } else if b == 'q' as u8 {
            assert(data@ =~= seq!['q' as u8]);
            Some(InputEvent::Quit)
        } else if b == 'k' as u8 {
            assert(data@ =~= seq!['k' as u8]);
            Some(InputEvent::ScrollUp)
        } else if b == 'j' as u8 {
            assert(data@ =~= seq!['j' as u8]);
            Some(InputEvent::ScrollDown)
        } else {
            assert(data@ != seq![CTRL_C] && data@ != seq!['q' as u8]) by {
                assert(seq![CTRL_C][0] == CTRL_C);
                assert(seq!['q' as u8][0] == 'q' as u8);
            }
            assert(data@ != seq!['k' as u8] && data@ != seq!['j' as u8]) by {
                assert(seq!['k' as u8][0] == 'k' as u8);
                assert(seq!['j' as u8][0] == 'j' as u8);
            }
            None
        }
    } else if n == 3 && data[0] == ESC && data[1] == '[' as u8 && (data[2] == 'A' as u8
        || data[2] == 'B' as u8) {
        if data[2] == 'A' as u8 {
            assert(data@ =~= seq![ESC, '[' as u8, 'A' as u8]);
            Some(InputEvent::ScrollUp)
        } else {
            assert(data@ =~= seq![ESC, '[' as u8, 'B' as u8]);
            Some(InputEvent::ScrollDown)
        }
    } else {
        if n == 3 {
            let ghost up = seq![ESC, '[' as u8, 'A' as u8];
            let ghost down = seq![ESC, '[' as u8, 'B' as u8];
            assert(data@ != up) by {
                if data@ == up {
                    assert(data@[0] == up[0] && data@[1] == up[1] && data@[2] == up[2]);
                }
            }
            assert(data@ != down) by {
                if data@ == down {
                    assert(data@[0] == down[0] && data@[1] == down[1] && data@[2] == down[2]);
                }
            }
        }
        None
    }
}

/// Maps a key press of a local terminal to the event it stands for.
pub fn key_action(key: KeyEvent) -> (r: Option<InputEvent>)
    ensures
        r == key_meaning(key),
{
    match (key.code, key.modifiers) {
        (KeyCode::Char('q'), KeyModifiers::Plain) => Some(InputEvent::Quit),
        (KeyCode::Char('c'), KeyModifiers::Control) => Some(InputEvent::Interrupt),
        (KeyCode::Up, KeyModifiers::Plain) | (KeyCode::Char('k'), KeyModifiers::Plain) => Some(
            InputEvent::ScrollUp,
        ),
        (KeyCode::Down, KeyModifiers::Plain) | (KeyCode::Char('j'), KeyModifiers::Plain) => Some(
            InputEvent::ScrollDown,
        ),
        _ => None,
    }
}

} // verus!

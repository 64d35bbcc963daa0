use vstd::prelude::*;
use vstd::string::StringSliceAdditionalSpecFns;
use vstd::utf8::is_char_boundary;

verus! {

/// How many characters the caret takes off the revealed text while it is shown.
pub const CARET_TRIM: usize = 2;

/// Horizontal placement of the text.
#[derive(Clone, Copy, Debug, PartialEq, Eq, Structural)]
pub enum Alignment {
    Left,
    Center,
}

/// An entry of the colour theme.
#[derive(Clone, Copy, Debug, PartialEq, Eq, Structural)]
pub enum StyleRef {
    /// Body text.
    Text,
    /// Headings and key hints.
    Highlight,
}

/// Line wrapping, and whether wrapped lines lose their leading blanks.
#[derive(Clone, Copy, Debug, PartialEq, Eq, Structural)]
pub struct Wrap {
    pub trim: bool,
}

/// What one frame of the typing animation renders: a text of which the
/// first `current_frame * scroll_speed` bytes have been typed so far.
pub struct TypingWidget<'a> {
    pub text: &'a str,
    pub current_frame: usize,
    pub scroll_position: usize,
    pub scroll_speed: usize,
    pub style: StyleRef,
    pub alignment: Alignment,
    pub wrap: Option<Wrap>,
    pub show_caret: bool,
}

/// How many bytes of a text of `len` bytes are typed after `frame` frames at
/// `speed` bytes a frame.
pub open spec fn typed_len(frame: usize, speed: usize, len: nat) -> nat {
    if frame * speed < len {
        (frame * speed) as nat
    } else {
        len
    }
}

/// Whether the bytes `b` open with a markdown heading marker (`# ` or `## `).
pub open spec fn heading_marked(b: Seq<u8>) -> bool {
    ||| b.len() >= 2 && b[0] == '#' as u8 && b[1] == ' ' as u8
    ||| b.len() >= 3 && b[0] == '#' as u8 && b[1] == '#' as u8 && b[2] == ' ' as u8
}

/// Whether `s` starts with a markdown heading marker, `# ` or `## `.
pub fn is_heading(s: &str) -> (r: bool)
    ensures
        r == heading_marked(s.spec_bytes()),
{
    let b = s.as_bytes();
    let n = b.len();
    (n >= 2 && b[0] == '#' as u8 && b[1] == ' ' as u8) || (n >= 3 && b[0] == '#' as u8 && b[1]
        == '#' as u8 && b[2] == ' ' as u8)
}

impl<'a> TypingWidget<'a> {
    /// A widget for `text` at frame zero: body style, left aligned, wrapping
    /// with trimming, caret shown.
    pub fn new(text: &'a str, scroll_position: usize, scroll_speed: usize) -> (r: TypingWidget<'a>)
        ensures
            r.text == text,
            r.current_frame == 0,
            r.scroll_position == scroll_position,
            r.scroll_speed == scroll_speed,
            r.style == StyleRef::Text,
            r.alignment == Alignment::Left,
            r.wrap == Some(Wrap { trim: true }),
            r.show_caret,
    {
        TypingWidget {
            text,
            current_frame: 0,
            scroll_position,
            scroll_speed,
            style: StyleRef::Text,
            alignment: Alignment::Left,
            wrap: Some(Wrap { trim: true }),
            show_caret: true,
        }
    }

    /// Whether the caret is drawn.
    pub fn show_caret(self, show: bool) -> (r: TypingWidget<'a>)
        ensures
            r == (TypingWidget { show_caret: show, ..self }),
    {
        TypingWidget { show_caret: show, ..self }
    }

    /// The theme entry the text is drawn in.
    pub fn style(self, style: StyleRef) -> (r: TypingWidget<'a>)
        ensures
            r == (TypingWidget { style, ..self }),
    {
        TypingWidget { style, ..self }
    }

    /// The horizontal placement of the text.
    pub fn alignment(self, alignment: Alignment) -> (r: TypingWidget<'a>)
        ensures
            r == (TypingWidget { alignment, ..self }),
    {
        TypingWidget { alignment, ..self }
    }

    /// The animation frame to draw.
    pub fn frame(self, frame: usize) -> (r: TypingWidget<'a>)
        ensures
            r == (TypingWidget { current_frame: frame, ..self }),
    {
        TypingWidget { current_frame: frame, ..self }
    }

    /// How lines wrap.
    pub fn wrap(self, wrap: Option<Wrap>) -> (r: TypingWidget<'a>)
        ensures
            r == (TypingWidget { wrap, ..self }),
    {
        TypingWidget { wrap, ..self }
    }

    /// How many bytes of the text have been typed: `current_frame *
    /// scroll_speed`, but never more than the whole text.
    pub fn typed_len(&self) -> (r: usize)
        ensures
            r == typed_len(self.current_frame, self.scroll_speed, self.text.len() as nat),
    {
        let len = self.text.len();
        match self.current_frame.checked_mul(self.scroll_speed) {
            Some(n) => if n < len {
                n
            } else {
                len
            },
            None => len,
        }
    }

    /// Whether the whole text has been typed.
    pub fn is_finished(&self) -> (r: bool)
        ensures
            r == (self.current_frame * self.scroll_speed >= self.text.len()),
    {
        self.typed_len() == self.text.len()
    }

    /// How many bytes of the text are drawn: those typed so far, less the
    /// room the caret takes while it is shown.
    pub open spec fn shown_len(&self) -> int {
        if self.show_caret {
                if typed_len(self.current_frame, self.scroll_speed, self.text.len() as nat)
                    >= CARET_TRIM {
                    typed_len(self.current_frame, self.scroll_speed, self.text.len() as nat)
                        - CARET_TRIM
                } else {
                    0
                }
            } else {
                typed_len(self.current_frame, self.scroll_speed, self.text.len() as nat) as int
            }
    }

    /// How many bytes of the text are drawn: those typed so far, less the
    /// room the caret takes while it is shown.
    pub fn visible_len(&self) -> (r: usize)
        ensures
            r == self.shown_len(),
    {
        let typed = self.typed_len();
        if self.show_caret {
            typed.saturating_sub(CARET_TRIM)
        } else {
            typed
        }
    }

    /// The part of the text drawn this frame: the longest prefix of at most
    /// `visible_len()` bytes that ends on a character boundary.
    pub fn visible_text(&self) -> (r: &'a str)
        ensures
            r.spec_bytes() == self.text.spec_bytes().subrange(0, r.spec_bytes().len() as int),
            r.spec_bytes().len() <= self.shown_len(),
            forall|k: int|
                r.spec_bytes().len() < k <= self.shown_len() ==> !is_char_boundary(
                    self.text.spec_bytes(),
                    k,
                ),
    {
        broadcast use vstd::utf8::encode_utf8_valid_utf8;

        let text: &'a str = self.text;
        let mut end = self.visible_len();
        while end > 0 && !text.is_char_boundary(end)
            invariant
                text == self.text,
                end <= self.shown_len(),
                forall|k: int|
                    end < k <= self.shown_len() ==> !is_char_boundary(text.spec_bytes(), k),
            decreases end,
        {
            end = end - 1;
        }
        let (head, _) = text.split_at(end);
        head
    }
}

} // verus!

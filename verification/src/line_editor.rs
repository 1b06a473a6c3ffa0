//! Editing the line of input: which key does what to the text and the cursor.
use vstd::prelude::*;
use crate::text::{ascii_text, chars_of, string_of};
use crate::operation::byte_len;

verus! {

/// A key as the terminal reports it.
pub enum KeyPress {
    Char(char),
    Ctrl(char),
    Left,
    Right,
    Backspace,
    Other,
}

/// What the caller does after a key: stop reading and take the line, leave
/// the program, or redraw the line.
#[derive(PartialEq, Eq, Structural, Debug)]
pub enum KeyAction {
    Submit,
    Quit,
    Redraw,
}

/// The line being typed, and the cursor's column (from 1).
pub struct LineEditor {
    pub input: String,
    pub cursor_position: usize,
}

/// A character that may be typed into an expression.
pub open spec fn typeable(c: char) -> bool {
    ('0' <= c && c <= '9') || c == '+' || c == '-' || c == '*' || c == '/' || c == '^' || c == '('
        || c == ')'
}

/// Whether the key can be taken with the text and cursor as they are: a typed
/// character needs the cursor within the line, and so does a backspace that
/// deletes; both need an ASCII line, where a character's place is its byte
/// offset. Moving right needs room for the cursor to grow.
pub open spec fn key_fits(text: Seq<char>, cursor: int, key: KeyPress) -> bool {
    &&& cursor >= 0
    &&& match key {
        KeyPress::Char(c) => c == '\n' || c == 'q' || !typeable(c) || (1 <= cursor <= text.len() + 1
            && cursor < usize::MAX && ascii_text(text)),
        KeyPress::Backspace => cursor <= 1 || (cursor - 2 < text.len() && ascii_text(text)),
        KeyPress::Right => cursor <= byte_len(text) ==> cursor < usize::MAX,
        _ => true,
    }
}

/// The text, cursor and action after a key.
pub open spec fn after_key(text: Seq<char>, cursor: int, key: KeyPress) -> (Seq<char>, int, KeyAction) {
    match key {
        KeyPress::Char(c) => if c == '\n' {
            (text, cursor, KeyAction::Submit)
        } else if c == 'q' {
            (text, cursor, KeyAction::Quit)
        } else if typeable(c) {
            (text.insert(cursor - 1, c), cursor + 1, KeyAction::Redraw)
        } else {
            (text, cursor, KeyAction::Redraw)
        },
        KeyPress::Ctrl(c) => if c == 'c' {
            (text, cursor, KeyAction::Quit)
        } else {
            (text, cursor, KeyAction::Redraw)
        },
        KeyPress::Left => if cursor > 1 {
            (text, cursor - 1, KeyAction::Redraw)
        } else {
            (text, cursor, KeyAction::Redraw)
        },
        KeyPress::Right => if cursor <= byte_len(text) {
            (text, cursor + 1, KeyAction::Redraw)
        } else {
            (text, cursor, KeyAction::Redraw)
        },
        KeyPress::Backspace => if cursor > 1 {
            (text.remove(cursor - 2), cursor - 1, KeyAction::Redraw)
        } else {
            (text, cursor, KeyAction::Redraw)
        },
        KeyPress::Other => (text, cursor, KeyAction::Redraw),
    }
}

impl LineEditor {
    /// An empty line with the cursor at the given column.
    pub fn new(cursor_position: usize) -> (r: LineEditor)
        ensures
            r.input@ == Seq::<char>::empty(),
            r.cursor_position == cursor_position,
    {
        LineEditor { input: String::new(), cursor_position }
    }

    /// Every character of the line is ASCII.
    fn is_ascii_line(&self) -> (r: bool)
        ensures
            r == ascii_text(self.input@),
    {
        let chars = chars_of(&self.input);
        let mut i: usize = 0;
        while i < chars.len()
            invariant
                chars@ == self.input@,
                i <= chars@.len(),
                forall|j: int| 0 <= j < i ==> (#[trigger] chars@[j] as u32) < 128,
            decreases chars.len() - i,
        {
            if (chars[i] as u32) >= 128 {
                assert((self.input@[i as int] as u32) >= 128);
                return false;
            }
            i = i + 1;
        }
        true
    }

    /// Whether the key can be taken as things are.
    pub fn fits(&self, key: &KeyPress) -> (r: bool)
        ensures
            r == key_fits(self.input@, self.cursor_position as int, *key),
    {
        let cursor = self.cursor_position;
        match key {
            KeyPress::Char(c) => {
                if *c == '\n' || *c == 'q' || !is_typeable(*c) {
                    true
                } else {
                    let len = chars_of(&self.input).len();
                    1 <= cursor && cursor < usize::MAX && cursor - 1 <= len && self.is_ascii_line()
                }
            },
            KeyPress::Backspace => {
                if cursor <= 1 {
                    true
                } else {
                    let len = chars_of(&self.input).len();
                    cursor - 2 < len && self.is_ascii_line()
                }
            },
            KeyPress::Right => cursor > self.input.as_str().len() || cursor < usize::MAX,
            _ => true,
        }
    }

    /// Takes one key: a digit, operator or parenthesis goes in at the cursor,
    /// the arrows move the cursor within the line, backspace deletes before
    /// it, Enter submits the line, and `q` or Ctrl-C quits.
    pub fn handle_key(&mut self, key: KeyPress) -> (r: KeyAction)
        requires
            key_fits(old(self).input@, old(self).cursor_position as int, key),
        ensures
            (final(self).input@, final(self).cursor_position as int, r) == after_key(
                old(self).input@,
                old(self).cursor_position as int,
                key,
            ),
    {
        match key {
            KeyPress::Char(chr) => {
                if chr == '\n' {
                    KeyAction::Submit
                } else if chr == 'q' {
                    KeyAction::Quit
                } else if is_typeable(chr) {
                    let mut chars = chars_of(&self.input);
                    chars.insert(self.cursor_position - 1, chr);
                    self.input = string_of(&chars);
                    self.cursor_position += 1;
                    KeyAction::Redraw
                } else {
                    KeyAction::Redraw
                }
            },
            KeyPress::Ctrl(c) => {
                if c == 'c' {
                    KeyAction::Quit
                } else {
                    KeyAction::Redraw
                }
            },
            KeyPress::Left => {
                if self.cursor_position > 1 {
                    self.cursor_position -= 1;
                }
                KeyAction::Redraw
            },
            KeyPress::Right => {
                let len = self.input.as_str().len();
                if self.cursor_position <= len {
                    self.cursor_position += 1;
                }
                KeyAction::Redraw
            },
            KeyPress::Backspace => {
                if self.cursor_position > 1 {
                    let mut chars = chars_of(&self.input);
                    chars.remove(self.cursor_position - 2);
                    self.input = string_of(&chars);
                    self.cursor_position -= 1;
                }
                KeyAction::Redraw
            },
            KeyPress::Other => KeyAction::Redraw,
        }
    }
}

/// Whether a character may be typed into an expression.
pub fn is_typeable(c: char) -> (r: bool)
    ensures
        r == typeable(c),
{
    ('0' <= c && c <= '9') || c == '+' || c == '-' || c == '*' || c == '/' || c == '^' || c == '('
        || c == ')'
}

} // verus!

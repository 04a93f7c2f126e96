//! Keys as the editor understands them, and their decoding from the byte
//! sequences a terminal sends.
use vstd::prelude::*;
use crate::text::{byte_len, char_width, char_width_of, lemma_byte_len_ge_len, lemma_byte_len_single};

verus! {

#[derive(Debug, Clone, Copy, PartialEq, Eq, Structural)]
pub enum Key {
    Char(char),
    Up,
    Down,
    Left,
    Right,
    Enter,
    Esc,
    Tab,
    BackTab,
    Backspace,
    Delete,
    Home,
    End,
    PageUp,
    PageDown,
    CtrlS,
    CtrlC,
    Null,
}

/// The key a terminal input sequence stands for: a control sequence, or a
/// single one-byte character.
pub open spec fn terminal_key(s: Seq<char>) -> Option<Key> {
    if s == seq!['\r'] {
        Some(Key::Enter)
    } else if s == seq!['\x7f'] {
        Some(Key::Backspace)
    } else if s == seq!['\t'] {
        Some(Key::Tab)
    } else if s == seq!['\x1b'] {
        Some(Key::Esc)
    } else if s == seq!['\x1b', '[', 'A'] {
        Some(Key::Up)
    } else if s == seq!['\x1b', '[', 'B'] {
        Some(Key::Down)
    } else if s == seq!['\x1b', '[', 'C'] {
        Some(Key::Right)
    } else if s == seq!['\x1b', '[', 'D'] {
        Some(Key::Left)
    } else if s == seq!['\x1b', '[', 'H'] {
        Some(Key::Home)
    } else if s == seq!['\x1b', '[', 'F'] {
        Some(Key::End)
    } else if s == seq!['\x1b', '[', '5', '~'] {
        Some(Key::PageUp)
    } else if s == seq!['\x1b', '[', '6', '~'] {
        Some(Key::PageDown)
    } else if s == seq!['\x1b', '[', '3', '~'] {
        Some(Key::Delete)
    } else if s == seq!['\x1b', '[', 'Z'] {
        Some(Key::BackTab)
    } else if byte_len(s) == 1 {
        Some(Key::Char(s[0]))
    } else {
        None
    }
}

/// Converts the input a terminal emulator sends for one key press to a `Key`.
pub fn convert_terminal_key(data: &str) -> (r: Option<Key>)
    ensures
        r == terminal_key(data@),
{
    let n = data.unicode_len();
    let s = Ghost(data@);
    proof {
        lemma_byte_len_ge_len(data@);
    }
    if n == 1 {
        let c = data.get_char(0);
        proof {
            assert(data@ =~= seq![c]);
            lemma_byte_len_single(c);
        }
        if c == '\r' {
            Some(Key::Enter)
        } else if c == '\x7f' {
            Some(Key::Backspace)
        } else if c == '\t' {
            Some(Key::Tab)
        } else if c == '\x1b' {
            Some(Key::Esc)
        } else if char_width_of(c) == 1 {
            Some(Key::Char(c))
        } else {
            None
        }
    } else if n == 3 {
        let c0 = data.get_char(0);
        let c1 = data.get_char(1);
        let c2 = data.get_char(2);
        proof {
            assert(data@ =~= seq![c0, c1, c2]);
        }
        if c0 == '\x1b' && c1 == '[' {
            if c2 == 'A' {
                Some(Key::Up)
            } else if c2 == 'B' {
                Some(Key::Down)
            } else if c2 == 'C' {
                Some(Key::Right)
            } else if c2 == 'D' {
                Some(Key::Left)
            } else if c2 == 'H' {
                Some(Key::Home)
            } else if c2 == 'F' {
                Some(Key::End)
            } else if c2 == 'Z' {
                Some(Key::BackTab)
            } else {
                None
            }
        } else {
            None
        }
    } else if n == 4 {
        let c0 = data.get_char(0);
        let c1 = data.get_char(1);
        let c2 = data.get_char(2);
        let c3 = data.get_char(3);
        proof {
            assert(data@ =~= seq![c0, c1, c2, c3]);
        }
        if c0 == '\x1b' && c1 == '[' && c3 == '~' {
            if c2 == '5' {
                Some(Key::PageUp)
            } else if c2 == '6' {
                Some(Key::PageDown)
            } else if c2 == '3' {
                Some(Key::Delete)
            } else {
                None
            }
        } else {
            None
        }
    } else {
        None
    }
}

/// A key press as a terminal library reports it: the code of the key; keys
/// the editor has no use for are `Other`.
#[derive(Debug, Clone, Copy, PartialEq, Eq, Structural)]
pub enum KeyCode {
    Char(char),
    Up,
    Down,
    Left,
    Right,
    Enter,
    Esc,
    Tab,
    BackTab,
    Backspace,
    Delete,
    Home,
    End,
    PageUp,
    PageDown,
    Other,
}

/// The key a key press stands for; `ctrl` says that Control, and no
/// other modifier, was held. With Control only `s` and `c` mean anything.
pub open spec fn event_key(code: KeyCode, ctrl: bool) -> Option<Key> {
    if ctrl {
        match code {
            KeyCode::Char('s') => Some(Key::CtrlS),
            KeyCode::Char('c') => Some(Key::CtrlC),
            _ => None,
        }
    } else {
        match code {
            KeyCode::Char(c) => Some(Key::Char(c)),
            KeyCode::Up => Some(Key::Up),
            KeyCode::Down => Some(Key::Down),
            KeyCode::Left => Some(Key::Left),
            KeyCode::Right => Some(Key::Right),
            KeyCode::Enter => Some(Key::Enter),
            KeyCode::Esc => Some(Key::Esc),
            KeyCode::Tab => Some(Key::Tab),
            KeyCode::BackTab => Some(Key::BackTab),
            KeyCode::Backspace => Some(Key::Backspace),
            KeyCode::Delete => Some(Key::Delete),
            KeyCode::Home => Some(Key::Home),
            KeyCode::End => Some(Key::End),
            KeyCode::PageUp => Some(Key::PageUp),
            KeyCode::PageDown => Some(Key::PageDown),
            KeyCode::Other => None,
        }
    }
}

/// Converts a key press of the terminal to a `Key`.
pub fn convert_event(code: KeyCode, ctrl: bool) -> (r: Option<Key>)
    ensures
        r == event_key(code, ctrl),
{
    if ctrl {
        return match code {
            KeyCode::Char('s') => Some(Key::CtrlS),
            KeyCode::Char('c') => Some(Key::CtrlC),
            _ => None,
        };
    }
    match code {
        KeyCode::Char(c) => Some(Key::Char(c)),
        KeyCode::Up => Some(Key::Up),
        KeyCode::Down => Some(Key::Down),
        KeyCode::Left => Some(Key::Left),
        KeyCode::Right => Some(Key::Right),
        KeyCode::Enter => Some(Key::Enter),
        KeyCode::Esc => Some(Key::Esc),
        KeyCode::Tab => Some(Key::Tab),
        KeyCode::BackTab => Some(Key::BackTab),
        KeyCode::Backspace => Some(Key::Backspace),
        KeyCode::Delete => Some(Key::Delete),
        KeyCode::Home => Some(Key::Home),
        KeyCode::End => Some(Key::End),
        KeyCode::PageUp => Some(Key::PageUp),
        KeyCode::PageDown => Some(Key::PageDown),
        KeyCode::Other => None,
    }
}

/// Whether a key press ends the terminal editor: Control-C, or `q` with
/// any modifiers, on every screen.
pub fn quits(code: KeyCode, ctrl: bool) -> (r: bool)
    ensures
        r == (code == KeyCode::Char('q') || (ctrl && code == KeyCode::Char('c'))),
{
    match code {
        KeyCode::Char(c) => c == 'q' || (ctrl && c == 'c'),
        _ => false,
    }
}

} // verus!

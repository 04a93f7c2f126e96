use editor::key::{convert_event, convert_terminal_key, quits, Key, KeyCode};

#[test]
fn control_sequences() {
    assert_eq!(convert_terminal_key("\r"), Some(Key::Enter));
    assert_eq!(convert_terminal_key("\x7f"), Some(Key::Backspace));
    assert_eq!(convert_terminal_key("\t"), Some(Key::Tab));
    assert_eq!(convert_terminal_key("\x1b"), Some(Key::Esc));
    assert_eq!(convert_terminal_key("\x1b[A"), Some(Key::Up));
    assert_eq!(convert_terminal_key("\x1b[B"), Some(Key::Down));
    assert_eq!(convert_terminal_key("\x1b[C"), Some(Key::Right));
    assert_eq!(convert_terminal_key("\x1b[D"), Some(Key::Left));
    assert_eq!(convert_terminal_key("\x1b[H"), Some(Key::Home));
    assert_eq!(convert_terminal_key("\x1b[F"), Some(Key::End));
    assert_eq!(convert_terminal_key("\x1b[5~"), Some(Key::PageUp));
    assert_eq!(convert_terminal_key("\x1b[6~"), Some(Key::PageDown));
    assert_eq!(convert_terminal_key("\x1b[3~"), Some(Key::Delete));
    assert_eq!(convert_terminal_key("\x1b[Z"), Some(Key::BackTab));
}

#[test]
fn single_byte_characters() {
    assert_eq!(convert_terminal_key("a"), Some(Key::Char('a')));
    assert_eq!(convert_terminal_key(" "), Some(Key::Char(' ')));
    assert_eq!(convert_terminal_key("\n"), Some(Key::Char('\n')));
}

#[test]
fn other_inputs_are_no_key() {
    assert_eq!(convert_terminal_key(""), None);
    assert_eq!(convert_terminal_key("ab"), None);
    assert_eq!(convert_terminal_key("é"), None);
    assert_eq!(convert_terminal_key("\x1b[X"), None);
    assert_eq!(convert_terminal_key("\x1b[5"), None);
    assert_eq!(convert_terminal_key("\x1b[7~"), None);
}

#[test]
fn terminal_events_to_keys() {
    assert_eq!(convert_event(KeyCode::Char('x'), false), Some(Key::Char('x')));
    assert_eq!(convert_event(KeyCode::Up, false), Some(Key::Up));
    assert_eq!(convert_event(KeyCode::PageDown, false), Some(Key::PageDown));
    assert_eq!(convert_event(KeyCode::BackTab, false), Some(Key::BackTab));
    assert_eq!(convert_event(KeyCode::Other, false), None);
    assert_eq!(convert_event(KeyCode::Char('s'), true), Some(Key::CtrlS));
    assert_eq!(convert_event(KeyCode::Char('c'), true), Some(Key::CtrlC));
    assert_eq!(convert_event(KeyCode::Char('x'), true), None);
    assert_eq!(convert_event(KeyCode::Enter, true), None);
}

#[test]
fn quitting_keys() {
    assert!(quits(KeyCode::Char('q'), false));
    assert!(quits(KeyCode::Char('q'), true));
    assert!(quits(KeyCode::Char('c'), true));
    assert!(!quits(KeyCode::Char('c'), false));
    assert!(!quits(KeyCode::Char('Q'), false));
    assert!(!quits(KeyCode::Esc, true));
}

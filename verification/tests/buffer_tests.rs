use editor::editor::buffer::Buffer;

fn buf(text: &str) -> Buffer {
    Buffer::from_text(text)
}

#[test]
fn new_buffer_has_one_empty_line() {
    let b = Buffer::new();
    assert_eq!(b.lines, vec![String::new()]);
    assert_eq!((b.cursor_x, b.cursor_y), (0, 0));
}

#[test]
fn from_text_splits_lines() {
    let b = buf("alpha\nbeta\r\ngamma\n");
    assert_eq!(b.lines, vec!["alpha", "beta", "gamma"]);
    assert_eq!((b.cursor_x, b.cursor_y), (0, 0));
}

#[test]
fn from_text_empty_gives_one_line() {
    assert_eq!(buf("").lines, vec![String::new()]);
    assert_eq!(buf("\n").lines, vec![String::new()]);
    assert_eq!(buf("\n\n").lines, vec![String::new(), String::new()]);
    assert_eq!(buf("a\r").lines, vec!["a\r"]);
}

#[test]
fn to_text_joins_lines() {
    let b = buf("one\ntwo\nthree");
    assert_eq!(b.to_text(), "one\ntwo\nthree");
    assert_eq!(Buffer::new().to_text(), "");
}

#[test]
fn text_roundtrip_law_examples() {
    for t in ["", "a", "a\nb", "\nx", "a\n\nb", "héllo\nwörld"] {
        assert_eq!(buf(t).to_text(), t);
    }
    let mut b = buf("x");
    b.lines = vec!["a".to_string(), String::new(), "c".to_string()];
    assert_eq!(Buffer::from_text(&b.to_text()).lines, b.lines);
}

#[test]
fn current_line_follows_cursor() {
    let mut b = buf("first\nsecond");
    assert_eq!(b.current_line(), "first");
    b.cursor_y = 1;
    assert_eq!(b.current_line(), "second");
    b.cursor_y = 7;
    assert_eq!(b.current_line(), "");
}

#[test]
fn vertical_moves_clamp_column() {
    let mut b = buf("a long line\nab\nanother long one");
    b.cursor_x = 8;
    b.move_down();
    assert_eq!((b.cursor_x, b.cursor_y), (2, 1));
    b.move_down();
    assert_eq!((b.cursor_x, b.cursor_y), (2, 2));
    b.move_down();
    assert_eq!((b.cursor_x, b.cursor_y), (2, 2));
    b.move_up();
    b.move_up();
    assert_eq!((b.cursor_x, b.cursor_y), (2, 0));
    b.move_up();
    assert_eq!((b.cursor_x, b.cursor_y), (2, 0));
}

#[test]
fn horizontal_moves_wrap_lines() {
    let mut b = buf("ab\ncd");
    b.move_left();
    assert_eq!((b.cursor_x, b.cursor_y), (0, 0));
    b.move_right();
    b.move_right();
    assert_eq!((b.cursor_x, b.cursor_y), (2, 0));
    b.move_right();
    assert_eq!((b.cursor_x, b.cursor_y), (0, 1));
    b.move_left();
    assert_eq!((b.cursor_x, b.cursor_y), (2, 0));
    b.cursor_y = 1;
    b.cursor_x = 2;
    b.move_right();
    assert_eq!((b.cursor_x, b.cursor_y), (2, 1));
}

#[test]
fn right_then_left_law_examples() {
    let mut b = buf("ab\ncd");
    for (x, y) in [(0usize, 0usize), (1, 0), (2, 0), (0, 1), (1, 1)] {
        b.cursor_x = x;
        b.cursor_y = y;
        b.move_right();
        b.move_left();
        assert_eq!((b.cursor_x, b.cursor_y), (x, y));
    }
}

#[test]
fn home_and_end() {
    let mut b = buf("hello");
    b.move_end();
    assert_eq!(b.cursor_x, 5);
    b.move_home();
    assert_eq!(b.cursor_x, 0);
    let mut u = buf("añb");
    u.move_end();
    assert_eq!(u.cursor_x, 4);
}

#[test]
fn page_moves() {
    let mut b = buf("l0\nl1\nl2\nl3\nline four\nl5");
    b.move_page_down(3);
    assert_eq!(b.cursor_y, 3);
    b.move_page_down(10);
    assert_eq!(b.cursor_y, 5);
    b.move_page_up(2);
    assert_eq!(b.cursor_y, 3);
    b.move_page_up(100);
    assert_eq!(b.cursor_y, 0);
    b.cursor_y = 4;
    b.cursor_x = 8;
    b.move_page_down(1);
    assert_eq!((b.cursor_x, b.cursor_y), (2, 5));
}

#[test]
fn insert_char_at_cursor() {
    let mut b = buf("hllo");
    b.cursor_x = 1;
    b.insert_char('e');
    assert_eq!(b.lines, vec!["hello"]);
    assert_eq!(b.cursor_x, 2);
    let mut u = buf("añ");
    u.cursor_x = 3;
    u.insert_char('é');
    assert_eq!(u.lines, vec!["añé"]);
    assert_eq!(u.cursor_x, 4);
}

#[test]
fn insert_then_delete_law_example() {
    let mut b = buf("abc\ndef");
    b.cursor_y = 1;
    b.cursor_x = 2;
    let before = b.clone();
    b.insert_char('x');
    b.delete_char();
    assert_eq!(b.lines, before.lines);
    assert_eq!((b.cursor_x, b.cursor_y), (before.cursor_x, before.cursor_y));
}

#[test]
fn delete_char_joins_at_line_start() {
    let mut b = buf("ab\ncd");
    b.cursor_y = 1;
    b.delete_char();
    assert_eq!(b.lines, vec!["abcd"]);
    assert_eq!((b.cursor_x, b.cursor_y), (2, 0));
    b.cursor_x = 0;
    b.delete_char();
    assert_eq!(b.lines, vec!["abcd"]);
    assert_eq!((b.cursor_x, b.cursor_y), (0, 0));
}

#[test]
fn delete_forward_removes_or_joins() {
    let mut b = buf("ab\ncd");
    b.delete_forward();
    assert_eq!(b.lines, vec!["b", "cd"]);
    b.move_end();
    b.delete_forward();
    assert_eq!(b.lines, vec!["bcd"]);
    assert_eq!(b.cursor_x, 1);
    b.move_end();
    b.delete_forward();
    assert_eq!(b.lines, vec!["bcd"]);
}

#[test]
fn split_then_join() {
    let mut b = buf("hello world");
    b.cursor_x = 5;
    b.split_line();
    assert_eq!(b.lines, vec!["hello", " world"]);
    assert_eq!((b.cursor_x, b.cursor_y), (0, 1));
    b.join_line();
    assert_eq!(b.lines, vec!["hello world"]);
    assert_eq!((b.cursor_x, b.cursor_y), (5, 0));
    b.join_line();
    assert_eq!(b.lines, vec!["hello world"]);
}

#[test]
fn split_then_delete_law_example() {
    let mut b = buf("añb\nz");
    b.cursor_x = 3;
    b.split_line();
    assert_eq!(b.lines, vec!["añ", "b", "z"]);
    b.delete_char();
    assert_eq!(b.lines, vec!["añb", "z"]);
    assert_eq!((b.cursor_x, b.cursor_y), (3, 0));
}

#[test]
fn visible_line_range_keeps_cursor_row() {
    let mut b = buf("0\n1\n2\n3\n4\n5\n6\n7\n8\n9");
    assert_eq!(b.visible_line_range(4), (0, 4));
    b.cursor_y = 6;
    assert_eq!(b.visible_line_range(4), (3, 7));
    b.cursor_y = 9;
    assert_eq!(b.visible_line_range(20), (0, 10));
    assert_eq!(b.visible_line_range(3), (7, 10));
}

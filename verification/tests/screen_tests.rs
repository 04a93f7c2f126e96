use editor::screen::{color_to_ansi, AnsiScreen, Color, DrawnCell};

fn cell(x: u16, y: u16, symbol: &str, fg: Option<Color>) -> DrawnCell {
    DrawnCell { x, y, symbol: symbol.to_string(), fg }
}

const BLANK: &str = "\x1b[39m \x1b[0m";

#[test]
fn colour_codes() {
    assert_eq!(color_to_ansi(Color::Reset), "\x1b[39m");
    assert_eq!(color_to_ansi(Color::Red), "\x1b[31m");
    assert_eq!(color_to_ansi(Color::White), "\x1b[37m");
    assert_eq!(color_to_ansi(Color::DarkGray), "\x1b[90m");
    assert_eq!(color_to_ansi(Color::LightCyan), "\x1b[96m");
    assert_eq!(color_to_ansi(Color::Gray), "\x1b[39m");
    assert_eq!(color_to_ansi(Color::Rgb(1, 2, 3)), "\x1b[39m");
    assert_eq!(color_to_ansi(Color::Indexed(7)), "\x1b[39m");
}

#[test]
fn first_draw_writes_the_whole_screen() {
    let mut s = AnsiScreen::new(2, 2);
    assert_eq!(s.take_output(), "");
    s.draw(vec![]);
    assert_eq!(s.take_output(), format!("\x1b[2J\x1b[H{BLANK}{BLANK}\r\n{BLANK}{BLANK}"));
    s.draw(vec![]);
    assert_eq!(s.take_output(), "");
}

#[test]
fn changed_cells_redraw_and_unchanged_do_not() {
    let mut s = AnsiScreen::new(2, 1);
    s.draw(vec![]);
    s.take_output();
    s.draw(vec![cell(1, 0, "ab", Some(Color::Red))]);
    assert_eq!(s.take_output(), format!("\x1b[2J\x1b[H{BLANK}\x1b[31ma\x1b[0m"));
    s.draw(vec![cell(1, 0, "a", Some(Color::Red))]);
    assert_eq!(s.take_output(), "");
    s.draw(vec![cell(5, 0, "z", None), cell(0, 3, "z", None)]);
    assert_eq!(s.take_output(), "");
    s.draw(vec![cell(1, 0, "", None)]);
    assert_eq!(s.take_output(), format!("\x1b[2J\x1b[H{BLANK}{BLANK}"));
}

#[test]
fn cursor_moves_and_visibility() {
    let mut s = AnsiScreen::new(10, 5);
    s.set_cursor_position(4, 2);
    assert_eq!(s.cursor_position(), (4, 2));
    s.hide_cursor();
    s.show_cursor();
    assert_eq!(s.take_output(), "\x1b[3;5H\x1b[?25l\x1b[?25h");
}

#[test]
fn resize_keeps_cells_that_fit() {
    let mut s = AnsiScreen::new(2, 1);
    s.draw(vec![cell(0, 0, "x", None), cell(1, 0, "y", None)]);
    s.take_output();
    s.resize(1, 2);
    assert_eq!((s.cols(), s.rows()), (1, 2));
    s.draw(vec![cell(0, 1, "z", None)]);
    assert_eq!(s.take_output(), "\x1b[2J\x1b[H\x1b[39mx\x1b[0m\r\n\x1b[39mz\x1b[0m");
}

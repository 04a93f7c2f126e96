use editor::app::{App, StorageReply};
use editor::editor::buffer::Buffer;
use editor::editor::Editor;
use editor::key::Key;
use editor::models::{ContentType, EntryInfo};
use editor::ui::{
    prompt_cursor_column, prompt_popup,
    browser_text, browser_title, check_dashboard_rows, dashboard_footer, dashboard_panel_title,
    dashboard_rows, editor_panel_text, editor_title, editor_visible_cursor_x, position_label,
    prompt_text,
};

fn info(title: &str, date: &str) -> EntryInfo {
    EntryInfo {
        slug: String::new(),
        title: title.to_string(),
        date: date.to_string(),
        description: String::new(),
        content_type: ContentType::Blog,
    }
}

#[test]
fn cursor_column_on_screen() {
    let mut e = Editor::from_content(ContentType::Blog, "s".to_string(), "ab日本c");
    e.buffer.cursor_x = 2;
    assert_eq!(editor_visible_cursor_x(&e), 2);
    e.buffer.cursor_x = 5;
    assert_eq!(editor_visible_cursor_x(&e), 4);
    e.buffer.cursor_x = 99;
    assert_eq!(editor_visible_cursor_x(&e), 7);
}

#[test]
fn editor_panel_lines() {
    let mut b = Buffer::from_text("one\ntwo\nthree");
    b.cursor_y = 1;
    assert_eq!(editor_panel_text(&b, 0, 10), "   1 one\n>  2 two\n   3 three\n");
    assert_eq!(editor_panel_text(&b, 1, 2), ">  2 two\n");
    assert_eq!(editor_panel_text(&b, 3, 2), "");
    let many = Buffer::from_text(&"x\n".repeat(1200));
    let text = editor_panel_text(&many, 998, 1000);
    assert_eq!(text, " 999 x\n 1000 x\n");
}

#[test]
fn dashboard_rows_cut_and_pad() {
    let entries = vec![
        info("Short", "2024-10-01"),
        info("A title that is far too long", "2024-10-01T12:00:00"),
        info("Third", ""),
    ];
    assert!(check_dashboard_rows(&entries, 2, 10));
    assert_eq!(
        dashboard_rows(&entries, 2, 10),
        " Short       │ 2024-10-01\n A title th…  │ 2024-10-01\n"
    );
    assert_eq!(dashboard_rows(&entries, 5, 30).lines().count(), 3);
    let bad = vec![info("ééééééééé", "")];
    assert!(!check_dashboard_rows(&bad, 1, 5));
    assert!(check_dashboard_rows(&bad, 0, 5));
}

#[test]
fn browser_list() {
    let entries = vec![info("One", ""), info("Two", "")];
    assert_eq!(browser_text(&entries, 1), "   One\n ▸ Two\n  [ N ] NEW ENTRY\n");
    assert_eq!(browser_text(&[], 0), "  [ N ] NEW ENTRY\n");
}

#[test]
fn titles_and_labels() {
    assert_eq!(browser_title(&ContentType::Project), " PROJECTS ENTRIES ");
    assert_eq!(dashboard_panel_title(&ContentType::Blog, 12), " BLOG (12) ");
    assert!(dashboard_footer(&ContentType::Blog).ends_with("·│  BLOG "));
    let mut e = Editor::new(ContentType::Blog, "slug".to_string());
    assert_eq!(editor_title(&e), " slug ");
    e.handle_key(Key::Char('x'));
    assert_eq!(editor_title(&e), " slug  ●");
    assert_eq!(position_label(&e.buffer), " Ln 1 Col 2 ");
}

#[test]
fn prompt_line() {
    let mut app = App::new();
    app.handle_key(Key::Enter);
    app.handle_reply(editor::app::StorageReply::Listed(Ok(vec![])));
    app.handle_key(Key::Char('n'));
    app.handle_key(Key::Char('a'));
    assert_eq!(prompt_text(app.prompt.as_ref().unwrap()), " Enter slug: a");
}

#[test]
fn prompt_popup_geometry() {
    assert_eq!(prompt_popup(80, 24), (15, 9, 50, 5));
    assert_eq!(prompt_popup(30, 5), (2, 0, 26, 5));
    assert_eq!(prompt_popup(3, 10), (1, 2, 0, 5));
}

#[test]
fn prompt_cursor_columns() {
    let mut app = App::new();
    app.handle_key(Key::Enter);
    app.handle_reply(StorageReply::Listed(Ok(vec![])));
    app.handle_key(Key::Char('n'));
    app.handle_key(Key::Char('a'));
    app.handle_key(Key::Char('b'));
    let p = app.prompt.as_ref().unwrap();
    assert_eq!(prompt_cursor_column(p, 50), Some(15));
    assert_eq!(prompt_cursor_column(p, 17), None);
    assert_eq!(prompt_cursor_column(p, 18), Some(15));
}

use editor::editor::{Editor, EditorMode};
use editor::key::Key;
use editor::models::ContentType;

#[test]
fn new_editor_holds_template() {
    let e = Editor::new(ContentType::Blog, "my-post".to_string());
    assert_eq!(
        e.buffer.lines,
        vec![
            "---",
            "title: ",
            "date: ",
            "description: ",
            "---",
            "",
            "# my-post",
            "",
            "Start writing your blog content here...",
        ]
    );
    assert_eq!(e.mode, EditorMode::Insert);
    assert!(e.has_frontmatter);
    assert_eq!(e.frontmatter_end, 4);
    assert!(!e.dirty);
    assert!(e.save_status.is_none());
    assert_eq!(e.body_text(), "\n# my-post\n\nStart writing your blog content here...");
    let p = Editor::new(ContentType::Project, "x".to_string());
    assert_eq!(p.buffer.lines[8], "Start writing your projects content here...");
}

#[test]
fn from_content_finds_frontmatter() {
    let e = Editor::from_content(ContentType::Project, "p".to_string(), "---\ntitle: T\n---\n\nbody\nmore");
    assert!(e.has_frontmatter);
    assert_eq!(e.frontmatter_end, 2);
    assert_eq!(e.body_text(), "\nbody\nmore");
    let f = Editor::from_content(ContentType::Blog, "q".to_string(), "no fences\nhere");
    assert!(!f.has_frontmatter);
    assert_eq!(f.frontmatter_end, 0);
    assert_eq!(f.body_text(), "no fences\nhere");
    let g = Editor::from_content(ContentType::Blog, "r".to_string(), "---\na: b\n---");
    assert_eq!(g.body_text(), "");
}

#[test]
fn handle_key_edits_and_moves() {
    let mut e = Editor::from_content(ContentType::Blog, "s".to_string(), "ab");
    assert!(e.handle_key(Key::End));
    assert!(!e.dirty);
    assert!(e.handle_key(Key::Char('c')));
    assert!(e.dirty);
    assert_eq!(e.buffer.lines, vec!["abc"]);
    assert!(e.handle_key(Key::Tab));
    assert_eq!(e.buffer.lines, vec!["abc  "]);
    assert!(e.handle_key(Key::Enter));
    assert_eq!(e.buffer.lines, vec!["abc  ", ""]);
    assert!(e.handle_key(Key::Backspace));
    assert_eq!(e.buffer.lines, vec!["abc  "]);
    assert!(e.handle_key(Key::Home));
    assert!(e.handle_key(Key::Delete));
    assert_eq!(e.buffer.lines, vec!["bc  "]);
    assert!(e.handle_key(Key::Right));
    assert!(e.handle_key(Key::Left));
    assert!(e.handle_key(Key::Up));
    assert!(e.handle_key(Key::Down));
    assert_eq!(e.buffer.cursor_x, 0);
}

#[test]
fn handle_key_ignores_other_keys() {
    let mut e = Editor::from_content(ContentType::Blog, "s".to_string(), "ab");
    for k in [Key::Esc, Key::PageUp, Key::PageDown, Key::BackTab, Key::CtrlS, Key::CtrlC, Key::Null] {
        assert!(!e.handle_key(k));
    }
    assert!(!e.dirty);
    assert_eq!(e.buffer.lines, vec!["ab"]);
}

#[test]
fn mark_saved_and_error() {
    let mut e = Editor::new(ContentType::Blog, "s".to_string());
    e.dirty = true;
    e.mark_error("disk full");
    assert_eq!(e.save_status.as_deref(), Some("Error: disk full"));
    assert!(e.dirty);
    e.mark_saved();
    assert_eq!(e.save_status.as_deref(), Some("Saved"));
    assert!(!e.dirty);
}

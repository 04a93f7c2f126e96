use editor::app::{App, Screen, StorageReply, StorageRequest};
use editor::json::JsonValue;
use editor::key::Key;
use editor::models::{ContentData, ContentType, EntryInfo};

/// Compact JSON for a value, members in the order the value holds them.
fn display_json(v: &JsonValue) -> String {
    match v {
        JsonValue::Null => "null".to_string(),
        JsonValue::Bool(b) => b.to_string(),
        JsonValue::Number(n) => n.clone(),
        JsonValue::String(s) => serde_json::to_string(s).unwrap(),
        JsonValue::Array(a) => format!("[{}]", a.iter().map(display_json).collect::<Vec<_>>().join(",")),
        JsonValue::Object(m) => format!(
            "{{{}}}",
            m.iter()
                .map(|(k, x)| format!("{}:{}", serde_json::to_string(k).unwrap(), display_json(x)))
                .collect::<Vec<_>>()
                .join(",")
        ),
    }
}

fn entry(slug: &str, title: &str) -> EntryInfo {
    EntryInfo {
        slug: slug.to_string(),
        title: title.to_string(),
        date: String::new(),
        description: String::new(),
        content_type: ContentType::Blog,
    }


}

fn browsing(entries: Vec<EntryInfo>) -> App {
    let mut app = App::new();
    assert!(matches!(app.handle_key(Key::Enter), Some(StorageRequest::List(ContentType::Blog))));
    app.handle_reply(StorageReply::Listed(Ok(entries)));
    app
}

#[test]
fn app_starts_on_dashboard() {
    let app = App::new();
    assert_eq!(app.screen, Screen::Dashboard);
    assert_eq!(app.content_type, ContentType::Blog);
    assert!(app.editor.is_none() && app.prompt.is_none() && app.status_message.is_none());
}

#[test]
fn dashboard_switches_type_and_lists() {
    let mut app = App::new();
    assert!(app.handle_key(Key::Down).is_none());
    assert_eq!(app.content_type, ContentType::Project);
    assert!(app.handle_key(Key::Up).is_none());
    assert_eq!(app.content_type, ContentType::Blog);
    assert!(app.handle_key(Key::Char('x')).is_none());
    assert_eq!(app.screen, Screen::Dashboard);
    app.browser_cursor = 0;
    match app.handle_key(Key::Enter) {
        Some(StorageRequest::List(ct)) => assert_eq!(ct, ContentType::Blog),
        _ => panic!("expected a list request"),
    }
    app.handle_reply(StorageReply::Listed(Err("no dir".to_string())));
    assert_eq!(app.screen, Screen::Browser);
    assert!(app.entries.is_empty());
    assert_eq!(app.status_message.as_deref(), Some("Failed to list: no dir"));
}

#[test]
fn browser_moves_and_goes_back() {
    let mut app = browsing(vec![entry("a", "A"), entry("b", "B")]);
    assert_eq!(app.screen, Screen::Browser);
    app.handle_key(Key::Up);
    assert_eq!(app.browser_cursor, 0);
    app.handle_key(Key::Down);
    app.handle_key(Key::Down);
    app.handle_key(Key::Down);
    assert_eq!(app.browser_cursor, 2);
    assert!(app.handle_key(Key::Enter).is_none());
    app.handle_key(Key::Esc);
    assert_eq!(app.screen, Screen::Dashboard);
}

#[test]
fn browser_loads_entry_into_editor() {
    let mut app = browsing(vec![entry("first", "First")]);
    match app.handle_key(Key::Enter) {
        Some(StorageRequest::Load(ct, slug)) => {
            assert_eq!(ct, ContentType::Blog);
            assert_eq!(slug, "first");
        }
        _ => panic!("expected a load request"),
    }
    let fm = JsonValue::Object(vec![
        (
            "tags".to_string(),
            JsonValue::Array(vec![
                JsonValue::String("a".to_string()),
                JsonValue::Number("2".to_string()),
                JsonValue::Bool(true),
                JsonValue::Object(vec![("k".to_string(), JsonValue::String("v".to_string()))]),
            ]),
        ),
        ("title".to_string(), JsonValue::String("First".to_string())),
        ("x".to_string(), JsonValue::Null),
    ]);
    app.handle_reply(StorageReply::Loaded(Ok(ContentData { frontmatter: fm, body: "Hello\nworld".to_string() })));
    assert_eq!(app.screen, Screen::Editor);
    let e = app.editor.as_ref().unwrap();
    assert_eq!(e.slug, "first");
    assert_eq!(e.buffer.lines, vec!["---", "tags: [a, 2, true, {\"k\":\"v\"}]", "title: First", "---", "", "Hello", "world"]);
    assert!(e.has_frontmatter);
    assert_eq!(e.frontmatter_end, 3);
}

#[test]
fn failed_load_sets_status() {
    let mut app = browsing(vec![entry("first", "First")]);
    app.handle_key(Key::Enter);
    app.handle_reply(StorageReply::Loaded(Err("gone".to_string())));
    assert_eq!(app.screen, Screen::Browser);
    assert_eq!(app.status_message.as_deref(), Some("Failed to load: gone"));
}

fn new_entry(app: &mut App, answer: &str) {
    app.handle_key(Key::Char('n'));
    assert_eq!(app.screen, Screen::Prompt);
    assert_eq!(app.prompt.as_ref().unwrap().label, "Enter slug:");
    for c in answer.chars() {
        app.handle_key(Key::Char(c));
    }
    app.handle_key(Key::Enter);
}

#[test]
fn prompt_creates_entry_with_slug() {
    let mut app = browsing(vec![]);
    new_entry(&mut app, "  My First Post ");
    assert_eq!(app.screen, Screen::Editor);
    assert!(app.prompt.is_none());
    let e = app.editor.as_ref().unwrap();
    assert_eq!(e.slug, "my-first-post");
    assert_eq!(e.buffer.lines[6], "# my-first-post");
}

#[test]
fn prompt_backspace_and_empty_slug() {
    let mut app = browsing(vec![]);
    app.handle_key(Key::Char('N'));
    app.handle_key(Key::Char('a'));
    app.handle_key(Key::Char('b'));
    app.handle_key(Key::Backspace);
    assert_eq!(app.prompt.as_ref().unwrap().value, "a");
    assert_eq!(app.prompt.as_ref().unwrap().cursor, 1);
    app.handle_key(Key::Backspace);
    app.handle_key(Key::Backspace);
    assert_eq!(app.prompt.as_ref().unwrap().value, "");
    app.handle_key(Key::Enter);
    assert_eq!(app.status_message.as_deref(), Some("Slug cannot be empty"));
    assert!(app.prompt.is_none());
    assert_eq!(app.screen, Screen::Prompt);
    app.handle_key(Key::Esc);
    assert_eq!(app.screen, Screen::Browser);
}

#[test]
fn editor_save_request_and_reply() {
    let mut app = browsing(vec![]);
    new_entry(&mut app, "post");
    app.handle_key(Key::Char('x'));
    assert!(app.editor.as_ref().unwrap().dirty);
    match app.handle_key(Key::CtrlS) {
        Some(StorageRequest::Save { content_type, slug, frontmatter, body }) => {
            assert_eq!(content_type, ContentType::Blog);
            assert_eq!(slug, "post");
            assert_eq!(display_json(&frontmatter), r#"{"date":"","description":"","draft":false,"tags":[],"title":""}"#);
            assert_eq!(body, "\n# post\n\nStart writing your blog content here...");
        }
        _ => panic!("expected a save request"),
    }
    app.handle_reply(StorageReply::Saved(Ok(())));
    assert_eq!(app.status_message.as_deref(), Some("Saved successfully"));
    let e = app.editor.as_ref().unwrap();
    assert!(!e.dirty);
    assert_eq!(e.save_status.as_deref(), Some("Saved"));
    app.handle_reply(StorageReply::Saved(Err("denied".to_string())));
    assert_eq!(app.status_message.as_deref(), Some("Save failed: denied"));
    assert_eq!(app.editor.as_ref().unwrap().save_status.as_deref(), Some("Error: denied"));
}

#[test]
fn project_save_request_has_project_frontmatter() {
    let mut app = App::new();
    app.handle_key(Key::Down);
    app.handle_key(Key::Enter);
    app.handle_reply(StorageReply::Listed(Ok(vec![])));
    new_entry(&mut app, "proj");
    match app.handle_key(Key::CtrlS) {
        Some(StorageRequest::Save { content_type, frontmatter, .. }) => {
            assert_eq!(content_type, ContentType::Project);
            assert_eq!(display_json(&frontmatter), r#"{"date":"","description":"","featured":false,"links":{},"techStack":[],"title":""}"#);
        }
        _ => panic!("expected a save request"),
    }
}

#[test]
fn leaving_dirty_editor_asks_first() {
    let mut app = browsing(vec![]);
    new_entry(&mut app, "post");
    app.handle_key(Key::Char('x'));
    assert!(app.handle_key(Key::Esc).is_none());
    assert_eq!(app.screen, Screen::Prompt);
    assert_eq!(app.prompt.as_ref().unwrap().label, "Unsaved changes. Save? (y/n):");
    app.handle_key(Key::Char('Y'));
    match app.handle_key(Key::Enter) {
        Some(StorageRequest::Save { slug, .. }) => assert_eq!(slug, "post"),
        _ => panic!("expected a save request"),
    }
    assert_eq!(app.screen, Screen::Browser);
    assert!(app.editor.is_none() && app.prompt.is_none());
    app.handle_reply(StorageReply::Saved(Ok(())));
    assert_eq!(app.status_message.as_deref(), Some("Saved successfully"));
    assert!(app.editor.is_none());
}

#[test]
fn declining_save_discards() {
    let mut app = browsing(vec![]);
    new_entry(&mut app, "post");
    app.handle_key(Key::Char('x'));
    app.handle_key(Key::Esc);
    app.handle_key(Key::Char('n'));
    assert!(app.handle_key(Key::Enter).is_none());
    assert_eq!(app.screen, Screen::Browser);
    assert!(app.editor.is_none());
}

#[test]
fn clean_editor_leaves_at_once() {
    let mut app = browsing(vec![]);
    new_entry(&mut app, "post");
    assert!(app.handle_key(Key::Esc).is_none());
    assert_eq!(app.screen, Screen::Browser);
    assert!(app.editor.is_none());
}

#[test]
fn load_entries_from_json() {
    let mut app = App::new();
    app.load_entries(
        r#"{"blog":[{"slug":"a","title":"A","date":"2024-01-01"},{"slug":"b"},{"slug":"c","title":"C","description":"d","date":3}],
            "projects":[{"slug":"p","title":"P"}]}"#,
    );
    let blog: Vec<(&str, &str, &str, &str)> = app
        .blog_entries
        .iter()
        .map(|e| (e.slug.as_str(), e.title.as_str(), e.date.as_str(), e.description.as_str()))
        .collect();
    assert_eq!(blog, vec![("a", "A", "2024-01-01", ""), ("c", "C", "", "d")]);
    assert!(app.blog_entries.iter().all(|e| e.content_type == ContentType::Blog));
    assert_eq!(app.project_entries.len(), 1);
    assert_eq!(app.project_entries[0].content_type, ContentType::Project);
    app.load_entries("not json");
    assert_eq!(app.blog_entries.len(), 2);
    app.load_entries(r#"{"projects": 5}"#);
    assert_eq!(app.project_entries.len(), 1);
}

#[test]
fn dashboard_switch_twice_restores() {
    let mut app = App::new();
    assert!(app.handle_key(Key::Down).is_none());
    assert!(app.handle_key(Key::Down).is_none());
    assert_eq!(app.content_type, ContentType::Blog);
    assert_eq!(app.screen, Screen::Dashboard);
    assert_eq!(app.browser_cursor, 0);
}

#[test]
fn prompt_type_then_erase_restores() {
    let mut app = browsing(vec![]);
    app.handle_key(Key::Char('n'));
    app.handle_key(Key::Char('a'));
    app.handle_key(Key::Char('b'));
    assert!(app.handle_key(Key::Char('é')).is_none());
    assert_eq!(app.prompt.as_ref().unwrap().value, "abé");
    assert!(app.handle_key(Key::Backspace).is_none());
    let p = app.prompt.as_ref().unwrap();
    assert_eq!(p.value, "ab");
    assert_eq!(p.cursor, 2);
    assert_eq!(p.label, "Enter slug:");
    assert_eq!(app.screen, Screen::Prompt);
}

#[test]
fn saving_an_opened_entry_keeps_the_blank_line() {
    let mut app = browsing(vec![entry("first", "First")]);
    app.handle_key(Key::Enter);
    let fm = JsonValue::Object(vec![("title".to_string(), JsonValue::String("First".to_string()))]);
    app.handle_reply(StorageReply::Loaded(Ok(ContentData { frontmatter: fm, body: "Hello\nworld".to_string() })));
    match app.handle_key(Key::CtrlS) {
        Some(StorageRequest::Save { slug, body, .. }) => {
            assert_eq!(slug, "first");
            assert_eq!(body, "\nHello\nworld");
        }
        _ => panic!("expected a save request"),
    }
}

use editor::json::JsonValue;
use editor::models::{ContentType, EntryInfo};
use editor::storage::remote::{save_request, save_url, service_base};
use editor::storage::local::{
    content_from_text, entry_file_text, entry_slug, parse_entry_metadata, parse_frontmatter_raw,
    sort_entries, split_once, str_lt, LocalStorage,
};

/// Compact JSON for a value, members in the order the value holds them.
fn display_json(v: &JsonValue) -> String {
    match v {
        JsonValue::Null => "null".to_string(),
        JsonValue::Bool(b) => b.to_string(),
        JsonValue::Number(n) => n.clone(),
        JsonValue::String(s) => serde_json::to_string(s).unwrap(),
        JsonValue::Array(a) => format!("[{}]", a.iter().map(display_json).collect::<Vec<_>>().join(",")),
        JsonValue::Object(m) => format!(
            "{{{}}}",
            m.iter()
                .map(|(k, x)| format!("{}:{}", serde_json::to_string(k).unwrap(), display_json(x)))
                .collect::<Vec<_>>()
                .join(",")
        ),
    }
}

#[test]
fn content_dirs() {
    assert_eq!(LocalStorage::new(".").content_dir(&ContentType::Blog), "./src/content/blog");
    assert_eq!(LocalStorage::new("/site/").content_dir(&ContentType::Project), "/site/src/content/projects");
    assert_eq!(LocalStorage::new("").content_dir(&ContentType::Blog), "src/content/blog");


}

#[test]
fn raw_frontmatter_as_sorted_strings() {
    let v = parse_frontmatter_raw("title: \"Cyber Pulse\"\n  date: 2024-10-01\n\nno colon here\ntechStack: [a, b]\nurl: http://x\ntitle: again");
    assert_eq!(
        display_json(&v),
        r#"{"date":"2024-10-01","techStack":"[a, b]","title":"again","url":"http://x"}"#
    );
    assert_eq!(display_json(&parse_frontmatter_raw("")), "{}");
}

#[test]
fn entry_text_split_into_frontmatter_and_body() {
    let d = content_from_text("---\ntitle: T\ndate: D\n---\n\nBody line\nsecond");
    assert_eq!(display_json(&d.frontmatter), r#"{"date":"D","title":"T"}"#);
    assert_eq!(d.body, "\nBody line\nsecond");
    let n = content_from_text("just text\n");
    assert_eq!(display_json(&n.frontmatter), "{}");
    assert_eq!(n.body, "just text\n");
    let e = content_from_text("---\na: b\n---");
    assert_eq!(e.body, "");
}

#[test]
fn entry_file_text_writes_fences() {
    let fm = JsonValue::Object(vec![
        ("date".to_string(), JsonValue::String("2024-01-01".to_string())),
        ("title".to_string(), JsonValue::String("T".to_string())),
    ]);
    assert_eq!(entry_file_text(&fm, "body").unwrap(), "---\ndate: 2024-01-01\ntitle: T\n---\n\nbody");
    assert_eq!(entry_file_text(&JsonValue::Null, "body").unwrap_err(), "expected object");
}

#[test]
fn saved_file_reads_back() {
    let fm = JsonValue::Object(vec![
        ("date".to_string(), JsonValue::String("2024-01-01".to_string())),
        ("title".to_string(), JsonValue::String("A title".to_string())),
    ]);
    let text = entry_file_text(&fm, "Hello\nworld").unwrap();
    let d = content_from_text(&text);
    assert_eq!(display_json(&d.frontmatter), display_json(&fm));
    assert_eq!(d.body, "\nHello\nworld");
    let empty = content_from_text(&entry_file_text(&fm, "").unwrap());
    assert_eq!(display_json(&empty.frontmatter), display_json(&fm));
    assert_eq!(empty.body, "");
}

#[test]
fn metadata_from_frontmatter() {
    let (t, d, s) = parse_entry_metadata("---\ntitle: A: B\ndate:  2024 \nother: x\ndescription: desc\n---\nbody");
    assert_eq!((t.as_str(), d.as_str(), s.as_str()), ("A: B", "2024", "desc"));
    let (t, d, s) = parse_entry_metadata("no\nfrontmatter\nhere");
    assert_eq!((t.as_str(), d.as_str(), s.as_str()), ("", "", ""));
    let (t, _, _) = parse_entry_metadata("---\ntitle: x");
    assert_eq!(t, "");
}

#[test]
fn slugs_of_markdown_files() {
    assert_eq!(entry_slug("post.md").as_deref(), Some("post"));
    assert_eq!(entry_slug("post.mdx").as_deref(), Some("post"));
    assert_eq!(entry_slug("a.b.md").as_deref(), Some("a.b"));
    assert_eq!(entry_slug("notes.txt"), None);
    assert_eq!(entry_slug(".md"), None);
    assert_eq!(entry_slug("md"), None);
    assert_eq!(entry_slug(".."), None);
    assert_eq!(entry_slug("x.MD"), None);
}

fn info(slug: &str, title: &str) -> EntryInfo {
    EntryInfo {
        slug: slug.to_string(),
        title: title.to_string(),
        date: String::new(),
        description: String::new(),
        content_type: ContentType::Blog,
    }
}

#[test]
fn entries_sorted_by_slug() {
    let sorted = sort_entries(vec![info("b", "1"), info("a", "2"), info("B", "3"), info("b", "4"), info("ab", "5")]);
    let got: Vec<(&str, &str)> = sorted.iter().map(|e| (e.slug.as_str(), e.title.as_str())).collect();
    assert_eq!(got, vec![("B", "3"), ("a", "2"), ("ab", "5"), ("b", "1"), ("b", "4")]);
    assert!(sort_entries(vec![]).is_empty());
}

#[test]
fn order_and_split_helpers() {
    assert!(str_lt("a", "b"));
    assert!(str_lt("a", "ab"));
    assert!(!str_lt("ab", "a"));
    assert!(!str_lt("a", "a"));
    assert!(str_lt("Z", "a"));
    assert!(str_lt("z", "é"));
    let (a, b) = split_once("k: v: w", ':').unwrap();
    assert_eq!((a.as_str(), b.as_str()), ("k", " v: w"));
    assert!(split_once("none", ':').is_none());
}

#[test]
fn service_addresses() {
    assert_eq!(service_base("https://site.dev//"), "https://site.dev");
    assert_eq!(service_base("https://site.dev"), "https://site.dev");
    assert_eq!(service_base("///"), "");
    assert_eq!(save_url(&service_base("http://x/")), "http://x/api/save-content");
}

#[test]
fn save_request_fields() {
    let fm = JsonValue::Object(vec![("title".to_string(), JsonValue::String("T".to_string()))]);
    let r = save_request(&ContentType::Project, "my-slug", fm, "body");
    assert_eq!(r.content_type, "projects");
    assert_eq!(r.slug, "my-slug");
    assert_eq!(display_json(&r.frontmatter), r#"{"title":"T"}"#);
    assert_eq!(r.body, "body");
    assert_eq!(save_request(&ContentType::Blog, "s", JsonValue::Null, "").content_type, "blog");
}

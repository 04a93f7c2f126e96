use editor::editor::frontmatter::{
    build_blog_frontmatter, build_project_frontmatter, extract_frontmatter, serialize_frontmatter,
    validate_blog_frontmatter, validate_project_frontmatter, FrontmatterBlock,
};
use editor::json::JsonValue;
use editor::models::{BlogPost, Project, ProjectLinks};

/// Compact JSON for a value, members in the order the value holds them.
fn display_json(v: &JsonValue) -> String {
    match v {
        JsonValue::Null => "null".to_string(),
        JsonValue::Bool(b) => b.to_string(),
        JsonValue::Number(n) => n.clone(),
        JsonValue::String(s) => serde_json::to_string(s).unwrap(),
        JsonValue::Array(a) => format!("[{}]", a.iter().map(display_json).collect::<Vec<_>>().join(",")),
        JsonValue::Object(m) => format!(
            "{{{}}}",
            m.iter()
                .map(|(k, x)| format!("{}:{}", serde_json::to_string(k).unwrap(), display_json(x)))
                .collect::<Vec<_>>()
                .join(",")
        ),
    }
}

fn lines(v: &[&str]) -> Vec<String> {
    v.iter().map(|s| s.to_string()).collect()
}

fn s(x: &str) -> JsonValue {
    JsonValue::String(x.to_string())
}

fn obj(members: Vec<(&str, JsonValue)>) -> JsonValue {
    JsonValue::Object(members.into_iter().map(|(k, v)| (k.to_string(), v)).collect())
}

#[test]
fn frontmatter_block_new_is_empty() {
    let b = FrontmatterBlock::new();
    assert_eq!(b.raw, "");
    assert_eq!((b.start_line, b.end_line), (0, 0));
}

#[test]
fn extract_finds_block() {
    let b = extract_frontmatter(&lines(&["---", "title: A", "date: B", "---", "body"])).unwrap();
    assert_eq!(b.raw, "title: A\ndate: B");
    assert_eq!((b.start_line, b.end_line), (0, 3));
    let t = extract_frontmatter(&lines(&["  ---  ", "x: 1", "\t---", ""])).unwrap();
    assert_eq!(t.raw, "x: 1");
    assert_eq!(t.end_line, 2);
    let e = extract_frontmatter(&lines(&["---", "---"])).unwrap();
    assert_eq!(e.raw, "");
    assert_eq!(e.end_line, 1);
}

#[test]
fn extract_needs_both_fences() {
    assert!(extract_frontmatter(&[]).is_none());
    assert!(extract_frontmatter(&lines(&["title: A", "---"])).is_none());
    assert!(extract_frontmatter(&lines(&["---", "title: A"])).is_none());
    assert!(extract_frontmatter(&lines(&["---"])).is_none());
    assert!(extract_frontmatter(&lines(&["--", "---"])).is_none());
}

#[test]
fn serialize_writes_yaml_lines() {
    let v = obj(vec![
        ("a", s("text")),
        ("b", JsonValue::Bool(true)),
        ("c", JsonValue::Number("12".to_string())),
        ("d", JsonValue::Array(vec![s("x"), JsonValue::Bool(false)])),
        ("e", JsonValue::Array(vec![])),
        ("f", JsonValue::Null),
        ("g", obj(vec![("k", s("v")), ("n", JsonValue::Null)])),
    ]);
    assert_eq!(
        serialize_frontmatter(&v).unwrap(),
        "a: text\nb: true\nc: 12\nd: [x, false]\ne: []\nf: ~\ng: {k: v, n: ~}\n"
    );
    assert_eq!(serialize_frontmatter(&obj(vec![])).unwrap(), "");
}

#[test]
fn serialize_refuses_non_objects() {
    assert_eq!(serialize_frontmatter(&s("x")).unwrap_err(), "expected object");
    assert_eq!(serialize_frontmatter(&JsonValue::Array(vec![])).unwrap_err(), "expected object");
}

#[test]
fn validate_accepts_complete_frontmatter() {
    let v = obj(vec![
        ("date", s("2024-10-01")),
        ("description", s("d")),
        ("draft", JsonValue::Bool(false)),
        ("tags", JsonValue::Array(vec![s("a")])),
        ("title", s("t")),
    ]);
    assert!(validate_blog_frontmatter(&v).is_ok());
    assert!(validate_project_frontmatter(&v).is_ok());
    let w = obj(vec![("date", s("2024-01-05")), ("description", s("")), ("tags", s("one")), ("title", s(""))]);
    assert!(validate_blog_frontmatter(&w).is_ok());
}

#[test]
fn validate_reports_every_problem() {
    let v = obj(vec![
        ("date", s("October 1st")),
        ("draft", s("no")),
        ("tags", JsonValue::Array(vec![s("ok"), JsonValue::Bool(true), s("fine"), JsonValue::Null])),
    ]);
    assert_eq!(
        validate_blog_frontmatter(&v).unwrap_err(),
        vec![
            "missing required field: title",
            "missing required field: description",
            "date must be in YYYY-MM-DD format",
            "tags[1] must be a string",
            "tags[3] must be a string",
            "draft must be a boolean",
        ]
    );
    let w = obj(vec![
        ("date", JsonValue::Number("20240101".to_string())),
        ("description", s("d")),
        ("tags", JsonValue::Bool(true)),
        ("title", s("t")),
    ]);
    assert_eq!(
        validate_project_frontmatter(&w).unwrap_err(),
        vec!["date must be a string", "tags must be an array or string"]
    );
}

#[test]
fn validate_refuses_non_objects() {
    assert_eq!(
        validate_blog_frontmatter(&JsonValue::Null).unwrap_err(),
        vec!["frontmatter must be an object"]
    );
    assert_eq!(
        validate_project_frontmatter(&s("x")).unwrap_err(),
        vec!["frontmatter must be an object"]
    );
}

#[test]
fn validate_counts_tag_positions_in_decimal() {
    let mut tags: Vec<JsonValue> = (0..11).map(|_| s("t")).collect();
    tags[10] = JsonValue::Null;
    let v = obj(vec![("date", s("2020-02-02")), ("description", s("d")), ("tags", JsonValue::Array(tags)), ("title", s("t"))]);
    assert_eq!(validate_blog_frontmatter(&v).unwrap_err(), vec!["tags[10] must be a string"]);
}

fn post(image: Option<&str>) -> BlogPost {
    BlogPost {
        title: "Hello".to_string(),
        date: "2024-01-02".to_string(),
        description: "First".to_string(),
        tags: vec!["rust".to_string(), "tui".to_string()],
        draft: true,
        image: image.map(|x| x.to_string()),
    }
}

#[test]
fn blog_frontmatter_in_key_order() {
    assert_eq!(
        display_json(&build_blog_frontmatter(&post(None))),
        r#"{"date":"2024-01-02","description":"First","draft":true,"tags":["rust","tui"],"title":"Hello"}"#
    );
    assert_eq!(
        serialize_frontmatter(&build_blog_frontmatter(&post(Some("a.png")))).unwrap(),
        "date: 2024-01-02\ndescription: First\ndraft: true\nimage: a.png\ntags: [rust, tui]\ntitle: Hello\n"
    );
}

#[test]
fn built_frontmatter_passes_validation() {
    assert!(validate_blog_frontmatter(&build_blog_frontmatter(&post(None))).is_ok());
    let mut p = post(None);
    p.date = "soon".to_string();
    assert_eq!(
        validate_blog_frontmatter(&build_blog_frontmatter(&p)).unwrap_err(),
        vec!["date must be in YYYY-MM-DD format"]
    );
}

#[test]
fn project_frontmatter_in_key_order() {
    let p = Project {
        title: "Cyber Pulse".to_string(),
        description: "Pipeline".to_string(),
        date: "2024-10-01".to_string(),
        tech_stack: vec!["Rust".to_string(), "Kafka".to_string()],
        links: ProjectLinks { source: Some("https://s".to_string()), demo: Some("https://d".to_string()) },
        featured: true,
    };
    let v = build_project_frontmatter(&p);
    assert_eq!(
        serialize_frontmatter(&v).unwrap(),
        "date: 2024-10-01\ndescription: Pipeline\nfeatured: true\nlinks: {demo: https://d, source: https://s}\ntechStack: [Rust, Kafka]\ntitle: Cyber Pulse\n"
    );
    assert!(validate_project_frontmatter(&v).is_ok());
    let q = Project { links: ProjectLinks::default(), tech_stack: vec![], ..p };
    assert_eq!(
        serialize_frontmatter(&build_project_frontmatter(&q)).unwrap(),
        "date: 2024-10-01\ndescription: Pipeline\nfeatured: true\nlinks: {}\ntechStack: []\ntitle: Cyber Pulse\n"
    );
}

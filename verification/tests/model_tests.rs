use editor::models::{BlogPost, ContentEntry, ContentType, Project, ProjectLinks};

#[test]
fn content_type_names() {
    assert_eq!(ContentType::Blog.dir_name(), "blog");
    assert_eq!(ContentType::Project.dir_name(), "projects");
    assert_eq!(ContentType::Blog.label(), "BLOG");
    assert_eq!(ContentType::Project.label(), "PROJECTS");
}

#[test]
fn entry_title() {
    let b = ContentEntry::Blog(BlogPost {
        title: "Post".to_string(),
        date: String::new(),
        description: String::new(),
        tags: vec![],
        draft: false,
        image: None,
    });
    assert_eq!(b.title(), "Post");
    let p = ContentEntry::Project(Project {
        title: "Proj".to_string(),
        description: String::new(),
        date: String::new(),
        tech_stack: vec![],
        links: ProjectLinks::default(),
        featured: false,
    });
    assert_eq!(p.title(), "Proj");
}

#[test]
fn project_links_default_is_empty() {
    let l = ProjectLinks::default();
    assert!(l.source.is_none());
    assert!(l.demo.is_none());
}

//! The content the editor works on: blog posts and projects, and the
//! records that describe and carry them.
use vstd::prelude::*;
use crate::json::JsonValue;

verus! {

#[derive(Debug, Clone)]
pub struct BlogPost {
    pub title: String,
    pub date: String,
    pub description: String,
    pub tags: Vec<String>,
    pub draft: bool,
    pub image: Option<String>,
}

#[derive(Debug, Clone)]
pub struct Project {
    pub title: String,
    pub description: String,
    pub date: String,
    pub tech_stack: Vec<String>,
    pub links: ProjectLinks,
    pub featured: bool,
}

#[derive(Debug, Clone)]
pub struct ProjectLinks {
    pub source: Option<String>,
    pub demo: Option<String>,
}

impl Default for ProjectLinks {
    fn default() -> (r: Self)
        ensures
            r.source is None,
            r.demo is None,
    {
        ProjectLinks { source: None, demo: None }
    }
}

#[derive(Debug, Clone, Copy, PartialEq, Eq, Structural)]
pub enum ContentType {
    Blog,
    Project,
}

/// The directory under `src/content` that holds entries of a content type.
pub open spec fn dir_name_of(ct: ContentType) -> Seq<char> {
    match ct {
        ContentType::Blog => seq!['b', 'l', 'o', 'g'],
        ContentType::Project => seq!['p', 'r', 'o', 'j', 'e', 'c', 't', 's'],
    }
}

/// The heading shown for a content type.
pub open spec fn label_of(ct: ContentType) -> Seq<char> {
    match ct {
        ContentType::Blog => seq!['B', 'L', 'O', 'G'],
        ContentType::Project => seq!['P', 'R', 'O', 'J', 'E', 'C', 'T', 'S'],
    }
}

impl ContentType {
    pub fn dir_name(&self) -> (r: &str)
        ensures
            r@ == dir_name_of(*self),
    {
        match self {
            ContentType::Blog => {
                proof {
                    reveal_strlit("blog");
                }
                "blog"
            },
            ContentType::Project => {
                proof {
                    reveal_strlit("projects");
                }
                "projects"
            },
        }
    }

    pub fn label(&self) -> (r: &str)
        ensures
            r@ == label_of(*self),
    {
        match self {
            ContentType::Blog => {
                proof {
                    reveal_strlit("BLOG");
                }
                "BLOG"
            },
            ContentType::Project => {
                proof {
                    reveal_strlit("PROJECTS");
                }
                "PROJECTS"
            },
        }
    }
}

pub enum ContentEntry {
    Blog(BlogPost),
    Project(Project),
}

impl ContentEntry {
    pub fn title(&self) -> (r: &str)
        ensures
            r@ == match self {
                ContentEntry::Blog(p) => p.title@,
                ContentEntry::Project(p) => p.title@,
            },
    {
        match self {
            ContentEntry::Blog(p) => p.title.as_str(),
            ContentEntry::Project(p) => p.title.as_str(),
        }
    }
}

/// What the browser lists of an entry.
#[derive(Debug, Clone)]
pub struct EntryInfo {
    pub slug: String,
    pub title: String,
    pub date: String,
    pub description: String,
    pub content_type: ContentType,
}

/// The body of a request to the content service to save an entry.
#[derive(Debug)]
pub struct SaveRequest {
    pub content_type: String,
    pub slug: String,
    pub frontmatter: JsonValue,
    pub body: String,
}

#[derive(Debug, Clone)]
pub struct ListRequest {
    pub content_type: String,
}

#[derive(Debug, Clone)]
pub struct ListEntry {
    pub name: String,
    pub slug: String,
    pub sha: String,
}

/// An entry as storage hands it back: its frontmatter and its body.
#[derive(Debug)]
pub struct ContentData {
    pub frontmatter: JsonValue,
    pub body: String,
}

} // verus!

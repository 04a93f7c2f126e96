//! The screens of the editor and how keys move between them.
//!
//! The app never touches storage itself: a key that needs storage makes
//! `handle_key` return a `StorageRequest`; whoever runs the app performs it
//! and hands the answer back through `handle_reply`.
use vstd::prelude::*;
use crate::editor::{body_of, key_edits, key_effect, new_entry_text, Editor};
use crate::editor::buffer::{lines_of_text, BufferModel};
use crate::editor::frontmatter::{
    blog_frontmatter, bool_string, bool_text, build_blog_frontmatter, build_project_frontmatter,
    first_fence_from, get_member, has_frontmatter, lemma_object_members, member, members_of,
    project_frontmatter,
};
use crate::json::{display_json, json_parse, json_text, parse_json, Json, JsonValue};
use crate::key::Key;
use crate::models::{BlogPost, ContentData, ContentType, EntryInfo, Project, ProjectLinks};
use crate::text::{
    boundary_index, byte_len, char_index, insert_at, is_boundary, lowercase, remove_at,
    replace_spaces, spaces_to_dashes, starts_with, str_byte_len, str_eq, text_lines, to_lowercase,
    trim, trim_str,
};

verus! {

#[derive(Debug, Clone, Copy, PartialEq, Eq, Structural)]
pub enum Screen {
    Dashboard,
    Browser,
    Editor,
    Prompt,
}

pub struct PromptState {
    pub label: String,
    pub value: String,
    pub cursor: usize,
    pub error: Option<String>,
}

impl PromptState {
    fn new(label: &str) -> (p: Self)
        ensures
            p.label@ == label@,
            p.value@ == Seq::<char>::empty(),
            p.cursor == 0,
            p.error is None,
    {
        PromptState { label: String::from_str(label), value: String::new(), cursor: 0, error: None }
    }
}

/// Work the app needs its storage to do.
pub enum StorageRequest {
    /// List the entries of a content type.
    List(ContentType),
    /// Load the entry with this slug.
    Load(ContentType, String),
    /// Save an entry: its frontmatter and its body.
    Save { content_type: ContentType, slug: String, frontmatter: JsonValue, body: String },
}

/// What storage answered to a request.
pub enum StorageReply {
    Listed(Result<Vec<EntryInfo>, String>),
    Loaded(Result<ContentData, String>),
    Saved(Result<(), String>),
}

pub struct App {
    pub screen: Screen,
    pub content_type: ContentType,
    pub entries: Vec<EntryInfo>,
    pub blog_entries: Vec<EntryInfo>,
    pub project_entries: Vec<EntryInfo>,
    pub browser_cursor: usize,
    pub editor: Option<Editor>,
    pub prompt: Option<PromptState>,
    pub status_message: Option<String>,
    pub pending_slug: Option<String>,
}

pub open spec fn toggle(ct: ContentType) -> ContentType {
    match ct {
        ContentType::Blog => ContentType::Project,
        ContentType::Project => ContentType::Blog,
    }
}

/// A prompt that has just been opened with `label`.
pub open spec fn fresh_prompt(p: Option<PromptState>, label: Seq<char>) -> bool {
    p matches Some(q) && q.label@ == label && q.value@.len() == 0 && q.cursor == 0 && q.error is None
}

pub open spec fn msg_unsaved() -> Seq<char> {
    "Unsaved changes. Save? (y/n):"@
}

/// The post whose frontmatter saving the editor writes.
pub open spec fn editor_post(e: Editor) -> BlogPost {
    BlogPost {
        title: e.title,
        date: e.date,
        description: e.description,
        tags: e.tags,
        draft: false,
        image: None,
    }
}

/// The project whose frontmatter saving the editor writes.
pub open spec fn editor_project(e: Editor) -> Project {
    Project {
        title: e.title,
        description: e.description,
        date: e.date,
        tech_stack: e.tags,
        links: ProjectLinks { source: None, demo: None },
        featured: false,
    }
}

/// The frontmatter saved for what the editor holds.
pub open spec fn editor_frontmatter(e: Editor) -> Json {
    if e.content_type == ContentType::Blog {
        blog_frontmatter(editor_post(e))
    } else {
        project_frontmatter(editor_project(e))
    }
}

/// `r` saves what the editor holds.
pub open spec fn is_save_request(r: StorageRequest, e: Editor) -> bool {
    r matches StorageRequest::Save { content_type, slug, frontmatter, body } && content_type
        == e.content_type && slug@ == e.slug@ && frontmatter@ == editor_frontmatter(e) && body@
        == body_of(e.buffer@.lines, e.has_frontmatter, e.frontmatter_end as nat)
}

/// `r` saves the open editor, if there is one.
pub open spec fn saves_editor(a: App, r: Option<StorageRequest>) -> bool {
    match a.editor {
        Some(e) => r matches Some(req) && is_save_request(req, e),
        None => r is None,
    }
}

/// `e` is a fresh editor for a new entry `slug`.
pub open spec fn is_new_editor(e: Editor, ct: ContentType, slug: Seq<char>) -> bool {
    &&& e.buffer@ == (BufferModel { lines: lines_of_text(new_entry_text(slug, ct)), x: 0, y: 0 })
    &&& e.mode == crate::editor::EditorMode::Insert
    &&& e.slug@ == slug
    &&& e.content_type == ct
    &&& e.title@.len() == 0 && e.description@.len() == 0 && e.date@.len() == 0
    &&& e.tags@.len() == 0
    &&& e.has_frontmatter && e.frontmatter_end == 4
    &&& !e.dirty && e.save_status is None
}

/// `e` is a fresh editor on the text of entry `slug`.
pub open spec fn is_opened_editor(e: Editor, ct: ContentType, slug: Seq<char>, text: Seq<char>) -> bool {
    &&& e.buffer@ == (BufferModel { lines: lines_of_text(text), x: 0, y: 0 })
    &&& e.mode == crate::editor::EditorMode::Insert
    &&& e.slug@ == slug
    &&& e.content_type == ct
    &&& e.title@.len() == 0 && e.description@.len() == 0 && e.date@.len() == 0
    &&& e.tags@.len() == 0
    &&& e.has_frontmatter == has_frontmatter(text_lines(text))
    &&& e.frontmatter_end == (if has_frontmatter(text_lines(text)) {
        first_fence_from(text_lines(text), 1)
    } else {
        0
    })
    &&& !e.dirty && e.save_status is None
}

/// The slug a prompt answer becomes: trimmed, lower-cased, spaces as dashes.
pub open spec fn slug_of(value: Seq<char>) -> Seq<char> {
    spaces_to_dashes(lowercase(trim(value)))
}

/// `b` is `a` after creating an entry from the prompt answer `value`.
pub open spec fn creates_entry(a: App, b: App, value: Seq<char>) -> bool {
    let slug = slug_of(value);
    if slug.len() == 0 {
        &&& b == (App { status_message: b.status_message, ..a })
        &&& b.status_message matches Some(m) && m@ == "Slug cannot be empty"@
    } else {
        &&& b == (App { editor: b.editor, screen: Screen::Editor, ..a })
        &&& b.editor matches Some(e) && is_new_editor(e, a.content_type, slug)
    }
}

/// A key on the dashboard: up and down switch the content type, enter
/// lists its entries.
pub open spec fn dashboard_step(a: App, b: App, key: Key, r: Option<StorageRequest>) -> bool {
    match key {
        Key::Up | Key::Down => r is None && b == (App { content_type: toggle(a.content_type), ..a }),
        Key::Enter => r == Some(StorageRequest::List(a.content_type)) && b == (App {
            browser_cursor: 0,
            ..a
        }),
        _ => r is None && b == a,
    }
}

/// A key in the browser: move through the entries (one row past the last
/// is "new entry"), `n` asks for a slug, enter loads the entry, escape goes
/// back to the dashboard.
pub open spec fn browser_step(a: App, b: App, key: Key, r: Option<StorageRequest>) -> bool {
    match key {
        Key::Up => r is None && b == (App {
            browser_cursor: if a.browser_cursor > 0 {
                (a.browser_cursor - 1) as usize
            } else {
                a.browser_cursor
            },
            ..a
        }),
        Key::Down => r is None && b == (App {
            browser_cursor: if a.browser_cursor < a.entries.len() {
                (a.browser_cursor + 1) as usize
            } else {
                a.browser_cursor
            },
            ..a
        }),
        Key::Char(c) => if c == 'n' || c == 'N' {
            r is None && b == (App { screen: Screen::Prompt, prompt: b.prompt, ..a }) && fresh_prompt(
                b.prompt,
                "Enter slug:"@,
            )
        } else {
            r is None && b == a
        },
        Key::Enter => if a.browser_cursor < a.entries.len() {
            &&& b == a
            &&& r matches Some(StorageRequest::Load(ct, slug)) && ct == a.content_type && slug@
                == a.entries[a.browser_cursor as int].slug@
        } else {
            r is None && b == a
        },
        Key::Esc => r is None && b == (App { screen: Screen::Dashboard, ..a }),
        _ => r is None && b == a,
    }
}

/// A key in the editor: escape leaves (asking first when there are unsaved
/// changes), ctrl-s saves, other keys go to the editor.
pub open spec fn editor_step(a: App, b: App, key: Key, r: Option<StorageRequest>) -> bool {
    match key {
        Key::Esc => if a.editor matches Some(e) && e.dirty {
            r is None && b == (App { screen: Screen::Prompt, prompt: b.prompt, ..a }) && fresh_prompt(
                b.prompt,
                msg_unsaved(),
            )
        } else {
            r is None && b == (App { editor: None, screen: Screen::Browser, ..a })
        },
        Key::CtrlS => b == a && saves_editor(a, r),
        _ => r is None && match a.editor {
            Some(e) => {
                &&& b == (App { editor: b.editor, ..a })
                &&& b.editor matches Some(e2) && e2.buffer@ == key_effect(e.buffer@, key) && e2.dirty
                    == (key_edits(key) || e.dirty) && e2.same_entry(e)
            },
            None => b == a,
        },
    }
}

/// A key in the prompt: characters and backspace edit the answer at the
/// cursor, enter answers, escape closes the prompt.
pub open spec fn prompt_step(a: App, b: App, key: Key, r: Option<StorageRequest>) -> bool {
    match key {
        Key::Char(c) => r is None && match a.prompt {
            Some(p) => {
                let k = char_index(p.value@, p.cursor as int);
                &&& b == (App { prompt: b.prompt, ..a })
                &&& b.prompt matches Some(q) && q.label == p.label && q.error == p.error && q.cursor
                    == p.cursor + 1 && q.value@ == p.value@.take(k).push(c) + p.value@.skip(k)
            },
            None => b == a,
        },
        Key::Backspace => r is None && match a.prompt {
            Some(p) => if p.cursor > 0 {
                let k = char_index(p.value@, p.cursor - 1);
                &&& b == (App { prompt: b.prompt, ..a })
                &&& b.prompt matches Some(q) && q.label == p.label && q.error == p.error && q.cursor
                    == p.cursor - 1 && q.value@ == p.value@.take(k) + p.value@.skip(k + 1)
            } else {
                b == a
            },
            None => b == a,
        },
        Key::Enter => {
            let value = match a.prompt {
                Some(p) => p.value@,
                None => Seq::<char>::empty(),
            };
            let label = match a.prompt {
                Some(p) => p.label@,
                None => Seq::<char>::empty(),
            };
            if label.len() >= 7 && label.take(7) == "Unsaved"@ {
                b == (App { editor: None, screen: Screen::Browser, prompt: None, ..a }) && if lowercase(
                    value,
                ) == "y"@ {
                    saves_editor(a, r)
                } else {
                    r is None
                }
            } else {
                r is None && creates_entry(App { prompt: None, ..a }, b, value)
            }
        },
        Key::Esc => r is None && b == (App { prompt: None, screen: Screen::Browser, ..a }),
        _ => r is None && b == a,
    }
}

/// A frontmatter member as a line for the editor; null and objects give none.
pub open spec fn member_line(k: Seq<char>, v: Json) -> Option<Seq<char>> {
    match v {
        Json::Str(s) => Some(k + ": "@ + s),
        Json::Bool(b) => Some(k + ": "@ + bool_text(b)),
        Json::Number(n) => Some(k + ": "@ + n),
        Json::Array(a) => Some(k + ": ["@ + array_text(a) + "]"@),
        _ => None,
    }
}

/// An array item as shown: strings bare, other values as JSON.
pub open spec fn item_text(v: Json) -> Seq<char> {
    match v {
        Json::Str(s) => s,
        _ => json_text(v),
    }
}

pub open spec fn array_text(a: Seq<Json>) -> Seq<char>
    decreases a.len(),
{
    if a.len() == 0 {
        Seq::<char>::empty()
    } else if a.len() == 1 {
        item_text(a[0])
    } else {
        array_text(a.drop_last()) + ", "@ + item_text(a.last())
    }
}

pub open spec fn members_text(o: Seq<(Seq<char>, Json)>) -> Seq<char>
    decreases o.len(),
{
    if o.len() == 0 {
        Seq::<char>::empty()
    } else {
        members_text(o.drop_last()) + match member_line(o.last().0, o.last().1) {
            Some(l) => l + "\n"@,
            None => Seq::<char>::empty(),
        }
    }
}

/// Frontmatter as the lines the editor shows between the fences.
pub open spec fn frontmatter_display(v: Json) -> Seq<char> {
    match v {
        Json::Object(o) => members_text(o),
        _ => Seq::<char>::empty(),
    }
}

/// The text the editor opens for a loaded entry.
pub open spec fn loaded_text(fm: Json, body: Seq<char>) -> Seq<char> {
    "---\n"@ + frontmatter_display(fm) + "---\n\n"@ + body
}

/// `b` is `a` after storage answered.
pub open spec fn reply_step(a: App, b: App, reply: StorageReply) -> bool {
    match reply {
        StorageReply::Listed(Ok(es)) => b == (App {
            entries: es,
            browser_cursor: 0,
            screen: Screen::Browser,
            ..a
        }),
        StorageReply::Listed(Err(e)) => {
            &&& b == (App {
                entries: b.entries,
                status_message: b.status_message,
                browser_cursor: 0,
                screen: Screen::Browser,
                ..a
            })
            &&& b.entries.len() == 0
            &&& b.status_message matches Some(m) && m@ == "Failed to list: "@ + e@
        },
        StorageReply::Loaded(Ok(d)) => if a.browser_cursor < a.entries.len() {
            &&& b == (App { editor: b.editor, screen: Screen::Editor, ..a })
            &&& b.editor matches Some(e) && is_opened_editor(
                e,
                a.content_type,
                a.entries[a.browser_cursor as int].slug@,
                loaded_text(d.frontmatter@, d.body@),
            )
        } else {
            b == a
        },
        StorageReply::Loaded(Err(e)) => if a.browser_cursor < a.entries.len() {
            &&& b == (App { status_message: b.status_message, ..a })
            &&& b.status_message matches Some(m) && m@ == "Failed to load: "@ + e@
        } else {
            b == a
        },
        StorageReply::Saved(Ok(())) => {
            &&& b == (App { editor: b.editor, status_message: b.status_message, ..a })
            &&& b.status_message matches Some(m) && m@ == "Saved successfully"@
            &&& match a.editor {
                Some(e) => {
                    &&& b.editor matches Some(e2) && e2 == (Editor {
                        dirty: false,
                        save_status: e2.save_status,
                        ..e
                    })
                    &&& b.editor matches Some(e2) && e2.save_status matches Some(s) && s@ == "Saved"@
                },
                None => b.editor is None,
            }
        },
        StorageReply::Saved(Err(err)) => {
            &&& b == (App { editor: b.editor, status_message: b.status_message, ..a })
            &&& b.status_message matches Some(m) && m@ == "Save failed: "@ + err@
            &&& match a.editor {
                Some(e) => {
                    &&& b.editor matches Some(e2) && e2 == (Editor { save_status: e2.save_status, ..e })
                    &&& b.editor matches Some(e2) && e2.save_status matches Some(s) && s@ == "Error: "@
                        + err@
                },
                None => b.editor is None,
            }
        },
    }
}


/// A string member's text, or nothing when it is missing or not a string.
pub open spec fn str_or_empty(m: Option<Json>) -> Seq<char> {
    match m {
        Some(Json::Str(s)) => s,
        _ => Seq::<char>::empty(),
    }
}

/// Slug, title, date and description of a listed entry; only entries with
/// a string slug and title count.
pub open spec fn entry_fields(e: Json) -> Option<(Seq<char>, Seq<char>, Seq<char>, Seq<char>)> {
    match e {
        Json::Object(o) => match member(o, "slug"@) {
            Some(Json::Str(slug)) => match member(o, "title"@) {
                Some(Json::Str(title)) => Some(
                    (slug, title, str_or_empty(member(o, "date"@)), str_or_empty(member(o, "description"@))),
                ),
                _ => None,
            },
            _ => None,
        },
        _ => None,
    }
}

/// The fields of the entries of a list that have them, in order.
pub open spec fn listed_fields(a: Seq<Json>) -> Seq<(Seq<char>, Seq<char>, Seq<char>, Seq<char>)>
    decreases a.len(),
{
    if a.len() == 0 {
        Seq::empty()
    } else {
        listed_fields(a.drop_last()) + match entry_fields(a.last()) {
            Some(f) => seq![f],
            None => Seq::empty(),
        }
    }
}

pub open spec fn entry_view(e: EntryInfo) -> (Seq<char>, Seq<char>, Seq<char>, Seq<char>) {
    (e.slug@, e.title@, e.date@, e.description@)
}

/// `v` holds the listed entries of `a`, all of content type `ct`.
pub open spec fn lists(v: Vec<EntryInfo>, a: Seq<Json>, ct: ContentType) -> bool {
    &&& v@.map_values(|e: EntryInfo| entry_view(e)) == listed_fields(a)
    &&& forall|i: int| 0 <= i < v.len() ==> (#[trigger] v[i]).content_type == ct
}

/// `b` is `a` with the entry lists of the dashboard taken from `data`: the
/// `blog` and `projects` arrays, each where present.
pub open spec fn loads_entries(a: App, b: App, data: Json) -> bool {
    match data {
        Json::Object(o) => {
            &&& b == (App { blog_entries: b.blog_entries, project_entries: b.project_entries, ..a })
            &&& match member(o, "blog"@) {
                Some(Json::Array(x)) => lists(b.blog_entries, x, ContentType::Blog),
                _ => b.blog_entries == a.blog_entries,
            }
            &&& match member(o, "projects"@) {
                Some(Json::Array(x)) => lists(b.project_entries, x, ContentType::Project),
                _ => b.project_entries == a.project_entries,
            }
        },
        _ => b == a,
    }
}

/// The step a key makes in the screen the app is on.
pub open spec fn key_step(a: App, b: App, key: Key, r: Option<StorageRequest>) -> bool {
    match a.screen {
        Screen::Dashboard => dashboard_step(a, b, key, r),
        Screen::Browser => browser_step(a, b, key, r),
        Screen::Editor => editor_step(a, b, key, r),
        Screen::Prompt => prompt_step(a, b, key, r),
    }
}


/// Copies of the strings, equal to them.
fn clone_strings(v: &Vec<String>) -> (r: Vec<String>)
    ensures
        r@ == v@,
{
    let mut r: Vec<String> = Vec::new();
    let mut i: usize = 0;
    while i < v.len()
        invariant
            i <= v.len(),
            r@ == v@.take(i as int),
        decreases v.len() - i,
    {
        r.push(v[i].clone());
        proof {
            assert(r@ =~= v@.take(i as int + 1));
        }
        i += 1;
    }
    proof {
        assert(v@.take(v.len() as int) =~= v@);
    }
    r
}


/// The listed entries of `arr`, as entries of content type `ct`.
fn entries_from(arr: &Vec<JsonValue>, ct: ContentType) -> (r: Vec<EntryInfo>)
    ensures
        lists(r, crate::editor::frontmatter::items_of(*arr), ct),
{
    let ghost a = crate::editor::frontmatter::items_of(*arr);
    let mut r: Vec<EntryInfo> = Vec::new();
    let mut i: usize = 0;
    proof {
        assert(r@.map_values(|e: EntryInfo| entry_view(e)) =~= listed_fields(a.take(0)));
    }
    while i < arr.len()
        invariant
            i <= arr.len(),
            a == crate::editor::frontmatter::items_of(*arr),
            r@.map_values(|e: EntryInfo| entry_view(e)) == listed_fields(a.take(i as int)),
            forall|j: int| 0 <= j < r.len() ==> (#[trigger] r[j]).content_type == ct,
        decreases arr.len() - i,
    {
        let ghost before = r@.map_values(|e: EntryInfo| entry_view(e));
        proof {
            assert(a.take(i as int + 1).drop_last() =~= a.take(i as int));
            assert(a.take(i as int + 1).last() == arr[i as int]@);
        }
        if let JsonValue::Object(m) = &arr[i] {
            proof {
                lemma_object_members(*m);
            }
            let slug = match get_member(m, "slug") {
                Some(JsonValue::String(s)) => Some(s.clone()),
                _ => None,
            };
            let title = match get_member(m, "title") {
                Some(JsonValue::String(s)) => Some(s.clone()),
                _ => None,
            };
            if let (Some(slug), Some(title)) = (slug, title) {
                let date = match get_member(m, "date") {
                    Some(JsonValue::String(s)) => s.clone(),
                    _ => String::new(),
                };
                let description = match get_member(m, "description") {
                    Some(JsonValue::String(s)) => s.clone(),
                    _ => String::new(),
                };
                r.push(EntryInfo { slug, title, date, description, content_type: ct });
            }
        }
        proof {
            assert(r@.map_values(|e: EntryInfo| entry_view(e)) =~= listed_fields(a.take(i as int + 1)));
        }
        i += 1;
    }
    proof {
        assert(a.take(arr.len() as int) =~= a);
    }
    r
}

fn append_comma(out: &mut String)
    ensures
        final(out)@ == old(out)@ + ", "@,
{
    let sep = ", ";
    proof {
        reveal_strlit(", ");
    }
    out.append(sep);
}

/// The items of an array as the editor shows them, separated by `, `.
fn array_items_text(arr: &Vec<JsonValue>) -> (r: String)
    ensures
        r@ == array_text(crate::editor::frontmatter::items_of(*arr)),
{
    let ghost a = crate::editor::frontmatter::items_of(*arr);
    let mut out = String::new();
    let mut i: usize = 0;
    while i < arr.len()
        invariant
            i <= arr.len(),
            a == crate::editor::frontmatter::items_of(*arr),
            out@ == array_text(a.take(i as int)),
        decreases arr.len() - i,
    {
        proof {
            assert(a.take(i as int + 1).drop_last() =~= a.take(i as int));
            assert(a.take(i as int + 1).last() == arr[i as int]@);
            if i == 0 {
                assert(a.take(0) =~= Seq::<Json>::empty());
            }
        }
        if i > 0 {
            append_comma(&mut out);
        }
        match &arr[i] {
            JsonValue::String(s) => out.append(s.as_str()),
            other => {
                let t = display_json(other);
                out.append(t.as_str());
            },
        }
        proof {
            if i == 0 {
                assert(out@ =~= array_text(a.take(1)));
            } else {
                assert(out@ =~= array_text(a.take(i as int + 1)));
            }
        }
        i += 1;
    }
    proof {
        assert(a.take(arr.len() as int) =~= a);
    }
    out
}

/// Frontmatter as the `key: value` lines the editor shows; null and object
/// members are left out, and anything but an object gives no lines.
fn frontmatter_to_text(value: &JsonValue) -> (r: String)
    ensures
        r@ == frontmatter_display(value@),
{
    match value {
        JsonValue::Object(map) => {
            proof {
                lemma_object_members(*map);
            }
            let ghost o = members_of(*map);
            let mut out = String::new();
            let mut i: usize = 0;
            while i < map.len()
                invariant
                    i <= map.len(),
                    o == members_of(*map),
                    out@ == members_text(o.take(i as int)),
                decreases map.len() - i,
            {
                proof {
                    assert(o.take(i as int + 1).drop_last() =~= o.take(i as int));
                    assert(o.take(i as int + 1).last() == o[i as int]);
                }
                let key = &map[i].0;
                let sep = ": ";
                proof {
                    reveal_strlit(": ");
                }
                match &map[i].1 {
                    JsonValue::String(s) => {
                        out.append(key.as_str());
                        out.append(sep);
                        out.append(s.as_str());
                        out.append("\n");
                    },
                    JsonValue::Bool(b) => {
                        out.append(key.as_str());
                        out.append(sep);
                        let t = bool_string(*b);
                        out.append(t.as_str());
                        out.append("\n");
                    },
                    JsonValue::Number(n) => {
                        out.append(key.as_str());
                        out.append(sep);
                        out.append(n.as_str());
                        out.append("\n");
                    },
                    JsonValue::Array(arr) => {
                        out.append(key.as_str());
                        out.append(": [");
                        let items = array_items_text(arr);
                        out.append(items.as_str());
                        out.append("]");
                        out.append("\n");
                        proof {
                            crate::editor::frontmatter::lemma_array_items(*arr);
                        }
                    },
                    _ => {},
                }
                proof {
                    assert(out@ =~= members_text(o.take(i as int + 1)));
                }
                i += 1;
            }
            proof {
                assert(o.take(map.len() as int) =~= o);
            }
            out
        },
        _ => String::new(),
    }
}

impl App {
    /// What holds of every app state the library builds.
    pub open spec fn inv(self) -> bool {
        &&& self.browser_cursor <= self.entries.len()
        &&& self.screen == Screen::Editor ==> self.editor is Some
        &&& self.editor matches Some(e) ==> e.buffer@.wf() && (e.has_frontmatter
            ==> e.frontmatter_end < usize::MAX)
        &&& self.prompt matches Some(p) ==> p.cursor <= byte_len(p.value@)
    }

    /// The key can be handled in this state: edits at a cursor need the
    /// cursor where a character starts.
    pub open spec fn key_ok(self, key: Key) -> bool {
        match self.screen {
            Screen::Editor => match key {
                Key::Esc | Key::CtrlS => true,
                _ => match self.editor {
                    Some(e) => crate::editor::key_ok(e.buffer@, key),
                    None => true,
                },
            },
            Screen::Prompt => match self.prompt {
                Some(p) => match key {
                    Key::Char(_) => is_boundary(p.value@, p.cursor as int),
                    Key::Backspace => p.cursor > 0 ==> is_boundary(p.value@, p.cursor - 1),
                    _ => true,
                },
                None => true,
            },
            _ => true,
        }
    }

    /// The app at start: the dashboard, on blog posts.
    pub fn new() -> (app: Self)
        ensures
            app.screen == Screen::Dashboard,
            app.content_type == ContentType::Blog,
            app.entries@.len() == 0 && app.blog_entries@.len() == 0 && app.project_entries@.len() == 0,
            app.browser_cursor == 0,
            app.editor is None && app.prompt is None && app.status_message is None
                && app.pending_slug is None,
            app.inv(),
    {
        App {
            screen: Screen::Dashboard,
            content_type: ContentType::Blog,
            entries: Vec::new(),
            blog_entries: Vec::new(),
            project_entries: Vec::new(),
            browser_cursor: 0,
            editor: None,
            prompt: None,
            status_message: None,
            pending_slug: None,
        }
    }


    /// Whether `key` can be handled in this state (see `key_ok`); a key that
    /// cannot would cut a line or the prompt answer inside a character.
    pub fn key_allowed(&self, key: Key) -> (r: bool)
        requires
            self.inv(),
        ensures
            r == self.key_ok(key),
    {
        match self.screen {
            Screen::Editor => match key {
                Key::Esc | Key::CtrlS => true,
                _ => match &self.editor {
                    Some(e) => e.key_allowed(key),
                    None => true,
                },
            },
            Screen::Prompt => match &self.prompt {
                Some(p) => match key {
                    Key::Char(_) => boundary_index(p.value.as_str(), p.cursor).is_some(),
                    Key::Backspace => p.cursor == 0 || boundary_index(p.value.as_str(), p.cursor - 1).is_some(),
                    _ => true,
                },
                None => true,
            },
            _ => true,
        }
    }

    /// Handles one key. When the key needs storage, the returned request
    /// says what to do; its answer goes to `handle_reply`.
    pub fn handle_key(&mut self, key: Key) -> (r: Option<StorageRequest>)
        requires
            old(self).inv(),
            old(self).key_ok(key),
        ensures
            final(self).inv(),
            key_step(*old(self), *final(self), key, r),
    {
        match self.screen {
            Screen::Dashboard => self.handle_dashboard_key(key),
            Screen::Browser => self.handle_browser_key(key),
            Screen::Editor => self.handle_editor_key(key),
            Screen::Prompt => self.handle_prompt_key(key),
        }
    }

    fn handle_dashboard_key(&mut self, key: Key) -> (r: Option<StorageRequest>)
        requires
            old(self).inv(),
        ensures
            final(self).inv(),
            dashboard_step(*old(self), *final(self), key, r),
    {
        match key {
            Key::Up | Key::Down => {
                self.content_type = match self.content_type {
                    ContentType::Blog => ContentType::Project,
                    ContentType::Project => ContentType::Blog,
                };
                None
            },
            Key::Enter => {
                self.browser_cursor = 0;
                Some(StorageRequest::List(self.content_type))
            },
            _ => None,
        }
    }

    fn handle_browser_key(&mut self, key: Key) -> (r: Option<StorageRequest>)
        requires
            old(self).inv(),
        ensures
            final(self).inv(),
            browser_step(*old(self), *final(self), key, r),
    {
        match key {
            Key::Up => {
                if self.browser_cursor > 0 {
                    self.browser_cursor -= 1;
                }
                None
            },
            Key::Down => {
                let max = self.entries.len();
                if self.browser_cursor < max {
                    self.browser_cursor += 1;
                }
                None
            },
            Key::Char(c) => {
                if c == 'n' || c == 'N' {
                    self.screen = Screen::Prompt;
                    self.prompt = Some(PromptState::new("Enter slug:"));
                }
                None
            },
            Key::Enter => {
                if self.browser_cursor < self.entries.len() {
                    let slug = self.entries[self.browser_cursor].slug.clone();
                    Some(StorageRequest::Load(self.content_type, slug))
                } else {
                    None
                }
            },
            Key::Esc => {
                self.screen = Screen::Dashboard;
                None
            },
            _ => None,
        }
    }

    fn handle_editor_key(&mut self, key: Key) -> (r: Option<StorageRequest>)
        requires
            old(self).inv(),
            old(self).screen == Screen::Editor,
            old(self).key_ok(key),
        ensures
            final(self).inv(),
            editor_step(*old(self), *final(self), key, r),
    {
        match key {
            Key::Esc => {
                let dirty = match &self.editor {
                    Some(e) => e.dirty,
                    None => false,
                };
                if dirty {
                    self.screen = Screen::Prompt;
                    self.prompt = Some(PromptState::new("Unsaved changes. Save? (y/n):"));
                    return None;
                }
                self.editor = None;
                self.screen = Screen::Browser;
                None
            },
            Key::CtrlS => self.save_current(),
            _ => {
                match self.editor.take() {
                    Some(mut editor) => {
                        editor.handle_key(key);
                        self.editor = Some(editor);
                    },
                    None => {},
                }
                None
            },
        }
    }

    fn handle_prompt_key(&mut self, key: Key) -> (r: Option<StorageRequest>)
        requires
            old(self).inv(),
            old(self).screen == Screen::Prompt,
            old(self).key_ok(key),
        ensures
            final(self).inv(),
            prompt_step(*old(self), *final(self), key, r),
    {
        match key {
            Key::Char(c) => {
                match self.prompt.take() {
                    Some(mut p) => {
                        let k = match boundary_index(p.value.as_str(), p.cursor) {
                            Some(k) => k,
                            None => 0,
                        };
                        let value = insert_at(p.value.as_str(), k, c);
                        let new_len = str_byte_len(value.as_str());
                        proof {
                            crate::text::lemma_offset_full(p.value@);
                            crate::text::lemma_offset_mono(p.value@, k as int, p.value@.len() as int);
                            crate::text::lemma_byte_len_concat(p.value@.take(k as int), seq![c]);
                            crate::text::lemma_byte_len_single(c);
                            assert(p.value@.take(k as int).push(c) =~= p.value@.take(k as int) + seq![c]);
                            crate::text::lemma_byte_len_concat(
                                p.value@.take(k as int).push(c),
                                p.value@.skip(k as int),
                            );
                            assert(p.value@ =~= p.value@.take(k as int) + p.value@.skip(k as int));
                            crate::text::lemma_byte_len_concat(p.value@.take(k as int), p.value@.skip(k as int));
                        }
                        p.value = value;
                        p.cursor = p.cursor + 1;
                        self.prompt = Some(p);
                    },
                    None => {},
                }
                None
            },
            Key::Backspace => {
                match self.prompt.take() {
                    Some(mut p) => {
                        if p.cursor > 0 {
                            let k = match boundary_index(p.value.as_str(), p.cursor - 1) {
                                Some(k) => k,
                                None => 0,
                            };
                            proof {
                                crate::text::lemma_offset_full(p.value@);
                                if k == p.value@.len() {
                                    assert(false);
                                }
                                crate::text::lemma_offset_step(p.value@, k as int);
                                crate::text::lemma_offset_mono(p.value@, k as int + 1, p.value@.len() as int);
                                let v = p.value@;
                                assert(v.take(k as int + 1) =~= v.take(k as int) + seq![v[k as int]]);
                                assert(v =~= v.take(k as int + 1) + v.skip(k as int + 1));
                                crate::text::lemma_byte_len_concat(v.take(k as int + 1), v.skip(k as int + 1));
                                crate::text::lemma_byte_len_concat(v.take(k as int), v.skip(k as int + 1));
                            }
                            let value = remove_at(p.value.as_str(), k);
                            p.value = value;
                            p.cursor = p.cursor - 1;
                        }
                        self.prompt = Some(p);
                    },
                    None => {},
                }
                None
            },
            Key::Enter => {
                let (value, label) = match &self.prompt {
                    Some(p) => (p.value.clone(), p.label.clone()),
                    None => (String::new(), String::new()),
                };
                let unsaved = "Unsaved";
                proof {
                    reveal_strlit("Unsaved");
                }
                if starts_with(label.as_str(), unsaved) {
                    let lower = to_lowercase(value.as_str());
                    let req = if str_eq(lower.as_str(), "y") {
                        self.save_current()
                    } else {
                        None
                    };
                    self.editor = None;
                    self.screen = Screen::Browser;
                    self.prompt = None;
                    return req;
                }
                self.prompt = None;
                self.create_new_entry(value.as_str());
                None
            },
            Key::Esc => {
                self.prompt = None;
                self.screen = Screen::Browser;
                None
            },
            _ => None,
        }
    }

    /// The request that saves the open editor's entry, if one is open.
    fn save_current(&self) -> (r: Option<StorageRequest>)
        requires
            self.inv(),
        ensures
            saves_editor(*self, r),
    {
        match &self.editor {
            Some(editor) => {
                let body = editor.body_text();
                let fm = if editor.content_type == ContentType::Blog {
                    let post = BlogPost {
                        title: editor.title.clone(),
                        date: editor.date.clone(),
                        description: editor.description.clone(),
                        tags: clone_strings(&editor.tags),
                        draft: false,
                        image: None,
                    };
                    build_blog_frontmatter(&post)
                } else {
                    let project = Project {
                        title: editor.title.clone(),
                        description: editor.description.clone(),
                        date: editor.date.clone(),
                        tech_stack: clone_strings(&editor.tags),
                        links: ProjectLinks::default(),
                        featured: false,
                    };
                    build_project_frontmatter(&project)
                };
                Some(
                    StorageRequest::Save {
                        content_type: editor.content_type,
                        slug: editor.slug.clone(),
                        frontmatter: fm,
                        body,
                    },
                )
            },
            None => None,
        }
    }


    /// Takes storage's answer to the last request.
    pub fn handle_reply(&mut self, reply: StorageReply)
        requires
            old(self).inv(),
        ensures
            final(self).inv(),
            reply_step(*old(self), *final(self), reply),
    {
        match reply {
            StorageReply::Listed(Ok(entries)) => {
                self.entries = entries;
                self.browser_cursor = 0;
                self.screen = Screen::Browser;
            },
            StorageReply::Listed(Err(e)) => {
                let mut m = String::from_str("Failed to list: ");
                m.append(e.as_str());
                self.status_message = Some(m);
                self.entries = Vec::new();
                self.browser_cursor = 0;
                self.screen = Screen::Browser;
            },
            StorageReply::Loaded(Ok(data)) => {
                if self.browser_cursor < self.entries.len() {
                    let mut text = String::from_str("---\n");
                    let fm = frontmatter_to_text(&data.frontmatter);
                    text.append(fm.as_str());
                    text.append("---\n\n");
                    text.append(data.body.as_str());
                    let slug = self.entries[self.browser_cursor].slug.clone();
                    self.editor = Some(Editor::from_content(self.content_type, slug, text.as_str()));
                    self.screen = Screen::Editor;
                }
            },
            StorageReply::Loaded(Err(e)) => {
                if self.browser_cursor < self.entries.len() {
                    let mut m = String::from_str("Failed to load: ");
                    m.append(e.as_str());
                    self.status_message = Some(m);
                }
            },
            StorageReply::Saved(Ok(())) => {
                match self.editor.take() {
                    Some(mut editor) => {
                        editor.mark_saved();
                        self.editor = Some(editor);
                    },
                    None => {},
                }
                self.status_message = Some(String::from_str("Saved successfully"));
            },
            StorageReply::Saved(Err(e)) => {
                match self.editor.take() {
                    Some(mut editor) => {
                        editor.mark_error(e.as_str());
                        self.editor = Some(editor);
                    },
                    None => {},
                }
                let mut m = String::from_str("Save failed: ");
                m.append(e.as_str());
                self.status_message = Some(m);
            },
        }
    }

    /// Takes the dashboard's entry lists from `data`.
    pub fn load_entries_value(&mut self, data: &JsonValue)
        ensures
            loads_entries(*old(self), *final(self), data@),
    {
        if let JsonValue::Object(obj) = data {
            proof {
                lemma_object_members(*obj);
            }
            if let Some(JsonValue::Array(blog)) = get_member(obj, "blog") {
                proof {
                    crate::editor::frontmatter::lemma_array_items(*blog);
                }
                self.blog_entries = entries_from(blog, ContentType::Blog);
            }
            if let Some(JsonValue::Array(proj)) = get_member(obj, "projects") {
                proof {
                    crate::editor::frontmatter::lemma_array_items(*proj);
                }
                self.project_entries = entries_from(proj, ContentType::Project);
            }
        }
    }

    /// Takes the dashboard's entry lists from JSON text; text that does not
    /// read as JSON changes nothing.
    pub fn load_entries(&mut self, json: &str)
        ensures
            match json_parse(json@) {
                Some(v) => loads_entries(*old(self), *final(self), v),
                None => *final(self) == *old(self),
            },
    {
        if let Some(data) = parse_json(json) {
            self.load_entries_value(&data);
        }
    }

    /// Opens an editor on a new entry named after the prompt answer.
    fn create_new_entry(&mut self, slug: &str)
        requires
            old(self).inv(),
        ensures
            final(self).inv(),
            creates_entry(*old(self), *final(self), slug@),
    {
        let trimmed = trim_str(slug);
        let lower = to_lowercase(trimmed.as_str());
        let slug = replace_spaces(lower.as_str());
        if slug.unicode_len() == 0 {
            self.status_message = Some(String::from_str("Slug cannot be empty"));
            return ;
        }
        self.editor = Some(Editor::new(self.content_type, slug));
        self.screen = Screen::Editor;
    }

}

/// Enter on the dashboard asks for the listing of the content type the
/// dashboard has selected, and the browser will start at its first row.
pub proof fn law_dashboard_lists_selected(a: App, b: App, r: Option<StorageRequest>)
    requires
        a.screen == Screen::Dashboard,
        key_step(a, b, Key::Enter, r),
    ensures
        r matches Some(StorageRequest::List(ct)) && ct == a.content_type,
        b.content_type == a.content_type,
        b.browser_cursor == 0,
{
}

/// After switching the content type on the dashboard, Enter lists the other
/// type than the one shown before the switch.
pub proof fn law_switch_then_list(
    a: App,
    b: App,
    c: App,
    k: Key,
    r1: Option<StorageRequest>,
    r2: Option<StorageRequest>,
)
    requires
        a.screen == Screen::Dashboard,
        k == Key::Up || k == Key::Down,
        key_step(a, b, k, r1),
        key_step(b, c, Key::Enter, r2),
    ensures
        r1 is None,
        r2 matches Some(StorageRequest::List(ct)) && ct != a.content_type && ct == b.content_type,
{
}

/// Switching the content type twice on the dashboard comes back to the
/// same state, and asks nothing of storage.
pub proof fn law_dashboard_switch_twice(
    a: App,
    b: App,
    c: App,
    k1: Key,
    k2: Key,
    r1: Option<StorageRequest>,
    r2: Option<StorageRequest>,
)
    requires
        a.screen == Screen::Dashboard,
        k1 == Key::Up || k1 == Key::Down,
        k2 == Key::Up || k2 == Key::Down,
        key_step(a, b, k1, r1),
        key_step(b, c, k2, r2),
    ensures
        c == a,
        r1 is None && r2 is None,
{
}

/// In the prompt, typing a character and erasing it again gives back the
/// answer and the cursor, and leaves the rest of the app as it was.
pub proof fn law_prompt_type_then_erase(
    a: App,
    b: App,
    d: App,
    c: char,
    r1: Option<StorageRequest>,
    r2: Option<StorageRequest>,
)
    requires
        a.screen == Screen::Prompt,
        a.prompt is Some,
        a.key_ok(Key::Char(c)),
        key_step(a, b, Key::Char(c), r1),
        key_step(b, d, Key::Backspace, r2),
    ensures
        r1 is None && r2 is None,
        d == (App { prompt: d.prompt, ..a }),
        d.prompt matches Some(q) && a.prompt matches Some(p) && q.value@ == p.value@ && q.cursor
            == p.cursor && q.label == p.label && q.error == p.error,
{
    let p = a.prompt->0;
    let v = p.value@;
    let k = char_index(v, p.cursor as int);
    crate::text::lemma_boundary_index(v, p.cursor as int);
    let v2 = v.take(k).push(c) + v.skip(k);
    assert(v2 =~= v.take(k) + (seq![c] + v.skip(k)));
    crate::text::lemma_offset_prefix(v.take(k), seq![c] + v.skip(k), k);
    assert(v.take(k).take(k) =~= v.take(k));
    crate::text::lemma_char_index(v2, k);
    assert(char_index(v2, p.cursor as int) == k);
    assert(v2.take(k) + v2.skip(k + 1) =~= v);
}

} // verus!

//! The editor of one entry: its buffer, what it knows of the entry, and
//! how keys change it.
pub mod buffer;
pub mod frontmatter;

use vstd::prelude::*;
use buffer::{Buffer, BufferModel, lines_of_text};
use frontmatter::{extract_frontmatter, first_fence_from, has_frontmatter};
use crate::key::Key;
use crate::models::{dir_name_of, ContentType};
use crate::text::{
    boundary_index, char_width, join_lines, join_with_newlines, lines_of, str_byte_len, text_lines,
};

verus! {

#[derive(Debug, Clone, Copy, PartialEq, Eq, Structural)]
pub enum EditorMode {
    Normal,
    Insert,
}

#[derive(Debug, Clone)]
pub struct Editor {
    pub buffer: Buffer,
    pub mode: EditorMode,
    pub slug: String,
    pub content_type: ContentType,
    pub title: String,
    pub description: String,
    pub date: String,
    pub tags: Vec<String>,
    pub has_frontmatter: bool,
    pub frontmatter_end: usize,
    pub dirty: bool,
    pub save_status: Option<String>,
}

/// The text a new entry starts with: an empty frontmatter block and a
/// heading with the slug.
pub open spec fn new_entry_text(slug: Seq<char>, ct: ContentType) -> Seq<char> {
    "---\ntitle: \ndate: \ndescription: \n---\n\n"@ + "# "@ + slug + "\n\nStart writing your "@
        + dir_name_of(ct) + " content here...\n"@
}

/// The keys the editor acts on.
pub open spec fn key_handled(key: Key) -> bool {
    match key {
        Key::Up | Key::Down | Key::Left | Key::Right | Key::Char(_) | Key::Enter | Key::Backspace
        | Key::Delete | Key::Home | Key::End | Key::Tab => true,
        _ => false,
    }
}

/// The keys that change the text.
pub open spec fn key_edits(key: Key) -> bool {
    match key {
        Key::Char(_) | Key::Enter | Key::Backspace | Key::Delete | Key::Tab => true,
        _ => false,
    }
}

/// What a key does to the buffer. Tab inserts two spaces.
pub open spec fn key_effect(m: BufferModel, key: Key) -> BufferModel {
    match key {
        Key::Up => m.move_up(),
        Key::Down => m.move_down(),
        Key::Left => m.move_left(),
        Key::Right => m.move_right(),
        Key::Char(c) => m.insert_char(c),
        Key::Enter => m.split_line(),
        Key::Backspace => m.delete_char(),
        Key::Delete => m.delete_forward(),
        Key::Home => m.move_home(),
        Key::End => m.move_end(),
        Key::Tab => m.insert_char(' ').insert_char(' '),
        _ => m,
    }
}

/// The key can be applied to the buffer: the edits that work at the cursor
/// need it to sit where a character starts.
pub open spec fn key_ok(m: BufferModel, key: Key) -> bool {
    match key {
        Key::Char(_) | Key::Enter | Key::Tab => m.at_boundary(),
        Key::Backspace => m.can_delete_char(),
        Key::Delete => m.can_delete_forward(),
        _ => true,
    }
}

/// The text of the entry after its frontmatter, or all of it when it has none.
pub open spec fn body_of(lines: Seq<Seq<char>>, has_fm: bool, fm_end: nat) -> Seq<char> {
    if has_fm {
        if fm_end + 1 < lines.len() {
            join_lines(lines.skip(fm_end + 1 as int))
        } else {
            Seq::<char>::empty()
        }
    } else {
        join_lines(lines)
    }
}

impl Editor {
    /// All but the buffer and the dirty flag are as in `other`.
    pub open spec fn same_entry(self, other: Editor) -> bool {
        &&& self.mode == other.mode
        &&& self.slug == other.slug
        &&& self.content_type == other.content_type
        &&& self.title == other.title
        &&& self.description == other.description
        &&& self.date == other.date
        &&& self.tags == other.tags
        &&& self.has_frontmatter == other.has_frontmatter
        &&& self.frontmatter_end == other.frontmatter_end
        &&& self.save_status == other.save_status
    }

    /// An editor for a new entry named `slug`.
    pub fn new(content_type: ContentType, slug: String) -> (e: Self)
        ensures
            e.buffer@ == (BufferModel {
                lines: lines_of_text(new_entry_text(slug@, content_type)),
                x: 0,
                y: 0,
            }),
            e.buffer@.wf(),
            e.mode == EditorMode::Insert,
            e.slug == slug,
            e.content_type == content_type,
            e.title@.len() == 0 && e.description@.len() == 0 && e.date@.len() == 0,
            e.tags@.len() == 0,
            e.has_frontmatter,
            e.frontmatter_end == 4,
            !e.dirty,
            e.save_status is None,
    {
        let mut text = String::from_str("---\ntitle: \ndate: \ndescription: \n---\n\n");
        text.append("# ");
        text.append(slug.as_str());
        text.append("\n\nStart writing your ");
        text.append(content_type.dir_name());
        text.append(" content here...\n");
        let buffer = Buffer::from_text(text.as_str());
        Editor {
            buffer,
            mode: EditorMode::Insert,
            slug,
            content_type,
            title: String::new(),
            description: String::new(),
            date: String::new(),
            tags: Vec::new(),
            has_frontmatter: true,
            frontmatter_end: 4,
            dirty: false,
            save_status: None,
        }
    }

    /// An editor on the existing text of an entry; notes where its
    /// frontmatter ends, if it has one.
    pub fn from_content(content_type: ContentType, slug: String, text: &str) -> (e: Self)
        ensures
            e.buffer@ == (BufferModel { lines: lines_of_text(text@), x: 0, y: 0 }),
            e.buffer@.wf(),
            e.mode == EditorMode::Insert,
            e.slug == slug,
            e.content_type == content_type,
            e.title@.len() == 0 && e.description@.len() == 0 && e.date@.len() == 0,
            e.tags@.len() == 0,
            e.has_frontmatter == has_frontmatter(text_lines(text@)),
            e.frontmatter_end == (if has_frontmatter(text_lines(text@)) {
                first_fence_from(text_lines(text@), 1)
            } else {
                0
            }),
            e.has_frontmatter ==> e.frontmatter_end < usize::MAX,
            !e.dirty,
            e.save_status is None,
    {
        let lines = lines_of(text);
        let fm = extract_frontmatter(lines.as_slice());
        let (has_frontmatter, frontmatter_end) = match fm {
            Some(block) => (true, block.end_line),
            None => (false, 0),
        };
        Editor {
            buffer: Buffer::from_text(text),
            mode: EditorMode::Insert,
            slug,
            content_type,
            title: String::new(),
            description: String::new(),
            date: String::new(),
            tags: Vec::new(),
            has_frontmatter,
            frontmatter_end,
            dirty: false,
            save_status: None,
        }
    }


    /// Whether `key` can be applied to the buffer (see `key_ok`).
    pub fn key_allowed(&self, key: Key) -> (r: bool)
        requires
            self.buffer@.wf(),
        ensures
            r == key_ok(self.buffer@, key),
    {
        let b = &self.buffer;
        proof {
            b.lemma_view_lines();
        }
        let line = b.lines[b.cursor_y].as_str();
        match key {
            Key::Char(_) | Key::Enter | Key::Tab => boundary_index(line, b.cursor_x).is_some(),
            Key::Backspace => b.cursor_x == 0 || boundary_index(line, b.cursor_x - 1).is_some(),
            Key::Delete => b.cursor_x >= str_byte_len(line) || boundary_index(line, b.cursor_x).is_some(),
            _ => true,
        }
    }

    /// Applies a key to the buffer; tells whether the key was one the
    /// editor acts on. Keys that change the text mark the entry dirty.
    pub fn handle_key(&mut self, key: Key) -> (handled: bool)
        requires
            old(self).buffer@.wf(),
            key_ok(old(self).buffer@, key),
        ensures
            handled == key_handled(key),
            final(self).buffer@ == key_effect(old(self).buffer@, key),
            final(self).buffer@.wf(),
            final(self).dirty == (key_edits(key) || old(self).dirty),
            final(self).same_entry(*old(self)),
    {
        match key {
            Key::Up => {
                self.buffer.move_up();
                true
            },
            Key::Down => {
                self.buffer.move_down();
                true
            },
            Key::Left => {
                self.buffer.move_left();
                true
            },
            Key::Right => {
                self.buffer.move_right();
                true
            },
            Key::Char(c) => {
                self.buffer.insert_char(c);
                self.dirty = true;
                true
            },
            Key::Enter => {
                self.buffer.split_line();
                self.dirty = true;
                true
            },
            Key::Backspace => {
                self.buffer.delete_char();
                self.dirty = true;
                true
            },
            Key::Delete => {
                self.buffer.delete_forward();
                self.dirty = true;
                true
            },
            Key::Home => {
                self.buffer.move_home();
                true
            },
            Key::End => {
                self.buffer.move_end();
                true
            },
            Key::Tab => {
                proof {
                    buffer::lemma_insert_keeps_boundary(self.buffer@, ' ');
                }
                self.buffer.insert_char(' ');
                self.buffer.insert_char(' ');
                self.dirty = true;
                true
            },
            _ => false,
        }
    }

    /// The text after the frontmatter block, or the whole text without one.
    pub fn body_text(&self) -> (r: String)
        requires
            !self.has_frontmatter || self.frontmatter_end < usize::MAX,
        ensures
            r@ == body_of(self.buffer@.lines, self.has_frontmatter, self.frontmatter_end as nat),
    {
        proof {
            self.buffer.lemma_view_lines();
        }
        if self.has_frontmatter {
            let fm_end = self.frontmatter_end;
            if fm_end + 1 < self.buffer.lines.len() {
                let rest = vstd::slice::slice_subrange(
                    self.buffer.lines.as_slice(),
                    fm_end + 1,
                    self.buffer.lines.len(),
                );
                let r = join_with_newlines(rest);
                proof {
                    assert(rest@.map_values(|l: String| l@) =~= self.buffer@.lines.skip(
                        fm_end + 1,
                    ));
                }
                r
            } else {
                String::new()
            }
        } else {
            self.buffer.to_text()
        }
    }

    /// Records a successful save.
    pub fn mark_saved(&mut self)
        ensures
            *final(self) == (Editor { dirty: false, save_status: final(self).save_status, ..*old(self) }),
            final(self).save_status matches Some(s) && s@ == "Saved"@,
    {
        self.dirty = false;
        self.save_status = Some(String::from_str("Saved"));
    }

    /// Records a failed save and why.
    pub fn mark_error(&mut self, msg: &str)
        ensures
            *final(self) == (Editor { save_status: final(self).save_status, ..*old(self) }),
            final(self).save_status matches Some(s) && s@ == "Error: "@ + msg@,
    {
        let mut s = String::from_str("Error: ");
        s.append(msg);
        self.save_status = Some(s);
    }
}

} // verus!

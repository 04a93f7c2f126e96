//! The text buffer of the editor: a list of lines and a cursor.
//!
//! The cursor column `cursor_x` is a byte offset into the UTF-8 encoding of
//! the current line, the row `cursor_y` an index into `lines`. Each editing
//! operation is stated over `BufferModel`, the buffer as plain sequences.
use vstd::prelude::*;
use crate::text::{
    boundary_index, byte_len, char_index, char_width, concat, insert_at, is_boundary,
    join_lines, join_with_newlines, lemma_byte_len_concat, lemma_byte_len_ge_len,
    lemma_byte_len_single, lemma_byte_len_subrange, lemma_char_index, lemma_offset_full,
    lemma_offset_prefix, lines_of, remove_at, split_newlines, str_byte_len, strip_cr, substring,
    text_lines,
};

verus! {

/// The buffer as mathematical values: its lines and the cursor position.
pub struct BufferModel {
    pub lines: Seq<Seq<char>>,
    pub x: nat,
    pub y: nat,
}

/// `ls` with lines `i` and `i + 1` joined into one.
pub open spec fn merge_lines(ls: Seq<Seq<char>>, i: int) -> Seq<Seq<char>> {
    ls.update(i, ls[i] + ls[i + 1]).remove(i + 1)
}

/// The lines a buffer opened on `text` holds: the text's lines, or a single
/// empty line when there are none.
pub open spec fn lines_of_text(text: Seq<char>) -> Seq<Seq<char>> {
    if text_lines(text).len() == 0 {
        seq![Seq::<char>::empty()]
    } else {
        text_lines(text)
    }
}

impl BufferModel {
    /// There is a line, the cursor is on one, and not past its end.
    pub open spec fn wf(self) -> bool {
        &&& self.lines.len() > 0
        &&& self.y < self.lines.len()
        &&& self.x <= byte_len(self.lines[self.y as int])
    }

    /// The line under the cursor, or nothing when the row is past the end.
    pub open spec fn cur(self) -> Seq<char> {
        if self.y < self.lines.len() {
            self.lines[self.y as int]
        } else {
            Seq::<char>::empty()
        }
    }

    pub open spec fn cur_len(self) -> nat {
        byte_len(self.cur())
    }

    pub open spec fn with_x(self, x: nat) -> BufferModel {
        BufferModel { lines: self.lines, x, y: self.y }
    }

    pub open spec fn with_y(self, y: nat) -> BufferModel {
        BufferModel { lines: self.lines, x: self.x, y }
    }

    pub open spec fn clamp_x(self) -> BufferModel {
        if self.x > self.cur_len() {
            self.with_x(self.cur_len())
        } else {
            self
        }
    }

    pub open spec fn move_up(self) -> BufferModel {
        if self.y > 0 {
            self.with_y((self.y - 1) as nat).clamp_x()
        } else {
            self
        }
    }

    pub open spec fn move_down(self) -> BufferModel {
        if self.y + 1 < self.lines.len() {
            self.with_y(self.y + 1).clamp_x()
        } else {
            self
        }
    }

    pub open spec fn move_left(self) -> BufferModel {
        if self.x > 0 {
            self.with_x((self.x - 1) as nat)
        } else if self.y > 0 {
            let up = self.with_y((self.y - 1) as nat);
            up.with_x(up.cur_len())
        } else {
            self
        }
    }

    pub open spec fn move_right(self) -> BufferModel {
        if self.x < self.cur_len() {
            self.with_x(self.x + 1)
        } else if self.y + 1 < self.lines.len() {
            BufferModel { lines: self.lines, x: 0, y: self.y + 1 }
        } else {
            self
        }
    }

    pub open spec fn move_home(self) -> BufferModel {
        self.with_x(0)
    }

    pub open spec fn move_end(self) -> BufferModel {
        self.with_x(self.cur_len())
    }

    /// Up by at most `n` rows, stopping at the first.
    pub open spec fn move_page_up(self, n: nat) -> BufferModel {
        let step = if n < self.y { n } else { self.y };
        self.with_y((self.y - step) as nat).clamp_x()
    }

    /// Down by at most `n` rows, stopping at the last.
    pub open spec fn move_page_down(self, n: nat) -> BufferModel {
        let max_y: int = if self.lines.len() > 0 { self.lines.len() - 1 } else { 0 };
        let y: int = if self.y >= max_y {
            self.y as int
        } else if self.y + n > max_y {
            max_y
        } else {
            (self.y + n) as int
        };
        self.with_y(y as nat).clamp_x()
    }

    /// The character index of the cursor in the current line.
    pub open spec fn cursor_char(self) -> int {
        char_index(self.cur(), self.x as int)
    }

    pub open spec fn insert_char(self, c: char) -> BufferModel {
        let k = self.cursor_char();
        BufferModel {
            lines: self.lines.update(self.y as int, self.cur().take(k).push(c) + self.cur().skip(k)),
            x: self.x + 1,
            y: self.y,
        }
    }

    /// Joins the current line onto the one above it, the cursor at the seam.
    pub open spec fn join_up(self) -> BufferModel {
        BufferModel {
            lines: merge_lines(self.lines, self.y - 1),
            x: byte_len(self.lines[self.y - 1]),
            y: (self.y - 1) as nat,
        }
    }

    pub open spec fn delete_char(self) -> BufferModel {
        if self.x > 0 {
            let k = char_index(self.cur(), self.x - 1);
            BufferModel {
                lines: self.lines.update(self.y as int, self.cur().take(k) + self.cur().skip(k + 1)),
                x: (self.x - 1) as nat,
                y: self.y,
            }
        } else if self.y > 0 {
            self.join_up()
        } else {
            self
        }
    }

    pub open spec fn delete_forward(self) -> BufferModel {
        if self.x < self.cur_len() {
            let k = self.cursor_char();
            BufferModel {
                lines: self.lines.update(self.y as int, self.cur().take(k) + self.cur().skip(k + 1)),
                x: self.x,
                y: self.y,
            }
        } else if self.y + 1 < self.lines.len() {
            BufferModel { lines: merge_lines(self.lines, self.y as int), x: self.x, y: self.y }
        } else {
            self
        }
    }

    pub open spec fn split_line(self) -> BufferModel {
        let k = self.cursor_char();
        BufferModel {
            lines: self.lines.update(self.y as int, self.cur().take(k)).insert(
                (self.y + 1) as int,
                self.cur().skip(k),
            ),
            x: 0,
            y: self.y + 1,
        }
    }

    pub open spec fn join_line(self) -> BufferModel {
        if self.y > 0 && self.y < self.lines.len() {
            self.join_up()
        } else {
            self
        }
    }

    /// `insert_char` and `split_line` need the cursor to start a character.
    pub open spec fn at_boundary(self) -> bool {
        is_boundary(self.cur(), self.x as int)
    }

    /// `delete_char` needs the character before the cursor to be one byte.
    pub open spec fn can_delete_char(self) -> bool {
        self.x > 0 ==> is_boundary(self.cur(), self.x - 1)
    }

    /// `delete_forward` needs the cursor to start a character unless at the end.
    pub open spec fn can_delete_forward(self) -> bool {
        self.x < self.cur_len() ==> is_boundary(self.cur(), self.x as int)
    }
}

#[derive(Debug, Clone)]
pub struct Buffer {
    pub lines: Vec<String>,
    pub cursor_x: usize,
    pub cursor_y: usize,
}

impl View for Buffer {
    type V = BufferModel;

    open spec fn view(&self) -> BufferModel {
        BufferModel {
            lines: self.lines@.map_values(|l: String| l@),
            x: self.cursor_x as nat,
            y: self.cursor_y as nat,
        }
    }
}

/// `byte_len` of a line with one character inserted or removed.
proof fn lemma_edit_len(s: Seq<char>, k: int, c: char)
    requires
        0 <= k <= s.len(),
    ensures
        byte_len(s.take(k).push(c) + s.skip(k)) == byte_len(s) + char_width(c),
        k < s.len() ==> byte_len(s.take(k) + s.skip(k + 1)) + char_width(s[k]) == byte_len(s),
        byte_len(s.take(k)) + byte_len(s.skip(k)) == byte_len(s),
{
    assert(s =~= s.take(k) + s.skip(k));
    lemma_byte_len_concat(s.take(k), s.skip(k));
    assert(s.take(k).push(c) =~= s.take(k) + seq![c]);
    lemma_byte_len_concat(s.take(k), seq![c]);
    lemma_byte_len_single(c);
    lemma_byte_len_concat(s.take(k).push(c), s.skip(k));
    if k < s.len() {
        assert(s.skip(k) =~= seq![s[k]] + s.skip(k + 1));
        lemma_byte_len_concat(seq![s[k]], s.skip(k + 1));
        lemma_byte_len_single(s[k]);
        lemma_byte_len_concat(s.take(k), s.skip(k + 1));
    }
}

impl Buffer {
    /// The view's lines are the views of the `String`s, one for one.
    pub proof fn lemma_view_lines(&self)
        ensures
            self@.lines.len() == self.lines.len(),
            forall|i: int| 0 <= i < self.lines.len() ==> #[trigger] self@.lines[i] == self.lines[i]@,
    {
    }

    /// An empty buffer: one empty line, the cursor at its start.
    pub fn new() -> (b: Buffer)
        ensures
            b@ == (BufferModel { lines: seq![Seq::<char>::empty()], x: 0, y: 0 }),
            b@.wf(),
    {
        let mut lines: Vec<String> = Vec::new();
        lines.push(String::new());
        let b = Buffer { lines, cursor_x: 0, cursor_y: 0 };
        proof {
            assert(b@.lines =~= seq![Seq::<char>::empty()]);
        }
        b
    }

    /// A buffer holding the lines of `text`, the cursor at the start.
    pub fn from_text(text: &str) -> (b: Buffer)
        ensures
            b@ == (BufferModel { lines: lines_of_text(text@), x: 0, y: 0 }),
            b@.wf(),
    {
        let lines = lines_of(text);
        if lines.len() == 0 {
            let b = Buffer::new();
            proof {
                assert(text_lines(text@) =~= lines@.map_values(|l: String| l@));
            }
            b
        } else {
            Buffer { lines, cursor_x: 0, cursor_y: 0 }
        }
    }

    /// The lines joined by newlines.
    pub fn to_text(&self) -> (r: String)
        ensures
            r@ == join_lines(self@.lines),
    {
        join_with_newlines(self.lines.as_slice())
    }

    /// The line under the cursor; empty when the row is past the last line.
    pub fn current_line(&self) -> (r: &str)
        ensures
            r@ == self@.cur(),
    {
        if self.cursor_y < self.lines.len() {
            self.lines[self.cursor_y].as_str()
        } else {
            proof {
                reveal_strlit("");
            }
            ""
        }
    }

    /// Byte length of the line under the cursor.
    fn current_len(&self) -> (n: usize)
        ensures
            n == self@.cur_len(),
    {
        let line = self.current_line();
        proof {
            if self.cursor_y < self.lines.len() {
                assert(self@.lines[self.cursor_y as int] == self.lines[self.cursor_y as int]@);
            } else {
                assert(byte_len(Seq::<char>::empty()) == 0);
            }
        }
        str_byte_len(line)
    }

    fn clamp_cursor_x(&mut self)
        ensures
            final(self)@ == old(self)@.clamp_x(),
    {
        let max_x = self.current_len();
        if self.cursor_x > max_x {
            self.cursor_x = max_x;
        }
    }

    /// Up one row, the column clamped to the new line.
    pub fn move_up(&mut self)
        requires
            old(self)@.wf(),
        ensures
            final(self)@ == old(self)@.move_up(),
            final(self)@.wf(),
    {
        if self.cursor_y > 0 {
            self.cursor_y -= 1;
            self.clamp_cursor_x();
        }
    }

    /// Down one row, the column clamped to the new line.
    pub fn move_down(&mut self)
        requires
            old(self)@.wf(),
        ensures
            final(self)@ == old(self)@.move_down(),
            final(self)@.wf(),
    {
        proof {
            self.lemma_view_lines();
        }
        if self.cursor_y + 1 < self.lines.len() {
            self.cursor_y += 1;
            self.clamp_cursor_x();
        }
    }

    /// Left one byte, or to the end of the line above.
    pub fn move_left(&mut self)
        requires
            old(self)@.wf(),
        ensures
            final(self)@ == old(self)@.move_left(),
            final(self)@.wf(),
    {
        if self.cursor_x > 0 {
            self.cursor_x -= 1;
        } else if self.cursor_y > 0 {
            self.cursor_y -= 1;
            self.cursor_x = self.current_len();
        }
    }

    /// Right one byte, or to the start of the line below.
    pub fn move_right(&mut self)
        requires
            old(self)@.wf(),
        ensures
            final(self)@ == old(self)@.move_right(),
            final(self)@.wf(),
    {
        proof {
            self.lemma_view_lines();
        }
        let line_len = self.current_len();
        if self.cursor_x < line_len {
            self.cursor_x += 1;
        } else if self.cursor_y + 1 < self.lines.len() {
            self.cursor_y += 1;
            self.cursor_x = 0;
        }
    }

    /// To the start of the line.
    pub fn move_home(&mut self)
        requires
            old(self)@.wf(),
        ensures
            final(self)@ == old(self)@.move_home(),
            final(self)@.wf(),
    {
        self.cursor_x = 0;
    }

    /// To the end of the line.
    pub fn move_end(&mut self)
        requires
            old(self)@.wf(),
        ensures
            final(self)@ == old(self)@.move_end(),
            final(self)@.wf(),
    {
        self.cursor_x = self.current_len();
    }

    /// Up by `page_size` rows at most.
    pub fn move_page_up(&mut self, page_size: usize)
        requires
            old(self)@.wf(),
        ensures
            final(self)@ == old(self)@.move_page_up(page_size as nat),
            final(self)@.wf(),
    {
        let step = if page_size < self.cursor_y {
            page_size
        } else {
            self.cursor_y
        };
        self.cursor_y -= step;
        self.clamp_cursor_x();
    }

    /// Down by `page_size` rows at most.
    pub fn move_page_down(&mut self, page_size: usize)
        requires
            old(self)@.wf(),
        ensures
            final(self)@ == old(self)@.move_page_down(page_size as nat),
            final(self)@.wf(),
    {
        let max_y = if self.lines.len() > 0 {
            self.lines.len() - 1
        } else {
            0
        };
        if self.cursor_y < max_y {
            if page_size > max_y - self.cursor_y {
                self.cursor_y = max_y;
            } else {
                self.cursor_y = self.cursor_y + page_size;
            }
        }
        self.clamp_cursor_x();
    }

    /// Character index of the cursor column, which must start a character.
    fn cursor_index(&self, b: usize) -> (k: usize)
        requires
            self.cursor_y < self.lines.len(),
            is_boundary(self@.cur(), b as int),
        ensures
            k == char_index(self@.cur(), b as int),
            k <= self@.cur().len(),
    {
        proof {
            assert(self@.cur() == self.lines[self.cursor_y as int]@);
        }
        match boundary_index(self.lines[self.cursor_y].as_str(), b) {
            Some(k) => k,
            None => 0,
        }
    }

    /// Inserts `c` at the cursor and moves past it by one byte.
    pub fn insert_char(&mut self, c: char)
        requires
            old(self)@.wf(),
            old(self)@.at_boundary(),
        ensures
            final(self)@ == old(self)@.insert_char(c),
            final(self)@.wf(),
    {
        let ghost m = self@;
        let y = self.cursor_y;
        let k = self.cursor_index(self.cursor_x);
        let line = insert_at(self.lines[y].as_str(), k, c);
        let new_len = str_byte_len(line.as_str());
        proof {
            lemma_edit_len(m.cur(), k as int, c);
        }
        self.lines.set(y, line);
        self.cursor_x += 1;
        proof {
            assert(self@.lines =~= m.insert_char(c).lines);
        }
    }

    /// Joins line `y` onto line `y - 1`, the cursor at the seam.
    fn join_up_exec(&mut self)
        requires
            old(self)@.wf(),
            0 < old(self).cursor_y,
        ensures
            final(self)@ == old(self)@.join_up(),
            final(self)@.wf(),
    {
        let ghost m = self@;
        let y = self.cursor_y;
        let prev_len = str_byte_len(self.lines[y - 1].as_str());
        let current = self.lines.remove(y);
        self.cursor_y -= 1;
        let joined = concat(self.lines[y - 1].as_str(), current.as_str());
        self.lines.set(y - 1, joined);
        self.cursor_x = prev_len;
        proof {
            assert(self@.lines =~= merge_lines(m.lines, y - 1));
            lemma_byte_len_concat(m.lines[y - 1], m.lines[y as int]);
        }
    }

    /// Backspace: removes the character before the cursor, or joins the
    /// line onto the one above when the cursor is at the start.
    pub fn delete_char(&mut self)
        requires
            old(self)@.wf(),
            old(self)@.can_delete_char(),
        ensures
            final(self)@ == old(self)@.delete_char(),
            final(self)@.wf(),
    {
        let ghost m = self@;
        if self.cursor_x > 0 {
            let y = self.cursor_y;
            let k = self.cursor_index(self.cursor_x - 1);
            proof {
                lemma_offset_full(m.cur());
                if k == m.cur().len() {
                    assert(false);
                }
            }
            let line = remove_at(self.lines[y].as_str(), k);
            self.lines.set(y, line);
            self.cursor_x -= 1;
            proof {
                lemma_edit_len(m.cur(), k as int, ' ');
                assert(self@.lines =~= m.delete_char().lines);
                assert(self@.x <= byte_len(self@.lines[y as int])) by {
                    crate::text::lemma_offset_step(m.cur(), k as int);
                    crate::text::lemma_offset_mono(m.cur(), k as int + 1, m.cur().len() as int);
                }
            }
        } else if self.cursor_y > 0 {
            self.join_up_exec();
        }
    }

    /// Delete: removes the character at the cursor, or joins the next line
    /// onto this one when the cursor is at the end.
    pub fn delete_forward(&mut self)
        requires
            old(self)@.wf(),
            old(self)@.can_delete_forward(),
        ensures
            final(self)@ == old(self)@.delete_forward(),
            final(self)@.wf(),
    {
        proof {
            self.lemma_view_lines();
        }
        let ghost m = self@;
        let line_len = self.current_len();
        let y = self.cursor_y;
        if self.cursor_x < line_len {
            let k = self.cursor_index(self.cursor_x);
            proof {
                lemma_offset_full(m.cur());
                if k == m.cur().len() {
                    assert(false);
                }
            }
            let line = remove_at(self.lines[y].as_str(), k);
            self.lines.set(y, line);
            proof {
                lemma_edit_len(m.cur(), k as int, ' ');
                assert(self@.lines =~= m.delete_forward().lines);
                assert(self@.x <= byte_len(self@.lines[y as int])) by {
                    crate::text::lemma_offset_mono(m.cur(), k as int, m.cur().len() as int);
                    assert(m.cur().take(k as int) + m.cur().skip(k as int + 1) =~= m.cur().take(
                        k as int,
                    ) + m.cur().skip(k as int + 1));
                    lemma_byte_len_concat(m.cur().take(k as int), m.cur().skip(k as int + 1));
                }
            }
        } else if y + 1 < self.lines.len() {
            let next = self.lines.remove(y + 1);
            let joined = concat(self.lines[y].as_str(), next.as_str());
            self.lines.set(y, joined);
            proof {
                assert(self@.lines =~= merge_lines(m.lines, y as int));
                lemma_byte_len_concat(m.lines[y as int], m.lines[y + 1]);
            }
        }
    }

    /// Enter: breaks the line at the cursor, the cursor at the start of the new line.
    pub fn split_line(&mut self)
        requires
            old(self)@.wf(),
            old(self)@.at_boundary(),
        ensures
            final(self)@ == old(self)@.split_line(),
            final(self)@.wf(),
    {
        proof {
            self.lemma_view_lines();
        }
        let ghost m = self@;
        let y = self.cursor_y;
        let k = self.cursor_index(self.cursor_x);
        let n = self.lines[y].as_str().unicode_len();
        let left = substring(self.lines[y].as_str(), 0, k);
        let right = substring(self.lines[y].as_str(), k, n);
        self.lines.set(y, left);
        self.lines.insert(y + 1, right);
        self.cursor_y += 1;
        self.cursor_x = 0;
        proof {
            assert(m.cur().subrange(0, k as int) =~= m.cur().take(k as int));
            assert(m.cur().subrange(k as int, n as int) =~= m.cur().skip(k as int));
            assert(self@.lines =~= m.split_line().lines);
            lemma_edit_len(m.cur(), k as int, ' ');
        }
    }

    /// Joins the current line onto the one above, the cursor at the seam.
    pub fn join_line(&mut self)
        requires
            old(self)@.wf(),
        ensures
            final(self)@ == old(self)@.join_line(),
            final(self)@.wf(),
    {
        if self.cursor_y > 0 && self.cursor_y < self.lines.len() {
            self.join_up_exec();
        }
    }

    /// The rows `(first, end)` shown in a window of `height` rows: scrolled
    /// just enough that the cursor row is the last one shown.
    pub fn visible_line_range(&self, height: usize) -> (r: (usize, usize))
        requires
            !(height == 0 && self.cursor_y == usize::MAX),
        ensures
            r.0 == (if self.cursor_y >= height { self.cursor_y - height + 1 } else { 0 }),
            r.1 == (if r.0 + height < self.lines.len() { r.0 + height } else { self.lines.len() as int }),
            height > 0 && self.cursor_y < self.lines.len() ==> r.0 <= self.cursor_y < r.1 && r.1 - r.0
                <= height,
    {
        let scroll_offset = if self.cursor_y >= height {
            self.cursor_y - height + 1
        } else {
            0
        };
        let end = if height < self.lines.len() && scroll_offset < self.lines.len() - height {
            scroll_offset + height
        } else {
            self.lines.len()
        };
        (scroll_offset, end)
    }
}

/// Typing an ASCII character and then pressing backspace leaves the buffer
/// as it was.
pub proof fn law_insert_then_delete(m: BufferModel, c: char)
    requires
        m.wf(),
        m.at_boundary(),
        char_width(c) == 1,
    ensures
        m.insert_char(c).wf(),
        m.insert_char(c).can_delete_char(),
        m.insert_char(c).delete_char() == m,
{
    let cur = m.cur();
    let k = char_index(cur, m.x as int);
    let l2 = cur.take(k).push(c) + cur.skip(k);
    let m2 = m.insert_char(c);
    assert(m2.cur() == l2);
    lemma_offset_prefix(cur.take(k).push(c), cur.skip(k), k);
    assert(cur.take(k).push(c).take(k) =~= cur.take(k));
    lemma_char_index(l2, k);
    lemma_edit_len(cur, k, c);
    assert(l2.take(k) + l2.skip(k + 1) =~= cur);
    assert(m2.delete_char().lines =~= m.lines);
    lemma_offset_full(l2);
    crate::text::lemma_offset_mono(l2, k + 1, l2.len() as int);
    crate::text::lemma_offset_step(l2, k);
}

/// Breaking a line at the cursor and then pressing backspace leaves the
/// buffer as it was.
pub proof fn law_split_then_delete(m: BufferModel)
    requires
        m.wf(),
        m.at_boundary(),
    ensures
        m.split_line().wf(),
        m.split_line().can_delete_char(),
        m.split_line().delete_char() == m,
        m.split_line().join_line() == m,
{
    let cur = m.cur();
    let k = char_index(cur, m.x as int);
    let m2 = m.split_line();
    lemma_edit_len(cur, k, ' ');
    assert(m2.lines[m.y as int] == cur.take(k));
    assert(m2.lines[m.y + 1 as int] == cur.skip(k));
    assert(cur.take(k) + cur.skip(k) =~= cur);
    assert(merge_lines(m2.lines, m.y as int) =~= m.lines);
}

/// Moving right and then left returns to the same place, except at the
/// very end of the buffer, where moving right does nothing.
pub proof fn law_right_then_left(m: BufferModel)
    requires
        m.wf(),
        !(m.y + 1 == m.lines.len() && m.x == m.cur_len()),
    ensures
        m.move_right().move_left() == m,
{
}

/// Moving left and then right returns to the same place, except at the
/// very start of the buffer, where moving left does nothing.
pub proof fn law_left_then_right(m: BufferModel)
    requires
        m.wf(),
        !(m.y == 0 && m.x == 0),
    ensures
        m.move_left().move_right() == m,
{
}

/// Up from any row but the first lands on the row above; the column is
/// kept where that row is long enough and goes to its end otherwise, and
/// the lines stay as they are.
pub proof fn law_move_up(m: BufferModel)
    requires
        m.wf(),
        m.y > 0,
    ensures
        m.move_up().y == m.y - 1,
        m.move_up().lines == m.lines,
        m.move_up().x == (if m.x <= byte_len(m.lines[m.y - 1]) {
            m.x
        } else {
            byte_len(m.lines[m.y - 1])
        }),
        m.move_up().wf(),
{
}

/// Down from any row but the last lands on the row below, the column kept
/// where that row is long enough and at its end otherwise.
pub proof fn law_move_down(m: BufferModel)
    requires
        m.wf(),
        m.y + 1 < m.lines.len(),
    ensures
        m.move_down().y == m.y + 1,
        m.move_down().lines == m.lines,
        m.move_down().x == (if m.x <= byte_len(m.lines[m.y + 1 as int]) {
            m.x
        } else {
            byte_len(m.lines[m.y + 1 as int])
        }),
        m.move_down().wf(),
{
}

/// Down and then up from any row but the last comes back to the same row.
pub proof fn law_down_then_up(m: BufferModel)
    requires
        m.wf(),
        m.y + 1 < m.lines.len(),
    ensures
        m.move_down().move_up().y == m.y,
        m.move_down().move_up().lines == m.lines,
{
}

/// Delete before the end of the line removes exactly the character that
/// starts at the cursor: that line loses it and nothing else, every other
/// line stays, and so do the number of lines and the cursor.
pub proof fn law_delete_forward_in_line(m: BufferModel)
    requires
        m.wf(),
        m.x < byte_len(m.cur()),
        m.can_delete_forward(),
    ensures
        m.delete_forward().lines.len() == m.lines.len(),
        m.delete_forward().x == m.x,
        m.delete_forward().y == m.y,
        forall|i: int| 0 <= i < m.lines.len() && i != m.y ==> #[trigger] m.delete_forward().lines[i]
            == m.lines[i],
        0 <= char_index(m.cur(), m.x as int) < m.cur().len(),
        m.delete_forward().lines[m.y as int] == m.cur().take(char_index(m.cur(), m.x as int))
            + m.cur().skip(char_index(m.cur(), m.x as int) + 1),
        byte_len(m.delete_forward().lines[m.y as int]) + char_width(
            m.cur()[char_index(m.cur(), m.x as int)],
        ) == byte_len(m.cur()),
        m.delete_forward().wf(),
{
    let cur = m.cur();
    let k = char_index(cur, m.x as int);
    crate::text::lemma_boundary_index(cur, m.x as int);
    lemma_offset_full(cur);
    if k == cur.len() {
        assert(false);
    }
    crate::text::lemma_offset_step(cur, k);
    assert(cur =~= cur.take(k) + (seq![cur[k]] + cur.skip(k + 1)));
    lemma_byte_len_concat(cur.take(k), seq![cur[k]] + cur.skip(k + 1));
    lemma_byte_len_concat(seq![cur[k]], cur.skip(k + 1));
    lemma_byte_len_single(cur[k]);
    lemma_byte_len_concat(cur.take(k), cur.skip(k + 1));
    assert(crate::text::byte_offset(cur, k) == byte_len(cur.take(k)));
}

/// Delete at the end of a line that has one below joins that line onto it:
/// one line fewer, the joined line is the two one after the other, and the
/// cursor stays.
pub proof fn law_delete_forward_at_end(m: BufferModel)
    requires
        m.wf(),
        m.x == byte_len(m.cur()),
        m.y + 1 < m.lines.len(),
    ensures
        m.delete_forward().lines.len() + 1 == m.lines.len(),
        m.delete_forward().lines[m.y as int] == m.lines[m.y as int] + m.lines[m.y + 1 as int],
        forall|i: int| 0 <= i < m.y ==> #[trigger] m.delete_forward().lines[i] == m.lines[i],
        forall|i: int| m.y < i < m.delete_forward().lines.len() ==> #[trigger] m.delete_forward().lines[i]
            == m.lines[i + 1],
        m.delete_forward().x == m.x && m.delete_forward().y == m.y,
{
}

/// Delete on the last character position of the buffer does nothing.
pub proof fn law_delete_forward_at_buffer_end(m: BufferModel)
    requires
        m.wf(),
        m.x == byte_len(m.cur()),
        m.y + 1 == m.lines.len(),
    ensures
        m.delete_forward() == m,
{
}

/// No `\r\n` in `t`.
pub open spec fn no_crlf(t: Seq<char>) -> bool {
    forall|j: int| 0 <= j < t.len() - 1 ==> !(#[trigger] t[j] == '\r' && t[j + 1] == '\n')
}

proof fn lemma_last_piece(s: Seq<char>)
    ensures
        split_newlines(s).len() >= 1,
        split_newlines(s).last().len() > 0 ==> s.len() > 0 && split_newlines(s).last().last() == s.last(),
        split_newlines(s).last().len() == 0 ==> s.len() == 0 || s.last() == '\n',
    decreases s.len(),
{
    crate::text::lemma_split_newlines_len(s);
    if s.len() > 0 {
        lemma_last_piece(s.drop_last());
    }
}

proof fn lemma_pieces_no_cr(t: Seq<char>)
    requires
        no_crlf(t),
    ensures
        forall|i: int|
            0 <= i < split_newlines(t).len() - 1 ==> #[trigger] strip_cr(split_newlines(t)[i])
                == split_newlines(t)[i],
    decreases t.len(),
{
    lemma_last_piece(t);
    if t.len() > 0 {
        let s = t.drop_last();
        assert(no_crlf(s)) by {
            assert forall|j: int| 0 <= j < s.len() - 1 implies !(#[trigger] s[j] == '\r' && s[j + 1]
                == '\n') by {
                assert(s[j] == t[j] && s[j + 1] == t[j + 1]);
            }
        }
        lemma_pieces_no_cr(s);
        lemma_last_piece(s);
        let p = split_newlines(s);
        if t.last() == '\n' {
            assert forall|i: int| 0 <= i < split_newlines(t).len() - 1 implies #[trigger] strip_cr(
                split_newlines(t)[i],
            ) == split_newlines(t)[i] by {
                assert(split_newlines(t)[i] == p[i]);
                if i == p.len() - 1 && p[i].len() > 0 {
                    assert(t[t.len() - 2] == s.last());
                }
            }
        } else {
            assert forall|i: int| 0 <= i < split_newlines(t).len() - 1 implies #[trigger] strip_cr(
                split_newlines(t)[i],
            ) == split_newlines(t)[i] by {
                assert(split_newlines(t)[i] == p[i]);
            }
        }
    }
}

/// Opening a text and writing it back out gives the same text, provided it
/// uses bare `\n` line endings and does not end in one.
pub proof fn law_text_roundtrip(t: Seq<char>)
    requires
        no_crlf(t),
        t.len() == 0 || t.last() != '\n',
    ensures
        join_lines(lines_of_text(t)) == t,
{
    let p = split_newlines(t);
    lemma_last_piece(t);
    lemma_pieces_no_cr(t);
    crate::text::lemma_join_split(t);
    if t.len() == 0 {
        assert(p.drop_last() =~= Seq::<Seq<char>>::empty());
        assert(text_lines(t) =~= Seq::<Seq<char>>::empty());
    } else {
        assert(p.drop_last().map_values(|l: Seq<char>| strip_cr(l)) =~= p.drop_last());
        assert(text_lines(t) =~= p);
    }
}

/// Writing a buffer's lines out and opening the text again gives the same
/// lines, provided no line holds a newline, none but the last ends in `\r`,
/// and the last is not empty unless it is the only one.
pub proof fn law_lines_roundtrip(ls: Seq<Seq<char>>)
    requires
        ls.len() >= 1,
        forall|i: int, j: int| 0 <= i < ls.len() && 0 <= j < ls[i].len() ==> #[trigger] ls[i][j] != '\n',
        forall|i: int| 0 <= i < ls.len() - 1 ==> #[trigger] strip_cr(ls[i]) == ls[i],
        ls.last().len() > 0 || ls.len() == 1,
    ensures
        lines_of_text(join_lines(ls)) == ls,
{
    crate::text::lemma_split_join(ls);
    let t = join_lines(ls);
    if ls.last().len() > 0 {
        assert(ls.drop_last().map_values(|l: Seq<char>| strip_cr(l)) =~= ls.drop_last());
        assert(text_lines(t) =~= ls);
    } else {
        assert(ls.drop_last() =~= Seq::<Seq<char>>::empty());
        assert(text_lines(t) =~= Seq::<Seq<char>>::empty());
        assert(ls =~= seq![Seq::<char>::empty()]);
    }
}

/// After inserting a one-byte character the cursor still starts a character.
pub proof fn lemma_insert_keeps_boundary(m: BufferModel, c: char)
    requires
        m.wf(),
        m.at_boundary(),
        char_width(c) == 1,
    ensures
        m.insert_char(c).wf(),
        m.insert_char(c).at_boundary(),
{
    let cur = m.cur();
    let k = char_index(cur, m.x as int);
    let l2 = cur.take(k).push(c) + cur.skip(k);
    lemma_offset_prefix(cur.take(k).push(c), cur.skip(k), k + 1);
    assert(cur.take(k).push(c).take(k + 1) =~= cur.take(k).push(c));
    assert(cur.take(k).push(c).take(k) =~= cur.take(k));
    crate::text::lemma_offset_step(cur.take(k).push(c), k);
    lemma_char_index(l2, k + 1);
    lemma_edit_len(cur, k, c);
}

} // verus!

//! What the screens show, as text: the rows of the lists, the lines of the
//! editor panel, the titles and the cursor column. Drawing it is left to
//! the terminal front end.
use vstd::prelude::*;
use crate::app::PromptState;
use crate::editor::Editor;
use crate::editor::buffer::Buffer;
use crate::models::{label_of, ContentType, EntryInfo};
use crate::text::{
    boundary_index, byte_len, char_index, decimal, decimal_string, is_boundary, push_char,
    str_byte_len, substring,
};

verus! {

/// Display width in columns of a text, as `unicode_width`'s
/// `UnicodeWidthStr::width` measures it.
pub uninterp spec fn display_width(s: Seq<char>) -> nat;

/// Measures a text with `unicode_width`. The contract names the result; it
/// does not restate the Unicode width tables.
#[verifier::external_body]
fn str_width(s: &str) -> (w: usize)
    ensures
        w == display_width(s@),
{
    unicode_width::UnicodeWidthStr::width(s)
}

/// The column of the editor's cursor on screen: the width of the line
/// before it.
pub open spec fn visible_cursor_x(e: Editor) -> nat {
    let line = e.buffer@.cur();
    let b = if e.buffer.cursor_x <= byte_len(line) { e.buffer.cursor_x as int } else { byte_len(line) as int };
    display_width(line.take(char_index(line, b)))
}

/// The cut of the line before the cursor must fall between characters.
pub open spec fn cursor_x_ok(e: Editor) -> bool {
    let line = e.buffer@.cur();
    is_boundary(line, if e.buffer.cursor_x <= byte_len(line) { e.buffer.cursor_x as int } else { byte_len(line) as int })
}


/// Whether the editor's cursor column can be measured (see `cursor_x_ok`).
pub fn check_cursor_x(editor: &Editor) -> (r: bool)
    ensures
        r == cursor_x_ok(*editor),
{
    let line = editor.buffer.current_line();
    let len = str_byte_len(line);
    let b = if editor.buffer.cursor_x < len {
        editor.buffer.cursor_x
    } else {
        len
    };
    boundary_index(line, b).is_some()
}

/// The screen column of the editor's cursor.
pub fn editor_visible_cursor_x(editor: &Editor) -> (r: usize)
    requires
        cursor_x_ok(*editor),
    ensures
        r == visible_cursor_x(*editor),
{
    let line = editor.buffer.current_line();
    let len = str_byte_len(line);
    let b = if editor.buffer.cursor_x < len {
        editor.buffer.cursor_x
    } else {
        len
    };
    let k = match boundary_index(line, b) {
        Some(k) => k,
        None => 0,
    };
    let before = substring(line, 0, k);
    proof {
        assert(line@.subrange(0, k as int) =~= line@.take(k as int));
    }
    str_width(before.as_str())
}

/// `n` spaces.
pub open spec fn spaces(n: nat) -> Seq<char> {
    Seq::new(n, |i: int| ' ')
}

fn push_spaces(out: &mut String, n: usize)
    ensures
        final(out)@ == old(out)@ + spaces(n as nat),
{
    let mut i: usize = 0;
    while i < n
        invariant
            i <= n,
            out@ == old(out)@ + spaces(i as nat),
        decreases n - i,
    {
        push_char(out, ' ');
        proof {
            assert(out@ =~= old(out)@ + spaces(i as nat + 1));
        }
        i += 1;
    }
}

/// `s` right-aligned in three columns, as `{:>3}` writes it.
pub open spec fn pad3(s: Seq<char>) -> Seq<char> {
    if s.len() >= 3 {
        s
    } else {
        spaces((3 - s.len()) as nat) + s
    }
}

/// One line of the editor panel: a marker on the cursor row, the line
/// number, and the line.
pub open spec fn editor_row(i: nat, cursor_y: nat, line: Seq<char>) -> Seq<char> {
    (if i == cursor_y { ">"@ } else { " "@ }) + pad3(decimal(i + 1)) + " "@ + line + "\n"@
}

/// The editor panel rows `from` up to `to`.
pub open spec fn editor_rows(lines: Seq<Seq<char>>, cursor_y: nat, from: nat, to: nat) -> Seq<char>
    decreases to,
{
    if to <= from {
        Seq::empty()
    } else {
        editor_rows(lines, cursor_y, from, (to - 1) as nat) + editor_row(
            (to - 1) as nat,
            cursor_y,
            lines[to - 1],
        )
    }
}

fn editor_row_text(i: usize, cursor_y: usize, line: &str) -> (r: String)
    requires
        i < usize::MAX,
    ensures
        r@ == editor_row(i as nat, cursor_y as nat, line@),
{
    let marker = if i == cursor_y {
        ">"
    } else {
        " "
    };
    let mut out = String::from_str(marker);
    let num = decimal_string(i + 1);
    let n = num.unicode_len();
    if n < 3 {
        push_spaces(&mut out, 3 - n);
    }
    out.append(num.as_str());
    out.append(" ");
    out.append(line);
    out.append("\n");
    proof {
        assert(out@ =~= editor_row(i as nat, cursor_y as nat, line@));
    }
    out
}

/// The text of the editor panel for the rows `from` up to `to`, cut at the
/// last line.
pub fn editor_panel_text(buffer: &Buffer, from: usize, to: usize) -> (r: String)
    ensures
        r@ == editor_rows(
            buffer@.lines,
            buffer.cursor_y as nat,
            from as nat,
            if to < buffer.lines.len() { to as nat } else { buffer.lines.len() as nat },
        ),
{
    let end = if to < buffer.lines.len() {
        to
    } else {
        buffer.lines.len()
    };
    let mut out = String::new();
    let mut i: usize = from;
    proof {
        buffer.lemma_view_lines();
    }
    if from >= end {
        return out;
    }
    while i < end
        invariant
            from <= i <= end <= buffer.lines.len(),
            buffer@.lines.len() == buffer.lines.len(),
            forall|j: int| 0 <= j < buffer.lines.len() ==> #[trigger] buffer@.lines[j] == buffer.lines[j]@,
            out@ == editor_rows(buffer@.lines, buffer.cursor_y as nat, from as nat, i as nat),
        decreases end - i,
    {
        let row = editor_row_text(i, buffer.cursor_y, buffer.lines[i].as_str());
        out.append(row.as_str());
        proof {
            assert(out@ =~= editor_rows(buffer@.lines, buffer.cursor_y as nat, from as nat, i as nat + 1));
        }
        i += 1;
    }
    out
}

/// An entry title cut to `col` bytes with an ellipsis when it is longer.
pub open spec fn truncated_title(t: Seq<char>, col: nat) -> Seq<char> {
    if byte_len(t) > col {
        t.take(char_index(t, col as int)) + "…"@
    } else {
        t
    }
}

/// A date cut to its first ten bytes.
pub open spec fn short_date(d: Seq<char>) -> Seq<char> {
    if byte_len(d) > 10 {
        d.take(char_index(d, 10))
    } else {
        d
    }
}

/// One row of the dashboard list: the title padded to the column, a bar,
/// and the date.
pub open spec fn dashboard_row(title: Seq<char>, date: Seq<char>, col: nat) -> Seq<char> {
    let t = truncated_title(title, col);
    let pad: nat = if col > byte_len(t) { (col - byte_len(t)) as nat } else { 0 };
    " "@ + t + spaces(pad + 2) + "│ "@ + short_date(date) + "\n"@
}

pub open spec fn dashboard_rows_of(entries: Seq<EntryInfo>, col: nat, n: nat) -> Seq<char>
    decreases n,
{
    if n == 0 || n > entries.len() {
        Seq::empty()
    } else {
        dashboard_rows_of(entries, col, (n - 1) as nat) + dashboard_row(
            entries[n - 1].title@,
            entries[n - 1].date@,
            col,
        )
    }
}

/// The cuts of the shown rows fall between characters.
pub open spec fn dashboard_rows_ok(entries: Seq<EntryInfo>, max_rows: nat, col: nat) -> bool {
    forall|i: int|
        0 <= i < entries.len() && i < max_rows ==> (byte_len(#[trigger] entries[i].title@) > col
            ==> is_boundary(entries[i].title@, col as int)) && (byte_len(entries[i].date@) > 10
            ==> is_boundary(entries[i].date@, 10))
}

/// Whether the rows can be cut as `dashboard_rows` cuts them.
pub fn check_dashboard_rows(entries: &[EntryInfo], max_rows: usize, title_col: usize) -> (r: bool)
    ensures
        r == dashboard_rows_ok(entries@, max_rows as nat, title_col as nat),
{
    let mut i: usize = 0;
    while i < entries.len() && i < max_rows
        invariant
            i <= entries.len(),
            forall|j: int|
                0 <= j < i ==> (byte_len(#[trigger] entries@[j].title@) > title_col ==> is_boundary(
                    entries@[j].title@,
                    title_col as int,
                )) && (byte_len(entries@[j].date@) > 10 ==> is_boundary(entries@[j].date@, 10)),
        decreases entries.len() - i,
    {
        let t = entries[i].title.as_str();
        if str_byte_len(t) > title_col && boundary_index(t, title_col).is_none() {
            return false;
        }
        let d = entries[i].date.as_str();
        if str_byte_len(d) > 10 && boundary_index(d, 10).is_none() {
            return false;
        }
        i += 1;
    }
    true
}

fn dashboard_row_text(t: &str, d: &str, title_col: usize) -> (r: String)
    requires
        byte_len(t@) > title_col ==> is_boundary(t@, title_col as int),
        byte_len(d@) > 10 ==> is_boundary(d@, 10),
        title_col <= 0xFFFF,
    ensures
        r@ == dashboard_row(t@, d@, title_col as nat),
{
    let title = if str_byte_len(t) > title_col {
        let k = match boundary_index(t, title_col) {
            Some(k) => k,
            None => 0,
        };
        let mut cut = substring(t, 0, k);
        proof {
            assert(t@.subrange(0, k as int) =~= t@.take(k as int));
        }
        cut.append("…");
        cut
    } else {
        String::from_str(t)
    };
    let date = if str_byte_len(d) > 10 {
        let k = match boundary_index(d, 10) {
            Some(k) => k,
            None => 0,
        };
        proof {
            assert(d@.subrange(0, k as int) =~= d@.take(k as int));
        }
        substring(d, 0, k)
    } else {
        String::from_str(d)
    };
    let tl = str_byte_len(title.as_str());
    let pad = if title_col > tl {
        title_col - tl
    } else {
        0
    };
    let mut out = String::from_str(" ");
    out.append(title.as_str());
    push_spaces(&mut out, pad + 2);
    out.append("│ ");
    out.append(date.as_str());
    out.append("\n");
    out
}

/// The dashboard's list of entries: one row for each of the first
/// `max_rows`, titles cut to `title_col` bytes.
pub fn dashboard_rows(entries: &[EntryInfo], max_rows: usize, title_col: usize) -> (r: String)
    requires
        dashboard_rows_ok(entries@, max_rows as nat, title_col as nat),
        title_col <= 0xFFFF,
    ensures
        r@ == dashboard_rows_of(
            entries@,
            title_col as nat,
            if max_rows < entries@.len() { max_rows as nat } else { entries@.len() },
        ),
{
    let mut out = String::new();
    let mut i: usize = 0;
    while i < entries.len() && i < max_rows
        invariant
            i <= entries.len(),
            i <= max_rows,
            dashboard_rows_ok(entries@, max_rows as nat, title_col as nat),
            title_col <= 0xFFFF,
            out@ == dashboard_rows_of(entries@, title_col as nat, i as nat),
        decreases entries.len() - i,
    {
        let row = dashboard_row_text(entries[i].title.as_str(), entries[i].date.as_str(), title_col);
        out.append(row.as_str());
        proof {
            assert(out@ =~= dashboard_rows_of(entries@, title_col as nat, i as nat + 1));
        }
        i += 1;
    }
    out
}

/// One row of the browser list, marked when the cursor is on it.
pub open spec fn browser_row(title: Seq<char>, marked: bool) -> Seq<char> {
    (if marked { " ▸ "@ } else { "   "@ }) + title + "\n"@
}

pub open spec fn browser_rows(entries: Seq<EntryInfo>, cursor: nat, n: nat) -> Seq<char>
    decreases n,
{
    if n == 0 || n > entries.len() {
        Seq::empty()
    } else {
        browser_rows(entries, cursor, (n - 1) as nat) + browser_row(
            entries[n - 1].title@,
            n - 1 == cursor,
        )
    }
}

/// The browser's list: every entry's title, then the row for a new entry.
pub fn browser_text(entries: &[EntryInfo], cursor: usize) -> (r: String)
    ensures
        r@ == browser_rows(entries@, cursor as nat, entries@.len()) + "  [ N ] NEW ENTRY\n"@,
{
    let mut out = String::new();
    let mut i: usize = 0;
    while i < entries.len()
        invariant
            i <= entries.len(),
            out@ == browser_rows(entries@, cursor as nat, i as nat),
        decreases entries.len() - i,
    {
        let prefix = if i == cursor {
            " ▸ "
        } else {
            "   "
        };
        out.append(prefix);
        out.append(entries[i].title.as_str());
        out.append("\n");
        proof {
            assert(out@ =~= browser_rows(entries@, cursor as nat, i as nat + 1));
        }
        i += 1;
    }
    out.append("  [ N ] NEW ENTRY\n");
    out
}

/// The browser's title.
pub fn browser_title(content_type: &ContentType) -> (r: String)
    ensures
        r@ == " "@ + label_of(*content_type) + " ENTRIES "@,
{
    let mut out = String::from_str(" ");
    out.append(content_type.label());
    out.append(" ENTRIES ");
    out
}

/// The title of the dashboard's list: the label and how many entries.
pub fn dashboard_panel_title(content_type: &ContentType, count: usize) -> (r: String)
    ensures
        r@ == " "@ + label_of(*content_type) + " ("@ + decimal(count as nat) + ") "@,
{
    let mut out = String::from_str(" ");
    out.append(content_type.label());
    out.append(" (");
    let n = decimal_string(count);
    out.append(n.as_str());
    out.append(") ");
    out
}

/// The dashboard's footer with its key hints.
pub fn dashboard_footer(content_type: &ContentType) -> (r: String)
    ensures
        r@ == " ↑↓ select  ·  Enter browse  ·  n new  ·  Esc back  ·  q exit  ·  Ctrl+s save  ·│  "@
            + label_of(*content_type) + " "@,
{
    let mut out = String::from_str(
        " ↑↓ select  ·  Enter browse  ·  n new  ·  Esc back  ·  q exit  ·  Ctrl+s save  ·│  ",
    );
    out.append(content_type.label());
    out.append(" ");
    out
}

/// The editor panel's title: the slug, and a dot when there are unsaved changes.
pub fn editor_title(editor: &Editor) -> (r: String)
    ensures
        r@ == " "@ + editor.slug@ + " "@ + if editor.dirty { " ●"@ } else { ""@ },
{
    let mut out = String::from_str(" ");
    out.append(editor.slug.as_str());
    out.append(" ");
    if editor.dirty {
        out.append(" ●");
    } else {
        out.append("");
    }
    out
}

/// The cursor position as the editor panel shows it, counting from one.
pub fn position_label(buffer: &Buffer) -> (r: String)
    requires
        buffer.cursor_y < usize::MAX,
        buffer.cursor_x < usize::MAX,
    ensures
        r@ == " Ln "@ + decimal((buffer.cursor_y + 1) as nat) + " Col "@ + decimal((buffer.cursor_x + 1) as nat)
            + " "@,
{
    let mut out = String::from_str(" Ln ");
    let y = decimal_string(buffer.cursor_y + 1);
    out.append(y.as_str());
    out.append(" Col ");
    let x = decimal_string(buffer.cursor_x + 1);
    out.append(x.as_str());
    out.append(" ");
    out
}

/// The prompt's input line: its label and the answer so far.
pub fn prompt_text(prompt: &PromptState) -> (r: String)
    ensures
        r@ == " "@ + prompt.label@ + " "@ + prompt.value@,
{
    let mut out = String::from_str(" ");
    out.append(prompt.label.as_str());
    out.append(" ");
    out.append(prompt.value.as_str());
    out
}

/// `a - b`, or zero when `b` is larger.
pub open spec fn sat_sub(a: int, b: int) -> int {
    if a >= b {
        a - b
    } else {
        0
    }
}

/// The prompt's popup in an area `width` columns wide and `height` rows
/// high, as (x, y, width, height): five rows, fifty columns or four fewer
/// than the area if that is less, centred.
pub fn prompt_popup(width: u16, height: u16) -> (r: (u16, u16, u16, u16))
    requires
        height >= 5,
    ensures
        r.2 == (if sat_sub(width as int, 4) < 50 { sat_sub(width as int, 4) } else { 50 }),
        r.3 == 5,
        r.0 == (width - r.2) / 2,
        r.1 == (height - 5) / 2,
{
    let avail = if width >= 4 {
        width - 4
    } else {
        0
    };
    let w = if avail < 50 {
        avail
    } else {
        50
    };
    ((width - w) / 2, (height - 5) / 2, w, 5)
}

/// The column of the prompt's cursor in its input line, when the line
/// (a space, the label, a space and the answer) fits in a popup
/// `popup_width` wide with a column of border on each side: past the
/// first space, the label and the second space, the cursor's byte offset.
pub fn prompt_cursor_column(prompt: &PromptState, popup_width: u16) -> (r: Option<u16>)
    requires
        prompt.cursor <= byte_len(prompt.value@),
    ensures
        match r {
            Some(c) => 2 + byte_len(prompt.label@) + byte_len(prompt.value@) < sat_sub(popup_width as int, 2)
                && c == 2 + byte_len(prompt.label@) + prompt.cursor,
            None => !(2 + byte_len(prompt.label@) + byte_len(prompt.value@) < sat_sub(popup_width as int, 2)),
        },
{
    let avail: usize = if popup_width >= 2 {
        (popup_width - 2) as usize
    } else {
        0
    };
    let label_len = str_byte_len(prompt.label.as_str());
    let value_len = str_byte_len(prompt.value.as_str());
    if label_len >= avail || value_len >= avail || 2 + label_len + value_len >= avail {
        return None;
    }
    let c = 2 + label_len + prompt.cursor;
    Some(c as u16)
}

} // verus!

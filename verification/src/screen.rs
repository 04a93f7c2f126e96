//! A terminal screen kept as a grid of characters and their colours, and
//! the ANSI text that shows it in a browser terminal. The drawing library
//! hands it cells; what it writes is collected until taken.
use vstd::prelude::*;
use crate::text::{decimal, decimal_string, push_char};

verus! {

/// A foreground colour as a terminal style names it.
#[derive(Debug, Clone, Copy, PartialEq, Eq, Structural)]
pub enum Color {
    Reset,
    Black,
    Red,
    Green,
    Yellow,
    Blue,
    Magenta,
    Cyan,
    Gray,
    DarkGray,
    LightRed,
    LightGreen,
    LightYellow,
    LightBlue,
    LightMagenta,
    LightCyan,
    White,
    Rgb(u8, u8, u8),
    Indexed(u8),
}

/// The escape sequence that selects a colour; colours without one of the
/// sixteen codes get the default colour.
pub open spec fn ansi_color(c: Color) -> Seq<char> {
    match c {
        Color::Reset => "\x1b[39m"@,
        Color::Black => "\x1b[30m"@,
        Color::Red => "\x1b[31m"@,
        Color::Green => "\x1b[32m"@,
        Color::Yellow => "\x1b[33m"@,
        Color::Blue => "\x1b[34m"@,
        Color::Magenta => "\x1b[35m"@,
        Color::Cyan => "\x1b[36m"@,
        Color::White => "\x1b[37m"@,
        Color::DarkGray => "\x1b[90m"@,
        Color::LightRed => "\x1b[91m"@,
        Color::LightGreen => "\x1b[92m"@,
        Color::LightYellow => "\x1b[93m"@,
        Color::LightBlue => "\x1b[94m"@,
        Color::LightMagenta => "\x1b[95m"@,
        Color::LightCyan => "\x1b[96m"@,
        _ => "\x1b[39m"@,
    }
}

/// The escape sequence that selects `color`.
pub fn color_to_ansi(color: Color) -> (r: &'static str)
    ensures
        r@ == ansi_color(color),
{
    match color {
        Color::Reset => "\x1b[39m",
        Color::Black => "\x1b[30m",
        Color::Red => "\x1b[31m",
        Color::Green => "\x1b[32m",
        Color::Yellow => "\x1b[33m",
        Color::Blue => "\x1b[34m",
        Color::Magenta => "\x1b[35m",
        Color::Cyan => "\x1b[36m",
        Color::White => "\x1b[37m",
        Color::DarkGray => "\x1b[90m",
        Color::LightRed => "\x1b[91m",
        Color::LightGreen => "\x1b[92m",
        Color::LightYellow => "\x1b[93m",
        Color::LightBlue => "\x1b[94m",
        Color::LightMagenta => "\x1b[95m",
        Color::LightCyan => "\x1b[96m",
        _ => "\x1b[39m",
    }
}

/// A cell the drawing library hands over: its column and row, the symbol
/// drawn there and its foreground colour, if it has one.
pub struct DrawnCell {
    pub x: u16,
    pub y: u16,
    pub symbol: String,
    pub fg: Option<Color>,
}

/// The screen as mathematical values.
pub struct ScreenModel {
    pub cols: nat,
    pub rows: nat,
    pub output: Seq<char>,
    pub cursor_x: nat,
    pub cursor_y: nat,
    pub cursor_visible: bool,
    pub grid: Seq<Seq<(char, Color)>>,
    pub initialized: bool,
}

impl ScreenModel {
    /// The grid has a row for each screen row and a cell for each column.
    pub open spec fn wf(self) -> bool {
        &&& self.grid.len() == self.rows
        &&& forall|y: int| 0 <= y < self.grid.len() ==> #[trigger] self.grid[y].len() == self.cols
    }
}

/// A grid of blank cells in the default colour.
pub open spec fn blank_grid(cols: nat, rows: nat) -> Seq<Seq<(char, Color)>> {
    Seq::new(rows, |y: int| Seq::new(cols, |x: int| (' ', Color::Reset)))
}

/// A grid of new size keeping the cells the old one had there.
pub open spec fn resized(g: Seq<Seq<(char, Color)>>, cols: nat, rows: nat) -> Seq<Seq<(char, Color)>> {
    Seq::new(
        rows,
        |y: int|
            Seq::new(
                cols,
                |x: int|
                    if y < g.len() && x < g[y].len() {
                        g[y][x]
                    } else {
                        (' ', Color::Reset)
                    },
            ),
    )
}

/// One cell as text: its colour, its character, and the reset.
pub open spec fn cell_text(cell: (char, Color)) -> Seq<char> {
    ansi_color(cell.1) + seq![cell.0] + "\x1b[0m"@
}

/// The first `n` cells of a row as text.
pub open spec fn row_text(row: Seq<(char, Color)>, n: nat) -> Seq<char>
    decreases n,
{
    if n == 0 {
        Seq::empty()
    } else {
        row_text(row, (n - 1) as nat) + cell_text(row[n - 1])
    }
}

/// The first `n` rows as text, `\r\n` between rows.
pub open spec fn rows_text(g: Seq<Seq<(char, Color)>>, cols: nat, n: nat) -> Seq<char>
    decreases n,
{
    if n == 0 {
        Seq::empty()
    } else if n == 1 {
        row_text(g[0], cols)
    } else {
        rows_text(g, cols, (n - 1) as nat) + "\r\n"@ + row_text(g[n - 1], cols)
    }
}

/// The whole screen as text: clear and home, then every row.
pub open spec fn screen_text(g: Seq<Seq<(char, Color)>>, cols: nat, rows: nat) -> Seq<char> {
    "\x1b[2J\x1b[H"@ + rows_text(g, cols, rows)
}

/// The sequence that moves the cursor to column `x`, row `y`, counted
/// from zero.
pub open spec fn cursor_text(x: nat, y: nat) -> Seq<char> {
    "\x1b["@ + decimal(y + 1) + ";"@ + decimal(x + 1) + "H"@
}

/// The cell a drawn symbol makes: its first character, or a space for an
/// empty symbol, in its colour or the default one.
pub open spec fn cell_of(symbol: Seq<char>, fg: Option<Color>) -> (char, Color) {
    (
        if symbol.len() > 0 {
            symbol[0]
        } else {
            ' '
        },
        match fg {
            Some(c) => c,
            None => Color::Reset,
        },
    )
}

/// The grid after drawing one cell, and whether the cell changed; cells
/// off the screen are left out.
pub open spec fn draw_cell(g: Seq<Seq<(char, Color)>>, cols: nat, rows: nat, d: DrawnCell) -> (
    Seq<Seq<(char, Color)>>,
    bool,
) {
    let cell = cell_of(d.symbol@, d.fg);
    if d.x < cols && d.y < rows && g[d.y as int][d.x as int] != cell {
        (g.update(d.y as int, g[d.y as int].update(d.x as int, cell)), true)
    } else {
        (g, false)
    }
}

/// The grid after drawing cells in order, and whether any of them changed it.
pub open spec fn draw_cells(g: Seq<Seq<(char, Color)>>, cols: nat, rows: nat, ds: Seq<DrawnCell>) -> (
    Seq<Seq<(char, Color)>>,
    bool,
)
    decreases ds.len(),
{
    if ds.len() == 0 {
        (g, false)
    } else {
        let before = draw_cells(g, cols, rows, ds.drop_last());
        let after = draw_cell(before.0, cols, rows, ds.last());
        (after.0, before.1 || after.1)
    }
}

/// Drawing cells the screen already shows changes nothing, so a screen
/// drawn before writes nothing for them.
pub proof fn law_redraw_unchanged(g: Seq<Seq<(char, Color)>>, cols: nat, rows: nat, ds: Seq<DrawnCell>)
    requires
        forall|i: int|
            0 <= i < ds.len() && ds[i].x < cols && ds[i].y < rows ==> g[ds[i].y as int][ds[i].x as int]
                == cell_of(#[trigger] ds[i].symbol@, ds[i].fg),
    ensures
        draw_cells(g, cols, rows, ds) == (g, false),
    decreases ds.len(),
{
    if ds.len() > 0 {
        let init = ds.drop_last();
        assert forall|i: int|
            0 <= i < init.len() && init[i].x < cols && init[i].y < rows implies g[init[i].y as int][init[i].x as int]
                == cell_of(#[trigger] init[i].symbol@, init[i].fg) by {
            assert(init[i] == ds[i]);
        }
        law_redraw_unchanged(g, cols, rows, init);
        let d = ds.last();
        assert(ds[ds.len() - 1] == d);
    }
}

/// A screen that writes ANSI text.
pub struct AnsiScreen {
    cols: u16,
    rows: u16,
    output: String,
    cursor_x: u16,
    cursor_y: u16,
    cursor_visible: bool,
    grid: Vec<Vec<(char, Color)>>,
    initialized: bool,
}

impl View for AnsiScreen {
    type V = ScreenModel;

    closed spec fn view(&self) -> ScreenModel {
        ScreenModel {
            cols: self.cols as nat,
            rows: self.rows as nat,
            output: self.output@,
            cursor_x: self.cursor_x as nat,
            cursor_y: self.cursor_y as nat,
            cursor_visible: self.cursor_visible,
            grid: self.grid@.map_values(|r: Vec<(char, Color)>| r@),
            initialized: self.initialized,
        }
    }
}

/// A row of `cols` blank cells.
fn blank_row(cols: u16) -> (r: Vec<(char, Color)>)
    ensures
        r@ == blank_grid(cols as nat, 1)[0],
{
    let mut r: Vec<(char, Color)> = Vec::new();
    let mut x: u16 = 0;
    while x < cols
        invariant
            x <= cols,
            r@ == Seq::new(x as nat, |i: int| (' ', Color::Reset)),
        decreases cols - x,
    {
        r.push((' ', Color::Reset));
        proof {
            assert(r@ =~= Seq::new(x as nat + 1, |i: int| (' ', Color::Reset)));
        }
        x += 1;
    }
    proof {
        assert(r@ =~= blank_grid(cols as nat, 1)[0]);
    }
    r
}

impl AnsiScreen {
    /// A blank screen of `cols` columns and `rows` rows, with nothing written yet.
    pub fn new(cols: u16, rows: u16) -> (s: Self)
        ensures
            s@ == (ScreenModel {
                cols: cols as nat,
                rows: rows as nat,
                output: Seq::empty(),
                cursor_x: 0,
                cursor_y: 0,
                cursor_visible: false,
                grid: blank_grid(cols as nat, rows as nat),
                initialized: false,
            }),
            s@.wf(),
    {
        let mut grid: Vec<Vec<(char, Color)>> = Vec::new();
        let mut y: u16 = 0;
        while y < rows
            invariant
                y <= rows,
                grid@.len() == y,
                forall|j: int| 0 <= j < y ==> #[trigger] grid@[j]@ == blank_grid(cols as nat, 1)[0],
            decreases rows - y,
        {
            let row = blank_row(cols);
            grid.push(row);
            y += 1;
        }
        let s = AnsiScreen {
            cols,
            rows,
            output: String::new(),
            cursor_x: 0,
            cursor_y: 0,
            cursor_visible: false,
            grid,
            initialized: false,
        };
        proof {
            assert(s@.output =~= Seq::<char>::empty());
            assert forall|j: int| 0 <= j < rows implies #[trigger] s@.grid[j] == blank_grid(
                cols as nat,
                rows as nat,
            )[j] by {
                assert(s@.grid[j] == grid@[j]@);
                assert(blank_grid(cols as nat, rows as nat)[j] =~= blank_grid(cols as nat, 1)[0]);
            }
            assert(s@.grid =~= blank_grid(cols as nat, rows as nat));
        }
        s
    }

    pub fn cols(&self) -> (r: u16)
        ensures
            r == self@.cols,
    {
        self.cols
    }

    pub fn rows(&self) -> (r: u16)
        ensures
            r == self@.rows,
    {
        self.rows
    }

    /// Where the cursor is: column and row.
    pub fn cursor_position(&self) -> (r: (u16, u16))
        ensures
            r.0 == self@.cursor_x && r.1 == self@.cursor_y,
    {
        (self.cursor_x, self.cursor_y)
    }

    /// Hands over what has been written since the last time, and forgets it.
    pub fn take_output(&mut self) -> (r: String)
        ensures
            r@ == old(self)@.output,
            final(self)@ == (ScreenModel { output: Seq::empty(), ..old(self)@ }),
    {
        let mut r = String::new();
        std::mem::swap(&mut r, &mut self.output);
        proof {
            assert(final(self)@.output =~= Seq::<char>::empty());
        }
        r
    }

    /// Changes the size, keeping the cells that still fit.
    pub fn resize(&mut self, cols: u16, rows: u16)
        ensures
            final(self)@ == (ScreenModel {
                cols: cols as nat,
                rows: rows as nat,
                grid: resized(old(self)@.grid, cols as nat, rows as nat),
                ..old(self)@
            }),
            final(self)@.wf(),
    {
        let ghost g = self@.grid;
        let mut new_grid: Vec<Vec<(char, Color)>> = Vec::new();
        let mut y: u16 = 0;
        while y < rows
            invariant
                y <= rows,
                g == self@.grid,
                new_grid@.len() == y,
                forall|j: int| 0 <= j < y ==> #[trigger] new_grid@[j]@ == resized(g, cols as nat, rows as nat)[j],
            decreases rows - y,
        {
            let mut row = blank_row(cols);
            if (y as usize) < self.grid.len() {
                let old_row = &self.grid[y as usize];
                let mut x: u16 = 0;
                while x < cols
                    invariant
                        x <= cols,
                        (y as int) < g.len(),
                        g[y as int] == old_row@,
                        row@.len() == cols,
                        forall|i: int| 0 <= i < cols ==> #[trigger] row@[i] == (if i < x && i < old_row@.len() {
                            old_row@[i]
                        } else {
                            (' ', Color::Reset)
                        }),
                    decreases cols - x,
                {
                    if (x as usize) < old_row.len() {
                        row.set(x as usize, old_row[x as usize]);
                    }
                    x += 1;
                }
            }
            proof {
                assert(row@ =~= resized(g, cols as nat, rows as nat)[y as int]);
            }
            new_grid.push(row);
            y += 1;
        }
        self.cols = cols;
        self.rows = rows;
        self.grid = new_grid;
        proof {
            assert(self@.grid =~= resized(g, cols as nat, rows as nat));
        }
    }

    /// The whole screen as text.
    fn render_full_grid(&self) -> (r: String)
        requires
            self@.wf(),
        ensures
            r@ == screen_text(self@.grid, self@.cols, self@.rows),
    {
        let ghost g = self@.grid;
        let ghost cols = self@.cols;
        let mut out = String::from_str("\x1b[2J\x1b[H");
        let mut y: u16 = 0;
        while y < self.rows
            invariant
                y <= self.rows,
                self@.wf(),
                g == self@.grid,
                cols == self@.cols,
                out@ == "\x1b[2J\x1b[H"@ + rows_text(g, cols, y as nat),
            decreases self.rows - y,
        {
            if y > 0 {
                out.append("\r\n");
            }
            let ghost before = out@;
            let row = &self.grid[y as usize];
            proof {
                assert(row@ == g[y as int]);
            }
            let mut x: u16 = 0;
            while x < self.cols
                invariant
                    x <= self.cols,
                    row@.len() == self.cols,
                    out@ == before + row_text(row@, x as nat),
                decreases self.cols - x,
            {
                let cell = row[x as usize];
                out.append(color_to_ansi(cell.1));
                push_char(&mut out, cell.0);
                out.append("\x1b[0m");
                proof {
                    assert(out@ =~= before + row_text(row@, x as nat + 1));
                }
                x += 1;
            }
            proof {
                assert(out@ =~= "\x1b[2J\x1b[H"@ + rows_text(g, cols, y as nat + 1));
            }
            y += 1;
        }
        out
    }

    /// Writes the cursor's position when it is shown.
    fn push_cursor_ansi(&mut self)
        requires
            old(self).cursor_x < u16::MAX,
            old(self).cursor_y < u16::MAX,
        ensures
            final(self)@ == (ScreenModel {
                output: if old(self)@.cursor_visible {
                    old(self)@.output + cursor_text(old(self)@.cursor_x, old(self)@.cursor_y)
                } else {
                    old(self)@.output
                },
                ..old(self)@
            }),
    {
        if self.cursor_visible {
            self.output.append("\x1b[");
            let y = decimal_string((self.cursor_y + 1) as usize);
            self.output.append(y.as_str());
            self.output.append(";");
            let x = decimal_string((self.cursor_x + 1) as usize);
            self.output.append(x.as_str());
            self.output.append("H");
            proof {
                assert(self.output@ =~= old(self)@.output + cursor_text(old(self)@.cursor_x, old(self)@.cursor_y));
            }
        }
    }

    /// Hides the cursor.
    pub fn hide_cursor(&mut self)
        ensures
            final(self)@ == (ScreenModel {
                cursor_visible: false,
                output: old(self)@.output + "\x1b[?25l"@,
                ..old(self)@
            }),
    {
        self.cursor_visible = false;
        self.output.append("\x1b[?25l");
    }

    /// Shows the cursor.
    pub fn show_cursor(&mut self)
        ensures
            final(self)@ == (ScreenModel {
                cursor_visible: true,
                output: old(self)@.output + "\x1b[?25h"@,
                ..old(self)@
            }),
    {
        self.cursor_visible = true;
        self.output.append("\x1b[?25h");
    }

    /// Moves the cursor to column `x`, row `y` and shows it there.
    pub fn set_cursor_position(&mut self, x: u16, y: u16)
        requires
            x < u16::MAX,
            y < u16::MAX,
        ensures
            final(self)@ == (ScreenModel {
                cursor_x: x as nat,
                cursor_y: y as nat,
                cursor_visible: true,
                output: old(self)@.output + cursor_text(x as nat, y as nat),
                ..old(self)@
            }),
    {
        self.cursor_x = x;
        self.cursor_y = y;
        self.cursor_visible = true;
        self.push_cursor_ansi();
    }

    /// Draws cells; when one changed, or nothing was written yet, writes
    /// the whole screen.
    pub fn draw(&mut self, cells: Vec<DrawnCell>)
        requires
            old(self)@.wf(),
        ensures
            ({
                let (g, changed) = draw_cells(old(self)@.grid, old(self)@.cols, old(self)@.rows, cells@);
                final(self)@ == (ScreenModel {
                    grid: g,
                    initialized: true,
                    output: if changed || !old(self)@.initialized {
                        old(self)@.output + screen_text(g, old(self)@.cols, old(self)@.rows)
                    } else {
                        old(self)@.output
                    },
                    ..old(self)@
                })
            }),
            final(self)@.wf(),
    {
        let mut changed = false;
        let mut i: usize = 0;
        proof {
            assert(cells@.take(0) =~= Seq::<DrawnCell>::empty());
        }
        while i < cells.len()
            invariant
                i <= cells.len(),
                self@.wf(),
                self@ == (ScreenModel { grid: self@.grid, ..old(self)@ }),
                (self@.grid, changed) == draw_cells(
                    old(self)@.grid,
                    old(self)@.cols,
                    old(self)@.rows,
                    cells@.take(i as int),
                ),
            decreases cells.len() - i,
        {
            let ghost g0 = self@.grid;
            proof {
                assert(cells@.take(i as int + 1).drop_last() =~= cells@.take(i as int));
                assert(cells@.take(i as int + 1).last() == cells@[i as int]);
            }
            let d = &cells[i];
            if d.x < self.cols && d.y < self.rows {
                let c = if d.symbol.unicode_len() > 0 {
                    d.symbol.get_char(0)
                } else {
                    ' '
                };
                let fg = match d.fg {
                    Some(f) => f,
                    None => Color::Reset,
                };
                let yi = d.y as usize;
                let xi = d.x as usize;
                proof {
                    assert(self.grid@[yi as int]@ == g0[yi as int]);
                }
                let cur = self.grid[yi][xi];
                if cur.0 != c || cur.1 != fg {
                    self.grid[yi][xi] = (c, fg);
                    changed = true;
                    proof {
                        assert(self@.grid =~= g0.update(yi as int, g0[yi as int].update(xi as int, (c, fg))));
                    }
                }
            }
            i += 1;
        }
        proof {
            assert(cells@.take(cells.len() as int) =~= cells@);
        }
        if changed || !self.initialized {
            self.initialized = true;
            let text = self.render_full_grid();
            self.output.append(text.as_str());
        }
    }
}

} // verus!

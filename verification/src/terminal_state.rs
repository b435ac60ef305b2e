//! Terminal emulator state: a fixed-size grid of character cells, a cursor
//! and the current graphic rendition.
//!
//! The escape-sequence tokenizer lives outside this module; it reports
//! printable characters, C0 control bytes and CSI sequences, which are
//! applied here through [`TerminalState::print`], [`TerminalState::execute`]
//! and [`TerminalState::csi_dispatch`].

use vstd::prelude::*;

verus! {

/// Basic 16-colour palette (SGR 30–37 / 40–47 / 90–97 / 100–107).
#[derive(Clone, Copy, PartialEq, Eq, Debug, Structural)]
pub enum Color16 {
    Default,
    Black,
    Red,
    Green,
    Yellow,
    Blue,
    Magenta,
    Cyan,
    White,
    BrightBlack,
    BrightRed,
    BrightGreen,
    BrightYellow,
    BrightBlue,
    BrightMagenta,
    BrightCyan,
    BrightWhite,
}

/// The RGB triple that each palette entry is drawn with.
pub open spec fn rgb_of(c: Color16) -> (u8, u8, u8) {
    match c {
        Color16::Default => (204, 204, 204),
        Color16::Black => (40, 40, 40),
        Color16::Red => (204, 51, 51),
        Color16::Green => (78, 154, 10),
        Color16::Yellow => (196, 160, 0),
        Color16::Blue => (52, 101, 164),
        Color16::Magenta => (117, 80, 123),
        Color16::Cyan => (6, 152, 154),
        Color16::White => (211, 215, 207),
        Color16::BrightBlack => (85, 87, 83),
        Color16::BrightRed => (239, 41, 41),
        Color16::BrightGreen => (138, 226, 52),
        Color16::BrightYellow => (252, 233, 79),
        Color16::BrightBlue => (114, 159, 207),
        Color16::BrightMagenta => (173, 127, 168),
        Color16::BrightCyan => (52, 226, 226),
        Color16::BrightWhite => (238, 238, 236),
    }
}

/// The colour selected by an SGR foreground code, if the code is one.
pub open spec fn sgr_fg(n: u16) -> Option<Color16> {
    if n == 30 { Some(Color16::Black) }
    else if n == 31 { Some(Color16::Red) }
    else if n == 32 { Some(Color16::Green) }
    else if n == 33 { Some(Color16::Yellow) }
    else if n == 34 { Some(Color16::Blue) }
    else if n == 35 { Some(Color16::Magenta) }
    else if n == 36 { Some(Color16::Cyan) }
    else if n == 37 { Some(Color16::White) }
    else if n == 39 { Some(Color16::Default) }
    else if n == 90 { Some(Color16::BrightBlack) }
    else if n == 91 { Some(Color16::BrightRed) }
    else if n == 92 { Some(Color16::BrightGreen) }
    else if n == 93 { Some(Color16::BrightYellow) }
    else if n == 94 { Some(Color16::BrightBlue) }
    else if n == 95 { Some(Color16::BrightMagenta) }
    else if n == 96 { Some(Color16::BrightCyan) }
    else if n == 97 { Some(Color16::BrightWhite) }
    else { None }
}

/// The colour selected by an SGR background code, if the code is one.
pub open spec fn sgr_bg(n: u16) -> Option<Color16> {
    if n == 40 { Some(Color16::Black) }
    else if n == 41 { Some(Color16::Red) }
    else if n == 42 { Some(Color16::Green) }
    else if n == 43 { Some(Color16::Yellow) }
    else if n == 44 { Some(Color16::Blue) }
    else if n == 45 { Some(Color16::Magenta) }
    else if n == 46 { Some(Color16::Cyan) }
    else if n == 47 { Some(Color16::White) }
    else if n == 49 { Some(Color16::Default) }
    else if n == 100 { Some(Color16::BrightBlack) }
    else if n == 101 { Some(Color16::BrightRed) }
    else if n == 102 { Some(Color16::BrightGreen) }
    else if n == 103 { Some(Color16::BrightYellow) }
    else if n == 104 { Some(Color16::BrightBlue) }
    else if n == 105 { Some(Color16::BrightMagenta) }
    else if n == 106 { Some(Color16::BrightCyan) }
    else if n == 107 { Some(Color16::BrightWhite) }
    else { None }
}

impl Color16 {
    /// The RGB triple of this palette entry.
    pub fn to_rgb(self) -> (rgb: (u8, u8, u8))
        ensures
            rgb == rgb_of(self),
    {
        match self {
            Color16::Default => (204, 204, 204),
            Color16::Black => (40, 40, 40),
            Color16::Red => (204, 51, 51),
            Color16::Green => (78, 154, 10),
            Color16::Yellow => (196, 160, 0),
            Color16::Blue => (52, 101, 164),
            Color16::Magenta => (117, 80, 123),
            Color16::Cyan => (6, 152, 154),
            Color16::White => (211, 215, 207),
            Color16::BrightBlack => (85, 87, 83),
            Color16::BrightRed => (239, 41, 41),
            Color16::BrightGreen => (138, 226, 52),
            Color16::BrightYellow => (252, 233, 79),
            Color16::BrightBlue => (114, 159, 207),
            Color16::BrightMagenta => (173, 127, 168),
            Color16::BrightCyan => (52, 226, 226),
            Color16::BrightWhite => (238, 238, 236),
        }
    }

    /// The foreground colour an SGR code selects (30–37, 39, 90–97).
    pub fn from_sgr_fg(n: u16) -> (c: Option<Color16>)
        ensures
            c == sgr_fg(n),
    {
        match n {
            30 => Some(Color16::Black),
            31 => Some(Color16::Red),
            32 => Some(Color16::Green),
            33 => Some(Color16::Yellow),
            34 => Some(Color16::Blue),
            35 => Some(Color16::Magenta),
            36 => Some(Color16::Cyan),
            37 => Some(Color16::White),
            39 => Some(Color16::Default),
            90 => Some(Color16::BrightBlack),
            91 => Some(Color16::BrightRed),
            92 => Some(Color16::BrightGreen),
            93 => Some(Color16::BrightYellow),
            94 => Some(Color16::BrightBlue),
            95 => Some(Color16::BrightMagenta),
            96 => Some(Color16::BrightCyan),
            97 => Some(Color16::BrightWhite),
            _ => None,
        }
    }

    /// The background colour an SGR code selects (40–47, 49, 100–107).
    pub fn from_sgr_bg(n: u16) -> (c: Option<Color16>)
        ensures
            c == sgr_bg(n),
    {
        match n {
            40 => Some(Color16::Black),
            41 => Some(Color16::Red),
            42 => Some(Color16::Green),
            43 => Some(Color16::Yellow),
            44 => Some(Color16::Blue),
            45 => Some(Color16::Magenta),
            46 => Some(Color16::Cyan),
            47 => Some(Color16::White),
            49 => Some(Color16::Default),
            100 => Some(Color16::BrightBlack),
            101 => Some(Color16::BrightRed),
            102 => Some(Color16::BrightGreen),
            103 => Some(Color16::BrightYellow),
            104 => Some(Color16::BrightBlue),
            105 => Some(Color16::BrightMagenta),
            106 => Some(Color16::BrightCyan),
            107 => Some(Color16::BrightWhite),
            _ => None,
        }
    }
}

/// A single character cell in the terminal grid.
#[derive(Clone, Copy)]
pub struct Cell {
    pub ch: char,
    pub fg: Color16,
    pub bg: Color16,
    pub bold: bool,
}

/// An empty cell: a space in the default colours, not bold.
pub open spec fn blank_cell() -> Cell {
    Cell { ch: ' ', fg: Color16::Default, bg: Color16::Default, bold: false }
}

/// A row of `n` empty cells.
pub open spec fn blank_row(n: nat) -> Seq<Cell> {
    Seq::new(n, |i: int| blank_cell())
}

impl Cell {
    /// An empty cell.
    pub fn blank() -> (c: Cell)
        ensures
            c == blank_cell(),
    {
        Cell { ch: ' ', fg: Color16::Default, bg: Color16::Default, bold: false }
    }
}

/// The graphic rendition that newly printed characters take.
pub struct Pen {
    pub fg: Color16,
    pub bg: Color16,
    pub bold: bool,
}

/// The rendition after one SGR code.
pub open spec fn sgr_step(p: Pen, n: u16) -> Pen {
    if n == 0 {
        Pen { fg: Color16::Default, bg: Color16::Default, bold: false }
    } else if n == 1 {
        Pen { bold: true, ..p }
    } else if n == 22 {
        Pen { bold: false, ..p }
    } else if sgr_fg(n) is Some {
        Pen { fg: sgr_fg(n)->0, ..p }
    } else if sgr_bg(n) is Some {
        Pen { bg: sgr_bg(n)->0, ..p }
    } else {
        p
    }
}

/// How many parameters, from the `i`-th, one SGR code takes up. An extended
/// colour code (38 or 48, with no sub-values of its own) takes its selector
/// and values along: `5;N` (256 colours) three in all, `2;R;G;B` (direct
/// colour) five; every other code takes one.
pub open spec fn sgr_span(ps: Seq<Seq<u16>>, i: int) -> nat {
    let n = ps[i][0];
    if (n == 38 || n == 48) && ps[i].len() == 1 && i + 1 < ps.len() {
        let sel = ps[i + 1][0];
        if sel == 5 { 3 } else if sel == 2 { 5 } else { 1 }
    } else {
        1
    }
}

/// The rendition after the SGR parameters of `ps` from the `i`-th on,
/// applied left to right: each code acts by its first value, and extended
/// colour sequences (256-colour and direct colour) are skipped whole.
pub open spec fn sgr_from(p: Pen, ps: Seq<Seq<u16>>, i: int) -> Pen
    decreases ps.len() - i,
{
    if i < 0 || i >= ps.len() {
        p
    } else if sgr_span(ps, i) > 1 {
        let next = if i + sgr_span(ps, i) <= ps.len() { i + sgr_span(ps, i) } else { ps.len() as int };
        sgr_from(p, ps, next)
    } else {
        sgr_from(sgr_step(p, ps[i][0]), ps, i + 1)
    }
}

/// The rendition after the SGR parameters `ps`.
pub open spec fn sgr_all(p: Pen, ps: Seq<Seq<u16>>) -> Pen {
    sgr_from(p, ps, 0)
}

/// `row` with the cells at columns `from <= c < to` made blank.
pub open spec fn blank_span(row: Seq<Cell>, from: int, to: int) -> Seq<Cell> {
    Seq::new(row.len(), |c: int| if from <= c < to { blank_cell() } else { row[c] })
}

/// `a - b`, or 0 where that is negative.
pub open spec fn sat_sub(a: nat, b: nat) -> nat {
    if a >= b { (a - b) as nat } else { 0 }
}

pub open spec fn min_nat(a: nat, b: nat) -> nat {
    if a <= b { a } else { b }
}

/// The first value of parameter `i`, or `d` where there is no such parameter.
pub open spec fn param_or(ps: Seq<Seq<u16>>, i: int, d: nat) -> nat {
    if 0 <= i < ps.len() { ps[i][0] as nat } else { d }
}

/// The mathematical state of a terminal.
pub struct TermView {
    pub grid: Seq<Seq<Cell>>,
    pub cursor_row: nat,
    pub cursor_col: nat,
    pub cols: nat,
    pub rows: nat,
    pub pen: Pen,
}

impl TermView {
    /// `rows` rows of `cols` cells; the cursor on a row (at row 0 when there
    /// is none), and on a column or just past the last one (a pending wrap).
    pub open spec fn wf(self) -> bool {
        &&& self.grid.len() == self.rows
        &&& forall|r: int| 0 <= r < self.rows ==> #[trigger] self.grid[r].len() == self.cols
        &&& (self.cursor_row < self.rows || (self.rows == 0 && self.cursor_row == 0))
        &&& self.cursor_col <= self.cols
    }

    /// The grid has at least one row and one column.
    pub open spec fn sized(self) -> bool {
        self.rows >= 1 && self.cols >= 1
    }

    /// `execute(byte)` has a row to move to where the byte moves down.
    pub open spec fn execute_ok(self, byte: u8) -> bool {
        (byte == 0x0A || byte == 0x0B || byte == 0x0C) ==> self.rows >= 1
    }

    /// The CSI sequence touches only rows and columns the grid has: moving
    /// down needs a row, moving right a column, positioning both; erasing on
    /// a grid without rows only where no cell would be blanked.
    pub open spec fn csi_ok(self, ps: Seq<Seq<u16>>, action: char) -> bool {
        let p1 = param_or(ps, 0, 0);
        let cc = self.cursor_col;
        if action == 'B' {
            self.rows >= 1
        } else if action == 'C' {
            self.cols >= 1
        } else if action == 'H' || action == 'f' {
            self.rows >= 1 && self.cols >= 1
        } else if action == 'J' {
            self.rows >= 1 || (p1 == 0 ==> cc >= self.cols) && (p1 == 1 ==> self.cols == 0)
        } else if action == 'K' {
            self.rows >= 1 || (p1 == 0 ==> cc >= self.cols) && ((p1 == 1 || p1 == 2) ==> self.cols == 0)
        } else {
            true
        }
    }

    /// Line feed: move down a row, or scroll the grid up by one at the bottom.
    pub open spec fn linefeed(self) -> TermView {
        if self.cursor_row + 1 < self.rows {
            TermView { cursor_row: self.cursor_row + 1, ..self }
        } else {
            TermView { grid: self.grid.drop_first().push(blank_row(self.cols)), ..self }
        }
    }

    /// Write `c` at the cursor in the current rendition and advance; a cursor
    /// past the last column first wraps to the start of the next line.
    pub open spec fn put_char(self, c: char) -> TermView {
        let s = if self.cursor_col >= self.cols {
            TermView { cursor_col: 0, ..self }.linefeed()
        } else {
            self
        };
        let cell = Cell { ch: c, fg: s.pen.fg, bg: s.pen.bg, bold: s.pen.bold };
        TermView {
            grid: s.grid.update(
                s.cursor_row as int,
                s.grid[s.cursor_row as int].update(s.cursor_col as int, cell),
            ),
            cursor_col: s.cursor_col + 1,
            ..s
        }
    }

    /// The effect of a C0 control byte: BS, HT (to the next multiple of 8,
    /// at most the last column), LF/VT/FF, CR; others do nothing.
    pub open spec fn execute(self, byte: u8) -> TermView {
        if byte == 0x08 {
            TermView { cursor_col: sat_sub(self.cursor_col, 1), ..self }
        } else if byte == 0x09 {
            TermView {
                cursor_col: min_nat(((self.cursor_col / 8) + 1) * 8, sat_sub(self.cols, 1)),
                ..self
            }
        } else if byte == 0x0A || byte == 0x0B || byte == 0x0C {
            self.linefeed()
        } else if byte == 0x0D {
            TermView { cursor_col: 0, ..self }
        } else {
            self
        }
    }

    /// Erase in display: 0 from the cursor to the end, 1 from the start
    /// through the cursor, 2 or 3 everything.
    pub open spec fn erase_display(self, mode: nat) -> TermView {
        let cr = self.cursor_row as int;
        let cc = self.cursor_col as int;
        if mode == 0 {
            TermView {
                grid: Seq::new(
                    self.rows,
                    |r: int|
                        if r < cr {
                            self.grid[r]
                        } else if r == cr {
                            blank_span(self.grid[r], cc, self.cols as int)
                        } else {
                            blank_span(self.grid[r], 0, self.cols as int)
                        },
                ),
                ..self
            }
        } else if mode == 1 {
            TermView {
                grid: Seq::new(
                    self.rows,
                    |r: int|
                        if r < cr {
                            blank_span(self.grid[r], 0, self.cols as int)
                        } else if r == cr {
                            blank_span(self.grid[r], 0, cc + 1)
                        } else {
                            self.grid[r]
                        },
                ),
                ..self
            }
        } else if mode == 2 || mode == 3 {
            TermView {
                grid: Seq::new(self.rows, |r: int| blank_span(self.grid[r], 0, self.cols as int)),
                ..self
            }
        } else {
            self
        }
    }

    /// Erase in line: 0 from the cursor to the end, 1 from the start through
    /// the cursor, 2 the whole line.
    pub open spec fn erase_line(self, mode: nat) -> TermView {
        let cr = self.cursor_row as int;
        let cc = self.cursor_col as int;
        if self.rows == 0 {
            self
        } else if mode == 0 {
            TermView { grid: self.grid.update(cr, blank_span(self.grid[cr], cc, self.cols as int)), ..self }
        } else if mode == 1 {
            TermView { grid: self.grid.update(cr, blank_span(self.grid[cr], 0, cc + 1)), ..self }
        } else if mode == 2 {
            TermView { grid: self.grid.update(cr, blank_span(self.grid[cr], 0, self.cols as int)), ..self }
        } else {
            self
        }
    }

    /// The effect of a CSI sequence with final character `action`: cursor
    /// movement (A B C D, H f), erasing (J K) and rendition (m).
    pub open spec fn csi(self, ps: Seq<Seq<u16>>, action: char) -> TermView {
        let p1 = param_or(ps, 0, 0);
        let n: nat = if p1 >= 1 { p1 } else { 1 };
        if action == 'A' {
            TermView { cursor_row: sat_sub(self.cursor_row, n), ..self }
        } else if action == 'B' {
            TermView { cursor_row: min_nat(self.cursor_row + n, (self.rows - 1) as nat), ..self }
        } else if action == 'C' {
            TermView { cursor_col: min_nat(self.cursor_col + n, (self.cols - 1) as nat), ..self }
        } else if action == 'D' {
            TermView { cursor_col: sat_sub(self.cursor_col, n), ..self }
        } else if action == 'H' || action == 'f' {
            let pr = param_or(ps, 0, 1);
            let pc = param_or(ps, 1, 1);
            let row: nat = if pr >= 1 { (pr - 1) as nat } else { 0 };
            let col: nat = if pc >= 1 { (pc - 1) as nat } else { 0 };
            TermView {
                cursor_row: min_nat(row, (self.rows - 1) as nat),
                cursor_col: min_nat(col, (self.cols - 1) as nat),
                ..self
            }
        } else if action == 'J' {
            self.erase_display(p1)
        } else if action == 'K' {
            self.erase_line(p1)
        } else if action == 'm' {
            TermView { pen: sgr_all(self.pen, ps), ..self }
        } else {
            self
        }
    }

    /// The grid at `cols` x `rows`: existing cells kept where both old and new
    /// grids have them, blank elsewhere; the cursor clamped into the new grid.
    pub open spec fn resize(self, cols: nat, rows: nat) -> TermView {
        TermView {
            grid: Seq::new(
                rows,
                |r: int|
                    Seq::new(
                        cols,
                        |c: int|
                            if r < self.rows && c < self.cols {
                                self.grid[r][c]
                            } else {
                                blank_cell()
                            },
                    ),
            ),
            cursor_row: min_nat(self.cursor_row, sat_sub(rows, 1)),
            cursor_col: min_nat(self.cursor_col, sat_sub(cols, 1)),
            cols,
            rows,
            ..self
        }
    }
}

/// Every parameter carries at least one value.
pub open spec fn params_wf(ps: Seq<Seq<u16>>) -> bool {
    forall|i: int| 0 <= i < ps.len() ==> #[trigger] ps[i].len() >= 1
}

/// Terminal emulator state backed by a fixed-size cell grid.
pub struct TerminalState {
    grid: Vec<Vec<Cell>>,
    cursor_row: usize,
    cursor_col: usize,
    cols: usize,
    rows: usize,
    current_fg: Color16,
    current_bg: Color16,
    current_bold: bool,
}

impl View for TerminalState {
    type V = TermView;

    closed spec fn view(&self) -> TermView {
        TermView {
            grid: rows_view(self.grid@),
            cursor_row: self.cursor_row as nat,
            cursor_col: self.cursor_col as nat,
            cols: self.cols as nat,
            rows: self.rows as nat,
            pen: Pen { fg: self.current_fg, bg: self.current_bg, bold: self.current_bold },
        }
    }
}

/// The cell rows of a grid.
pub open spec fn rows_view(g: Seq<Vec<Cell>>) -> Seq<Seq<Cell>> {
    Seq::new(g.len(), |i: int| g[i]@)
}

/// A vector of `n` blank cells.
fn blank_cells(n: usize) -> (v: Vec<Cell>)
    ensures
        v@ == blank_row(n as nat),
{
    let mut v: Vec<Cell> = Vec::new();
    let mut i: usize = 0;
    while i < n
        invariant
            i <= n,
            v@ == blank_row(i as nat),
        decreases n - i,
    {
        v.push(Cell::blank());
        i = i + 1;
        assert(v@ =~= blank_row(i as nat));
    }
    v
}

impl TerminalState {
    /// A `cols` x `rows` grid of blank cells, cursor at the top left, default
    /// rendition.
    pub fn new(cols: usize, rows: usize) -> (t: TerminalState)
        ensures
            t@.wf(),
            t@.grid == Seq::new(rows as nat, |r: int| blank_row(cols as nat)),
            t@.cursor_row == 0,
            t@.cursor_col == 0,
            t@.cols == cols,
            t@.rows == rows,
            t@.pen == (Pen { fg: Color16::Default, bg: Color16::Default, bold: false }),
    {
        let mut grid: Vec<Vec<Cell>> = Vec::new();
        let mut i: usize = 0;
        while i < rows
            invariant
                i <= rows,
                grid@.len() == i,
                forall|j: int| 0 <= j < i ==> #[trigger] grid@[j]@ == blank_row(cols as nat),
            decreases rows - i,
        {
            let row = blank_cells(cols);
            grid.push(row);
            i = i + 1;
        }
        assert(rows_view(grid@) =~= Seq::new(rows as nat, |r: int| blank_row(cols as nat)));
        TerminalState {
            grid,
            cursor_row: 0,
            cursor_col: 0,
            cols,
            rows,
            current_fg: Color16::Default,
            current_bg: Color16::Default,
            current_bold: false,
        }
    }

    /// The cell at `row`, `col`.
    pub fn cell(&self, row: usize, col: usize) -> (c: &Cell)
        requires
            self@.wf(),
            row < self@.rows,
            col < self@.cols,
        ensures
            *c == self@.grid[row as int][col as int],
    {
        &self.grid[row][col]
    }

    /// The cursor as (row, column).
    pub fn cursor(&self) -> (rc: (usize, usize))
        ensures
            rc.0 == self@.cursor_row,
            rc.1 == self@.cursor_col,
    {
        (self.cursor_row, self.cursor_col)
    }

    /// The grid size as (columns, rows).
    pub fn grid_size(&self) -> (cr: (usize, usize))
        ensures
            cr.0 == self@.cols,
            cr.1 == self@.rows,
    {
        (self.cols, self.rows)
    }
}

impl TerminalState {
    /// The state is well formed (see [`TermView::wf`]).
    pub open spec fn wf(&self) -> bool {
        self@.wf()
    }

    fn set_cell(&mut self, r: usize, c: usize, cell: Cell)
        requires
            old(self)@.wf(),
            r < old(self)@.rows,
            c < old(self)@.cols,
        ensures
            final(self)@ == (TermView {
                grid: old(self)@.grid.update(r as int, old(self)@.grid[r as int].update(c as int, cell)),
                ..old(self)@
            }),
            final(self)@.wf(),
    {
        let ghost g0 = self@.grid;
        self.grid[r].set(c, cell);
        assert(self@.grid =~= g0.update(r as int, g0[r as int].update(c as int, cell)));
    }

    fn linefeed(&mut self)
        requires
            old(self)@.wf(),
            old(self)@.rows >= 1,
        ensures
            final(self)@ == old(self)@.linefeed(),
            final(self)@.wf(),
    {
        if self.cursor_row + 1 < self.rows {
            self.cursor_row = self.cursor_row + 1;
        } else {
            let ghost g0 = self@.grid;
            let _ = self.grid.remove(0);
            let row = blank_cells(self.cols);
            self.grid.push(row);
            assert(self@.grid =~= g0.drop_first().push(blank_row(self.cols as nat)));
        }
    }

    fn put_char(&mut self, c: char)
        requires
            old(self)@.wf(),
            old(self)@.sized(),
        ensures
            final(self)@ == old(self)@.put_char(c),
            final(self)@.wf(),
    {
        if self.cursor_col >= self.cols {
            self.cursor_col = 0;
            self.linefeed();
        }
        let cell = Cell { ch: c, fg: self.current_fg, bg: self.current_bg, bold: self.current_bold };
        self.set_cell(self.cursor_row, self.cursor_col, cell);
        self.cursor_col = self.cursor_col + 1;
    }

    /// Blank the cells of `row` at columns `from <= c < to` (clipped to the grid).
    fn clear_row(&mut self, row: usize, from: usize, to: usize)
        requires
            old(self)@.wf(),
            row < old(self)@.rows,
        ensures
            final(self)@ == (TermView {
                grid: old(self)@.grid.update(row as int, blank_span(old(self)@.grid[row as int], from as int, to as int)),
                ..old(self)@
            }),
            final(self)@.wf(),
    {
        let end = if to < self.cols { to } else { self.cols };
        let ghost g0 = self@.grid;
        let ghost r0 = g0[row as int];
        if from < end {
            let mut col = from;
            assert(blank_span(r0, from as int, from as int) =~= r0);
            assert(g0.update(row as int, r0) =~= g0);
            while col < end
                invariant
                    self@.wf(),
                    row < self@.rows,
                    end <= self@.cols,
                    self@.cols == old(self)@.cols,
                    self@.rows == old(self)@.rows,
                    self@.cursor_row == old(self)@.cursor_row,
                    self@.cursor_col == old(self)@.cursor_col,
                    self@.pen == old(self)@.pen,
                    g0 == old(self)@.grid,
                    g0.len() == self@.rows,
                    r0 == g0[row as int],
                    r0.len() == self@.cols,
                    from <= col <= end,
                    self@.grid == g0.update(row as int, blank_span(r0, from as int, col as int)),
                decreases end - col,
            {
                assert(blank_span(r0, from as int, col as int).update(col as int, blank_cell())
                    =~= blank_span(r0, from as int, col + 1));
                self.set_cell(row, col, Cell::blank());
                col = col + 1;
                assert(self@.grid =~= g0.update(row as int, blank_span(r0, from as int, col as int)));
            }
        } else {
            assert(blank_span(r0, from as int, to as int) =~= r0);
            assert(g0.update(row as int, r0) =~= g0);
        }
        assert(blank_span(r0, from as int, end as int) =~= blank_span(r0, from as int, to as int));
    }

    /// Print `c` at the cursor (a printable character reported by the tokenizer).
    pub fn print(&mut self, c: char)
        requires
            old(self)@.wf(),
            old(self)@.sized(),
        ensures
            final(self)@ == old(self)@.put_char(c),
            final(self)@.wf(),
    {
        self.put_char(c);
    }

    /// Apply a C0 control byte (BS, HT, LF, VT, FF, CR; others are ignored).
    pub fn execute(&mut self, byte: u8)
        requires
            old(self)@.wf(),
            old(self)@.execute_ok(byte),
        ensures
            final(self)@ == old(self)@.execute(byte),
            final(self)@.wf(),
    {
        match byte {
            0x08 => {
                self.cursor_col = self.cursor_col.saturating_sub(1);
            },
            0x09 => {
                let stop = self.cursor_col / 8 + 1;
                let last = if self.cols > 0 { self.cols - 1 } else { 0 };
                self.cursor_col = if stop > last / 8 { last } else {
                    let next = stop * 8;
                    if next < last { next } else { last }
                };
            },
            0x0A | 0x0B | 0x0C => {
                self.linefeed();
            },
            0x0D => {
                self.cursor_col = 0;
            },
            _ => {},
        }
    }
}

/// The parameter lists of a CSI sequence, as sequences of values.
pub open spec fn params_view(ps: Seq<Vec<u16>>) -> Seq<Seq<u16>> {
    Seq::new(ps.len(), |i: int| ps[i]@)
}

/// `a` and `b` agree on everything but the grid.
pub open spec fn same_but_grid(a: TermView, b: TermView) -> bool {
    &&& a.cursor_row == b.cursor_row
    &&& a.cursor_col == b.cursor_col
    &&& a.cols == b.cols
    &&& a.rows == b.rows
    &&& a.pen == b.pen
}

impl TerminalState {
    fn sgr(&mut self, params: &Vec<Vec<u16>>)
        requires
            old(self)@.wf(),
            params_wf(params_view(params@)),
        ensures
            final(self)@ == (TermView { pen: sgr_all(old(self)@.pen, params_view(params@)), ..old(self)@ }),
            final(self)@.wf(),
    {
        let ghost ps = params_view(params@);
        let ghost p0 = old(self)@.pen;
        let mut i: usize = 0;
        while i < params.len()
            invariant
                0 <= i <= params.len(),
                ps == params_view(params@),
                params_wf(ps),
                sgr_from(self@.pen, ps, i as int) == sgr_from(p0, ps, 0),
                self@ == (TermView { pen: self@.pen, ..old(self)@ }),
            decreases params.len() - i,
        {
            assert(ps[i as int].len() >= 1);
            let n = params[i][0];
            if (n == 38 || n == 48) && params[i].len() == 1 && i + 1 < params.len() {
                assert(ps[i + 1].len() >= 1);
                let sel = params[i + 1][0];
                if sel == 5 || sel == 2 {
                    let span: usize = if sel == 5 { 3 } else { 5 };
                    assert(sgr_span(ps, i as int) == span);
                    i = if span < params.len() - i { i + span } else { params.len() };
                    continue;
                }
            }
            assert(sgr_span(ps, i as int) == 1);
            if n == 0 {
                self.current_fg = Color16::Default;
                self.current_bg = Color16::Default;
                self.current_bold = false;
            } else if n == 1 {
                self.current_bold = true;
            } else if n == 22 {
                self.current_bold = false;
            } else {
                if let Some(c) = Color16::from_sgr_fg(n) {
                    self.current_fg = c;
                } else if let Some(c) = Color16::from_sgr_bg(n) {
                    self.current_bg = c;
                }
            }
            i = i + 1;
        }
    }

    fn erase_display(&mut self, mode: u16)
        requires
            old(self)@.wf(),
        ensures
            final(self)@ == old(self)@.erase_display(mode as nat),
            final(self)@.wf(),
    {
        let ghost v0 = self@;
        let ghost g0 = self@.grid;
        let cr = self.cursor_row;
        let cc = self.cursor_col;
        let cols = self.cols;
        let rows = self.rows;
        if rows == 0 {
            assert(self@.grid =~= v0.erase_display(mode as nat).grid);
            return;
        }
        if mode == 0 {
            self.clear_row(cr, cc, cols);
            let mut r = cr + 1;
            while r < rows
                invariant
                    self@.wf(),
                    same_but_grid(self@, v0),
                    v0.wf(),
                    g0 == v0.grid,
                    cr == v0.cursor_row,
                    cc == v0.cursor_col,
                    cols == v0.cols,
                    rows == v0.rows,
                    cr < r <= rows,
                    forall|k: int| 0 <= k < rows ==> #[trigger] self@.grid[k] == (
                        if k < cr { g0[k] }
                        else if k == cr { blank_span(g0[k], cc as int, cols as int) }
                        else if k < r { blank_span(g0[k], 0, cols as int) }
                        else { g0[k] }),
                decreases rows - r,
            {
                self.clear_row(r, 0, cols);
                r = r + 1;
            }
        } else if mode == 1 {
            let mut r: usize = 0;
            while r < cr
                invariant
                    self@.wf(),
                    same_but_grid(self@, v0),
                    v0.wf(),
                    g0 == v0.grid,
                    cr == v0.cursor_row,
                    cc == v0.cursor_col,
                    cols == v0.cols,
                    rows == v0.rows,
                    0 <= r <= cr,
                    forall|k: int| 0 <= k < rows ==> #[trigger] self@.grid[k] == (
                        if k < r { blank_span(g0[k], 0, cols as int) }
                        else { g0[k] }),
                decreases cr - r,
            {
                self.clear_row(r, 0, cols);
                r = r + 1;
            }
            let to = if cc < cols { cc + 1 } else { cols };
            self.clear_row(cr, 0, to);
            assert(blank_span(g0[cr as int], 0, to as int) =~= blank_span(g0[cr as int], 0, cc + 1));
        } else if mode == 2 || mode == 3 {
            let mut r: usize = 0;
            while r < rows
                invariant
                    self@.wf(),
                    same_but_grid(self@, v0),
                    v0.wf(),
                    g0 == v0.grid,
                    cols == v0.cols,
                    rows == v0.rows,
                    0 <= r <= rows,
                    forall|k: int| 0 <= k < rows ==> #[trigger] self@.grid[k] == (
                        if k < r { blank_span(g0[k], 0, cols as int) }
                        else { g0[k] }),
                decreases rows - r,
            {
                self.clear_row(r, 0, cols);
                r = r + 1;
            }
        }
        assert(self@.grid =~= v0.erase_display(mode as nat).grid);
    }

    fn erase_line(&mut self, mode: u16)
        requires
            old(self)@.wf(),
        ensures
            final(self)@ == old(self)@.erase_line(mode as nat),
            final(self)@.wf(),
    {
        let ghost g0 = self@.grid;
        let cr = self.cursor_row;
        let cc = self.cursor_col;
        let cols = self.cols;
        if self.rows == 0 {
            return;
        }
        if mode == 0 {
            self.clear_row(cr, cc, cols);
        } else if mode == 1 {
            let to = if cc < cols { cc + 1 } else { cols };
            self.clear_row(cr, 0, to);
            assert(blank_span(g0[cr as int], 0, to as int) =~= blank_span(g0[cr as int], 0, cc + 1));
        } else if mode == 2 {
            self.clear_row(cr, 0, cols);
        }
    }

    /// Whether `csi_dispatch` accepts `params` and `action` in this state:
    /// every parameter has a value, and the sequence stays on the grid (see
    /// [`TermView::csi_ok`]).
    pub fn csi_allowed(&self, params: &Vec<Vec<u16>>, action: char) -> (b: bool)
        requires
            self@.wf(),
        ensures
            b == (params_wf(params_view(params@)) && self@.csi_ok(params_view(params@), action)),
    {
        let ghost ps = params_view(params@);
        let mut i: usize = 0;
        while i < params.len()
            invariant
                i <= params.len(),
                ps == params_view(params@),
                forall|k: int| 0 <= k < i ==> #[trigger] ps[k].len() >= 1,
            decreases params.len() - i,
        {
            if params[i].len() == 0 {
                assert(ps[i as int].len() == 0);
                return false;
            }
            i = i + 1;
        }
        let p1: u16 = if params.len() > 0 {
            assert(ps[0].len() >= 1);
            params[0][0]
        } else {
            0
        };
        let cc = self.cursor_col;
        let rows = self.rows;
        let cols = self.cols;
        if action == 'B' {
            rows >= 1
        } else if action == 'C' {
            cols >= 1
        } else if action == 'H' || action == 'f' {
            rows >= 1 && cols >= 1
        } else if action == 'J' {
            rows >= 1 || ((p1 != 0 || cc >= cols) && (p1 != 1 || cols == 0))
        } else if action == 'K' {
            rows >= 1 || ((p1 != 0 || cc >= cols) && ((p1 != 1 && p1 != 2) || cols == 0))
        } else {
            true
        }
    }

    /// Apply a CSI sequence with parameters `params` and final character
    /// `action` (A B C D H f J K m; others are ignored).
    pub fn csi_dispatch(&mut self, params: &Vec<Vec<u16>>, _intermediates: &[u8], _ignore: bool, action: char)
        requires
            old(self)@.wf(),
            params_wf(params_view(params@)),
            old(self)@.csi_ok(params_view(params@), action),
        ensures
            final(self)@ == old(self)@.csi(params_view(params@), action),
            final(self)@.wf(),
    {
        let ghost ps = params_view(params@);
        let p1: u16 = if params.len() > 0 {
            assert(ps[0].len() >= 1);
            params[0][0]
        } else {
            0
        };
        let n: usize = if p1 >= 1 { p1 as usize } else { 1 };
        match action {
            'A' => {
                self.cursor_row = self.cursor_row.saturating_sub(n);
            },
            'B' => {
                let room = self.rows - 1 - self.cursor_row;
                self.cursor_row = if n >= room { self.rows - 1 } else { self.cursor_row + n };
            },
            'C' => {
                let last = self.cols - 1;
                self.cursor_col = if self.cursor_col >= last || n >= last - self.cursor_col {
                    last
                } else {
                    self.cursor_col + n
                };
            },
            'D' => {
                self.cursor_col = self.cursor_col.saturating_sub(n);
            },
            'H' | 'f' => {
                let pr: usize = if params.len() > 0 {
                    assert(ps[0].len() >= 1);
                    params[0][0] as usize
                } else {
                    1
                };
                let pc: usize = if params.len() > 1 {
                    assert(ps[1].len() >= 1);
                    params[1][0] as usize
                } else {
                    1
                };
                let row = if pr >= 1 { pr - 1 } else { 0 };
                let col = if pc >= 1 { pc - 1 } else { 0 };
                self.cursor_row = if row < self.rows - 1 { row } else { self.rows - 1 };
                self.cursor_col = if col < self.cols - 1 { col } else { self.cols - 1 };
            },
            'J' => {
                self.erase_display(p1);
            },
            'K' => {
                self.erase_line(p1);
            },
            'm' => {
                self.sgr(params);
            },
            _ => {},
        }
    }

    /// Resize the grid to `cols` x `rows`, keeping the cells that both sizes
    /// hold and clamping the cursor into the new grid.
    pub fn resize(&mut self, cols: usize, rows: usize)
        requires
            old(self)@.wf(),
        ensures
            final(self)@ == old(self)@.resize(cols as nat, rows as nat),
            final(self)@.wf(),
    {
        let ghost v0 = self@;
        let ghost g0 = self@.grid;
        let old_rows = self.rows;
        let old_cols = self.cols;
        if rows <= old_rows {
            self.grid.truncate(rows);
        } else {
            let mut r = old_rows;
            while r < rows
                invariant
                    old_rows <= r <= rows,
                    self.grid@.len() == r,
                    g0 == v0.grid,
                    v0.wf(),
                    self.cursor_row == old(self).cursor_row,
                    self.cursor_col == old(self).cursor_col,
                    self.current_fg == old(self).current_fg,
                    self.current_bg == old(self).current_bg,
                    self.current_bold == old(self).current_bold,
                    old_rows == v0.rows,
                    old_cols == v0.cols,
                    forall|k: int| 0 <= k < old_rows ==> #[trigger] self.grid@[k]@ == g0[k],
                    forall|k: int| old_rows <= k < r ==> #[trigger] self.grid@[k]@ == blank_row(cols as nat),
                decreases rows - r,
            {
                let row = blank_cells(cols);
                self.grid.push(row);
                r = r + 1;
            }
        }
        let mut r: usize = 0;
        while r < rows
            invariant
                0 <= r <= rows,
                self.grid@.len() == rows,
                g0 == v0.grid,
                v0.wf(),
                self.cursor_row == old(self).cursor_row,
                self.cursor_col == old(self).cursor_col,
                self.current_fg == old(self).current_fg,
                self.current_bg == old(self).current_bg,
                self.current_bold == old(self).current_bold,
                old_rows == v0.rows,
                old_cols == v0.cols,
                forall|k: int| 0 <= k < rows ==> #[trigger] self.grid@[k]@ == (
                    if k < r {
                        Seq::new(cols as nat, |c: int| if k < old_rows && c < old_cols { g0[k][c] } else { blank_cell() })
                    } else if k < old_rows {
                        g0[k]
                    } else {
                        blank_row(cols as nat)
                    }),
            decreases rows - r,
        {
            let ghost before = self.grid@[r as int]@;
            self.grid[r].resize(cols, Cell::blank());
            assert(self.grid@[r as int]@ =~= Seq::new(cols as nat, |c: int| if r < old_rows && c < old_cols { g0[r as int][c] } else { blank_cell() }));
            r = r + 1;
        }
        self.cols = cols;
        self.rows = rows;
        let last_row = if rows > 0 { rows - 1 } else { 0 };
        let last_col = if cols > 0 { cols - 1 } else { 0 };
        self.cursor_row = if self.cursor_row < last_row { self.cursor_row } else { last_row };
        self.cursor_col = if self.cursor_col < last_col { self.cursor_col } else { last_col };
        assert(self@.grid =~= v0.resize(cols as nat, rows as nat).grid);
    }
}

/// A well-formed grid of `cols` x `rows`.
pub open spec fn keeps_grid(t: TermView, cols: nat, rows: nat) -> bool {
    t.wf() && t.cols == cols && t.rows == rows
}

/// Line feed keeps a well-formed grid of the same size.
proof fn lemma_linefeed_keeps(t: TermView)
    requires
        t.wf(),
        t.sized(),
    ensures
        keeps_grid(t.linefeed(), t.cols, t.rows),
{
    if t.cursor_row + 1 >= t.rows {
        let g = t.grid.drop_first().push(blank_row(t.cols));
        assert forall|r: int| 0 <= r < t.rows implies #[trigger] g[r].len() == t.cols by {
            if r < t.rows - 1 {
                assert(g[r] == t.grid[r + 1]);
            }
        }
    }
}

/// Feeding bytes to a terminal whose grid has at least one row and one
/// column never fails and keeps its size: every token the tokenizer hands
/// over (a printable character, a C0 control byte, a CSI sequence whose
/// parameters each carry a value) is accepted, and after it the grid is
/// still well formed, with the same columns and rows, the cursor on a row
/// and at most one past the last column; a resize to at least one column
/// and one row keeps all of this.
pub proof fn law_sized_terminal_accepts_tokens(
    t: TermView,
    c: char,
    byte: u8,
    ps: Seq<Seq<u16>>,
    action: char,
    cols: nat,
    rows: nat,
)
    requires
        t.wf(),
        t.sized(),
        params_wf(ps),
        cols >= 1,
        rows >= 1,
    ensures
        t.execute_ok(byte),
        t.csi_ok(ps, action),
        keeps_grid(t.put_char(c), t.cols, t.rows),
        keeps_grid(t.execute(byte), t.cols, t.rows),
        keeps_grid(t.csi(ps, action), t.cols, t.rows),
        keeps_grid(t.resize(cols, rows), cols, rows),
        t.resize(cols, rows).sized(),
{
    lemma_linefeed_keeps(t);
    lemma_linefeed_keeps(TermView { cursor_col: 0, ..t });
    let s = if t.cursor_col >= t.cols { TermView { cursor_col: 0, ..t }.linefeed() } else { t };
    let cell = Cell { ch: c, fg: s.pen.fg, bg: s.pen.bg, bold: s.pen.bold };
    let g = s.grid.update(s.cursor_row as int, s.grid[s.cursor_row as int].update(s.cursor_col as int, cell));
    assert forall|r: int| 0 <= r < t.rows implies #[trigger] g[r].len() == t.cols by {
        assert(s.grid[r].len() == t.cols);
    }
    let p1 = param_or(ps, 0, 0);
    if action == 'J' {
        let e = t.erase_display(p1);
        assert forall|r: int| 0 <= r < t.rows implies #[trigger] e.grid[r].len() == t.cols by {
            assert(t.grid[r].len() == t.cols);
        }
    } else if action == 'K' {
        let e = t.erase_line(p1);
        assert forall|r: int| 0 <= r < t.rows implies #[trigger] e.grid[r].len() == t.cols by {
            assert(t.grid[r].len() == t.cols);
        }
    }
    let z = t.resize(cols, rows);
    assert forall|r: int| 0 <= r < rows implies #[trigger] z.grid[r].len() == cols by {}
}

/// What reaches a terminal: a printable character, a C0 control byte or a
/// CSI sequence, as the tokenizer reports them, or a resize.
pub enum Token {
    Print(char),
    Control(u8),
    Csi(Seq<Seq<u16>>, char),
    Resize(nat, nat),
}

/// A token the tokenizer or a caller can hand over: CSI parameters each
/// carry a value, and a resize asks for at least one column and one row.
pub open spec fn token_wf(tok: Token) -> bool {
    match tok {
        Token::Csi(ps, _) => params_wf(ps),
        Token::Resize(cols, rows) => cols >= 1 && rows >= 1,
        _ => true,
    }
}

impl TermView {
    /// What `print`, `execute`, `csi_dispatch` and `resize` require of the
    /// state before the token.
    pub open spec fn accepts(self, tok: Token) -> bool {
        match tok {
            Token::Print(_) => self.wf() && self.sized(),
            Token::Control(b) => self.wf() && self.execute_ok(b),
            Token::Csi(ps, a) => self.wf() && params_wf(ps) && self.csi_ok(ps, a),
            Token::Resize(_, _) => self.wf(),
        }
    }

    /// The state after the token.
    pub open spec fn apply(self, tok: Token) -> TermView {
        match tok {
            Token::Print(c) => self.put_char(c),
            Token::Control(b) => self.execute(b),
            Token::Csi(ps, a) => self.csi(ps, a),
            Token::Resize(cols, rows) => self.resize(cols, rows),
        }
    }
}

/// The state after the tokens `toks`, in order.
pub open spec fn run_tokens(t: TermView, toks: Seq<Token>) -> TermView
    decreases toks.len(),
{
    if toks.len() == 0 {
        t
    } else {
        run_tokens(t, toks.drop_last()).apply(toks.last())
    }
}

/// A terminal fed any sequence of tokens never refuses one: when its grid
/// starts well formed with at least one row and one column, each token
/// meets what its operation requires in the state it reaches, and the grid
/// stays well formed with at least one row and one column; without a
/// resize among the tokens it keeps its size.
pub proof fn law_feed_never_refuses(t: TermView, toks: Seq<Token>)
    requires
        t.wf(),
        t.sized(),
        forall|i: int| 0 <= i < toks.len() ==> token_wf(#[trigger] toks[i]),
    ensures
        forall|i: int| 0 <= i < toks.len() ==> #[trigger] run_tokens(t, toks.take(i)).accepts(toks[i]),
        run_tokens(t, toks).wf(),
        run_tokens(t, toks).sized(),
        (forall|i: int| 0 <= i < toks.len() ==> !(#[trigger] toks[i] is Resize))
            ==> run_tokens(t, toks).cols == t.cols && run_tokens(t, toks).rows == t.rows,
    decreases toks.len(),
{
    if toks.len() > 0 {
        let pre = toks.drop_last();
        assert(forall|i: int| 0 <= i < pre.len() ==> pre[i] == toks[i]);
        law_feed_never_refuses(t, pre);
        let u = run_tokens(t, pre);
        let tok = toks.last();
        assert(tok == toks[toks.len() - 1]);
        assert(token_wf(tok));
        match tok {
            Token::Print(c) => law_sized_terminal_accepts_tokens(u, c, 0, seq![], ' ', 1, 1),
            Token::Control(b) => law_sized_terminal_accepts_tokens(u, ' ', b, seq![], ' ', 1, 1),
            Token::Csi(ps, a) => law_sized_terminal_accepts_tokens(u, ' ', 0, ps, a, 1, 1),
            Token::Resize(cols, rows) => law_sized_terminal_accepts_tokens(u, ' ', 0, seq![], ' ', cols, rows),
        }
        assert forall|i: int| 0 <= i < toks.len() implies #[trigger] run_tokens(t, toks.take(i)).accepts(toks[i]) by {
            if i < pre.len() {
                assert(toks.take(i) =~= pre.take(i));
                assert(run_tokens(t, pre.take(i)).accepts(pre[i]));
            } else {
                assert(toks.take(i) =~= pre);
            }
        }
        if forall|i: int| 0 <= i < toks.len() ==> !(#[trigger] toks[i] is Resize) {
            assert(forall|i: int| 0 <= i < pre.len() ==> !(#[trigger] pre[i] is Resize));
        }
    }
}

/// A token of terminal output as the escape-sequence tokenizer reports it: a
/// printable character, a C0 control byte, or a CSI sequence with its
/// parameters and final character.
pub enum TermToken {
    Print(char),
    Control(u8),
    Csi(Vec<Vec<u16>>, char),
}

/// A token as a value of [`Token`].
pub open spec fn token_view(t: TermToken) -> Token {
    match t {
        TermToken::Print(c) => Token::Print(c),
        TermToken::Control(b) => Token::Control(b),
        TermToken::Csi(ps, a) => Token::Csi(params_view(ps@), a),
    }
}

/// The tokens `toks` as values of [`Token`].
pub open spec fn tokens_view(toks: Seq<TermToken>) -> Seq<Token> {
    toks.map_values(|t: TermToken| token_view(t))
}

/// Each of the tokens is accepted in the state the ones before it lead to.
pub open spec fn all_accepted(t: TermView, toks: Seq<Token>) -> bool {
    forall|i: int| 0 <= i < toks.len() ==> #[trigger] run_tokens(t, toks.take(i)).accepts(toks[i])
}

impl TerminalState {
    /// Whether the state can take `tok` (see [`TermView::accepts`]).
    pub fn accepts_token(&self, tok: &TermToken) -> (b: bool)
        requires
            self@.wf(),
        ensures
            b == self@.accepts(token_view(*tok)),
    {
        match tok {
            TermToken::Print(_) => self.rows >= 1 && self.cols >= 1,
            TermToken::Control(b) => !(*b == 0x0Au8 || *b == 0x0Bu8 || *b == 0x0Cu8) || self.rows >= 1,
            TermToken::Csi(ps, a) => self.csi_allowed(ps, *a),
        }
    }

    /// Feed the tokens of a stretch of output, in order. At the first token
    /// the state cannot take (a character on a grid without cells, a move
    /// off the grid), nothing more is applied and its index is returned.
    /// On a grid with at least one row and one column every token is taken.
    pub fn feed_tokens(&mut self, toks: &Vec<TermToken>) -> (r: Result<(), usize>)
        requires
            old(self)@.wf(),
        ensures
            final(self)@.wf(),
            match r {
                Ok(()) => {
                    &&& all_accepted(old(self)@, tokens_view(toks@))
                    &&& final(self)@ == run_tokens(old(self)@, tokens_view(toks@))
                },
                Err(k) => {
                    &&& k < toks@.len()
                    &&& all_accepted(old(self)@, tokens_view(toks@).take(k as int))
                    &&& final(self)@ == run_tokens(old(self)@, tokens_view(toks@).take(k as int))
                    &&& !final(self)@.accepts(tokens_view(toks@)[k as int])
                },
            },
            old(self)@.sized() && (forall|i: int| 0 <= i < toks@.len() ==> token_wf(#[trigger] tokens_view(toks@)[i]))
                ==> r is Ok && final(self)@.sized() && final(self)@.cols == old(self)@.cols
                    && final(self)@.rows == old(self)@.rows,
    {
        let ghost v0 = self@;
        let ghost ts = tokens_view(toks@);
        let no_intermediates: Vec<u8> = Vec::new();
        let mut i: usize = 0;
        assert(ts.take(0) =~= Seq::<Token>::empty());
        while i < toks.len()
            invariant
                i <= toks@.len(),
                v0 == old(self)@,
                v0.wf(),
                ts == tokens_view(toks@),
                ts.len() == toks@.len(),
                self@.wf(),
                self@ == run_tokens(v0, ts.take(i as int)),
                all_accepted(v0, ts.take(i as int)),
            decreases toks.len() - i,
        {
            assert(ts[i as int] == token_view(toks@[i as int]));
            if !self.accepts_token(&toks[i]) {
                proof {
                    if v0.sized() && (forall|k: int| 0 <= k < toks@.len() ==> token_wf(#[trigger] tokens_view(toks@)[k])) {
                        law_feed_never_refuses(v0, ts);
                        assert(run_tokens(v0, ts.take(i as int)).accepts(ts[i as int]));
                    }
                }
                return Err(i);
            }
            match &toks[i] {
                TermToken::Print(c) => self.print(*c),
                TermToken::Control(b) => self.execute(*b),
                TermToken::Csi(ps, a) => self.csi_dispatch(ps, no_intermediates.as_slice(), false, *a),
            }
            let ghost pre = ts.take(i as int);
            assert(ts.take(i + 1).drop_last() =~= pre);
            assert(ts.take(i + 1).last() == ts[i as int]);
            assert forall|j: int| 0 <= j < i + 1 implies #[trigger] run_tokens(v0, ts.take(i + 1).take(j)).accepts(ts.take(i + 1)[j]) by {
                if j < i {
                    assert(ts.take(i + 1).take(j) =~= pre.take(j));
                    assert(run_tokens(v0, pre.take(j)).accepts(pre[j]));
                } else {
                    assert(ts.take(i + 1).take(j) =~= pre);
                }
            }
            i = i + 1;
        }
        assert(ts.take(toks.len() as int) =~= ts);
        proof {
            if v0.sized() && (forall|i: int| 0 <= i < toks@.len() ==> token_wf(#[trigger] tokens_view(toks@)[i])) {
                law_feed_never_refuses(v0, ts);
                assert forall|k: int| 0 <= k < ts.len() implies !(#[trigger] ts[k] is Resize) by {
                    assert(ts[k] == token_view(toks@[k]));
                }
            }
        }
        Ok(())
    }
}

/// Erasing in a line (CSI K) touches only the cursor's row, moves nothing,
/// and on that row blanks exactly: with parameter 0 (or none) the cells
/// from the cursor to the end, with 1 those from the start through the
/// cursor, with 2 all of them; every other cell keeps what it held.
pub proof fn law_erase_in_line(t: TermView, ps: Seq<Seq<u16>>)
    requires
        t.wf(),
        t.rows >= 1,
        params_wf(ps),
    ensures
        ({
            let u = t.csi(ps, 'K');
            let p = param_or(ps, 0, 0);
            let r = t.cursor_row as int;
            let cc = t.cursor_col as int;
            &&& u.cursor_row == t.cursor_row && u.cursor_col == t.cursor_col
            &&& u.cols == t.cols && u.rows == t.rows && u.pen == t.pen
            &&& u.wf()
            &&& forall|rr: int| 0 <= rr < t.rows && rr != r ==> #[trigger] u.grid[rr] == t.grid[rr]
            &&& forall|c: int| 0 <= c < t.cols ==> #[trigger] u.grid[r][c] == (
                if (p == 0 && c >= cc) || (p == 1 && c <= cc) || p == 2 { blank_cell() } else { t.grid[r][c] })
        }),
{
    let u = t.csi(ps, 'K');
    let r = t.cursor_row as int;
    assert(t.grid[r].len() == t.cols);
    assert forall|rr: int| 0 <= rr < t.rows implies #[trigger] u.grid[rr].len() == t.cols by {
        assert(t.grid[rr].len() == t.cols);
    }
}

/// Erasing in the display (CSI J) moves nothing and blanks exactly: with
/// parameter 0 (or none) the cells from the cursor to the end of the
/// screen, with 1 those from the start of the screen through the cursor,
/// with 2 or 3 all of them; every other cell keeps what it held.
pub proof fn law_erase_in_display(t: TermView, ps: Seq<Seq<u16>>)
    requires
        t.wf(),
        t.rows >= 1,
        params_wf(ps),
    ensures
        ({
            let u = t.csi(ps, 'J');
            let p = param_or(ps, 0, 0);
            let r = t.cursor_row as int;
            let cc = t.cursor_col as int;
            &&& u.cursor_row == t.cursor_row && u.cursor_col == t.cursor_col
            &&& u.cols == t.cols && u.rows == t.rows && u.pen == t.pen
            &&& u.wf()
            &&& forall|rr: int, c: int| 0 <= rr < t.rows && 0 <= c < t.cols ==> #[trigger] u.grid[rr][c] == (
                if (p == 0 && (rr > r || (rr == r && c >= cc)))
                    || (p == 1 && (rr < r || (rr == r && c <= cc)))
                    || p == 2 || p == 3 { blank_cell() } else { t.grid[rr][c] })
        }),
{
    let u = t.csi(ps, 'J');
    assert forall|rr: int| 0 <= rr < t.rows implies #[trigger] u.grid[rr].len() == t.cols by {
        assert(t.grid[rr].len() == t.cols);
    }
}

/// The cursor keys of CSI: A moves up, B down, C right and D left, each by
/// its count (one when none is given), never past the edge of the grid, and
/// along one axis only; H puts the cursor at the (1-based) row and column
/// given, at the top left when none are, clamped to the grid. None of them
/// changes a cell.
pub proof fn law_cursor_movement(t: TermView, ps: Seq<Seq<u16>>)
    requires
        t.wf(),
        t.sized(),
        t.cursor_col < t.cols,
        params_wf(ps),
    ensures
        ({
            let n: int = if param_or(ps, 0, 0) >= 1 { param_or(ps, 0, 0) as int } else { 1 };
            let r = t.cursor_row as int;
            let c = t.cursor_col as int;
            &&& t.csi(ps, 'A').cursor_row == (if r >= n { r - n } else { 0 }) && t.csi(ps, 'A').cursor_col == c
            &&& t.csi(ps, 'B').cursor_row == (if r + n < t.rows { r + n } else { t.rows - 1 }) && t.csi(ps, 'B').cursor_col == c
            &&& t.csi(ps, 'C').cursor_col == (if c + n < t.cols { c + n } else { t.cols - 1 }) && t.csi(ps, 'C').cursor_row == r
            &&& t.csi(ps, 'D').cursor_col == (if c >= n { c - n } else { 0 }) && t.csi(ps, 'D').cursor_row == r
            &&& t.csi(ps, 'A').grid == t.grid && t.csi(ps, 'B').grid == t.grid
            &&& t.csi(ps, 'C').grid == t.grid && t.csi(ps, 'D').grid == t.grid && t.csi(ps, 'H').grid == t.grid
            &&& ps.len() == 0 ==> t.csi(ps, 'H').cursor_row == 0 && t.csi(ps, 'H').cursor_col == 0
            &&& (ps.len() >= 2 && 1 <= ps[0][0] <= t.rows && 1 <= ps[1][0] <= t.cols) ==>
                t.csi(ps, 'H').cursor_row == ps[0][0] - 1 && t.csi(ps, 'H').cursor_col == ps[1][0] - 1
        }),
{
}

/// Printing a character writes it, in the current rendition, at the cursor
/// and moves the cursor one column right; no other cell changes. When the
/// cursor waits past the last column, the character goes to the start of
/// the next row instead (the grid scrolls up one row at the bottom).
pub proof fn law_print(t: TermView, ch: char)
    requires
        t.wf(),
        t.sized(),
    ensures
        ({
            let u = t.put_char(ch);
            let r = t.cursor_row as int;
            let c = t.cursor_col as int;
            let cell = Cell { ch: ch, fg: t.pen.fg, bg: t.pen.bg, bold: t.pen.bold };
            &&& u.cols == t.cols && u.rows == t.rows && u.pen == t.pen
            &&& c < t.cols ==> {
                &&& u.cursor_row == r && u.cursor_col == c + 1
                &&& u.grid[r][c] == cell
                &&& forall|rr: int, cc: int| 0 <= rr < t.rows && 0 <= cc < t.cols && (rr != r || cc != c)
                    ==> #[trigger] u.grid[rr][cc] == t.grid[rr][cc]
            }
            &&& (c == t.cols && r + 1 < t.rows) ==> {
                &&& u.cursor_row == r + 1 && u.cursor_col == 1
                &&& u.grid[r + 1][0] == cell
                &&& forall|rr: int, cc: int| 0 <= rr < t.rows && 0 <= cc < t.cols && (rr != r + 1 || cc != 0)
                    ==> #[trigger] u.grid[rr][cc] == t.grid[rr][cc]
            }
            &&& (c == t.cols && r + 1 == t.rows) ==> {
                &&& u.cursor_row == r && u.cursor_col == 1
                &&& u.grid[r][0] == cell
                &&& forall|cc: int| 1 <= cc < t.cols ==> #[trigger] u.grid[r][cc] == blank_cell()
                &&& forall|rr: int| 0 <= rr < r ==> #[trigger] u.grid[rr] == t.grid[rr + 1]
            }
        }),
{
    let r = t.cursor_row as int;
    assert(t.grid[r].len() == t.cols);
    if r + 1 < t.rows {
        assert(t.grid[r + 1].len() == t.cols);
    }
}

/// The control bytes: carriage return moves to the first column, backspace
/// one column left (not past the first), tab to the next multiple of eight
/// (at most the last column); line feed, vertical tab and form feed move
/// one row down in the same column, and at the bottom row scroll the grid
/// up by one row and blank the new last row. None of them writes a cell
/// otherwise, and other bytes change nothing.
pub proof fn law_control_bytes(t: TermView, byte: u8)
    requires
        t.wf(),
        t.sized(),
    ensures
        ({
            let u = t.execute(byte);
            let r = t.cursor_row as int;
            let c = t.cursor_col as int;
            &&& u.cols == t.cols && u.rows == t.rows && u.pen == t.pen
            &&& byte == 0x0D ==> u.cursor_col == 0 && u.cursor_row == r && u.grid == t.grid
            &&& byte == 0x08 ==> u.cursor_col == (if c >= 1 { c - 1 } else { 0 }) && u.cursor_row == r && u.grid == t.grid
            &&& byte == 0x09 ==> u.cursor_row == r && u.grid == t.grid && u.cursor_col == (
                if (c / 8 + 1) * 8 < t.cols - 1 { (c / 8 + 1) * 8 } else { t.cols - 1 })
            &&& (byte == 0x0A || byte == 0x0B || byte == 0x0C) ==> {
                &&& u.cursor_col == c
                &&& r + 1 < t.rows ==> u.cursor_row == r + 1 && u.grid == t.grid
                &&& r + 1 == t.rows ==> {
                    &&& u.cursor_row == r
                    &&& forall|rr: int| 0 <= rr < r ==> #[trigger] u.grid[rr] == t.grid[rr + 1]
                    &&& forall|cc: int| 0 <= cc < t.cols ==> #[trigger] u.grid[r][cc] == blank_cell()
                }
            }
            &&& !(byte == 0x08 || byte == 0x09 || byte == 0x0A || byte == 0x0B || byte == 0x0C || byte == 0x0D) ==> u == t
        }),
{
}

/// The graphic rendition: code 0 restores the default colours and plain
/// weight, 1 sets bold and 22 clears it, 30 to 37 and 90 to 97 choose the
/// foreground, 40 to 47 and 100 to 107 the background, 39 and 49 the
/// default ones; an extended colour (`38;5;N`, `48;5;N`, `38;2;R;G;B`,
/// `48;2;R;G;B`) leaves the rendition as it was.
pub proof fn law_graphic_rendition(p: Pen, n: u16, r: u16, g: u16, b: u16)
    ensures
        sgr_all(p, seq![seq![0u16]]) == (Pen { fg: Color16::Default, bg: Color16::Default, bold: false }),
        sgr_all(p, seq![seq![1u16]]) == (Pen { bold: true, ..p }),
        sgr_all(p, seq![seq![22u16]]) == (Pen { bold: false, ..p }),
        sgr_all(p, seq![seq![30u16]]) == (Pen { fg: Color16::Black, ..p }),
        sgr_all(p, seq![seq![31u16]]) == (Pen { fg: Color16::Red, ..p }),
        sgr_all(p, seq![seq![32u16]]) == (Pen { fg: Color16::Green, ..p }),
        sgr_all(p, seq![seq![33u16]]) == (Pen { fg: Color16::Yellow, ..p }),
        sgr_all(p, seq![seq![34u16]]) == (Pen { fg: Color16::Blue, ..p }),
        sgr_all(p, seq![seq![35u16]]) == (Pen { fg: Color16::Magenta, ..p }),
        sgr_all(p, seq![seq![36u16]]) == (Pen { fg: Color16::Cyan, ..p }),
        sgr_all(p, seq![seq![37u16]]) == (Pen { fg: Color16::White, ..p }),
        sgr_all(p, seq![seq![39u16]]) == (Pen { fg: Color16::Default, ..p }),
        sgr_all(p, seq![seq![40u16]]) == (Pen { bg: Color16::Black, ..p }),
        sgr_all(p, seq![seq![41u16]]) == (Pen { bg: Color16::Red, ..p }),
        sgr_all(p, seq![seq![47u16]]) == (Pen { bg: Color16::White, ..p }),
        sgr_all(p, seq![seq![49u16]]) == (Pen { bg: Color16::Default, ..p }),
        sgr_all(p, seq![seq![91u16]]) == (Pen { fg: Color16::BrightRed, ..p }),
        sgr_all(p, seq![seq![97u16]]) == (Pen { fg: Color16::BrightWhite, ..p }),
        sgr_all(p, seq![seq![101u16]]) == (Pen { bg: Color16::BrightRed, ..p }),
        sgr_all(p, seq![seq![107u16]]) == (Pen { bg: Color16::BrightWhite, ..p }),
        sgr_all(p, seq![seq![38u16], seq![5u16], seq![n]]) == p,
        sgr_all(p, seq![seq![48u16], seq![5u16], seq![n]]) == p,
        sgr_all(p, seq![seq![38u16], seq![2u16], seq![r], seq![g], seq![b]]) == p,
        sgr_all(p, seq![seq![48u16], seq![2u16], seq![r], seq![g], seq![b]]) == p,
        sgr_all(p, seq![seq![38u16], seq![5u16], seq![n], seq![1u16]]) == (Pen { bold: true, ..p }),
{
    reveal_with_fuel(sgr_from, 3);
}

} // verus!

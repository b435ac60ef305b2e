//! What the terminal pane draws from the cell grid, and what it sends to the
//! shell: the bytes of a key press and the command that changes directory.

use vstd::prelude::*;
use vstd::string::StringSliceAdditionalSpecFns;
use crate::keys::Key;
use crate::paths::push_str;
use crate::terminal_state::{rgb_of, Cell, Color16, TerminalState};
use crate::text::{chars_of, push_char};

verus! {

/// A colour made lighter for bold text: each channel raised by 40, stopping
/// at 255.
pub open spec fn brighten_spec(c: (u8, u8, u8)) -> (u8, u8, u8) {
    (
        (if c.0 + 40 > 255 { 255 } else { c.0 + 40 }) as u8,
        (if c.1 + 40 > 255 { 255 } else { c.1 + 40 }) as u8,
        (if c.2 + 40 > 255 { 255 } else { c.2 + 40 }) as u8,
    )
}

/// Lighten a colour for bold text (see [`brighten_spec`]).
pub fn brighten(c: (u8, u8, u8)) -> (r: (u8, u8, u8))
    ensures
        r == brighten_spec(c),
{
    (c.0.saturating_add(40), c.1.saturating_add(40), c.2.saturating_add(40))
}

/// The colour a cell's character is drawn in: its foreground, lightened when
/// bold.
pub open spec fn text_rgb(c: Cell) -> (u8, u8, u8) {
    if c.bold { brighten_spec(rgb_of(c.fg)) } else { rgb_of(c.fg) }
}

/// The block colour behind the cursor.
pub open spec fn cursor_block_rgb() -> (u8, u8, u8) {
    (200, 200, 200)
}

/// The colour a cell's background is painted in: the cursor block, the
/// cell's own background, or none (the pane shows through) for the default.
pub open spec fn background_rgb(c: Cell, is_cursor: bool) -> Option<(u8, u8, u8)> {
    if is_cursor {
        Some(cursor_block_rgb())
    } else if c.bg != Color16::Default {
        Some(rgb_of(c.bg))
    } else {
        None
    }
}

/// The characters of a row of cells.
pub open spec fn row_chars(cells: Seq<Cell>) -> Seq<char> {
    cells.map_values(|c: Cell| c.ch)
}

/// The columns of `cells` from `first` to `last` hold all its non-space
/// characters, and those two columns hold one each.
pub open spec fn is_text_span(cells: Seq<Cell>, first: int, last: int) -> bool {
    &&& 0 <= first <= last < cells.len()
    &&& cells[first].ch != ' '
    &&& cells[last].ch != ' '
    &&& forall|k: int| 0 <= k < first ==> #[trigger] cells[k].ch == ' '
    &&& forall|k: int| last < k < cells.len() ==> #[trigger] cells[k].ch == ' '
}

impl TerminalState {
    /// The colour behind the cell at `row`, `col` (see [`background_rgb`]).
    pub fn cell_background(&self, row: usize, col: usize) -> (r: Option<(u8, u8, u8)>)
        requires
            self@.wf(),
            row < self@.rows,
            col < self@.cols,
        ensures
            r == background_rgb(self@.grid[row as int][col as int],
                row == self@.cursor_row && col == self@.cursor_col),
    {
        let (cr, cc) = self.cursor();
        if row == cr && col == cc {
            return Some((200, 200, 200));
        }
        let cell = self.cell(row, col);
        if cell.bg != Color16::Default {
            Some(cell.bg.to_rgb())
        } else {
            None
        }
    }

    /// The characters of row `row`.
    pub fn row_text(&self, row: usize) -> (s: String)
        requires
            self@.wf(),
            row < self@.rows,
        ensures
            s@ == row_chars(self@.grid[row as int]),
    {
        let (cols, _) = self.grid_size();
        let mut s = String::new();
        let mut c: usize = 0;
        while c < cols
            invariant
                self@.wf(),
                row < self@.rows,
                cols == self@.cols,
                c <= cols,
                s@ == row_chars(self@.grid[row as int]).take(c as int),
            decreases cols - c,
        {
            let ch = self.cell(row, c).ch;
            push_char(&mut s, ch);
            c = c + 1;
            assert(s@ =~= row_chars(self@.grid[row as int]).take(c as int));
        }
        assert(row_chars(self@.grid[row as int]).take(cols as int) =~= row_chars(self@.grid[row as int]));
        s
    }

    /// The first and last columns of row `row` that hold a non-space
    /// character, or none for a blank row.
    pub fn row_span(&self, row: usize) -> (r: Option<(usize, usize)>)
        requires
            self@.wf(),
            row < self@.rows,
        ensures
            match r {
                Some((f, l)) => is_text_span(self@.grid[row as int], f as int, l as int),
                None => forall|k: int| 0 <= k < self@.cols ==> #[trigger] self@.grid[row as int][k].ch == ' ',
            },
    {
        let (cols, _) = self.grid_size();
        let ghost cells = self@.grid[row as int];
        let mut first: Option<usize> = None;
        let mut last: usize = 0;
        let mut c: usize = 0;
        while c < cols
            invariant
                self@.wf(),
                row < self@.rows,
                cols == self@.cols,
                cells == self@.grid[row as int],
                cells.len() == cols,
                c <= cols,
                first is None ==> forall|k: int| 0 <= k < c ==> #[trigger] cells[k].ch == ' ',
                first matches Some(f) ==> (f <= last < c && cells[f as int].ch != ' ' && cells[last as int].ch != ' '
                    && (forall|k: int| 0 <= k < f ==> #[trigger] cells[k].ch == ' ')
                    && (forall|k: int| last < k < c ==> #[trigger] cells[k].ch == ' ')),
            decreases cols - c,
        {
            let ch = self.cell(row, c).ch;
            if ch != ' ' {
                if first.is_none() {
                    first = Some(c);
                }
                last = c;
            }
            c = c + 1;
        }
        match first {
            Some(f) => Some((f, last)),
            None => None,
        }
    }

    /// The character shown inverted at the cursor, when the cursor is on the
    /// grid over a non-space character.
    pub fn cursor_glyph(&self) -> (r: Option<char>)
        requires
            self@.wf(),
        ensures
            r == (if self@.cursor_row < self@.rows && self@.cursor_col < self@.cols
                && self@.grid[self@.cursor_row as int][self@.cursor_col as int].ch != ' ' {
                Some(self@.grid[self@.cursor_row as int][self@.cursor_col as int].ch)
            } else {
                None::<char>
            }),
    {
        let (cr, cc) = self.cursor();
        let (cols, rows) = self.grid_size();
        if cr < rows && cc < cols {
            let ch = self.cell(cr, cc).ch;
            if ch != ' ' {
                return Some(ch);
            }
        }
        None
    }
}

/// The colour a row's text is drawn in: that of its first non-space cell.
pub fn text_color(c: &Cell) -> (r: (u8, u8, u8))
    ensures
        r == text_rgb(*c),
{
    if c.bold { brighten(c.fg.to_rgb()) } else { c.fg.to_rgb() }
}

/// The bytes a key press sends to the shell: the fixed sequences of Enter,
/// BackSpace, Tab, Escape, the arrows, Home, End, Delete and the page keys;
/// with Ctrl, the control code of a typed ASCII letter; otherwise the typed
/// text; nothing for a key that types nothing.
pub open spec fn key_bytes_spec(key: Key, ctrl: bool, text: Option<Seq<char>>, text_bytes: Seq<u8>) -> Option<Seq<u8>> {
    match key {
        Key::Return | Key::KpEnter => Some(seq![0x0du8]),
        Key::BackSpace => Some(seq![0x7fu8]),
        Key::Tab => Some(seq![0x09u8]),
        Key::Escape => Some(seq![0x1bu8]),
        Key::Up => Some(seq![0x1bu8, 0x5bu8, 0x41u8]),
        Key::Down => Some(seq![0x1bu8, 0x5bu8, 0x42u8]),
        Key::Right => Some(seq![0x1bu8, 0x5bu8, 0x43u8]),
        Key::Left => Some(seq![0x1bu8, 0x5bu8, 0x44u8]),
        Key::Home => Some(seq![0x1bu8, 0x5bu8, 0x48u8]),
        Key::End => Some(seq![0x1bu8, 0x5bu8, 0x46u8]),
        Key::Delete => Some(seq![0x1bu8, 0x5bu8, 0x33u8, 0x7eu8]),
        Key::PageUp => Some(seq![0x1bu8, 0x5bu8, 0x35u8, 0x7eu8]),
        Key::PageDown => Some(seq![0x1bu8, 0x5bu8, 0x36u8, 0x7eu8]),
        _ => match text {
            None => None,
            Some(t) => if ctrl && t.len() > 0 && ascii_letter(t[0]) {
                Some(seq![control_code(t[0])])
            } else {
                Some(text_bytes)
            },
        },
    }
}

/// An ASCII letter, either case.
pub open spec fn ascii_letter(c: char) -> bool {
    ('a' <= c && c <= 'z') || ('A' <= c && c <= 'Z')
}

/// The control code Ctrl gives with a letter: 1 for A, up to 26 for Z.
pub open spec fn control_code(c: char) -> u8 {
    if 'a' <= c && c <= 'z' { ((c as u32) - 0x60) as u8 } else { ((c as u32) - 0x40) as u8 }
}

fn bytes_of(s: &str) -> (v: Vec<u8>)
    ensures
        v@ == s.spec_bytes(),
{
    let b = s.as_bytes();
    let mut v: Vec<u8> = Vec::new();
    let mut i: usize = 0;
    while i < b.len()
        invariant
            i <= b.len(),
            b@ == s.spec_bytes(),
            v@ == b@.take(i as int),
        decreases b.len() - i,
    {
        v.push(b[i]);
        i = i + 1;
        assert(v@ =~= b@.take(i as int));
    }
    assert(b@.take(b.len() as int) =~= b@);
    v
}

/// The bytes a key press sends to the shell (see [`key_bytes_spec`]).
pub fn key_to_bytes(key: Key, ctrl: bool, text: Option<&str>) -> (r: Option<Vec<u8>>)
    ensures
        match r {
            Some(v) => key_bytes_spec(key, ctrl, match text { Some(t) => Some(t@), None => None },
                match text { Some(t) => t.spec_bytes(), None => Seq::empty() }) == Some(v@),
            None => key_bytes_spec(key, ctrl, match text { Some(t) => Some(t@), None => None },
                match text { Some(t) => t.spec_bytes(), None => Seq::empty() }) is None,
        },
{
    let fixed: Option<Vec<u8>> = match key {
        Key::Return | Key::KpEnter => Some(vec![0x0du8]),
        Key::BackSpace => Some(vec![0x7fu8]),
        Key::Tab => Some(vec![0x09u8]),
        Key::Escape => Some(vec![0x1bu8]),
        Key::Up => Some(vec![0x1bu8, 0x5bu8, 0x41u8]),
        Key::Down => Some(vec![0x1bu8, 0x5bu8, 0x42u8]),
        Key::Right => Some(vec![0x1bu8, 0x5bu8, 0x43u8]),
        Key::Left => Some(vec![0x1bu8, 0x5bu8, 0x44u8]),
        Key::Home => Some(vec![0x1bu8, 0x5bu8, 0x48u8]),
        Key::End => Some(vec![0x1bu8, 0x5bu8, 0x46u8]),
        Key::Delete => Some(vec![0x1bu8, 0x5bu8, 0x33u8, 0x7eu8]),
        Key::PageUp => Some(vec![0x1bu8, 0x5bu8, 0x35u8, 0x7eu8]),
        Key::PageDown => Some(vec![0x1bu8, 0x5bu8, 0x36u8, 0x7eu8]),
        _ => None,
    };
    if fixed.is_some() {
        proof {
            let v = fixed->0;
            assert(v@ =~= key_bytes_spec(key, ctrl, match text { Some(t) => Some(t@), None => None },
                match text { Some(t) => t.spec_bytes(), None => Seq::empty() })->0);
        }
        return fixed;
    }
    match text {
        None => None,
        Some(t) => {
            let cs = chars_of(t);
            if ctrl && cs.len() > 0 {
                let c = cs[0];
                if 'a' <= c && c <= 'z' {
                    let code = ((c as u32) - 0x60) as u8;
                    let v = vec![code];
                    assert(v@ =~= seq![control_code(t@[0])]);
                    return Some(v);
                } else if 'A' <= c && c <= 'Z' {
                    let code = ((c as u32) - 0x40) as u8;
                    let v = vec![code];
                    assert(v@ =~= seq![control_code(t@[0])]);
                    return Some(v);
                }
            }
            Some(bytes_of(t))
        },
    }
}

/// `s` with each single quote written as `'\''`, so that it can stand
/// between single quotes in a shell command.
pub open spec fn quote_escaped(s: Seq<char>) -> Seq<char>
    decreases s.len(),
{
    if s.len() == 0 {
        Seq::empty()
    } else {
        quote_escaped(s.drop_last()) + (if s.last() == '\'' { seq!['\'', '\\', '\'', '\''] } else { seq![s.last()] })
    }
}

/// The shell command that changes to `path`: `cd '<path>'` and a newline.
pub open spec fn cd_command_spec(path: Seq<char>) -> Seq<char> {
    seq!['c', 'd', ' ', '\''] + quote_escaped(path) + seq!['\'', '\n']
}

/// The shell command that changes to `path` (see [`cd_command_spec`]).
pub fn cd_command(path: &str) -> (s: String)
    ensures
        s@ == cd_command_spec(path@),
{
    let cs = chars_of(path);
    let mut s = String::new();
    push_char(&mut s, 'c');
    push_char(&mut s, 'd');
    push_char(&mut s, ' ');
    push_char(&mut s, '\'');
    let ghost head = s@;
    let mut i: usize = 0;
    while i < cs.len()
        invariant
            i <= cs.len(),
            cs@ == path@,
            head == seq!['c', 'd', ' ', '\''],
            s@ == head + quote_escaped(cs@.take(i as int)),
        decreases cs.len() - i,
    {
        let c = cs[i];
        assert(cs@.take(i + 1).drop_last() =~= cs@.take(i as int));
        assert(cs@.take(i + 1).last() == c);
        if c == '\'' {
            push_char(&mut s, '\'');
            push_char(&mut s, '\\');
            push_char(&mut s, '\'');
            push_char(&mut s, '\'');
        } else {
            push_char(&mut s, c);
        }
        i = i + 1;
        assert(s@ =~= head + quote_escaped(cs@.take(i as int)));
    }
    assert(cs@.take(cs.len() as int) =~= cs@);
    push_char(&mut s, '\'');
    push_char(&mut s, '\n');
    assert(s@ =~= cd_command_spec(path@));
    s
}


/// Quote removal of a shell word `s`, as a POSIX shell does it, `quoted`
/// telling whether a single quote is open: inside single quotes every
/// character stands for itself up to the closing quote; outside, a single
/// quote opens quoting and a backslash takes the next character as it is.
/// None when a quote is left open.
pub open spec fn sh_word(s: Seq<char>, quoted: bool) -> Option<Seq<char>>
    decreases s.len(),
{
    if s.len() == 0 {
        if quoted { None } else { Some(Seq::empty()) }
    } else if quoted {
        if s[0] == '\'' {
            sh_word(s.skip(1), false)
        } else {
            match sh_word(s.skip(1), true) {
                Some(r) => Some(seq![s[0]] + r),
                None => None,
            }
        }
    } else if s[0] == '\'' {
        sh_word(s.skip(1), true)
    } else if s[0] == '\\' && s.len() > 1 {
        match sh_word(s.skip(2), false) {
            Some(r) => Some(seq![s[1]] + r),
            None => None,
        }
    } else {
        match sh_word(s.skip(1), false) {
            Some(r) => Some(seq![s[0]] + r),
            None => None,
        }
    }
}

/// `p` put in front of what `r` holds.
pub open spec fn prefixed(p: Seq<char>, r: Option<Seq<char>>) -> Option<Seq<char>> {
    match r {
        Some(w) => Some(p + w),
        None => None,
    }
}

/// Inside single quotes, the escaped text of `p` reads back as `p`.
proof fn lemma_sh_quoted(p: Seq<char>, t: Seq<char>)
    ensures
        sh_word(quote_escaped(p) + t, true) == prefixed(p, sh_word(t, true)),
    decreases p.len(),
{
    if p.len() == 0 {
        assert(quote_escaped(p) + t =~= t);
        assert(p + Seq::<char>::empty() =~= p);
        match sh_word(t, true) {
            Some(w) => assert(p + w =~= w),
            None => {},
        }
    } else {
        let c = p.last();
        let init = p.drop_last();
        let piece = if c == '\'' { seq!['\'', '\\', '\'', '\''] } else { seq![c] };
        assert(quote_escaped(p) + t =~= quote_escaped(init) + (piece + t));
        lemma_sh_quoted(init, piece + t);
        if c == '\'' {
            let u = piece + t;
            let v = u.skip(1);
            let x = v.skip(2);
            assert(u[0] == '\'');
            assert(sh_word(u, true) == sh_word(v, false));
            assert(v =~= seq!['\\', '\'', '\''] + t);
            assert(v[0] == '\\' && v[1] == '\'' && v.len() > 1);
            assert(x =~= seq!['\''] + t);
            assert(x[0] == '\'' && x.len() > 0);
            assert(x.skip(1) =~= t);
            assert(sh_word(x, false) == sh_word(t, true));
            assert(sh_word(v, false) == prefixed(seq![v[1]], sh_word(x, false)));
            assert(sh_word(u, true) == prefixed(seq![c], sh_word(t, true)));
        } else {
            assert((piece + t).skip(1) =~= t);
            assert(sh_word(piece + t, true) == prefixed(seq![c], sh_word(t, true)));
        }
        match sh_word(t, true) {
            Some(w) => assert(init + (seq![c] + w) =~= p + w),
            None => {},
        }
    }
}

/// The word `cd_command` gives the shell for `path`: the escaped path in
/// single quotes.
pub open spec fn cd_word(path: Seq<char>) -> Seq<char> {
    seq!['\''] + quote_escaped(path) + seq!['\'']
}

/// The `cd` command names `path` exactly, whatever characters it holds:
/// it is `cd `, one word and a newline, and the shell's quote removal
/// turns that word back into `path`.
pub proof fn law_cd_command_names_path(path: Seq<char>)
    ensures
        cd_command_spec(path) == seq!['c', 'd', ' '] + cd_word(path) + seq!['\n'],
        sh_word(cd_word(path), false) == Some(path),
{
    assert(cd_command_spec(path) =~= seq!['c', 'd', ' '] + cd_word(path) + seq!['\n']);
    let w = cd_word(path);
    assert(w.skip(1) =~= quote_escaped(path) + seq!['\'']);
    lemma_sh_quoted(path, seq!['\'']);
    let q = seq!['\''];
    assert(q[0] == '\'' && q.len() == 1);
    assert(q.skip(1) =~= Seq::<char>::empty());
    assert(sh_word(q.skip(1), false) == Some(Seq::<char>::empty()));
    assert(sh_word(q, true) == Some(Seq::<char>::empty()));
    assert(w[0] == '\'' && w.len() > 0);
    assert(sh_word(w, false) == sh_word(w.skip(1), true));
    assert(path + Seq::<char>::empty() =~= path);
}

/// The arrow keys and Home send the CSI sequences that move a terminal's
/// cursor the same way: each sends ESC, `[` and a final byte, and the grid
/// reading that sequence moves its cursor one row up (Up), one row down
/// (Down), one column right (Right), one column left (Left), or to the top
/// left (Home), whatever Ctrl and the typed text are.
pub proof fn law_arrow_keys_move_cursor(t: crate::terminal_state::TermView, ctrl: bool, text: Option<Seq<char>>, tb: Seq<u8>)
    requires
        t.wf(),
        t.sized(),
        t.cursor_col < t.cols,
    ensures
        key_bytes_spec(Key::Up, ctrl, text, tb) == Some(seq![0x1bu8, 0x5bu8, 0x41u8]),
        key_bytes_spec(Key::Down, ctrl, text, tb) == Some(seq![0x1bu8, 0x5bu8, 0x42u8]),
        key_bytes_spec(Key::Right, ctrl, text, tb) == Some(seq![0x1bu8, 0x5bu8, 0x43u8]),
        key_bytes_spec(Key::Left, ctrl, text, tb) == Some(seq![0x1bu8, 0x5bu8, 0x44u8]),
        key_bytes_spec(Key::Home, ctrl, text, tb) == Some(seq![0x1bu8, 0x5bu8, 0x48u8]),
        forall|k: Key| #![trigger key_bytes_spec(k, ctrl, text, tb)]
            (k == Key::Up || k == Key::Down || k == Key::Right || k == Key::Left || k == Key::Home) ==> ({
            let b = key_bytes_spec(k, ctrl, text, tb).unwrap();
            let u = t.csi(Seq::empty(), b[2] as char);
            &&& b.len() == 3 && b[0] == 0x1bu8 && b[1] == 0x5bu8
            &&& k == Key::Up ==> u.cursor_row == (if t.cursor_row >= 1 { t.cursor_row - 1 } else { 0 }) && u.cursor_col == t.cursor_col
            &&& k == Key::Down ==> u.cursor_row == (if t.cursor_row + 1 < t.rows { t.cursor_row + 1 as int } else { t.rows - 1 }) && u.cursor_col == t.cursor_col
            &&& k == Key::Right ==> u.cursor_col == (if t.cursor_col + 1 < t.cols { t.cursor_col + 1 as int } else { t.cols - 1 }) && u.cursor_row == t.cursor_row
            &&& k == Key::Left ==> u.cursor_col == (if t.cursor_col >= 1 { t.cursor_col - 1 } else { 0 }) && u.cursor_row == t.cursor_row
            &&& k == Key::Home ==> u.cursor_row == 0 && u.cursor_col == 0
        }),
{
    assert forall|k: Key| #![trigger key_bytes_spec(k, ctrl, text, tb)]
        (k == Key::Up || k == Key::Down || k == Key::Right || k == Key::Left || k == Key::Home) implies ({
        let b = key_bytes_spec(k, ctrl, text, tb).unwrap();
        let u = t.csi(Seq::empty(), b[2] as char);
        &&& b.len() == 3 && b[0] == 0x1bu8 && b[1] == 0x5bu8
        &&& k == Key::Up ==> u.cursor_row == (if t.cursor_row >= 1 { t.cursor_row - 1 } else { 0 }) && u.cursor_col == t.cursor_col
        &&& k == Key::Down ==> u.cursor_row == (if t.cursor_row + 1 < t.rows { t.cursor_row + 1 as int } else { t.rows - 1 }) && u.cursor_col == t.cursor_col
        &&& k == Key::Right ==> u.cursor_col == (if t.cursor_col + 1 < t.cols { t.cursor_col + 1 as int } else { t.cols - 1 }) && u.cursor_row == t.cursor_row
        &&& k == Key::Left ==> u.cursor_col == (if t.cursor_col >= 1 { t.cursor_col - 1 } else { 0 }) && u.cursor_row == t.cursor_row
        &&& k == Key::Home ==> u.cursor_row == 0 && u.cursor_col == 0
    }) by {
        let b = key_bytes_spec(k, ctrl, text, tb).unwrap();
        assert((0x41u8 as char) == 'A' && (0x42u8 as char) == 'B' && (0x43u8 as char) == 'C'
            && (0x44u8 as char) == 'D' && (0x48u8 as char) == 'H');
    }
}

/// The other keys with fixed bytes send them whatever Ctrl and the typed
/// text are: Return and keypad Enter a carriage return, BackSpace DEL
/// (0x7f), Tab a tab, Escape ESC, End `ESC [ F`, Delete `ESC [ 3 ~`, Page
/// Up `ESC [ 5 ~`, Page Down `ESC [ 6 ~`. Another key sends the UTF-8 bytes
/// of its text, except that Ctrl with a letter sends that letter's control
/// code, the same for both cases (Ctrl+C is 3, Ctrl+D is 4, Ctrl+Z is 26);
/// without text it sends nothing.
pub proof fn law_key_bytes(ctrl: bool, text: Option<Seq<char>>, tb: Seq<u8>, k: Key)
    ensures
        key_bytes_spec(Key::Return, ctrl, text, tb) == Some(seq![0x0du8]),
        key_bytes_spec(Key::KpEnter, ctrl, text, tb) == Some(seq![0x0du8]),
        key_bytes_spec(Key::BackSpace, ctrl, text, tb) == Some(seq![0x7fu8]),
        key_bytes_spec(Key::Tab, ctrl, text, tb) == Some(seq![0x09u8]),
        key_bytes_spec(Key::Escape, ctrl, text, tb) == Some(seq![0x1bu8]),
        key_bytes_spec(Key::End, ctrl, text, tb) == Some(seq![0x1bu8, 0x5bu8, 0x46u8]),
        key_bytes_spec(Key::Delete, ctrl, text, tb) == Some(seq![0x1bu8, 0x5bu8, 0x33u8, 0x7eu8]),
        key_bytes_spec(Key::PageUp, ctrl, text, tb) == Some(seq![0x1bu8, 0x5bu8, 0x35u8, 0x7eu8]),
        key_bytes_spec(Key::PageDown, ctrl, text, tb) == Some(seq![0x1bu8, 0x5bu8, 0x36u8, 0x7eu8]),
        (k is Letter || k is Digit || k == Key::Other || k == Key::F2
            || k == Key::F6 || k == Key::F12) ==> {
            &&& text is None ==> key_bytes_spec(k, ctrl, text, tb) is None
            &&& (text matches Some(t) && !(ctrl && t.len() > 0 && ascii_letter(t[0])))
                ==> key_bytes_spec(k, ctrl, text, tb) == Some(tb)
            &&& (text matches Some(t) && ctrl && t.len() > 0 && ascii_letter(t[0])) ==> {
                let code = key_bytes_spec(k, ctrl, text, tb).unwrap();
                let t = text.unwrap();
                let lower: int = if 'A' <= t[0] && t[0] <= 'Z' { t[0] as int + 32 } else { t[0] as int };
                &&& code.len() == 1
                &&& 1 <= code[0] <= 26
                &&& code[0] == lower - 96
            }
        },
{
}

} // verus!

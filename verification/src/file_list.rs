//! The file list pane: its rows (five fixed rows, then the entries), what a
//! click on a row hits, the texts and colours of the rows, and how a click
//! changes the selection.

use vstd::prelude::*;
use crate::entry::{DirEntry, SortColumn, SortOrder};
use crate::paths::push_str;
use crate::state::{opt_indices, FileViewState, ViewMode};
use crate::text::{chars_of, push_char, trim_start, trim_start_spec};

verus! {

/// The rows above the entries: the location, a rule, the column headers, a
/// rule, and the parent directory.
pub const FIXED_ROWS: usize = 5;
/// The row of the location.
pub const HEADER_ROW: usize = 0;
/// The row under the location.
pub const SEP_ROW: usize = 1;
/// The row of the column headers.
pub const COL_HEADER_ROW: usize = 2;
/// The row under the column headers.
pub const COL_SEP_ROW: usize = 3;
/// The row that leads to the parent directory.
pub const PARENT_ROW: usize = 4;
/// The entries per row in the compact view.
pub const COMPACT_COLS: usize = 3;

/// What a click on the list hits.
#[derive(Clone, Copy, Debug, PartialEq, Eq, Structural)]
pub enum YHit {
    ColumnHeader,
    Parent,
    Entry(usize),
}

/// The number of entries the list shows: the filtered ones when a filter
/// is on, otherwise all.
pub open spec fn shown_count(s: &FileViewState) -> nat {
    match opt_indices(s.filtered_indices) {
        Some(fi) => fi.len(),
        None => s.entries.len() as nat,
    }
}

/// The number of entries the list shows.
pub fn visible_count(s: &FileViewState) -> (n: usize)
    ensures
        n == shown_count(s),
{
    match &s.filtered_indices {
        Some(fi) => fi.len(),
        None => s.entries.len(),
    }
}

/// The rows the entries take: one each, or one per three in the compact
/// view.
pub open spec fn entry_rows_spec(count: nat, mode: ViewMode) -> nat {
    if mode == ViewMode::Compact { (count + 2) / 3 } else { count }
}

/// The rows the entries take (see [`entry_rows_spec`]).
pub fn entry_rows(count: usize, mode: ViewMode) -> (n: usize)
    ensures
        n == entry_rows_spec(count as nat, mode),
{
    if mode == ViewMode::Compact {
        count / 3 + if count % 3 == 0 { 0 } else { 1 }
    } else {
        count
    }
}

/// The entry index that shown position `vis` stands for: the `vis`-th
/// filtered index under a filter, otherwise `vis` itself, when there is one.
pub open spec fn resolve_spec(s: &FileViewState, vis: int) -> Option<usize> {
    match opt_indices(s.filtered_indices) {
        Some(fi) => if 0 <= vis < fi.len() { Some(fi[vis]) } else { None },
        None => if 0 <= vis < s.entries.len() { Some(vis as usize) } else { None },
    }
}

/// The entry index that shown position `vis` stands for (see
/// [`resolve_spec`]).
pub fn resolve_vis_idx(s: &FileViewState, vis: usize) -> (r: Option<usize>)
    ensures
        r == resolve_spec(s, vis as int),
{
    match &s.filtered_indices {
        Some(fi) => if vis < fi.len() { Some(fi[vis]) } else { None },
        None => if vis < s.entries.len() { Some(vis) } else { None },
    }
}

/// What a click hits on list row `row` (counted from the top of the list's
/// content), `col` being the compact view's column under the pointer.
pub open spec fn row_hit_spec(s: &FileViewState, row: nat, col: nat) -> Option<YHit> {
    if row == COL_HEADER_ROW {
        Some(YHit::ColumnHeader)
    } else if row == PARENT_ROW {
        Some(YHit::Parent)
    } else if row >= FIXED_ROWS {
        let virt = row - FIXED_ROWS;
        let vis = if s.view_mode == ViewMode::Compact {
            virt * COMPACT_COLS + (if col < COMPACT_COLS - 1 { col } else { (COMPACT_COLS - 1) as nat })
        } else {
            virt
        };
        match resolve_spec(s, vis) {
            Some(i) => Some(YHit::Entry(i)),
            None => None,
        }
    } else {
        None
    }
}

/// What a click hits (see [`row_hit_spec`]).
pub fn row_hit(s: &FileViewState, row: usize, col: usize) -> (h: Option<YHit>)
    ensures
        h == row_hit_spec(s, row as nat, col as nat),
{
    if row == COL_HEADER_ROW {
        return Some(YHit::ColumnHeader);
    }
    if row == PARENT_ROW {
        return Some(YHit::Parent);
    }
    if row < FIXED_ROWS {
        return None;
    }
    let virt = row - FIXED_ROWS;
    let vis: usize = if s.view_mode == ViewMode::Compact {
        let c = if col < COMPACT_COLS - 1 { col } else { COMPACT_COLS - 1 };
        if virt > (usize::MAX - c) / COMPACT_COLS {
            // Past every shown entry: no list is that long.
            proof {
                assert(virt * 3 + c > usize::MAX) by (nonlinear_arith)
                    requires
                        virt > (usize::MAX - c) / 3,
                        c <= 2,
                ;
            }
            let total = visible_count(s);
            assert(total <= usize::MAX);
            return None;
        }
        proof {
            assert(virt * 3 + c <= usize::MAX) by (nonlinear_arith)
                requires
                    virt <= (usize::MAX - c) / 3,
                    c <= 2,
            ;
        }
        virt * COMPACT_COLS + c
    } else {
        virt
    };
    match resolve_vis_idx(s, vis) {
        Some(i) => Some(YHit::Entry(i)),
        None => None,
    }
}

/// The column whose header lies at character column `char_x` of the
/// header row: Modified from 54 on, Size from 44 on, Name before.
pub open spec fn sort_column_at_spec(char_x: nat) -> SortColumn {
    if char_x >= 54 {
        SortColumn::Modified
    } else if char_x >= 44 {
        SortColumn::Size
    } else {
        SortColumn::Name
    }
}

/// The column whose header lies at character column `char_x`.
pub fn sort_column_at(char_x: usize) -> (c: SortColumn)
    ensures
        c == sort_column_at_spec(char_x as nat),
{
    if char_x >= 54 {
        SortColumn::Modified
    } else if char_x >= 44 {
        SortColumn::Size
    } else {
        SortColumn::Name
    }
}

/// A click on entry `idx`: with Ctrl it flips the entry, with Shift it
/// selects from the anchor (or the top) to it, otherwise it selects it
/// alone. A click past the listing is not taken (`false`).
pub fn click_select(s: &mut FileViewState, idx: usize, ctrl: bool, shift: bool) -> (taken: bool)
    requires
        old(s).wf(),
    ensures
        final(s).wf(),
        taken == (idx < old(s).entries.len()),
        !taken ==> final(s).selection() == old(s).selection() && final(s).cursor == old(s).cursor
            && final(s).anchor == old(s).anchor,
        taken && ctrl ==> final(s).selection() == (if old(s).selection().contains(idx) {
            old(s).selection().remove(idx)
        } else {
            old(s).selection().insert(idx)
        }) && final(s).cursor == Some(idx) && final(s).anchor == Some(idx),
        taken && !ctrl && shift ==> ({
            let a = match old(s).anchor { Some(a) => a, None => 0usize };
            &&& final(s).selection() == Set::new(|i: usize|
                (if a <= idx { a } else { idx }) <= i <= (if a <= idx { idx } else { a }))
            &&& final(s).cursor == Some(idx)
            &&& final(s).anchor == old(s).anchor
        }),
        taken && !ctrl && !shift ==> final(s).selection() == set![idx] && final(s).cursor == Some(idx)
            && final(s).anchor == Some(idx),
        final(s).same_location(old(s)),
        final(s).entries@ == old(s).entries@,
        final(s).search_query == old(s).search_query,
        opt_indices(final(s).filtered_indices) == opt_indices(old(s).filtered_indices),
        final(s).last_error == old(s).last_error,
{
    if idx >= s.entries.len() {
        return false;
    }
    if ctrl {
        s.toggle_select(idx);
    } else if shift {
        let a = match s.anchor {
            Some(a) => a,
            None => 0,
        };
        s.select_range(a, idx);
    } else {
        s.select_single(idx);
    }
    true
}

// ── Row texts ──

/// The text of the location row: the location, ` [H]` while dot files are
/// shown, and the search query while there is one.
pub open spec fn header_text_spec(path: Seq<char>, show_hidden: bool, query: Option<Seq<char>>) -> Seq<char> {
    "  "@ + path + (if show_hidden { " [H]"@ } else { Seq::empty() }) + match query {
        Some(q) => "  [Search: "@ + q + "]"@,
        None => Seq::empty(),
    }
}

/// The text of the location row (see [`header_text_spec`]).
pub fn header_text(s: &FileViewState) -> (t: String)
    ensures
        t@ == header_text_spec(s.current_path@, s.show_hidden, crate::paths::opt_view(s.search_query)),
{
    let mut t = String::new();
    push_str(&mut t, "  ");
    push_str(&mut t, s.current_path.as_str());
    if s.show_hidden {
        push_str(&mut t, " [H]");
    }
    match &s.search_query {
        Some(q) => {
            push_str(&mut t, "  [Search: ");
            push_str(&mut t, q.as_str());
            push_str(&mut t, "]");
        },
        None => {},
    }
    assert(t@ =~= header_text_spec(s.current_path@, s.show_hidden, crate::paths::opt_view(s.search_query)));
    t
}

/// The text of a rule row: sixty box-drawing lines.
pub fn separator_text() -> (t: String)
    ensures
        t@ == Seq::new(60, |i: int| '─'),
{
    let mut t = String::new();
    crate::fmt::push_repeat(&mut t, '─', 60);
    t
}

/// The text of the parent row.
pub fn parent_row_text() -> (t: &'static str)
    ensures
        t@ == "📁  ../"@,
{
    "📁  ../"
}

/// The mark beside a column header: the direction arrow on the sorted
/// column, a space on the others.
pub open spec fn column_mark(sorted: SortColumn, this: SortColumn, ord: SortOrder) -> Seq<char> {
    if sorted == this {
        if ord == SortOrder::Asc { "▲"@ } else { "▼"@ }
    } else {
        " "@
    }
}

/// The text of the column header row.
pub open spec fn column_header_spec(col: SortColumn, ord: SortOrder) -> Seq<char> {
    "    Name "@ + column_mark(col, SortColumn::Name, ord) + Seq::new(12, |i: int| ' ') + " "@
        + "    Size"@ + column_mark(col, SortColumn::Size, ord) + "  "@ + "Modified"@
        + column_mark(col, SortColumn::Modified, ord)
}

fn mark(sorted: SortColumn, this: SortColumn, ord: SortOrder) -> (m: &'static str)
    ensures
        m@ == column_mark(sorted, this, ord),
{
    if sorted == this { ord.indicator() } else { " " }
}

/// The text of the column header row (see [`column_header_spec`]).
pub fn column_header_text(col: SortColumn, ord: SortOrder) -> (t: String)
    ensures
        t@ == column_header_spec(col, ord),
{
    let mut t = String::new();
    push_str(&mut t, "    Name ");
    push_str(&mut t, mark(col, SortColumn::Name, ord));
    crate::fmt::push_repeat(&mut t, ' ', 12);
    push_str(&mut t, " ");
    push_str(&mut t, "    Size");
    push_str(&mut t, mark(col, SortColumn::Size, ord));
    push_str(&mut t, "  ");
    push_str(&mut t, "Modified");
    push_str(&mut t, mark(col, SortColumn::Modified, ord));
    assert(t@ =~= column_header_spec(col, ord));
    t
}

/// The detail row of an entry: its detail line, or, when selected, an
/// arrow and the line without its leading blanks.
pub open spec fn detail_row_spec(line: Seq<char>, selected: bool) -> Seq<char> {
    if selected { "▶ "@ + trim_start_spec(line) } else { line }
}

/// The detail row of `e` (see [`detail_row_spec`]), given the texts of its
/// size and modification time.
pub fn detail_row(e: &DirEntry, selected: bool, size_text: &str, modified_text: &str) -> (t: String)
    ensures
        t@ == detail_row_spec(e.display_line_spec(size_text@, modified_text@), selected),
{
    let line = e.display_line(size_text, modified_text);
    if selected {
        let mut t = String::new();
        push_str(&mut t, "▶ ");
        let rest = trim_start(line.as_str());
        push_str(&mut t, rest.as_str());
        t
    } else {
        line
    }
}

/// The first `n` characters of `s` (all of them if it is shorter).
pub open spec fn first_chars(s: Seq<char>, n: nat) -> Seq<char> {
    if s.len() <= n { s } else { s.take(n as int) }
}

fn take_chars(s: &str, n: usize) -> (t: String)
    ensures
        t@ == first_chars(s@, n as nat),
{
    let cs = chars_of(s);
    let k = if cs.len() <= n { cs.len() } else { n };
    let mut t = String::new();
    let mut i: usize = 0;
    while i < k
        invariant
            i <= k,
            k <= cs.len(),
            cs@ == s@,
            t@ == cs@.take(i as int),
        decreases k - i,
    {
        push_char(&mut t, cs[i]);
        i = i + 1;
        assert(t@ =~= cs@.take(i as int));
    }
    assert(t@ =~= first_chars(s@, n as nat));
    t
}

/// The row of an entry in the list view (first 40 characters of the name)
/// or in the compact view (first 14): a folder icon for a directory, blanks
/// for a file; a selected entry is marked with an arrow and its icon loses
/// the leading blanks. `gap` is the text between the arrow and the icon.
pub open spec fn short_row_spec(e: DirEntry, selected: bool, width: nat, gap: Seq<char>) -> Seq<char> {
    let icon = if e.is_dir { "📁 "@ } else { "   "@ };
    let name = first_chars(e.name@, width);
    if selected { "▶"@ + gap + trim_start_spec(icon) + name } else { icon + name }
}

fn short_row(e: &DirEntry, selected: bool, width: usize, gap: &str) -> (t: String)
    ensures
        t@ == short_row_spec(*e, selected, width as nat, gap@),
{
    let icon = if e.is_dir { "📁 " } else { "   " };
    let name = take_chars(e.name.as_str(), width);
    let mut t = String::new();
    if selected {
        push_str(&mut t, "▶");
        push_str(&mut t, gap);
        let ti = trim_start(icon);
        push_str(&mut t, ti.as_str());
    } else {
        push_str(&mut t, icon);
    }
    push_str(&mut t, name.as_str());
    assert(t@ =~= short_row_spec(*e, selected, width as nat, gap@));
    t
}

/// The row of `e` in the list view.
pub fn list_row(e: &DirEntry, selected: bool) -> (t: String)
    ensures
        t@ == short_row_spec(*e, selected, 40, " "@),
{
    short_row(e, selected, 40, " ")
}

/// The row of `e` in the compact view.
pub fn compact_row(e: &DirEntry, selected: bool) -> (t: String)
    ensures
        t@ == short_row_spec(*e, selected, 14, ""@),
{
    short_row(e, selected, 14, "")
}

/// The colour of an entry's row: the accent when selected, yellow for a
/// directory, grey for a file.
pub open spec fn entry_rgb_spec(selected: bool, is_dir: bool) -> (u8, u8, u8) {
    if selected { (56, 164, 240) } else if is_dir { (226, 200, 100) } else { (170, 174, 182) }
}

/// The colour of an entry's row (see [`entry_rgb_spec`]).
pub fn entry_rgb(selected: bool, is_dir: bool) -> (c: (u8, u8, u8))
    ensures
        c == entry_rgb_spec(selected, is_dir),
{
    if selected { (56, 164, 240) } else if is_dir { (226, 200, 100) } else { (170, 174, 182) }
}

} // verus!

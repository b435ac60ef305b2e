//! The state of a file view: the listing, the selection, the sort, the
//! search filter and the navigation history.
//!
//! Reading a directory is the caller's work: the operations that change what
//! is listed say so, and the caller hands the raw entries it then reads to
//! [`FileViewState::refresh`].

use vstd::prelude::*;
use crate::entry::{listing, sorted_listing, visible_entries, DirEntry, SortColumn, SortOrder};
use crate::paths::{opt_view, parent, path_parent, push_str};
use crate::text::{chars_of, contains_seq, contains_str, lowercase, push_char, string_of, to_lowercase};

verus! {

/// The most locations the back and forward stacks hold together.
pub const MAX_NAV_HISTORY: usize = 50;

/// How the listing is drawn.
#[derive(Clone, Copy, Debug, PartialEq, Eq, Structural)]
pub enum ViewMode {
    Detail,
    List,
    Compact,
}

impl ViewMode {
    /// The mode that follows this one: Detail, List, Compact, and round again.
    pub open spec fn next_spec(self) -> ViewMode {
        match self {
            ViewMode::Detail => ViewMode::List,
            ViewMode::List => ViewMode::Compact,
            ViewMode::Compact => ViewMode::Detail,
        }
    }
}

/// The last `n` items of `s` (all of them if there are fewer).
pub open spec fn keep_last<T>(s: Seq<T>, n: nat) -> Seq<T> {
    if s.len() > n { s.skip(s.len() - n) } else { s }
}

/// Each index is larger than the one before it.
pub open spec fn strictly_sorted(s: Seq<usize>) -> bool {
    forall|i: int, j: int| 0 <= i < j < s.len() ==> s[i] < s[j]
}

/// The texts of a sequence of strings.
pub open spec fn paths_view(v: Seq<String>) -> Seq<Seq<char>> {
    v.map_values(|p: String| p@)
}

/// The contents of an optional index vector.
pub open spec fn opt_indices(o: Option<Vec<usize>>) -> Option<Seq<usize>> {
    match o {
        Some(v) => Some(v@),
        None => None,
    }
}

/// An entry matches a search query when its lowercased name holds the
/// lowercased query.
pub open spec fn name_matches(e: DirEntry, q: Seq<char>) -> bool {
    contains_seq(lowercase(e.name@), lowercase(q))
}

/// The indices of the entries that match `q`, in order.
pub open spec fn matching_indices(entries: Seq<DirEntry>, q: Seq<char>) -> Seq<usize>
    decreases entries.len(),
{
    if entries.len() == 0 {
        Seq::empty()
    } else {
        let rest = matching_indices(entries.drop_last(), q);
        if name_matches(entries.last(), q) { rest.push((entries.len() - 1) as usize) } else { rest }
    }
}

/// The indices from `lo` up to but not including `hi`.
pub open spec fn index_range(lo: usize, hi: usize) -> Seq<usize> {
    Seq::new((hi - lo) as nat, |k: int| (lo + k) as usize)
}

// ── Navigation history ──
//
// A history is (current location, back stack, forward stack), the top of each
// stack being its last item.

/// Going to `path`: the current location is pushed on the back stack (the
/// oldest dropped past the limit) and the forward stack is emptied.
pub open spec fn history_navigate(h: (Seq<char>, Seq<Seq<char>>, Seq<Seq<char>>), path: Seq<char>) -> (
    Seq<char>,
    Seq<Seq<char>>,
    Seq<Seq<char>>,
) {
    (path, keep_last(h.1.push(h.0), MAX_NAV_HISTORY as nat), Seq::empty())
}

/// Going back: the top of the back stack becomes current, the current
/// location goes on the forward stack. Nothing changes with no way back.
pub open spec fn history_back(h: (Seq<char>, Seq<Seq<char>>, Seq<Seq<char>>)) -> (
    Seq<char>,
    Seq<Seq<char>>,
    Seq<Seq<char>>,
) {
    if h.1.len() == 0 { h } else { (h.1.last(), h.1.drop_last(), h.2.push(h.0)) }
}

/// Going forward: the mirror image of going back.
pub open spec fn history_forward(h: (Seq<char>, Seq<Seq<char>>, Seq<Seq<char>>)) -> (
    Seq<char>,
    Seq<Seq<char>>,
    Seq<Seq<char>>,
) {
    if h.2.len() == 0 { h } else { (h.2.last(), h.1.push(h.0), h.2.drop_last()) }
}

/// The two stacks together hold at most the limit.
pub open spec fn history_bounded(h: (Seq<char>, Seq<Seq<char>>, Seq<Seq<char>>)) -> bool {
    h.1.len() + h.2.len() <= MAX_NAV_HISTORY
}

/// The message shown when a location cannot be opened.
pub open spec fn cannot_open_text(path: Seq<char>) -> Seq<char> {
    "Cannot open: "@ + path
}

/// The window title for a location.
pub open spec fn title_text(path: Seq<char>) -> Seq<char> {
    "Hayate — "@ + path
}

/// The state of one file view. `selected` is kept strictly increasing and
/// the two history stacks within [`MAX_NAV_HISTORY`] together (see
/// [`FileViewState::wf`]); the operations below keep both.
///
/// The selection is a set of entry indices held as a strictly increasing
/// vector rather than a hash set: a hash set is walked in an order that
/// depends on the hasher each process seeds, so what is done to the
/// selected files would come in no fixed order; the increasing vector is
/// the same set, walked in listing order.
pub struct FileViewState {
    pub current_path: String,
    pub show_hidden: bool,
    pub entries: Vec<DirEntry>,
    pub selected: Vec<usize>,
    pub anchor: Option<usize>,
    pub cursor: Option<usize>,
    pub sort_column: SortColumn,
    pub sort_order: SortOrder,
    pub view_mode: ViewMode,
    pub search_query: Option<String>,
    pub filtered_indices: Option<Vec<usize>>,
    pub last_error: Option<String>,
    pub back_stack: Vec<String>,
    pub forward_stack: Vec<String>,
}

impl FileViewState {
    /// The selected entry indices.
    pub open spec fn selection(&self) -> Set<usize> {
        Set::new(|i: usize| self.selected@.contains(i))
    }

    /// The navigation history: current location, back stack, forward stack.
    pub open spec fn history(&self) -> (Seq<char>, Seq<Seq<char>>, Seq<Seq<char>>) {
        (self.current_path@, paths_view(self.back_stack@), paths_view(self.forward_stack@))
    }

    /// The selection is kept sorted without repeats, and the history within
    /// its limit.
    pub open spec fn wf(&self) -> bool {
        &&& strictly_sorted(self.selected@)
        &&& self.back_stack.len() + self.forward_stack.len() <= MAX_NAV_HISTORY
    }

    /// Everything but the listing, the selection, the search and the error
    /// is as in `other`.
    pub open spec fn same_location(&self, other: &FileViewState) -> bool {
        &&& self.history() == other.history()
        &&& self.show_hidden == other.show_hidden
        &&& self.sort_column == other.sort_column
        &&& self.sort_order == other.sort_order
        &&& self.view_mode == other.view_mode
    }

    /// The listing, the selection, the search and the error are as in `other`.
    pub open spec fn same_listing(&self, other: &FileViewState) -> bool {
        &&& self.entries@ == other.entries@
        &&& self.selection() == other.selection()
        &&& self.anchor == other.anchor
        &&& self.cursor == other.cursor
        &&& self.search_query == other.search_query
        &&& opt_indices(self.filtered_indices) == opt_indices(other.filtered_indices)
        &&& self.last_error == other.last_error
    }

    /// The listing and error that a read of the current location gives:
    /// the visible entries in listing order, or nothing and the error.
    pub open spec fn loaded(&self, read: Result<Vec<DirEntry>, String>) -> bool {
        match read {
            Ok(raw) => {
                &&& self.entries@ == sorted_listing(visible_entries(raw@, self.show_hidden), self.sort_column, self.sort_order)
                &&& self.last_error is None
            },
            Err(e) => {
                &&& self.entries@ == Seq::<DirEntry>::empty()
                &&& self.last_error == Some(e)
            },
        }
    }

    /// A freshly loaded listing: nothing selected, no search.
    pub open spec fn fresh(&self) -> bool {
        &&& self.selection() == Set::<usize>::empty()
        &&& self.anchor is None
        &&& self.cursor is None
        &&& self.search_query is None
        &&& self.filtered_indices is None
    }

    /// A view of `path`, with the listing that reading it gave (`read`).
    pub fn new_with_config(
        path: String,
        sort_column: SortColumn,
        sort_order: SortOrder,
        show_hidden: bool,
        view_mode: ViewMode,
        read: Result<Vec<DirEntry>, String>,
    ) -> (s: FileViewState)
        ensures
            s.wf(),
            s.history() == (path@, Seq::<Seq<char>>::empty(), Seq::<Seq<char>>::empty()),
            s.show_hidden == show_hidden,
            s.sort_column == sort_column,
            s.sort_order == sort_order,
            s.view_mode == view_mode,
            s.loaded(read),
            s.fresh(),
    {
        let (entries, last_error) = match read {
            Ok(raw) => (listing(raw, show_hidden, sort_column, sort_order), None),
            Err(e) => (Vec::new(), Some(e)),
        };
        let s = FileViewState {
            current_path: path,
            show_hidden,
            entries,
            selected: Vec::new(),
            anchor: None,
            cursor: None,
            sort_column,
            sort_order,
            view_mode,
            search_query: None,
            filtered_indices: None,
            last_error,
            back_stack: Vec::new(),
            forward_stack: Vec::new(),
        };
        assert(s.selection() =~= Set::<usize>::empty());
        assert(paths_view(s.back_stack@) =~= Seq::<Seq<char>>::empty());
        assert(paths_view(s.forward_stack@) =~= Seq::<Seq<char>>::empty());
        s
    }

    /// Take a new read of the current location: the listing is replaced, the
    /// selection and the search are dropped.
    pub fn refresh(&mut self, read: Result<Vec<DirEntry>, String>)
        requires
            old(self).wf(),
        ensures
            final(self).wf(),
            final(self).same_location(old(self)),
            final(self).loaded(read),
            final(self).fresh(),
    {
        match read {
            Ok(raw) => {
                self.entries = listing(raw, self.show_hidden, self.sort_column, self.sort_order);
                self.last_error = None;
            },
            Err(e) => {
                self.entries = Vec::new();
                self.last_error = Some(e);
            },
        }
        self.clear_selection();
        self.search_query = None;
        self.filtered_indices = None;
    }

    fn find_slot(&self, idx: usize) -> (p: usize)
        requires
            self.wf(),
        ensures
            p <= self.selected.len(),
            forall|k: int| 0 <= k < p ==> self.selected@[k] < idx,
            p < self.selected.len() ==> self.selected@[p as int] >= idx,
    {
        let mut p: usize = 0;
        while p < self.selected.len() && self.selected[p] < idx
            invariant
                p <= self.selected.len(),
                forall|k: int| 0 <= k < p ==> self.selected@[k] < idx,
            decreases self.selected.len() - p,
        {
            p = p + 1;
        }
        p
    }

    /// Whether entry `idx` is selected.
    pub fn is_selected(&self, idx: usize) -> (b: bool)
        requires
            self.wf(),
        ensures
            b == self.selection().contains(idx),
    {
        let p = self.find_slot(idx);
        let b = p < self.selected.len() && self.selected[p] == idx;
        proof {
            if !b {
                assert forall|k: int| 0 <= k < self.selected@.len() implies self.selected@[k] != idx by {
                    if k >= p {
                        assert(self.selected@[p as int] >= idx);
                        if k > p {
                            assert(self.selected@[p as int] < self.selected@[k]);
                        }
                    }
                }
            }
        }
        b
    }

    /// Select entry `idx` alone; it becomes the anchor and the cursor.
    pub fn select_single(&mut self, idx: usize)
        requires
            old(self).wf(),
        ensures
            final(self).wf(),
            final(self).selection() == set![idx],
            final(self).anchor == Some(idx),
            final(self).cursor == Some(idx),
            final(self).same_location(old(self)),
            final(self).entries@ == old(self).entries@,
            final(self).search_query == old(self).search_query,
            opt_indices(final(self).filtered_indices) == opt_indices(old(self).filtered_indices),
            final(self).last_error == old(self).last_error,
    {
        let mut v: Vec<usize> = Vec::new();
        v.push(idx);
        self.selected = v;
        self.anchor = Some(idx);
        self.cursor = Some(idx);
        assert forall|x: usize| self.selection().contains(x) == (x == idx) by {
            if x == idx {
                assert(self.selected@[0] == idx);
            }
        }
        assert(self.selection() =~= set![idx]);
    }

    /// Flip whether entry `idx` is selected; it becomes the anchor and the
    /// cursor.
    pub fn toggle_select(&mut self, idx: usize)
        requires
            old(self).wf(),
        ensures
            final(self).wf(),
            final(self).selection() == (if old(self).selection().contains(idx) {
                old(self).selection().remove(idx)
            } else {
                old(self).selection().insert(idx)
            }),
            final(self).anchor == Some(idx),
            final(self).cursor == Some(idx),
            final(self).same_location(old(self)),
            final(self).entries@ == old(self).entries@,
            final(self).search_query == old(self).search_query,
            opt_indices(final(self).filtered_indices) == opt_indices(old(self).filtered_indices),
            final(self).last_error == old(self).last_error,
    {
        let p = self.find_slot(idx);
        let ghost before = self.selected@;
        let ghost old_sel = self.selection();
        if p < self.selected.len() && self.selected[p] == idx {
            self.selected.remove(p);
            proof {
                assert forall|i: int, j: int| 0 <= i < j < self.selected@.len() implies self.selected@[i] < self.selected@[j] by {
                    let bi = if i < p { i } else { i + 1 };
                    let bj = if j < p { j } else { j + 1 };
                    assert(before[bi] < before[bj]);
                }
                assert forall|x: usize| self.selection().contains(x) == old_sel.remove(idx).contains(x) by {
                    if self.selected@.contains(x) {
                        let k = choose|k: int| 0 <= k < self.selected@.len() && self.selected@[k] == x;
                        let bk = if k < p { k } else { k + 1 };
                        assert(before[bk] == x);
                        assert(bk != p);
                        if bk < p { assert(before[bk] < before[p as int]); } else { assert(before[p as int] < before[bk]); }
                    }
                    if x != idx && before.contains(x) {
                        let k = choose|k: int| 0 <= k < before.len() && before[k] == x;
                        if k < p { assert(self.selected@[k] == x); } else { assert(self.selected@[k - 1] == x); }
                    }
                }
                assert(self.selection() =~= old_sel.remove(idx));
            }
        } else {
            self.selected.insert(p, idx);
            proof {
                assert forall|k: int| p <= k < before.len() implies before[k] > idx by {
                    if k > p { assert(before[p as int] < before[k]); }
                }
                assert forall|i: int, j: int| 0 <= i < j < self.selected@.len() implies self.selected@[i] < self.selected@[j] by {
                    if i < p && j < p { assert(before[i] < before[j]); }
                    else if i > p && j > p { assert(before[i - 1] < before[j - 1]); }
                }
                assert(!old_sel.contains(idx)) by {
                    if before.contains(idx) {
                        let k = choose|k: int| 0 <= k < before.len() && before[k] == idx;
                        if k < p { } else { assert(before[k] > idx || k == p); }
                    }
                }
                assert forall|x: usize| self.selection().contains(x) == old_sel.insert(idx).contains(x) by {
                    if self.selected@.contains(x) {
                        let k = choose|k: int| 0 <= k < self.selected@.len() && self.selected@[k] == x;
                        if k < p { assert(before[k] == x); }
                        else if k > p { assert(before[k - 1] == x); }
                    }
                    if before.contains(x) {
                        let k = choose|k: int| 0 <= k < before.len() && before[k] == x;
                        if k < p { assert(self.selected@[k] == x); } else { assert(self.selected@[k + 1] == x); }
                    }
                    if x == idx { assert(self.selected@[p as int] == idx); }
                }
                assert(self.selection() =~= old_sel.insert(idx));
            }
        }
        self.anchor = Some(idx);
        self.cursor = Some(idx);
    }

    /// Select exactly the entries from `from` to `to`, both included, in
    /// either order; the cursor moves to `to`, the anchor stays.
    pub fn select_range(&mut self, from: usize, to: usize)
        requires
            old(self).wf(),
        ensures
            final(self).wf(),
            final(self).selection() == Set::new(|i: usize|
                (if from <= to { from } else { to }) <= i <= (if from <= to { to } else { from })),
            final(self).cursor == Some(to),
            final(self).anchor == old(self).anchor,
            final(self).same_location(old(self)),
            final(self).entries@ == old(self).entries@,
            final(self).search_query == old(self).search_query,
            opt_indices(final(self).filtered_indices) == opt_indices(old(self).filtered_indices),
            final(self).last_error == old(self).last_error,
    {
        let (lo, hi) = if from <= to { (from, to) } else { (to, from) };
        let mut v: Vec<usize> = Vec::new();
        let mut i = lo;
        while i < hi
            invariant
                lo <= i <= hi,
                v@ == index_range(lo, i),
            decreases hi - i,
        {
            v.push(i);
            i = i + 1;
            assert(v@ =~= index_range(lo, i));
        }
        v.push(hi);
        self.selected = v;
        self.cursor = Some(to);
        proof {
            let r = Set::new(|i: usize| lo <= i <= hi);
            assert forall|x: usize| self.selection().contains(x) == r.contains(x) by {
                if lo <= x <= hi {
                    if x < hi { assert(self.selected@[x - lo] == x); } else { assert(self.selected@[hi - lo] == x); }
                }
            }
            assert(self.selection() =~= r);
        }
    }

    /// Select every entry; the cursor goes to the first, if there is one.
    pub fn select_all(&mut self)
        requires
            old(self).wf(),
        ensures
            final(self).wf(),
            final(self).selection() == Set::new(|i: usize| i < old(self).entries.len()),
            final(self).cursor == (if old(self).entries.len() == 0 { None } else { Some(0usize) }),
            final(self).anchor == old(self).anchor,
            final(self).same_location(old(self)),
            final(self).entries@ == old(self).entries@,
            final(self).search_query == old(self).search_query,
            opt_indices(final(self).filtered_indices) == opt_indices(old(self).filtered_indices),
            final(self).last_error == old(self).last_error,
    {
        let n = self.entries.len();
        let mut v: Vec<usize> = Vec::new();
        let mut i: usize = 0;
        while i < n
            invariant
                i <= n,
                v@ == index_range(0, i),
            decreases n - i,
        {
            v.push(i);
            i = i + 1;
            assert(v@ =~= index_range(0, i));
        }
        self.selected = v;
        self.cursor = if n == 0 { None } else { Some(0) };
        proof {
            let r = Set::new(|i: usize| i < n);
            assert forall|x: usize| self.selection().contains(x) == r.contains(x) by {
                if x < n { assert(self.selected@[x as int] == x); }
            }
            assert(self.selection() =~= r);
        }
    }

    /// The selected indices, in increasing order.
    pub fn selected_indices(&self) -> (v: Vec<usize>)
        requires
            self.wf(),
        ensures
            strictly_sorted(v@),
            forall|i: usize| v@.contains(i) == self.selection().contains(i),
    {
        let mut v: Vec<usize> = Vec::new();
        let mut i: usize = 0;
        while i < self.selected.len()
            invariant
                i <= self.selected.len(),
                v@ == self.selected@.take(i as int),
            decreases self.selected.len() - i,
        {
            v.push(self.selected[i]);
            i = i + 1;
            assert(v@ =~= self.selected@.take(i as int));
        }
        assert(v@ =~= self.selected@);
        v
    }

    /// Drop the selection, the anchor and the cursor.
    pub fn clear_selection(&mut self)
        requires
            old(self).wf(),
        ensures
            final(self).wf(),
            final(self).selection() == Set::<usize>::empty(),
            final(self).anchor is None,
            final(self).cursor is None,
            final(self).same_location(old(self)),
            final(self).entries@ == old(self).entries@,
            final(self).search_query == old(self).search_query,
            opt_indices(final(self).filtered_indices) == opt_indices(old(self).filtered_indices),
            final(self).last_error == old(self).last_error,
    {
        self.selected = Vec::new();
        self.anchor = None;
        self.cursor = None;
        assert(self.selection() =~= Set::<usize>::empty());
    }

    /// Sort by `col`: the same column again flips the direction, another
    /// column sorts ascending. The listing is then to be read again.
    pub fn set_sort(&mut self, col: SortColumn)
        requires
            old(self).wf(),
        ensures
            final(self).wf(),
            final(self).sort_column == col,
            final(self).sort_order == (if old(self).sort_column == col {
                if old(self).sort_order == SortOrder::Asc { SortOrder::Desc } else { SortOrder::Asc }
            } else {
                SortOrder::Asc
            }),
            final(self).history() == old(self).history(),
            final(self).show_hidden == old(self).show_hidden,
            final(self).view_mode == old(self).view_mode,
            final(self).same_listing(old(self)),
    {
        if self.sort_column == col {
            self.sort_order = self.sort_order.toggle();
        } else {
            self.sort_column = col;
            self.sort_order = SortOrder::Asc;
        }
    }

    /// The window title for the current location.
    pub fn title(&self) -> (t: String)
        ensures
            t@ == title_text(self.current_path@),
    {
        let mut t = String::new();
        push_str(&mut t, "Hayate — ");
        push_str(&mut t, self.current_path.as_str());
        proof {
            reveal_strlit("Hayate — ");
        }
        assert(t@ =~= title_text(self.current_path@));
        t
    }

    /// Go to `path`, which is a directory when `is_dir`. Going there pushes
    /// the current location on the back stack and empties the forward stack;
    /// the listing is then to be read again (`true` is returned). Otherwise
    /// only the error is set.
    pub fn navigate(&mut self, path: String, is_dir: bool) -> (moved: bool)
        requires
            old(self).wf(),
        ensures
            final(self).wf(),
            moved == is_dir,
            is_dir ==> final(self).history() == history_navigate(old(self).history(), path@),
            is_dir ==> final(self).last_error == old(self).last_error,
            !is_dir ==> final(self).history() == old(self).history(),
            !is_dir ==> (final(self).last_error matches Some(e) && e@ == cannot_open_text(path@)),
            final(self).show_hidden == old(self).show_hidden,
            final(self).sort_column == old(self).sort_column,
            final(self).sort_order == old(self).sort_order,
            final(self).view_mode == old(self).view_mode,
            final(self).entries@ == old(self).entries@,
            final(self).selection() == old(self).selection(),
            final(self).anchor == old(self).anchor,
            final(self).cursor == old(self).cursor,
            final(self).search_query == old(self).search_query,
            opt_indices(final(self).filtered_indices) == opt_indices(old(self).filtered_indices),
    {
        if !is_dir {
            let mut msg = String::new();
            push_str(&mut msg, "Cannot open: ");
            push_str(&mut msg, path.as_str());
            proof {
                reveal_strlit("Cannot open: ");
            }
            assert(msg@ =~= cannot_open_text(path@));
            self.last_error = Some(msg);
            return false;
        }
        let ghost h = self.history();
        let cur = self.current_path.clone();
        self.back_stack.push(cur);
        let ghost pushed = self.back_stack@;
        if self.back_stack.len() > MAX_NAV_HISTORY {
            self.back_stack.remove(0);
        }
        self.forward_stack = Vec::new();
        self.current_path = path;
        proof {
            assert(paths_view(pushed) =~= h.1.push(h.0));
            if pushed.len() > MAX_NAV_HISTORY {
                assert(self.back_stack@ =~= pushed.skip(1));
                assert(paths_view(self.back_stack@) =~= keep_last(h.1.push(h.0), MAX_NAV_HISTORY as nat));
            } else {
                assert(paths_view(self.back_stack@) =~= keep_last(h.1.push(h.0), MAX_NAV_HISTORY as nat));
            }
            assert(paths_view(self.forward_stack@) =~= Seq::<Seq<char>>::empty());
        }
        true
    }

    /// Go back to the previous location, if there is one (`true` then, and
    /// the listing is to be read again).
    pub fn go_back(&mut self) -> (moved: bool)
        requires
            old(self).wf(),
        ensures
            final(self).wf(),
            moved == (old(self).history().1.len() > 0),
            final(self).history() == history_back(old(self).history()),
            final(self).show_hidden == old(self).show_hidden,
            final(self).sort_column == old(self).sort_column,
            final(self).sort_order == old(self).sort_order,
            final(self).view_mode == old(self).view_mode,
            final(self).same_listing(old(self)),
    {
        let ghost h = self.history();
        match self.back_stack.pop() {
            Some(prev) => {
                let cur = self.current_path.clone();
                self.forward_stack.push(cur);
                self.current_path = prev;
                proof {
                    assert(paths_view(self.back_stack@) =~= h.1.drop_last());
                    assert(paths_view(self.forward_stack@) =~= h.2.push(h.0));
                }
                true
            },
            None => false,
        }
    }

    /// Go forward again, if there is a location to go to (`true` then, and
    /// the listing is to be read again).
    pub fn go_forward(&mut self) -> (moved: bool)
        requires
            old(self).wf(),
        ensures
            final(self).wf(),
            moved == (old(self).history().2.len() > 0),
            final(self).history() == history_forward(old(self).history()),
            final(self).show_hidden == old(self).show_hidden,
            final(self).sort_column == old(self).sort_column,
            final(self).sort_order == old(self).sort_order,
            final(self).view_mode == old(self).view_mode,
            final(self).same_listing(old(self)),
    {
        let ghost h = self.history();
        match self.forward_stack.pop() {
            Some(next) => {
                let cur = self.current_path.clone();
                self.back_stack.push(cur);
                self.current_path = next;
                proof {
                    assert(paths_view(self.forward_stack@) =~= h.2.drop_last());
                    assert(paths_view(self.back_stack@) =~= h.1.push(h.0));
                }
                true
            },
            None => false,
        }
    }

    /// Whether there is a location to go back to.
    pub fn can_go_back(&self) -> (b: bool)
        ensures
            b == (self.history().1.len() > 0),
    {
        self.back_stack.len() > 0
    }

    /// Whether there is a location to go forward to.
    pub fn can_go_forward(&self) -> (b: bool)
        ensures
            b == (self.history().2.len() > 0),
    {
        self.forward_stack.len() > 0
    }

    /// The parent of the current location, if it has one.
    pub fn parent_path(&self) -> (p: Option<String>)
        ensures
            opt_view(p) == path_parent(self.current_path@),
    {
        parent(self.current_path.as_str())
    }

    /// Go to the parent of the current location, which is a directory when
    /// `parent_is_dir`; `true` when the listing is to be read again.
    pub fn go_parent(&mut self, parent_is_dir: bool) -> (moved: bool)
        requires
            old(self).wf(),
        ensures
            final(self).wf(),
            match path_parent(old(self).current_path@) {
                None => moved == false && final(self).history() == old(self).history()
                    && final(self).last_error == old(self).last_error,
                Some(p) => moved == parent_is_dir
                    && (parent_is_dir ==> final(self).history() == history_navigate(old(self).history(), p)
                        && final(self).last_error == old(self).last_error)
                    && (!parent_is_dir ==> final(self).history() == old(self).history()
                        && (final(self).last_error matches Some(e) && e@ == cannot_open_text(p))),
            },
            final(self).show_hidden == old(self).show_hidden,
            final(self).sort_column == old(self).sort_column,
            final(self).sort_order == old(self).sort_order,
            final(self).view_mode == old(self).view_mode,
            final(self).entries@ == old(self).entries@,
            final(self).selection() == old(self).selection(),
            final(self).anchor == old(self).anchor,
            final(self).cursor == old(self).cursor,
            final(self).search_query == old(self).search_query,
            opt_indices(final(self).filtered_indices) == opt_indices(old(self).filtered_indices),
    {
        match self.parent_path() {
            Some(p) => self.navigate(p, parent_is_dir),
            None => false,
        }
    }

    /// Show or hide dot files; the listing is then to be read again.
    pub fn toggle_hidden(&mut self)
        requires
            old(self).wf(),
        ensures
            final(self).wf(),
            final(self).show_hidden == !old(self).show_hidden,
            final(self).history() == old(self).history(),
            final(self).sort_column == old(self).sort_column,
            final(self).sort_order == old(self).sort_order,
            final(self).view_mode == old(self).view_mode,
            final(self).same_listing(old(self)),
    {
        self.show_hidden = !self.show_hidden;
    }

    /// Move to the next view mode.
    pub fn cycle_view_mode(&mut self)
        requires
            old(self).wf(),
        ensures
            final(self).wf(),
            final(self).view_mode == old(self).view_mode.next_spec(),
            final(self).history() == old(self).history(),
            final(self).show_hidden == old(self).show_hidden,
            final(self).sort_column == old(self).sort_column,
            final(self).sort_order == old(self).sort_order,
            final(self).same_listing(old(self)),
    {
        self.view_mode = match self.view_mode {
            ViewMode::Detail => ViewMode::List,
            ViewMode::List => ViewMode::Compact,
            ViewMode::Compact => ViewMode::Detail,
        };
    }

    /// What the filter becomes for a query: no query or an empty one clears
    /// it, any other keeps the matching entries.
    pub open spec fn filter_for(&self, query: Option<String>) -> Option<Seq<usize>> {
        match query {
            None => None,
            Some(q) => if q@.len() == 0 { None } else { Some(matching_indices(self.entries@, q@)) },
        }
    }

    /// Set the search query and filter the listing by it.
    pub fn set_search(&mut self, query: Option<String>)
        requires
            old(self).wf(),
        ensures
            final(self).wf(),
            final(self).search_query == query,
            opt_indices(final(self).filtered_indices) == old(self).filter_for(query),
            final(self).same_location(old(self)),
            final(self).entries@ == old(self).entries@,
            final(self).selection() == old(self).selection(),
            final(self).anchor == old(self).anchor,
            final(self).cursor == old(self).cursor,
            final(self).last_error == old(self).last_error,
    {
        self.search_query = query;
        self.update_filter();
    }

    /// Filter the listing by the current search query.
    pub fn update_filter(&mut self)
        requires
            old(self).wf(),
        ensures
            final(self).wf(),
            opt_indices(final(self).filtered_indices) == old(self).filter_for(old(self).search_query),
            final(self).search_query == old(self).search_query,
            final(self).same_location(old(self)),
            final(self).entries@ == old(self).entries@,
            final(self).selection() == old(self).selection(),
            final(self).anchor == old(self).anchor,
            final(self).cursor == old(self).cursor,
            final(self).last_error == old(self).last_error,
    {
        let found: Option<Vec<usize>> = match &self.search_query {
            None => None,
            Some(q) => {
                if q.as_str().is_empty() {
                    None
                } else {
                    Some(matching(&self.entries, q.as_str()))
                }
            },
        };
        self.filtered_indices = found;
    }

    /// Drop the last character of the search query, if any, and filter again.
    pub fn search_backspace(&mut self)
        requires
            old(self).wf(),
        ensures
            final(self).wf(),
            match old(self).search_query {
                Some(q) => final(self).search_query matches Some(r) && r@ == (if q@.len() == 0 { q@ } else { q@.drop_last() }),
                None => final(self).search_query is None,
            },
            opt_indices(final(self).filtered_indices) == old(self).filter_for(final(self).search_query),
            final(self).same_location(old(self)),
            final(self).entries@ == old(self).entries@,
            final(self).selection() == old(self).selection(),
            final(self).anchor == old(self).anchor,
            final(self).cursor == old(self).cursor,
            final(self).last_error == old(self).last_error,
    {
        let q2: Option<String> = match &self.search_query {
            Some(q) => {
                let cs = chars_of(q.as_str());
                let mut kept: Vec<char> = Vec::new();
                let mut i: usize = 0;
                let n = if cs.len() == 0 { 0 } else { cs.len() - 1 };
                while i < n
                    invariant
                        i <= n,
                        n <= cs.len(),
                        kept@ == cs@.take(i as int),
                    decreases n - i,
                {
                    kept.push(cs[i]);
                    i = i + 1;
                    assert(kept@ =~= cs@.take(i as int));
                }
                let r = string_of(&kept);
                assert(r@ =~= (if q@.len() == 0 { q@ } else { q@.drop_last() }));
                Some(r)
            },
            None => None,
        };
        self.search_query = q2;
        self.update_filter();
    }
}

/// The indices of the entries whose lowercased name holds the lowercased `q`.
fn matching(entries: &Vec<DirEntry>, q: &str) -> (v: Vec<usize>)
    ensures
        v@ == matching_indices(entries@, q@),
{
    let lq = chars_of(to_lowercase(q).as_str());
    let mut v: Vec<usize> = Vec::new();
    let mut i: usize = 0;
    while i < entries.len()
        invariant
            i <= entries.len(),
            lq@ == lowercase(q@),
            v@ == matching_indices(entries@.take(i as int), q@),
        decreases entries.len() - i,
    {
        let ln = chars_of(to_lowercase(entries[i].name.as_str()).as_str());
        let hit = contains_str(&ln, &lq);
        proof {
            assert(entries@.take(i + 1).drop_last() =~= entries@.take(i as int));
            assert(entries@.take(i + 1).last() == entries@[i as int]);
        }
        if hit {
            v.push(i);
        }
        i = i + 1;
    }
    assert(entries@.take(entries.len() as int) =~= entries@);
    v
}

/// Whether `c` is a control character (general category Cc: U+0000 to
/// U+001F and U+007F to U+009F), as `char::is_control` reports.
pub open spec fn is_control_spec(c: char) -> bool {
    (c as u32) < 0x20 || (0x7f <= (c as u32) && (c as u32) < 0xa0)
}

/// `char::is_control`.
pub fn is_control(c: char) -> (b: bool)
    ensures
        b == is_control_spec(c),
{
    let n = c as u32;
    n < 0x20 || (0x7f <= n && n < 0xa0)
}

/// The characters of `s` that are not control characters.
pub open spec fn printable(s: Seq<char>) -> Seq<char>
    decreases s.len(),
{
    if s.len() == 0 {
        Seq::empty()
    } else if is_control_spec(s.last()) {
        printable(s.drop_last())
    } else {
        printable(s.drop_last()).push(s.last())
    }
}

/// The cursor position after one step up or down among `count` entries:
/// from nowhere, down goes to the first and up to the last; otherwise one
/// step, stopping at either end.
pub open spec fn step_cursor(cursor: Option<usize>, down: bool, count: nat) -> nat {
    match cursor {
        None => if down { 0 } else { (count - 1) as nat },
        Some(c) => if down {
            if c + 1 < count { (c + 1) as nat } else { (count - 1) as nat }
        } else {
            if c > 0 { (c - 1) as nat } else { 0 }
        },
    }
}

/// Where a jump by `prefix` lands: the first entry after the cursor, going
/// round, whose lowercased name starts with the lowercased prefix.
pub open spec fn jump_hit(entries: Seq<DirEntry>, start: nat, prefix: Seq<char>, i: nat) -> bool {
    let k = (start + i) % entries.len();
    lowercase(entries[k as int].name@).len() >= lowercase(prefix).len()
        && lowercase(entries[k as int].name@).subrange(0, lowercase(prefix).len() as int) == lowercase(prefix)
}

/// The first step, going round from `start`, at which a jump by `prefix`
/// finds an entry.
pub open spec fn first_jump(entries: Seq<DirEntry>, start: nat, prefix: Seq<char>) -> nat {
    choose|i: nat| i < entries.len() && #[trigger] jump_hit(entries, start, prefix, i)
        && forall|j: nat| j < i ==> !jump_hit(entries, start, prefix, j)
}

/// Where a jump starts looking: just after the cursor, or at the top.
pub open spec fn jump_start(cursor: Option<usize>) -> nat {
    match cursor {
        Some(c) => (c + 1) as nat,
        None => 0,
    }
}

/// The entry a jump by `prefix` selects, if any (see [`jump_hit`]).
pub open spec fn jump_target_spec(entries: Seq<DirEntry>, cursor: Option<usize>, prefix: Seq<char>) -> Option<nat> {
    if entries.len() == 0 || lowercase(prefix).len() == 0 {
        None
    } else if exists|i: nat| i < entries.len() && #[trigger] jump_hit(entries, jump_start(cursor), prefix, i) {
        Some((jump_start(cursor) + first_jump(entries, jump_start(cursor), prefix)) % entries.len())
    } else {
        None
    }
}

/// Whether `s` starts with `p`.
fn starts_with_chars(s: &Vec<char>, p: &Vec<char>) -> (b: bool)
    ensures
        b == (s@.len() >= p@.len() && s@.subrange(0, p@.len() as int) == p@),
{
    if s.len() < p.len() {
        return false;
    }
    let mut j: usize = 0;
    while j < p.len()
        invariant
            j <= p.len(),
            p.len() <= s.len(),
            s@.subrange(0, j as int) == p@.subrange(0, j as int),
        decreases p.len() - j,
    {
        if s[j] != p[j] {
            assert(s@.subrange(0, p@.len() as int)[j as int] != p@[j as int]);
            return false;
        }
        assert(s@.subrange(0, j + 1) =~= s@.subrange(0, j as int).push(s@[j as int]));
        assert(p@.subrange(0, j + 1) =~= p@.subrange(0, j as int).push(p@[j as int]));
        j = j + 1;
    }
    assert(p@.subrange(0, p@.len() as int) =~= p@);
    true
}

proof fn lemma_jump_start_mod(cursor: Option<usize>, n: nat, s0: nat)
    requires
        n > 0,
        s0 == match cursor {
            Some(c) => if (c as int) % (n as int) == n - 1 { 0 } else { (c as int) % (n as int) + 1 },
            None => 0,
        },
    ensures
        s0 == jump_start(cursor) % n,
        s0 < n,
{
    vstd::arithmetic::div_mod::lemma_small_mod(0, n);
    match cursor {
        Some(c) => {
            let m = n as int;
            vstd::arithmetic::div_mod::lemma_add_mod_noop(c as int, 1, m);
            vstd::arithmetic::div_mod::lemma_mod_bound(c as int, m);
            if n == 1 {
                vstd::arithmetic::div_mod::lemma_mod_add_multiples_vanish(0, 1);
                vstd::arithmetic::div_mod::lemma_mod_add_multiples_vanish(c as int, 1);
                assert((c as int) % 1 == 0) by {
                    vstd::arithmetic::div_mod::lemma_mod_bound(c as int, 1);
                }
                assert(((c + 1) as nat) % 1 == 0) by {
                    vstd::arithmetic::div_mod::lemma_mod_bound((c + 1) as int, 1);
                }
            } else {
                vstd::arithmetic::div_mod::lemma_small_mod(1, n);
                if (c as int) % m == m - 1 {
                    vstd::arithmetic::div_mod::lemma_mod_add_multiples_vanish(0, m);
                } else {
                    vstd::arithmetic::div_mod::lemma_small_mod(((c as int) % m + 1) as nat, n);
                }
            }
        },
        None => {},
    }
}

proof fn lemma_round_index(start: nat, n: nat, s0: nat, i: nat, k: nat)
    requires
        n > 0,
        s0 == start % n,
        s0 < n,
        i < n,
        k == (if i >= n - s0 { i - (n - s0) } else { s0 + i as int }),
    ensures
        k == (start + i) % n,
        k < n,
{
    let m = n as int;
    vstd::arithmetic::div_mod::lemma_add_mod_noop(start as int, i as int, m);
    vstd::arithmetic::div_mod::lemma_small_mod(i, n);
    if s0 + i < n {
        vstd::arithmetic::div_mod::lemma_small_mod((s0 + i) as nat, n);
    } else {
        vstd::arithmetic::div_mod::lemma_mod_add_multiples_vanish((s0 + i - n) as int, m);
        vstd::arithmetic::div_mod::lemma_small_mod((s0 + i - n) as nat, n);
    }
}

proof fn lemma_jump_found(entries: Seq<DirEntry>, cursor: Option<usize>, prefix: Seq<char>, i: nat)
    requires
        entries.len() > 0,
        lowercase(prefix).len() > 0,
        i < entries.len(),
        jump_hit(entries, jump_start(cursor), prefix, i),
        forall|j: nat| j < i ==> !jump_hit(entries, jump_start(cursor), prefix, j),
    ensures
        jump_target_spec(entries, cursor, prefix) == Some((jump_start(cursor) + i) % entries.len()),
{
    let start = jump_start(cursor);
    let w = first_jump(entries, start, prefix);
    assert(w == i) by {
        if w < i {
            assert(!jump_hit(entries, start, prefix, w));
        } else if w > i {
            assert(!jump_hit(entries, start, prefix, i));
        }
    }
}

proof fn lemma_jump_missed(entries: Seq<DirEntry>, cursor: Option<usize>, prefix: Seq<char>)
    requires
        forall|j: nat| j < entries.len() ==> !jump_hit(entries, jump_start(cursor), prefix, j),
    ensures
        jump_target_spec(entries, cursor, prefix) is None,
{
}

impl FileViewState {
    /// Move the cursor one entry down or up (see [`step_cursor`]); with
    /// `extend` the selection runs from the anchor (or the new position) to
    /// it, otherwise only the new position is selected. Nothing happens in
    /// an empty listing.
    pub fn move_cursor(&mut self, down: bool, extend: bool)
        requires
            old(self).wf(),
        ensures
            final(self).wf(),
            old(self).entries.len() == 0 ==> final(self).selection() == old(self).selection()
                && final(self).cursor == old(self).cursor && final(self).anchor == old(self).anchor,
            old(self).entries.len() > 0 ==> ({
                let t = step_cursor(old(self).cursor, down, old(self).entries.len() as nat);
                let a: nat = if extend { match old(self).anchor { Some(a) => a as nat, None => t } } else { t };
                &&& final(self).cursor == Some(t as usize)
                &&& final(self).selection() == Set::new(|i: usize|
                        (if a <= t { a } else { t }) <= i <= (if a <= t { t } else { a }))
                &&& final(self).anchor == (if extend { old(self).anchor } else { Some(t as usize) })
            }),
            final(self).same_location(old(self)),
            final(self).entries@ == old(self).entries@,
            final(self).search_query == old(self).search_query,
            opt_indices(final(self).filtered_indices) == opt_indices(old(self).filtered_indices),
            final(self).last_error == old(self).last_error,
    {
        let count = self.entries.len();
        if count == 0 {
            return;
        }
        let t: usize = match self.cursor {
            None => if down { 0 } else { count - 1 },
            Some(c) => if down {
                if c < count - 1 { c + 1 } else { count - 1 }
            } else {
                if c > 0 { c - 1 } else { 0 }
            },
        };
        if extend {
            let a = match self.anchor {
                Some(a) => a,
                None => t,
            };
            self.select_range(a, t);
            assert(self.selection() =~= Set::new(|i: usize| (if a <= t { a } else { t }) <= i <= (if a <= t { t } else { a })));
        } else {
            self.select_single(t);
            assert(self.selection() =~= Set::new(|i: usize| t <= i <= t));
        }
    }

    /// Type `text` into the search: its characters other than control
    /// characters are added to the query (if a search is on), the listing is
    /// filtered again, and the first match, if any, is selected alone.
    pub fn search_type(&mut self, text: &str)
        requires
            old(self).wf(),
        ensures
            final(self).wf(),
            match old(self).search_query {
                Some(q) => final(self).search_query matches Some(r) && r@ == q@ + printable(text@),
                None => final(self).search_query is None,
            },
            opt_indices(final(self).filtered_indices) == old(self).filter_for(final(self).search_query),
            (opt_indices(final(self).filtered_indices) matches Some(fi) && fi.len() > 0) ==> ({
                let first = opt_indices(final(self).filtered_indices).unwrap()[0];
                &&& final(self).selection() == set![first]
                &&& final(self).cursor == Some(first)
                &&& final(self).anchor == Some(first)
            }),
            !(opt_indices(final(self).filtered_indices) matches Some(fi) && fi.len() > 0) ==> (
                final(self).selection() == old(self).selection()
                && final(self).cursor == old(self).cursor && final(self).anchor == old(self).anchor),
            final(self).same_location(old(self)),
            final(self).entries@ == old(self).entries@,
            final(self).last_error == old(self).last_error,
    {
        let cs = chars_of(text);
        let q2: Option<String> = match &self.search_query {
            Some(q) => {
                let mut r = q.clone();
                let mut i: usize = 0;
                assert(cs@.take(0) =~= Seq::<char>::empty());
                while i < cs.len()
                    invariant
                        i <= cs.len(),
                        cs@ == text@,
                        r@ == q@ + printable(cs@.take(i as int)),
                    decreases cs.len() - i,
                {
                    assert(cs@.take(i + 1).drop_last() =~= cs@.take(i as int));
                    assert(cs@.take(i + 1).last() == cs@[i as int]);
                    if !is_control(cs[i]) {
                        push_char(&mut r, cs[i]);
                    }
                    i = i + 1;
                    assert(r@ =~= q@ + printable(cs@.take(i as int)));
                }
                assert(cs@.take(cs.len() as int) =~= cs@);
                Some(r)
            },
            None => None,
        };
        self.search_query = q2;
        self.update_filter();
        let first: Option<usize> = match &self.filtered_indices {
            Some(fi) => if fi.len() > 0 { Some(fi[0]) } else { None },
            None => None,
        };
        if let Some(f) = first {
            self.select_single(f);
        }
    }

    /// The entry a jump by `prefix` lands on (see [`jump_target_spec`]).
    pub fn jump_target(&self, prefix: &str) -> (r: Option<usize>)
        ensures
            match r {
                Some(k) => jump_target_spec(self.entries@, self.cursor, prefix@) == Some(k as nat),
                None => jump_target_spec(self.entries@, self.cursor, prefix@) is None,
            },
    {
        let n = self.entries.len();
        let lp = chars_of(to_lowercase(prefix).as_str());
        if n == 0 || lp.len() == 0 {
            return None;
        }
        let ghost start: nat = jump_start(self.cursor);
        let s0: usize = match self.cursor {
            Some(c) => if c % n == n - 1 { 0 } else { c % n + 1 },
            None => 0,
        };
        proof {
            lemma_jump_start_mod(self.cursor, n as nat, s0 as nat);
        }
        let mut i: usize = 0;
        while i < n
            invariant
                i <= n,
                n == self.entries.len(),
                n > 0,
                s0 < n,
                s0 == start % (n as nat),
                start == jump_start(self.cursor),
                lp@ == lowercase(prefix@),
                lp.len() > 0,
                forall|j: nat| j < i ==> !jump_hit(self.entries@, start, prefix@, j),
            decreases n - i,
        {
            let k = if i >= n - s0 { i - (n - s0) } else { s0 + i };
            proof {
                lemma_round_index(start, n as nat, s0 as nat, i as nat, k as nat);
            }
            let ln = chars_of(to_lowercase(self.entries[k].name.as_str()).as_str());
            if starts_with_chars(&ln, &lp) {
                proof {
                    lemma_jump_found(self.entries@, self.cursor, prefix@, i as nat);
                }
                return Some(k);
            }
            i = i + 1;
        }
        proof {
            lemma_jump_missed(self.entries@, self.cursor, prefix@);
        }
        None
    }

    /// The path of the entry under the cursor and whether it is a
    /// directory, when the cursor is on an entry.
    pub fn cursor_target(&self) -> (r: Option<(String, bool)>)
        ensures
            match self.cursor {
                Some(i) => if i < self.entries.len() {
                    r matches Some(t)
                        && t.0@ == crate::paths::path_join(self.current_path@, self.entries@[i as int].name@)
                        && t.1 == self.entries@[i as int].is_dir
                } else {
                    r is None
                },
                None => r is None,
            },
    {
        match self.cursor {
            Some(i) => if i < self.entries.len() {
                self.entry_target(i)
            } else {
                None
            },
            None => None,
        }
    }

    /// The path of entry `i` and whether it is a directory, when there is
    /// such an entry.
    pub fn entry_target(&self, i: usize) -> (r: Option<(String, bool)>)
        ensures
            i < self.entries.len() ==> (r matches Some(t)
                && t.0@ == crate::paths::path_join(self.current_path@, self.entries@[i as int].name@)
                && t.1 == self.entries@[i as int].is_dir),
            i >= self.entries.len() ==> r is None,
    {
        if i < self.entries.len() {
            let p = crate::paths::join_path(self.current_path.as_str(), self.entries[i].name.as_str());
            Some((p, self.entries[i].is_dir))
        } else {
            None
        }
    }

    /// The paths of the selected entries, in index order (selected indices
    /// past the listing are skipped).
    pub fn selected_paths(&self) -> (v: Vec<String>)
        requires
            self.wf(),
        ensures
            paths_view(v@) == entry_paths(self.selected@, self.entries@, self.current_path@),
    {
        let mut v: Vec<String> = Vec::new();
        let mut k: usize = 0;
        while k < self.selected.len()
            invariant
                k <= self.selected.len(),
                paths_view(v@) == entry_paths(self.selected@.take(k as int), self.entries@, self.current_path@),
            decreases self.selected.len() - k,
        {
            let i = self.selected[k];
            proof {
                assert(self.selected@.take(k + 1).drop_last() =~= self.selected@.take(k as int));
                assert(self.selected@.take(k + 1).last() == i);
            }
            if i < self.entries.len() {
                let p = crate::paths::join_path(self.current_path.as_str(), self.entries[i].name.as_str());
                v.push(p);
            }
            k = k + 1;
            assert(paths_view(v@) =~= entry_paths(self.selected@.take(k as int), self.entries@, self.current_path@));
        }
        assert(self.selected@.take(self.selected.len() as int) =~= self.selected@);
        v
    }
}

/// The paths, under `base`, of the entries at the indices `sel`, skipping
/// indices past the listing.
pub open spec fn entry_paths(sel: Seq<usize>, entries: Seq<DirEntry>, base: Seq<char>) -> Seq<Seq<char>>
    decreases sel.len(),
{
    if sel.len() == 0 {
        Seq::empty()
    } else {
        let rest = entry_paths(sel.drop_last(), entries, base);
        let i = sel.last();
        if i < entries.len() { rest.push(crate::paths::path_join(base, entries[i as int].name@)) } else { rest }
    }
}

// ── Laws ──

/// Going back right after going to a directory returns to where one was; the
/// back stack is as before unless it was already full.
pub proof fn law_back_undoes_navigate(h: (Seq<char>, Seq<Seq<char>>, Seq<Seq<char>>), path: Seq<char>)
    ensures
        history_back(history_navigate(h, path)).0 == h.0,
        history_back(history_navigate(h, path)).2 == seq![path],
        h.1.len() < MAX_NAV_HISTORY ==> history_back(history_navigate(h, path)).1 == h.1,
{
    let pushed = h.1.push(h.0);
    if pushed.len() > MAX_NAV_HISTORY {
        let k = keep_last(pushed, MAX_NAV_HISTORY as nat);
        assert(k.last() == h.0);
    } else {
        assert(pushed.drop_last() =~= h.1);
    }
}

/// Going forward right after going back undoes it, and so does going back
/// right after going forward.
pub proof fn law_back_forward_inverse(h: (Seq<char>, Seq<Seq<char>>, Seq<Seq<char>>))
    ensures
        h.1.len() > 0 ==> history_forward(history_back(h)) == h,
        h.2.len() > 0 ==> history_back(history_forward(h)) == h,
{
    if h.1.len() > 0 {
        assert(h.1.drop_last().push(h.1.last()) =~= h.1);
        assert(h.2.push(h.0).drop_last() =~= h.2);
    }
    if h.2.len() > 0 {
        assert(h.2.drop_last().push(h.2.last()) =~= h.2);
        assert(h.1.push(h.0).drop_last() =~= h.1);
    }
}

/// Every move keeps the two stacks together within the limit.
pub proof fn law_history_bounded(h: (Seq<char>, Seq<Seq<char>>, Seq<Seq<char>>), path: Seq<char>)
    requires
        history_bounded(h),
    ensures
        history_bounded(history_navigate(h, path)),
        history_bounded(history_back(h)),
        history_bounded(history_forward(h)),
{
}

/// Toggling an index twice leaves the selection as it was.
pub proof fn law_toggle_twice(sel: Set<usize>, idx: usize)
    ensures
        ({
            let once = if sel.contains(idx) { sel.remove(idx) } else { sel.insert(idx) };
            let twice = if once.contains(idx) { once.remove(idx) } else { once.insert(idx) };
            twice == sel
        }),
{
    let once = if sel.contains(idx) { sel.remove(idx) } else { sel.insert(idx) };
    let twice = if once.contains(idx) { once.remove(idx) } else { once.insert(idx) };
    assert(twice =~= sel);
}

/// Three steps of the view mode come back to where they started.
pub proof fn law_view_mode_cycle(m: ViewMode)
    ensures
        m.next_spec().next_spec().next_spec() == m,
        m.next_spec() != m,
{
}

/// The filter keeps exactly the matching entries, in increasing order.
pub proof fn law_matching_indices(entries: Seq<DirEntry>, q: Seq<char>)
    requires
        entries.len() <= usize::MAX,
    ensures
        strictly_sorted(matching_indices(entries, q)),
        forall|k: int| 0 <= k < matching_indices(entries, q).len() ==> #[trigger] matching_indices(entries, q)[k] < entries.len(),
        forall|i: usize| matching_indices(entries, q).contains(i) <==> (i < entries.len() && name_matches(entries[i as int], q)),
    decreases entries.len(),
{
    if entries.len() > 0 {
        let rest = entries.drop_last();
        let n = entries.len();
        law_matching_indices(rest, q);
        let m = matching_indices(entries, q);
        let r = matching_indices(rest, q);
        let last_hit = name_matches(entries.last(), q);
        if last_hit {
            assert(m =~= r.push((n - 1) as usize));
        } else {
            assert(m =~= r);
        }
        assert forall|i: usize| m.contains(i) implies (i < n && name_matches(entries[i as int], q)) by {
            let k = choose|k: int| 0 <= k < m.len() && m[k] == i;
            if k < r.len() {
                assert(r[k] == i);
                assert(r.contains(i));
                assert(entries[i as int] == rest[i as int]);
            }
        }
        assert forall|i: usize| (i < n && name_matches(entries[i as int], q)) implies m.contains(i) by {
            if i < n - 1 {
                assert(entries[i as int] == rest[i as int]);
                assert(r.contains(i));
                let k = choose|k: int| 0 <= k < r.len() && r[k] == i;
                assert(m[k] == i);
            } else {
                assert(m[r.len() as int] == i);
            }
        }
        assert forall|a: int, b: int| 0 <= a < b < m.len() implies m[a] < m[b] by {
            if b < r.len() {
                assert(m[a] == r[a] && m[b] == r[b]);
            } else {
                assert(m[a] == r[a]);
                assert(r[a] < rest.len());
            }
        }
    }
}

} // verus!

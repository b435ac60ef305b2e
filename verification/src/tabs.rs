//! Directory tabs: each keeps a snapshot of its view, one is active, and
//! keys and clicks on the tab bar choose what happens to them.

use vstd::prelude::*;
use crate::entry::{DirEntry, SortColumn, SortOrder};
use crate::keys::{Key, Modifiers};
use crate::paths::{file_name, path_file_name};
use crate::state::{strictly_sorted, FileViewState, ViewMode};

verus! {

/// What a tab remembers of its view. The scroll position is carried as the
/// bits of the window layer's offset, which the tabs do not read.
pub struct TabSnapshot {
    pub path: String,
    pub cursor: Option<usize>,
    pub selected: Vec<usize>,
    pub show_hidden: bool,
    pub sort_column: SortColumn,
    pub sort_order: SortOrder,
    pub view_mode: ViewMode,
    pub scroll_offset_bits: u32,
}

/// A tab: its label and its snapshot.
pub struct TabInfo {
    pub label: String,
    pub snapshot: TabSnapshot,
}

/// What a key or a click on the tab bar asks for.
#[derive(Clone, Copy, Debug, PartialEq, Eq, Structural)]
pub enum TabAction {
    NoAction,
    Switch(usize),
    Close(usize),
    NewTab,
}

/// The tabs, of which `active` is shown.
pub struct TabBar {
    pub tabs: Vec<TabInfo>,
    pub active: usize,
}

/// The label of a tab on `path`: its last component, or `/`.
pub open spec fn dir_label_spec(path: Seq<char>) -> Seq<char> {
    match path_file_name(path) {
        Some(n) => n,
        None => seq!['/'],
    }
}

/// The label of a tab on `path` (see [`dir_label_spec`]).
pub fn dir_label(path: &str) -> (s: String)
    ensures
        s@ == dir_label_spec(path@),
{
    match file_name(path) {
        Some(n) => n,
        None => {
            let mut s = String::new();
            crate::text::push_char(&mut s, '/');
            s
        },
    }
}

/// The snapshot of a new tab on `path`: no cursor, nothing selected, dot
/// files hidden, by name ascending, in detail view, at the top.
pub open spec fn fresh_snapshot(s: TabSnapshot, path: Seq<char>) -> bool {
    &&& s.path@ == path
    &&& s.cursor is None
    &&& s.selected@ == Seq::<usize>::empty()
    &&& !s.show_hidden
    &&& s.sort_column == SortColumn::Name
    &&& s.sort_order == SortOrder::Asc
    &&& s.view_mode == ViewMode::Detail
    &&& s.scroll_offset_bits == 0
}

fn new_tab_info(path: String) -> (t: TabInfo)
    ensures
        t.label@ == dir_label_spec(path@),
        fresh_snapshot(t.snapshot, path@),
{
    let label = dir_label(path.as_str());
    TabInfo {
        label,
        snapshot: TabSnapshot {
            path,
            cursor: None,
            selected: Vec::new(),
            show_hidden: false,
            sort_column: SortColumn::Name,
            sort_order: SortOrder::Asc,
            view_mode: ViewMode::Detail,
            scroll_offset_bits: 0,
        },
    }
}

/// The tab key table (with Ctrl held, on a press): T opens a tab, W closes
/// the active one when there are others, Tab moves to the next tab (Shift:
/// the previous one, going round) when that is another tab, and a digit 1
/// to 9 switches to that tab when it exists.
pub open spec fn tab_key_spec(tab_count: nat, active: nat, key: Key, mods: Modifiers, pressed: bool) -> TabAction {
    if !pressed || !mods.ctrl {
        TabAction::NoAction
    } else {
        match key {
            Key::Letter(c) => if c == 't' || c == 'T' {
                TabAction::NewTab
            } else if (c == 'w' || c == 'W') && tab_count > 1 {
                TabAction::Close(active as usize)
            } else {
                TabAction::NoAction
            },
            Key::Tab => {
                let next: int = if mods.shift { (active + tab_count - 1) as int % (tab_count as int) } else { (active + 1) as int % (tab_count as int) };
                if next != active { TabAction::Switch(next as usize) } else { TabAction::NoAction }
            },
            Key::Digit(d) => if 1 <= d <= 9 && d - 1 < tab_count { TabAction::Switch((d - 1) as usize) } else { TabAction::NoAction },
            _ => TabAction::NoAction,
        }
    }
}

impl TabBar {
    /// One or more tabs, one of them active, every snapshot's selection
    /// sorted without repeats.
    pub open spec fn wf(&self) -> bool {
        &&& self.tabs.len() >= 1
        &&& self.active < self.tabs.len()
        &&& forall|i: int| 0 <= i < self.tabs.len() ==> strictly_sorted(#[trigger] self.tabs@[i].snapshot.selected@)
    }

    /// A single tab on `initial_path`.
    pub fn new(initial_path: String) -> (b: TabBar)
        ensures
            b.wf(),
            b.tabs.len() == 1,
            b.active == 0,
            b.tabs@[0].label@ == dir_label_spec(initial_path@),
            fresh_snapshot(b.tabs@[0].snapshot, initial_path@),
    {
        let mut tabs: Vec<TabInfo> = Vec::new();
        tabs.push(new_tab_info(initial_path));
        TabBar { tabs, active: 0 }
    }

    /// The number of tabs.
    pub fn tab_count(&self) -> (n: usize)
        ensures
            n == self.tabs.len(),
    {
        self.tabs.len()
    }

    /// Open a tab on `path` after the others and make it active.
    pub fn add_tab(&mut self, path: String)
        requires
            old(self).wf(),
        ensures
            final(self).wf(),
            final(self).tabs.len() == old(self).tabs.len() + 1,
            final(self).tabs@.take(old(self).tabs.len() as int) == old(self).tabs@,
            final(self).tabs@.last().label@ == dir_label_spec(path@),
            fresh_snapshot(final(self).tabs@.last().snapshot, path@),
            final(self).active == old(self).tabs.len(),
    {
        let ghost before = self.tabs@;
        let t = new_tab_info(path);
        self.tabs.push(t);
        self.active = self.tabs.len() - 1;
        assert(self.tabs@.take(before.len() as int) =~= before);
        assert forall|i: int| 0 <= i < self.tabs.len() implies strictly_sorted(#[trigger] self.tabs@[i].snapshot.selected@) by {
            if i < before.len() {
                assert(self.tabs@[i] == before[i]);
            }
        }
    }

    /// Close tab `idx`, unless it is the only one (`false` then). The active
    /// tab stays the same tab where it can; when it is the closed one, the
    /// tab that took its place (or the new last) becomes active.
    pub fn close_tab(&mut self, idx: usize) -> (closed: bool)
        requires
            old(self).wf(),
            old(self).tabs.len() > 1 ==> idx < old(self).tabs.len(),
        ensures
            final(self).wf(),
            closed == (old(self).tabs.len() > 1),
            !closed ==> final(self).tabs@ == old(self).tabs@ && final(self).active == old(self).active,
            closed ==> final(self).tabs@ == old(self).tabs@.remove(idx as int),
            closed ==> final(self).active == (if old(self).active >= final(self).tabs.len() {
                (final(self).tabs.len() - 1) as usize
            } else if old(self).active > idx {
                (old(self).active - 1) as usize
            } else {
                old(self).active
            }),
    {
        if self.tabs.len() <= 1 {
            return false;
        }
        let ghost before = self.tabs@;
        self.tabs.remove(idx);
        if self.active >= self.tabs.len() {
            self.active = self.tabs.len() - 1;
        } else if self.active > idx {
            self.active = self.active - 1;
        }
        assert forall|i: int| 0 <= i < self.tabs.len() implies strictly_sorted(#[trigger] self.tabs@[i].snapshot.selected@) by {
            if i < idx {
                assert(self.tabs@[i] == before[i]);
            } else {
                assert(self.tabs@[i] == before[i + 1]);
            }
        }
        true
    }

    /// Point the active tab at `path`, relabelling it.
    pub fn update_active_label(&mut self, path: &str)
        requires
            old(self).wf(),
        ensures
            final(self).wf(),
            final(self).active == old(self).active,
            final(self).tabs.len() == old(self).tabs.len(),
            final(self).tabs@[old(self).active as int].label@ == dir_label_spec(path@),
            final(self).tabs@[old(self).active as int].snapshot.path@ == path@,
            forall|i: int| 0 <= i < old(self).tabs.len() && i != old(self).active ==> #[trigger] final(self).tabs@[i] == old(self).tabs@[i],
    {
        let ghost before = self.tabs@;
        let a = self.active;
        let mut t = self.tabs.remove(a);
        t.label = dir_label(path);
        t.snapshot.path = path.to_owned();
        self.tabs.insert(a, t);
        assert forall|i: int| 0 <= i < self.tabs.len() implies strictly_sorted(#[trigger] self.tabs@[i].snapshot.selected@) by {
            if i != a {
                assert(self.tabs@[i] == before[i]);
            }
        }
        assert forall|i: int| 0 <= i < before.len() && i != a implies #[trigger] self.tabs@[i] == before[i] by {}
    }

    /// What a click on tab `idx` does (`on_close` when it hit the close
    /// button): closes it when there are others, switches to it when it is
    /// not active, and otherwise nothing.
    pub fn click_action(&self, idx: usize, on_close: bool) -> (a: TabAction)
        ensures
            a == (if idx >= self.tabs.len() {
                TabAction::NoAction
            } else if self.tabs.len() > 1 && on_close {
                TabAction::Close(idx)
            } else if idx != self.active {
                TabAction::Switch(idx)
            } else {
                TabAction::NoAction
            }),
    {
        if idx >= self.tabs.len() {
            return TabAction::NoAction;
        }
        if self.tabs.len() > 1 && on_close {
            return TabAction::Close(idx);
        }
        if idx != self.active { TabAction::Switch(idx) } else { TabAction::NoAction }
    }

    /// What a key does to the tabs (see [`tab_key_spec`]).
    pub fn key_action(&self, key: Key, mods: Modifiers, pressed: bool) -> (a: TabAction)
        requires
            self.wf(),
        ensures
            a == tab_key_spec(self.tabs.len() as nat, self.active as nat, key, mods, pressed),
    {
        if !pressed || !mods.ctrl {
            return TabAction::NoAction;
        }
        let n = self.tabs.len();
        match key {
            Key::Letter(c) => {
                if c == 't' || c == 'T' {
                    TabAction::NewTab
                } else if (c == 'w' || c == 'W') && n > 1 {
                    TabAction::Close(self.active)
                } else {
                    TabAction::NoAction
                }
            },
            Key::Tab => {
                proof {
                    crate::panes::lemma_step_mod(self.active as int, n as int);
                }
                let next = if mods.shift {
                    if self.active == 0 { n - 1 } else { self.active - 1 }
                } else {
                    if self.active + 1 == n { 0 } else { self.active + 1 }
                };
                proof {
                    if self.active + 1 < n {
                        vstd::arithmetic::div_mod::lemma_small_mod((self.active + 1) as nat, n as nat);
                    }
                    vstd::arithmetic::div_mod::lemma_mod_add_multiples_vanish(0, n as int);
                    vstd::arithmetic::div_mod::lemma_small_mod(0, n as nat);
                    vstd::arithmetic::div_mod::lemma_small_mod((n - 1) as nat, n as nat);
                    if self.active > 0 {
                        vstd::arithmetic::div_mod::lemma_mod_add_multiples_vanish(self.active - 1, n as int);
                        vstd::arithmetic::div_mod::lemma_small_mod((self.active - 1) as nat, n as nat);
                    }
                }
                if next != self.active { TabAction::Switch(next) } else { TabAction::NoAction }
            },
            Key::Digit(d) => {
                if 1 <= d && d <= 9 && ((d - 1) as usize) < n {
                    TabAction::Switch((d - 1) as usize)
                } else {
                    TabAction::NoAction
                }
            },
            _ => TabAction::NoAction,
        }
    }
}

/// The snapshot of `state`, with the view's scroll offset bits.
pub fn save_snapshot(state: &FileViewState, scroll_offset_bits: u32) -> (s: TabSnapshot)
    requires
        state.wf(),
    ensures
        s.path@ == state.current_path@,
        s.cursor == state.cursor,
        s.selected@ == state.selected@,
        strictly_sorted(s.selected@),
        s.show_hidden == state.show_hidden,
        s.sort_column == state.sort_column,
        s.sort_order == state.sort_order,
        s.view_mode == state.view_mode,
        s.scroll_offset_bits == scroll_offset_bits,
{
    TabSnapshot {
        path: state.current_path.clone(),
        cursor: state.cursor,
        selected: copy_indices(&state.selected),
        show_hidden: state.show_hidden,
        sort_column: state.sort_column,
        sort_order: state.sort_order,
        view_mode: state.view_mode,
        scroll_offset_bits,
    }
}

fn copy_indices(v: &Vec<usize>) -> (r: Vec<usize>)
    ensures
        r@ == v@,
{
    let mut r: Vec<usize> = Vec::new();
    let mut i: usize = 0;
    while i < v.len()
        invariant
            i <= v.len(),
            r@ == v@.take(i as int),
        decreases v.len() - i,
    {
        r.push(v[i]);
        i = i + 1;
        assert(r@ =~= v@.take(i as int));
    }
    assert(v@.take(v.len() as int) =~= v@);
    r
}

/// Whether restoring `snap` into `state` needs the snapshot's location read
/// again: it does when the view is elsewhere.
pub fn restore_needs_read(snap: &TabSnapshot, state: &FileViewState) -> (b: bool)
    ensures
        b == (snap.path@ != state.current_path@),
{
    !crate::lru_cache::str_equal(snap.path.as_str(), state.current_path.as_str())
}

/// Put `snap` back into `state`. When the view is elsewhere, it moves to the
/// snapshot's location with the snapshot's settings and takes `read`, the
/// read of that location; then the cursor and the selection come back.
pub fn restore_snapshot(snap: &TabSnapshot, state: &mut FileViewState, read: Option<Result<Vec<DirEntry>, String>>)
    requires
        old(state).wf(),
        strictly_sorted(snap.selected@),
        (read is Some) == (snap.path@ != old(state).current_path@),
    ensures
        final(state).wf(),
        final(state).current_path@ == snap.path@,
        final(state).cursor == snap.cursor,
        final(state).selected@ == snap.selected@,
        final(state).history().1 == old(state).history().1,
        final(state).history().2 == old(state).history().2,
        read is None ==> ({
            &&& final(state).show_hidden == old(state).show_hidden
            &&& final(state).sort_column == old(state).sort_column
            &&& final(state).sort_order == old(state).sort_order
            &&& final(state).view_mode == old(state).view_mode
            &&& final(state).entries@ == old(state).entries@
            &&& final(state).last_error == old(state).last_error
        }),
        read matches Some(r) ==> ({
            &&& final(state).show_hidden == snap.show_hidden
            &&& final(state).sort_column == snap.sort_column
            &&& final(state).sort_order == snap.sort_order
            &&& final(state).view_mode == snap.view_mode
            &&& final(state).loaded(r)
            &&& final(state).search_query is None
            &&& final(state).filtered_indices is None
        }),
{
    match read {
        Some(r) => {
            state.current_path = snap.path.clone();
            state.show_hidden = snap.show_hidden;
            state.sort_column = snap.sort_column;
            state.sort_order = snap.sort_order;
            state.view_mode = snap.view_mode;
            state.refresh(r);
        },
        None => {
            assert(state.current_path@ == snap.path@);
        },
    }
    state.cursor = snap.cursor;
    state.selected = copy_indices(&snap.selected);
}

} // verus!

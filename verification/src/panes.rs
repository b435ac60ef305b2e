//! The panes of the window and which of them has the keyboard.

use vstd::prelude::*;

verus! {

/// The pane that has the keyboard.
#[derive(Clone, Copy, Debug, PartialEq, Eq, Structural)]
pub enum PaneFocus {
    Sidebar,
    FileList,
    Preview,
}

/// The panes on screen, left to right: the sidebar and the preview when
/// shown, the file list always.
pub open spec fn focus_ring(has_sidebar: bool, has_preview: bool) -> Seq<PaneFocus> {
    (if has_sidebar { seq![PaneFocus::Sidebar] } else { Seq::empty() })
        + seq![PaneFocus::FileList]
        + (if has_preview { seq![PaneFocus::Preview] } else { Seq::empty() })
}

/// The position of `p` among the shown panes (see [`focus_ring`]), or 0
/// when it is not shown.
pub open spec fn ring_index(has_sidebar: bool, has_preview: bool, p: PaneFocus) -> int {
    match p {
        PaneFocus::Sidebar => 0,
        PaneFocus::FileList => if has_sidebar { 1 } else { 0 },
        PaneFocus::Preview => if has_preview { if has_sidebar { 2 } else { 1 } } else { 0 },
    }
}

/// The pane after `cur` among those shown, going right, or left when
/// `reverse`, and round at either end.
pub open spec fn next_focus_spec(cur: PaneFocus, has_sidebar: bool, has_preview: bool, reverse: bool) -> PaneFocus {
    let ring = focus_ring(has_sidebar, has_preview);
    let i = ring_index(has_sidebar, has_preview, cur);
    let n = ring.len() as int;
    if reverse { ring[(i + n - 1) % n] } else { ring[(i + 1) % n] }
}

/// The pane that gets the keyboard after `cur` (see [`next_focus_spec`]).
pub fn next_focus_logic(cur: PaneFocus, has_sidebar: bool, has_preview: bool, reverse: bool) -> (r: PaneFocus)
    ensures
        r == next_focus_spec(cur, has_sidebar, has_preview, reverse),
{
    let mut ring: Vec<PaneFocus> = Vec::new();
    if has_sidebar {
        ring.push(PaneFocus::Sidebar);
    }
    ring.push(PaneFocus::FileList);
    if has_preview {
        ring.push(PaneFocus::Preview);
    }
    assert(ring@ =~= focus_ring(has_sidebar, has_preview));
    let n = ring.len();
    let idx: usize = match cur {
        PaneFocus::Sidebar => 0,
        PaneFocus::FileList => if has_sidebar { 1 } else { 0 },
        PaneFocus::Preview => if has_preview { if has_sidebar { 2 } else { 1 } } else { 0 },
    };
    let next = if reverse { (idx + n - 1) % n } else { (idx + 1) % n };
    ring[next]
}

/// Among the panes shown, moving the keyboard one pane on and then one pane
/// back returns it to where it was, in either direction.
pub proof fn law_focus_round_trip(cur: PaneFocus, has_sidebar: bool, has_preview: bool, reverse: bool)
    requires
        focus_ring(has_sidebar, has_preview).contains(cur),
    ensures
        next_focus_spec(next_focus_spec(cur, has_sidebar, has_preview, reverse), has_sidebar, has_preview, !reverse) == cur,
{
    let ring = focus_ring(has_sidebar, has_preview);
    if has_sidebar && has_preview {
        assert(ring =~= seq![PaneFocus::Sidebar, PaneFocus::FileList, PaneFocus::Preview]);
    } else if has_sidebar {
        assert(ring =~= seq![PaneFocus::Sidebar, PaneFocus::FileList]);
    } else if has_preview {
        assert(ring =~= seq![PaneFocus::FileList, PaneFocus::Preview]);
    } else {
        assert(ring =~= seq![PaneFocus::FileList]);
    }
    let k = choose|k: int| 0 <= k < ring.len() && ring[k] == cur;
    assert(ring[k] == cur);
    let n = ring.len() as int;
    let i = ring_index(has_sidebar, has_preview, cur);
    assert(i == k);
    lemma_step_mod(i, n);
    let j = if reverse { (i + n - 1) % n } else { (i + 1) % n };
    lemma_step_mod(j, n);
    let q = ring[j];
    assert(ring_index(has_sidebar, has_preview, q) == j);
}

pub(crate) proof fn lemma_step_mod(i: int, n: int)
    requires
        0 <= i < n,
    ensures
        0 <= (i + 1) % n < n,
        0 <= (i + n - 1) % n < n,
        ((i + 1) % n + n - 1) % n == i,
        (((i + n - 1) % n) + 1) % n == i,
{
    vstd::arithmetic::div_mod::lemma_small_mod(0, n as nat);
    vstd::arithmetic::div_mod::lemma_small_mod(i as nat, n as nat);
    vstd::arithmetic::div_mod::lemma_mod_add_multiples_vanish(0, n);
    vstd::arithmetic::div_mod::lemma_mod_add_multiples_vanish(i, n);
    if i + 1 < n {
        vstd::arithmetic::div_mod::lemma_small_mod((i + 1) as nat, n as nat);
    } else {
        vstd::arithmetic::div_mod::lemma_small_mod((n - 1) as nat, n as nat);
    }
    if i >= 1 {
        vstd::arithmetic::div_mod::lemma_mod_add_multiples_vanish(i - 1, n);
        vstd::arithmetic::div_mod::lemma_small_mod((i - 1) as nat, n as nat);
    } else {
        vstd::arithmetic::div_mod::lemma_small_mod((n - 1) as nat, n as nat);
    }
}

/// The file list is always one of the panes, so it keeps the keyboard when
/// it is the only pane.
pub proof fn law_focus_file_list_alone(reverse: bool)
    ensures
        next_focus_spec(PaneFocus::FileList, false, false, reverse) == PaneFocus::FileList,
{
    assert(focus_ring(false, false) =~= seq![PaneFocus::FileList]);
}

} // verus!

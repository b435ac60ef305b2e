//! The status bar: what it reports of the view, and its line of text.

use vstd::prelude::*;
use crate::entry::{format_size, size_text, DirEntry};
use crate::fmt::{dec, push_dec};
use crate::paths::push_str;
use crate::state::FileViewState;

verus! {

/// What the status bar reports.
pub struct StatusInfo {
    pub item_count: usize,
    pub show_hidden: bool,
    /// The name of the entry under the cursor.
    pub selected_name: Option<String>,
    /// The size text of the entry under the cursor, for a file.
    pub selected_size: Option<String>,
    pub selected_count: usize,
    /// The sum of the sizes of the selected entries.
    pub selected_total_size: u64,
    pub current_path: String,
}

/// The selection part of the status line: the count and total size of a
/// selection of several entries, else the name and size of the entry under
/// the cursor (a directory's name with a slash), else nothing.
pub open spec fn selection_part(count: nat, total_text: Seq<char>, name: Option<Seq<char>>, size: Option<Seq<char>>) -> Seq<char> {
    if count > 1 {
        " | "@ + dec(count) + " selected ("@ + total_text + ")"@
    } else {
        match (name, size) {
            (Some(n), Some(s)) => " | "@ + n + ": "@ + s,
            (Some(n), None) => " | "@ + n + "/"@,
            _ => Seq::empty(),
        }
    }
}

/// The status line: the number of items, whether dot files are shown, the
/// selection part (the total written as the list writes sizes, see
/// [`size_text`]) and the location.
pub open spec fn status_line(info: StatusInfo) -> Seq<char> {
    let total_text = size_text(info.selected_total_size as nat);
    "  "@ + dec(info.item_count as nat) + " items [hidden: "@ + (if info.show_hidden { "on"@ } else { "off"@ }) + "]"@
        + selection_part(info.selected_count as nat, total_text, crate::paths::opt_view(info.selected_name),
            crate::paths::opt_view(info.selected_size))
        + " — "@ + info.current_path@
}

impl StatusInfo {
    /// The status line (see [`status_line`]).
    pub fn message(&self) -> (s: String)
        ensures
            s@ == status_line(*self),
    {
        let total = format_size(self.selected_total_size);
        let total_size_text = total.as_str();
        let mut s = String::new();
        push_str(&mut s, "  ");
        push_dec(&mut s, self.item_count as u64);
        push_str(&mut s, " items [hidden: ");
        push_str(&mut s, if self.show_hidden { "on" } else { "off" });
        push_str(&mut s, "]");
        let ghost head = s@;
        if self.selected_count > 1 {
            push_str(&mut s, " | ");
            push_dec(&mut s, self.selected_count as u64);
            push_str(&mut s, " selected (");
            push_str(&mut s, total_size_text);
            push_str(&mut s, ")");
        } else {
            match (&self.selected_name, &self.selected_size) {
                (Some(n), Some(z)) => {
                    push_str(&mut s, " | ");
                    push_str(&mut s, n.as_str());
                    push_str(&mut s, ": ");
                    push_str(&mut s, z.as_str());
                },
                (Some(n), None) => {
                    push_str(&mut s, " | ");
                    push_str(&mut s, n.as_str());
                    push_str(&mut s, "/");
                },
                _ => {},
            }
        }
        assert(s@ =~= head + selection_part(self.selected_count as nat, total_size_text@,
            crate::paths::opt_view(self.selected_name), crate::paths::opt_view(self.selected_size)));
        push_str(&mut s, " — ");
        push_str(&mut s, self.current_path.as_str());
        assert(s@ =~= status_line(*self));
        s
    }
}

/// The sum of the sizes of the entries at the indices `sel` (indices past
/// the listing count nothing).
pub open spec fn selected_size_sum(sel: Seq<usize>, entries: Seq<DirEntry>) -> nat
    decreases sel.len(),
{
    if sel.len() == 0 {
        0
    } else {
        selected_size_sum(sel.drop_last(), entries) + (if sel.last() < entries.len() {
            entries[sel.last() as int].size as nat
        } else {
            0
        })
    }
}

/// The sum of the sizes of the selected entries, when it fits in a `u64`.
pub fn selected_total(s: &FileViewState) -> (t: Option<u64>)
    ensures
        t == (if selected_size_sum(s.selected@, s.entries@) <= u64::MAX {
            Some(selected_size_sum(s.selected@, s.entries@) as u64)
        } else {
            None::<u64>
        }),
{
    let mut total: u64 = 0;
    let mut k: usize = 0;
    while k < s.selected.len()
        invariant
            k <= s.selected.len(),
            total == selected_size_sum(s.selected@.take(k as int), s.entries@),
        decreases s.selected.len() - k,
    {
        let i = s.selected[k];
        assert(s.selected@.take(k + 1).drop_last() =~= s.selected@.take(k as int));
        proof {
            lemma_size_sum_grows(s.selected@, s.entries@, k as int + 1);
        }
        if i < s.entries.len() {
            match total.checked_add(s.entries[i].size) {
                Some(t) => total = t,
                None => return None,
            }
        }
        k = k + 1;
    }
    assert(s.selected@.take(s.selected.len() as int) =~= s.selected@);
    Some(total)
}

/// The sum over a prefix of the selection is at most the sum over all of it.
proof fn lemma_size_sum_grows(sel: Seq<usize>, entries: Seq<DirEntry>, k: int)
    requires
        0 <= k <= sel.len(),
    ensures
        selected_size_sum(sel.take(k), entries) <= selected_size_sum(sel, entries),
    decreases sel.len() - k,
{
    if k < sel.len() {
        lemma_size_sum_grows(sel, entries, k + 1);
        assert(sel.take(k + 1).drop_last() =~= sel.take(k));
    } else {
        assert(sel.take(k) =~= sel);
    }
}

/// What the status bar reports of `s`. The size of the entry under the
/// cursor, for a file, is written by `size_text`.
pub fn status_info<F: Fn(u64) -> String>(s: &FileViewState, size_text: F) -> (info: StatusInfo)
    requires
        s.wf(),
        selected_size_sum(s.selected@, s.entries@) <= u64::MAX,
        forall|n: u64| #[trigger] size_text.requires((n,)),
    ensures
        info.item_count == s.entries.len(),
        info.show_hidden == s.show_hidden,
        info.selected_count == s.selected.len(),
        info.selected_total_size == selected_size_sum(s.selected@, s.entries@),
        info.current_path@ == s.current_path@,
        match s.cursor {
            Some(i) => if i < s.entries.len() {
                &&& info.selected_name matches Some(n) && n@ == s.entries@[i as int].name@
                &&& s.entries@[i as int].is_dir ==> info.selected_size is None
                &&& !s.entries@[i as int].is_dir ==> (info.selected_size matches Some(z)
                        && size_text.ensures((s.entries@[i as int].size,), z))
            } else {
                info.selected_name is None && info.selected_size is None
            },
            None => info.selected_name is None && info.selected_size is None,
        },
{
    let total = match selected_total(s) {
        Some(t) => t,
        None => 0,
    };
    let (name, size) = match s.cursor {
        Some(i) => if i < s.entries.len() {
            let e = &s.entries[i];
            let z = if e.is_dir { None } else { Some(size_text(e.size)) };
            (Some(e.name.clone()), z)
        } else {
            (None, None)
        },
        None => (None, None),
    };
    StatusInfo {
        item_count: s.entries.len(),
        show_hidden: s.show_hidden,
        selected_name: name,
        selected_size: size,
        selected_count: s.selected.len(),
        selected_total_size: total,
        current_path: s.current_path.clone(),
    }
}

} // verus!

//! Inline renaming and the context menu of the file list.

use vstd::prelude::*;
use crate::keys::{FileListCommand, Key};
use crate::paths::{join_path, path_join};
use crate::state::FileViewState;

verus! {

/// A rename in progress: the path being renamed and the row it sits on.
pub struct RenameSession {
    pub target_path: String,
    pub entry_idx: usize,
}

/// Start renaming entry `idx`, named `name`, of the view `s`.
pub fn start_rename(s: &FileViewState, idx: usize, name: &str) -> (r: RenameSession)
    ensures
        r.target_path@ == path_join(s.current_path@, name@),
        r.entry_idx == idx,
{
    RenameSession { target_path: join_path(s.current_path.as_str(), name), entry_idx: idx }
}

/// How an event ends up while renaming.
pub enum RenameEvent {
    /// Still editing.
    Editing,
    /// Enter was pressed: the new name.
    Submit(String),
    /// Escape was pressed.
    Cancel,
}

/// What a key does while renaming: Escape cancels before the text field sees
/// it; Enter (either key) that the text field took submits its `text`;
/// anything else goes on editing. `handled` is whether the text field took
/// the event.
pub fn rename_event(key: Option<Key>, handled: bool, text: &str) -> (r: RenameEvent)
    ensures
        key == Some(Key::Escape) ==> r is Cancel,
        key != Some(Key::Escape) && handled && (key == Some(Key::Return) || key == Some(Key::KpEnter))
            ==> (r matches RenameEvent::Submit(t) && t@ == text@),
        key != Some(Key::Escape) && !(handled && (key == Some(Key::Return) || key == Some(Key::KpEnter)))
            ==> r is Editing,
{
    if key == Some(Key::Escape) {
        return RenameEvent::Cancel;
    }
    if handled && (key == Some(Key::Return) || key == Some(Key::KpEnter)) {
        return RenameEvent::Submit(text.to_owned());
    }
    RenameEvent::Editing
}

/// The context menu's items, as (id, label).
pub fn menu_items() -> (v: Vec<(&'static str, &'static str)>)
    ensures
        v@.len() == 6,
        v@[0].0@ == "open"@ && v@[0].1@ == "Open"@,
        v@[1].0@ == "copy"@ && v@[1].1@ == "Copy"@,
        v@[2].0@ == "paste"@ && v@[2].1@ == "Paste"@,
        v@[3].0@ == "delete"@ && v@[3].1@ == "Delete"@,
        v@[4].0@ == "rename"@ && v@[4].1@ == "Rename"@,
        v@[5].0@ == "new_folder"@ && v@[5].1@ == "New Folder"@,
{
    vec![
        ("open", "Open"),
        ("copy", "Copy"),
        ("paste", "Paste"),
        ("delete", "Delete"),
        ("rename", "Rename"),
        ("new_folder", "New Folder"),
    ]
}

/// The command a menu item stands for.
pub open spec fn menu_command_spec(id: Seq<char>) -> Option<FileListCommand> {
    if id == "open"@ {
        Some(FileListCommand::Open)
    } else if id == "copy"@ {
        Some(FileListCommand::Copy)
    } else if id == "paste"@ {
        Some(FileListCommand::Paste)
    } else if id == "delete"@ {
        Some(FileListCommand::Delete)
    } else if id == "rename"@ {
        Some(FileListCommand::Rename)
    } else if id == "new_folder"@ {
        Some(FileListCommand::NewFolder)
    } else {
        None
    }
}

/// The command the menu item `id` stands for (see [`menu_command_spec`]).
pub fn menu_command(id: &str) -> (c: Option<FileListCommand>)
    ensures
        c == menu_command_spec(id@),
{
    if crate::lru_cache::str_equal(id, "open") {
        Some(FileListCommand::Open)
    } else if crate::lru_cache::str_equal(id, "copy") {
        Some(FileListCommand::Copy)
    } else if crate::lru_cache::str_equal(id, "paste") {
        Some(FileListCommand::Paste)
    } else if crate::lru_cache::str_equal(id, "delete") {
        Some(FileListCommand::Delete)
    } else if crate::lru_cache::str_equal(id, "rename") {
        Some(FileListCommand::Rename)
    } else if crate::lru_cache::str_equal(id, "new_folder") {
        Some(FileListCommand::NewFolder)
    } else {
        None
    }
}

/// Before the menu opens on entry `idx`: an entry that is not selected yet
/// becomes the selection; a selected one keeps the selection as it is.
pub fn select_for_menu(s: &mut FileViewState, idx: usize)
    requires
        old(s).wf(),
    ensures
        final(s).wf(),
        (idx < old(s).entries.len() && !old(s).selection().contains(idx)) ==> final(s).selection() == set![idx]
            && final(s).cursor == Some(idx) && final(s).anchor == Some(idx),
        !(idx < old(s).entries.len() && !old(s).selection().contains(idx)) ==> final(s).selection() == old(s).selection()
            && final(s).cursor == old(s).cursor && final(s).anchor == old(s).anchor,
        final(s).same_location(old(s)),
        final(s).entries@ == old(s).entries@,
{
    if idx < s.entries.len() && !s.is_selected(idx) {
        s.select_single(idx);
    }
}

} // verus!

//! Keys, and what the file list makes of a key press.

use vstd::prelude::*;
use crate::entry::SortColumn;
use crate::text::chars_of;

verus! {

/// A key, as the windowing layer reports its symbol. A letter keeps the case
/// of its symbol (`q` and `Q` are different symbols); a digit is the digit.
#[derive(Clone, Copy, Debug, PartialEq, Eq, Structural)]
pub enum Key {
    Letter(char),
    Digit(u8),
    Escape,
    Return,
    KpEnter,
    BackSpace,
    Tab,
    Left,
    Right,
    Up,
    Down,
    Home,
    End,
    PageUp,
    PageDown,
    Delete,
    F2,
    F6,
    F12,
    Other,
}

/// The modifier keys held with a key.
#[derive(Clone, Copy, Debug, PartialEq, Eq, Structural)]
pub struct Modifiers {
    pub ctrl: bool,
    pub shift: bool,
    pub alt: bool,
}

/// A pressed key: its symbol, the modifiers and the text it types, if any.
pub struct KeyInput {
    pub key: Key,
    pub mods: Modifiers,
    pub text: Option<String>,
}

/// The scrolling keys.
#[derive(Clone, Copy, Debug, PartialEq, Eq, Structural)]
pub enum ScrollKey {
    PageUp,
    PageDown,
    Home,
    End,
}

/// What the file list does with a key press.
#[derive(Clone, Copy, Debug, PartialEq, Eq, Structural)]
pub enum FileListCommand {
    /// Save the settings and quit.
    Quit,
    /// Leave the search and drop the query.
    SearchCancel,
    /// Leave the search, keeping the filter.
    SearchCommit,
    /// Drop the last character of the query.
    SearchBackspace,
    /// Type the key's text into the query.
    SearchType,
    /// In the search, a key without text: taken, nothing done.
    SearchIdle,
    /// Start a search with an empty query.
    StartSearch,
    /// Drop the query outside the search.
    ClearSearch,
    ToggleHidden,
    GoParent,
    GoBack,
    GoForward,
    /// Move the cursor; `extend` selects from the anchor.
    MoveCursor { down: bool, extend: bool },
    SelectAll,
    CycleViewMode,
    /// Open the entry under the cursor.
    Open,
    SortBy(SortColumn),
    Copy,
    Paste,
    Delete,
    Rename,
    NewFolder,
    Scroll(ScrollKey),
    /// Add the character to the type-to-jump buffer and jump.
    Jump(char),
    /// The key is not for the file list.
    Ignore,
}

/// What `char::is_alphanumeric` reports for `c`: whether it is alphabetic
/// or numeric in Unicode.
pub uninterp spec fn alphanumeric(c: char) -> bool;

/// `char::is_alphanumeric`. Its documentation defines it by the Unicode
/// Alphabetic and Numeric properties, under which the ASCII letters and
/// digits are alphanumeric and no other ASCII character is.
#[verifier::external_body]
fn char_is_alphanumeric(c: char) -> (b: bool)
    ensures
        b == alphanumeric(c),
        (c as u32) < 0x80 ==> (b <==> (('a' <= c && c <= 'z') || ('A' <= c && c <= 'Z') || ('0' <= c && c <= '9'))),
{
    c.is_alphanumeric()
}

/// A character that type-to-jump takes: alphanumeric, `.`, `_` or `-`.
pub open spec fn jump_char(c: char) -> bool {
    alphanumeric(c) || c == '.' || c == '_' || c == '-'
}

/// The first character of `s` that type-to-jump takes.
pub open spec fn first_jump_char(s: Seq<char>) -> Option<char>
    decreases s.len(),
{
    if s.len() == 0 {
        None
    } else if jump_char(s[0]) {
        Some(s[0])
    } else {
        first_jump_char(s.skip(1))
    }
}

/// The sort column chosen by Ctrl with a digit.
pub open spec fn sort_digit(d: u8) -> Option<SortColumn> {
    if d == 1 {
        Some(SortColumn::Name)
    } else if d == 2 {
        Some(SortColumn::Size)
    } else if d == 3 {
        Some(SortColumn::Modified)
    } else {
        None
    }
}

/// The scroll a key asks for.
pub open spec fn scroll_key(key: Key) -> Option<ScrollKey> {
    match key {
        Key::PageUp => Some(ScrollKey::PageUp),
        Key::PageDown => Some(ScrollKey::PageDown),
        Key::Home => Some(ScrollKey::Home),
        Key::End => Some(ScrollKey::End),
        _ => None,
    }
}

/// The file list's key table, tried in this order: Ctrl+Q quits; in a
/// search, Escape, Return and BackSpace end or edit it and other keys type;
/// then Ctrl+F, Escape (with a query), Ctrl+H, BackSpace, Alt+Left,
/// Alt+Right, Up/Down (Shift extends), Ctrl+A, Tab, Return, Ctrl+1/2/3; the
/// file operations Ctrl+C, Ctrl+V, Delete, F2 and Ctrl+Shift+N only when not
/// too soon after the last one (`debounce_ok`); the scroll keys; and, without
/// Ctrl or Alt, the first jump character of the typed text.
pub open spec fn file_list_command_spec(
    key: Key,
    mods: Modifiers,
    text: Option<Seq<char>>,
    search_mode: bool,
    search_active: bool,
    debounce_ok: bool,
) -> FileListCommand {
    if mods.ctrl && key == Key::Letter('q') {
        FileListCommand::Quit
    } else if search_mode {
        match key {
            Key::Escape => FileListCommand::SearchCancel,
            Key::Return => FileListCommand::SearchCommit,
            Key::BackSpace => FileListCommand::SearchBackspace,
            _ => if text is Some { FileListCommand::SearchType } else { FileListCommand::SearchIdle },
        }
    } else if mods.ctrl && key == Key::Letter('f') {
        FileListCommand::StartSearch
    } else if key == Key::Escape && search_active {
        FileListCommand::ClearSearch
    } else if mods.ctrl && key == Key::Letter('h') {
        FileListCommand::ToggleHidden
    } else if key == Key::BackSpace {
        FileListCommand::GoParent
    } else if mods.alt && key == Key::Left {
        FileListCommand::GoBack
    } else if mods.alt && key == Key::Right {
        FileListCommand::GoForward
    } else if key == Key::Up || key == Key::Down {
        FileListCommand::MoveCursor { down: key == Key::Down, extend: mods.shift }
    } else if mods.ctrl && key == Key::Letter('a') {
        FileListCommand::SelectAll
    } else if key == Key::Tab {
        FileListCommand::CycleViewMode
    } else if key == Key::Return {
        FileListCommand::Open
    } else if mods.ctrl && (key matches Key::Digit(d) && sort_digit(d) is Some) {
        FileListCommand::SortBy(sort_digit(key->Digit_0).unwrap())
    } else if mods.ctrl && key == Key::Letter('c') && debounce_ok {
        FileListCommand::Copy
    } else if mods.ctrl && key == Key::Letter('v') && debounce_ok {
        FileListCommand::Paste
    } else if key == Key::Delete && debounce_ok {
        FileListCommand::Delete
    } else if key == Key::F2 && debounce_ok {
        FileListCommand::Rename
    } else if mods.ctrl && mods.shift && (key == Key::Letter('n') || key == Key::Letter('N')) && debounce_ok {
        FileListCommand::NewFolder
    } else if scroll_key(key) is Some {
        FileListCommand::Scroll(scroll_key(key).unwrap())
    } else if !mods.ctrl && !mods.alt && (text matches Some(t) && first_jump_char(t) is Some) {
        FileListCommand::Jump(first_jump_char(text.unwrap()).unwrap())
    } else {
        FileListCommand::Ignore
    }
}

fn first_jump_in(text: &str) -> (r: Option<char>)
    ensures
        r == first_jump_char(text@),
{
    let cs = chars_of(text);
    let mut i: usize = 0;
    assert(cs@.skip(0) =~= cs@);
    while i < cs.len()
        invariant
            i <= cs.len(),
            cs@ == text@,
            first_jump_char(cs@.skip(i as int)) == first_jump_char(text@),
        decreases cs.len() - i,
    {
        let c = cs[i];
        assert(cs@.skip(i as int)[0] == c);
        if char_is_alphanumeric(c) || c == '.' || c == '_' || c == '-' {
            return Some(c);
        }
        assert(cs@.skip(i as int).skip(1) =~= cs@.skip(i + 1));
        i = i + 1;
    }
    assert(cs@.skip(i as int) =~= Seq::<char>::empty());
    None
}

/// What the file list does with `input` (see [`file_list_command_spec`]).
/// `search_mode` is whether the search line has the keyboard,
/// `search_active` whether a query is set, `debounce_ok` whether the last
/// file operation is long enough ago.
pub fn file_list_command(input: &KeyInput, search_mode: bool, search_active: bool, debounce_ok: bool) -> (c: FileListCommand)
    ensures
        c == file_list_command_spec(
            input.key,
            input.mods,
            match input.text {
                Some(t) => Some(t@),
                None => None,
            },
            search_mode,
            search_active,
            debounce_ok,
        ),
{
    let key = input.key;
    let m = input.mods;
    if m.ctrl && key == Key::Letter('q') {
        return FileListCommand::Quit;
    }
    if search_mode {
        return match key {
            Key::Escape => FileListCommand::SearchCancel,
            Key::Return => FileListCommand::SearchCommit,
            Key::BackSpace => FileListCommand::SearchBackspace,
            _ => if input.text.is_some() { FileListCommand::SearchType } else { FileListCommand::SearchIdle },
        };
    }
    if m.ctrl && key == Key::Letter('f') {
        return FileListCommand::StartSearch;
    }
    if key == Key::Escape && search_active {
        return FileListCommand::ClearSearch;
    }
    if m.ctrl && key == Key::Letter('h') {
        return FileListCommand::ToggleHidden;
    }
    if key == Key::BackSpace {
        return FileListCommand::GoParent;
    }
    if m.alt && key == Key::Left {
        return FileListCommand::GoBack;
    }
    if m.alt && key == Key::Right {
        return FileListCommand::GoForward;
    }
    if key == Key::Up || key == Key::Down {
        return FileListCommand::MoveCursor { down: key == Key::Down, extend: m.shift };
    }
    if m.ctrl && key == Key::Letter('a') {
        return FileListCommand::SelectAll;
    }
    if key == Key::Tab {
        return FileListCommand::CycleViewMode;
    }
    if key == Key::Return {
        return FileListCommand::Open;
    }
    if m.ctrl {
        if let Key::Digit(d) = key {
            if d == 1 {
                return FileListCommand::SortBy(SortColumn::Name);
            } else if d == 2 {
                return FileListCommand::SortBy(SortColumn::Size);
            } else if d == 3 {
                return FileListCommand::SortBy(SortColumn::Modified);
            }
        }
    }
    if m.ctrl && key == Key::Letter('c') && debounce_ok {
        return FileListCommand::Copy;
    }
    if m.ctrl && key == Key::Letter('v') && debounce_ok {
        return FileListCommand::Paste;
    }
    if key == Key::Delete && debounce_ok {
        return FileListCommand::Delete;
    }
    if key == Key::F2 && debounce_ok {
        return FileListCommand::Rename;
    }
    if m.ctrl && m.shift && (key == Key::Letter('n') || key == Key::Letter('N')) && debounce_ok {
        return FileListCommand::NewFolder;
    }
    match key {
        Key::PageUp => return FileListCommand::Scroll(ScrollKey::PageUp),
        Key::PageDown => return FileListCommand::Scroll(ScrollKey::PageDown),
        Key::Home => return FileListCommand::Scroll(ScrollKey::Home),
        Key::End => return FileListCommand::Scroll(ScrollKey::End),
        _ => {},
    }
    if !m.ctrl && !m.alt {
        if let Some(t) = &input.text {
            if let Some(c) = first_jump_in(t.as_str()) {
                return FileListCommand::Jump(c);
            }
        }
    }
    FileListCommand::Ignore
}

/// How long after the last typed character the type-to-jump buffer starts
/// over, in milliseconds.
pub const JUMP_TIMEOUT_MS: u64 = 300;

/// Add `c` to the type-to-jump buffer, which starts over when the last
/// character came more than [`JUMP_TIMEOUT_MS`] ago (`since_last_ms`, none
/// for the first character).
pub fn jump_feed(buffer: &mut String, c: char, since_last_ms: Option<u64>)
    ensures
        final(buffer)@ == (if since_last_ms matches Some(t) && t > JUMP_TIMEOUT_MS {
            seq![c]
        } else {
            old(buffer)@.push(c)
        }),
{
    if let Some(t) = since_last_ms {
        if t > JUMP_TIMEOUT_MS {
            *buffer = String::new();
        }
    }
    crate::text::push_char(buffer, c);
}

/// The file list's key table, entry by entry, for every modifier state and
/// typed text not named in the entry: Ctrl+Q quits everywhere; in a search
/// Escape cancels it, Return commits it and BackSpace edits it; outside a
/// search Ctrl+F starts one, Escape drops a set query, Ctrl+H toggles
/// hidden files, BackSpace goes to the parent, Alt+Left and Alt+Right go
/// back and forward, Up and Down move the cursor (Shift extends the
/// selection), Ctrl+A selects all, Tab cycles the view mode, Return opens,
/// Ctrl+1, Ctrl+2 and Ctrl+3 sort by name, size and modification time,
/// Ctrl+C, Ctrl+V, Delete, F2 and Ctrl+Shift+N copy, paste, delete, rename
/// and make a folder (when not too soon after the last file operation), and
/// Page Up, Page Down, Home and End scroll.
pub proof fn law_key_table(mods: Modifiers, text: Option<Seq<char>>, search_mode: bool, search_active: bool, debounce_ok: bool)
    ensures
        mods.ctrl ==> file_list_command_spec(Key::Letter('q'), mods, text, search_mode, search_active, debounce_ok)
            == FileListCommand::Quit,
        search_mode ==> file_list_command_spec(Key::Escape, mods, text, true, search_active, debounce_ok)
            == FileListCommand::SearchCancel,
        search_mode ==> file_list_command_spec(Key::Return, mods, text, true, search_active, debounce_ok)
            == FileListCommand::SearchCommit,
        search_mode ==> file_list_command_spec(Key::BackSpace, mods, text, true, search_active, debounce_ok)
            == FileListCommand::SearchBackspace,
        mods.ctrl ==> file_list_command_spec(Key::Letter('f'), mods, text, false, search_active, debounce_ok)
            == FileListCommand::StartSearch,
        file_list_command_spec(Key::Escape, mods, text, false, true, debounce_ok) == FileListCommand::ClearSearch,
        mods.ctrl ==> file_list_command_spec(Key::Letter('h'), mods, text, false, search_active, debounce_ok)
            == FileListCommand::ToggleHidden,
        file_list_command_spec(Key::BackSpace, mods, text, false, search_active, debounce_ok) == FileListCommand::GoParent,
        mods.alt ==> file_list_command_spec(Key::Left, mods, text, false, search_active, debounce_ok)
            == FileListCommand::GoBack,
        mods.alt ==> file_list_command_spec(Key::Right, mods, text, false, search_active, debounce_ok)
            == FileListCommand::GoForward,
        file_list_command_spec(Key::Up, mods, text, false, search_active, debounce_ok)
            == (FileListCommand::MoveCursor { down: false, extend: mods.shift }),
        file_list_command_spec(Key::Down, mods, text, false, search_active, debounce_ok)
            == (FileListCommand::MoveCursor { down: true, extend: mods.shift }),
        mods.ctrl ==> file_list_command_spec(Key::Letter('a'), mods, text, false, search_active, debounce_ok)
            == FileListCommand::SelectAll,
        file_list_command_spec(Key::Tab, mods, text, false, search_active, debounce_ok) == FileListCommand::CycleViewMode,
        file_list_command_spec(Key::Return, mods, text, false, search_active, debounce_ok) == FileListCommand::Open,
        mods.ctrl ==> file_list_command_spec(Key::Digit(1), mods, text, false, search_active, debounce_ok)
            == FileListCommand::SortBy(SortColumn::Name),
        mods.ctrl ==> file_list_command_spec(Key::Digit(2), mods, text, false, search_active, debounce_ok)
            == FileListCommand::SortBy(SortColumn::Size),
        mods.ctrl ==> file_list_command_spec(Key::Digit(3), mods, text, false, search_active, debounce_ok)
            == FileListCommand::SortBy(SortColumn::Modified),
        mods.ctrl ==> file_list_command_spec(Key::Letter('c'), mods, text, false, search_active, true)
            == FileListCommand::Copy,
        mods.ctrl ==> file_list_command_spec(Key::Letter('v'), mods, text, false, search_active, true)
            == FileListCommand::Paste,
        file_list_command_spec(Key::Delete, mods, text, false, search_active, true) == FileListCommand::Delete,
        file_list_command_spec(Key::F2, mods, text, false, search_active, true) == FileListCommand::Rename,
        mods.ctrl && mods.shift ==> file_list_command_spec(Key::Letter('N'), mods, text, false, search_active, true)
            == FileListCommand::NewFolder,
        mods.ctrl && mods.shift ==> file_list_command_spec(Key::Letter('n'), mods, text, false, search_active, true)
            == FileListCommand::NewFolder,
        file_list_command_spec(Key::PageUp, mods, text, false, search_active, debounce_ok)
            == FileListCommand::Scroll(ScrollKey::PageUp),
        file_list_command_spec(Key::PageDown, mods, text, false, search_active, debounce_ok)
            == FileListCommand::Scroll(ScrollKey::PageDown),
        file_list_command_spec(Key::Home, mods, text, false, search_active, debounce_ok)
            == FileListCommand::Scroll(ScrollKey::Home),
        file_list_command_spec(Key::End, mods, text, false, search_active, debounce_ok)
            == FileListCommand::Scroll(ScrollKey::End),
{
}

/// The three sort keys choose three different columns, and no other digit
/// with Ctrl sorts: Ctrl+1, Ctrl+2 and Ctrl+3 are the only sort keys, and
/// each column has exactly one of them.
pub proof fn law_sort_keys_distinct(mods: Modifiers, text: Option<Seq<char>>, search_active: bool, debounce_ok: bool, d: u8, col: SortColumn)
    requires
        mods.ctrl,
    ensures
        file_list_command_spec(Key::Digit(d), mods, text, false, search_active, debounce_ok) == FileListCommand::SortBy(col)
            <==> (d == 1 && col == SortColumn::Name) || (d == 2 && col == SortColumn::Size)
                || (d == 3 && col == SortColumn::Modified),
{
}

} // verus!

//! The sidebar: bookmarks under the home directory and mounted devices, the
//! rows it shows, and which location a row stands for.

use vstd::prelude::*;
use crate::paths::{join_path, path_join, push_str};
use crate::text::{chars_of, is_white_space, lines_of, push_char, str_lines, strings_view, white_space};

verus! {

/// A sidebar row that leads somewhere.
pub struct SidebarEntry {
    pub label: String,
    pub path: String,
    pub icon: &'static str,
}

/// The bookmarks and the mounted devices.
pub struct SidebarModel {
    pub bookmarks: Vec<SidebarEntry>,
    pub mounts: Vec<SidebarEntry>,
}

/// The bookmarks for the home directory `home`: Home, Documents, Downloads,
/// Desktop and the root.
pub fn default_bookmarks(home: &str) -> (v: Vec<SidebarEntry>)
    ensures
        v.len() == 5,
        v@[0].label@ == "Home"@ && v@[0].path@ == home@ && v@[0].icon@ == "🏠"@,
        v@[1].label@ == "Documents"@ && v@[1].path@ == path_join(home@, "Documents"@) && v@[1].icon@ == "📄"@,
        v@[2].label@ == "Downloads"@ && v@[2].path@ == path_join(home@, "Downloads"@) && v@[2].icon@ == "📥"@,
        v@[3].label@ == "Desktop"@ && v@[3].path@ == path_join(home@, "Desktop"@) && v@[3].icon@ == "🖥"@,
        v@[4].label@ == "Root"@ && v@[4].path@ == "/"@ && v@[4].icon@ == "/"@,
{
    let mut v: Vec<SidebarEntry> = Vec::new();
    v.push(SidebarEntry { label: "Home".to_owned(), path: home.to_owned(), icon: "🏠" });
    v.push(SidebarEntry { label: "Documents".to_owned(), path: join_path(home, "Documents"), icon: "📄" });
    v.push(SidebarEntry { label: "Downloads".to_owned(), path: join_path(home, "Downloads"), icon: "📥" });
    v.push(SidebarEntry { label: "Desktop".to_owned(), path: join_path(home, "Desktop"), icon: "🖥" });
    v.push(SidebarEntry { label: "Root".to_owned(), path: "/".to_owned(), icon: "/" });
    v
}

/// `s` from its first character that is not white space on.
pub open spec fn skip_white(s: Seq<char>) -> Seq<char>
    decreases s.len(),
{
    if s.len() > 0 && white_space(s[0]) { skip_white(s.skip(1)) } else { s }
}

/// The length of the run of non-white-space characters that `s` starts with.
pub open spec fn word_len(s: Seq<char>) -> nat
    decreases s.len(),
{
    if s.len() > 0 && !white_space(s[0]) { 1 + word_len(s.skip(1)) } else { 0 }
}

/// The `k`-th word of `s` (from 0), words being the runs of characters
/// between white space, as `str::split_whitespace` gives them.
pub open spec fn nth_word(s: Seq<char>, k: nat) -> Option<Seq<char>>
    decreases s.len(), k,
{
    let t = skip_white(s);
    if t.len() == 0 {
        None
    } else if k == 0 {
        Some(t.take(word_len(t) as int))
    } else {
        proof {
            lemma_word_progress(s);
        }
        nth_word(t.skip(word_len(t) as int), (k - 1) as nat)
    }
}

pub proof fn lemma_skip_white_len(s: Seq<char>)
    ensures
        skip_white(s).len() <= s.len(),
        exists|j: int| 0 <= j <= s.len() && skip_white(s) == #[trigger] s.skip(j),
    decreases s.len(),
{
    if s.len() > 0 && white_space(s[0]) {
        lemma_skip_white_len(s.skip(1));
        let j = choose|j: int| 0 <= j <= s.skip(1).len() && skip_white(s.skip(1)) == #[trigger] s.skip(1).skip(j);
        assert(s.skip(1).skip(j) =~= s.skip(j + 1));
    } else {
        assert(s.skip(0) =~= s);
    }
}

pub proof fn lemma_word_len(s: Seq<char>)
    ensures
        word_len(s) <= s.len(),
        s.len() > 0 && !white_space(s[0]) ==> word_len(s) >= 1,
    decreases s.len(),
{
    if s.len() > 0 && !white_space(s[0]) {
        lemma_word_len(s.skip(1));
    }
}

pub proof fn lemma_word_progress(s: Seq<char>)
    ensures
        skip_white(s).len() > 0 ==> skip_white(s).skip(word_len(skip_white(s)) as int).len() < s.len(),
{
    lemma_skip_white_len(s);
    let t = skip_white(s);
    lemma_word_len(t);
    if t.len() > 0 {
        assert(!white_space(t[0])) by {
            lemma_skip_white_stops(s);
        }
    }
}

pub proof fn lemma_skip_white_stops(s: Seq<char>)
    ensures
        skip_white(s).len() > 0 ==> !white_space(skip_white(s)[0]),
    decreases s.len(),
{
    if s.len() > 0 && white_space(s[0]) {
        lemma_skip_white_stops(s.skip(1));
    }
}

/// The part of `s` after its last `/` (all of `s` when it has none), as
/// `rsplit('/').next()` gives it.
pub open spec fn after_last_slash(s: Seq<char>) -> Seq<char>
    decreases s.len(),
{
    if s.len() == 0 {
        s
    } else if s.last() == '/' {
        Seq::empty()
    } else {
        after_last_slash(s.drop_last()).push(s.last())
    }
}

/// `s` starts with `p`.
pub open spec fn has_prefix(s: Seq<char>, p: Seq<char>) -> bool {
    s.len() >= p.len() && s.take(p.len() as int) == p
}

/// The mount point a `/proc/mounts` line lists (its second word), when it
/// lies under `/media/` or `/mnt/`.
pub open spec fn device_mount(line: Seq<char>) -> Option<Seq<char>> {
    match nth_word(line, 1) {
        Some(m) => if has_prefix(m, "/media/"@) || has_prefix(m, "/mnt/"@) { Some(m) } else { None },
        None => None,
    }
}

/// The device mount points of a `/proc/mounts` text, in order.
pub open spec fn device_mounts(lines: Seq<Seq<char>>) -> Seq<Seq<char>>
    decreases lines.len(),
{
    if lines.len() == 0 {
        Seq::empty()
    } else {
        let rest = device_mounts(lines.drop_last());
        match device_mount(lines.last()) {
            Some(m) => rest.push(m),
            None => rest,
        }
    }
}

fn skip_white_from(cs: &Vec<char>, from: usize) -> (k: usize)
    requires
        from <= cs.len(),
    ensures
        from <= k <= cs.len(),
        skip_white(cs@.skip(from as int)) == cs@.skip(k as int),
{
    let mut k = from;
    while k < cs.len() && is_white_space(cs[k])
        invariant
            from <= k <= cs.len(),
            skip_white(cs@.skip(from as int)) == skip_white(cs@.skip(k as int)),
        decreases cs.len() - k,
    {
        assert(cs@.skip(k as int)[0] == cs@[k as int]);
        assert(cs@.skip(k as int).skip(1) =~= cs@.skip(k + 1));
        k = k + 1;
    }
    if k < cs.len() {
        assert(cs@.skip(k as int)[0] == cs@[k as int]);
    }
    k
}

fn word_end(cs: &Vec<char>, from: usize) -> (e: usize)
    requires
        from <= cs.len(),
    ensures
        from <= e <= cs.len(),
        e == from + word_len(cs@.skip(from as int)),
{
    let mut e = from;
    while e < cs.len() && !is_white_space(cs[e])
        invariant
            from <= e <= cs.len(),
            word_len(cs@.skip(from as int)) == (e - from) + word_len(cs@.skip(e as int)),
        decreases cs.len() - e,
    {
        assert(cs@.skip(e as int)[0] == cs@[e as int]);
        assert(cs@.skip(e as int).skip(1) =~= cs@.skip(e + 1));
        e = e + 1;
    }
    if e < cs.len() {
        assert(cs@.skip(e as int)[0] == cs@[e as int]);
    }
    e
}

/// The second word of `line`, if it has one.
fn second_word(line: &str) -> (r: Option<Vec<char>>)
    ensures
        match r {
            Some(w) => nth_word(line@, 1) == Some(w@),
            None => nth_word(line@, 1) is None,
        },
{
    let cs = chars_of(line);
    assert(cs@.skip(0) =~= cs@);
    proof {
        reveal_with_fuel(nth_word, 2);
    }
    let a = skip_white_from(&cs, 0);
    if a == cs.len() {
        assert(cs@.skip(a as int) =~= Seq::<char>::empty());
        return None;
    }
    let b = word_end(&cs, a);
    let c = skip_white_from(&cs, b);
    assert(cs@.skip(a as int).skip(word_len(cs@.skip(a as int)) as int) =~= cs@.skip(b as int));
    if c == cs.len() {
        assert(cs@.skip(c as int) =~= Seq::<char>::empty());
        return None;
    }
    let d = word_end(&cs, c);
    let mut w: Vec<char> = Vec::new();
    let mut i = c;
    while i < d
        invariant
            c <= i <= d,
            d <= cs.len(),
            w@ == cs@.subrange(c as int, i as int),
        decreases d - i,
    {
        w.push(cs[i]);
        i = i + 1;
        assert(w@ =~= cs@.subrange(c as int, i as int));
    }
    assert(cs@.skip(c as int).take(word_len(cs@.skip(c as int)) as int) =~= cs@.subrange(c as int, d as int));
    Some(w)
}

fn starts_with_literal(s: &Vec<char>, p: &str) -> (b: bool)
    ensures
        b == has_prefix(s@, p@),
{
    let pc = chars_of(p);
    if s.len() < pc.len() {
        return false;
    }
    let mut j: usize = 0;
    while j < pc.len()
        invariant
            j <= pc.len(),
            pc.len() <= s.len(),
            pc@ == p@,
            s@.subrange(0, j as int) == pc@.subrange(0, j as int),
        decreases pc.len() - j,
    {
        if s[j] != pc[j] {
            assert(s@.take(pc.len() as int)[j as int] != pc@[j as int]);
            return false;
        }
        assert(s@.subrange(0, j + 1) =~= s@.subrange(0, j as int).push(s@[j as int]));
        assert(pc@.subrange(0, j + 1) =~= pc@.subrange(0, j as int).push(pc@[j as int]));
        j = j + 1;
    }
    assert(s@.take(pc.len() as int) =~= s@.subrange(0, pc.len() as int));
    assert(pc@.subrange(0, pc.len() as int) =~= pc@);
    true
}

fn after_last_slash_of(s: &Vec<char>) -> (r: String)
    ensures
        r@ == after_last_slash(s@),
{
    let mut k = s.len();
    assert(s@.take(k as int) =~= s@);
    assert(s@.subrange(k as int, k as int) =~= Seq::<char>::empty());
    assert(s@ + Seq::<char>::empty() =~= s@);
    while k > 0 && s[k - 1] != '/'
        invariant
            k <= s.len(),
            after_last_slash(s@) == after_last_slash(s@.take(k as int)) + s@.subrange(k as int, s.len() as int),
        decreases k,
    {
        assert(s@.take(k as int).drop_last() =~= s@.take(k - 1));
        assert(s@.take(k as int).last() == s@[k - 1]);
        assert(s@.subrange(k - 1, s.len() as int) =~= seq![s@[k - 1]] + s@.subrange(k as int, s.len() as int));
        k = k - 1;
    }
    assert(after_last_slash(s@.take(k as int)) =~= Seq::<char>::empty()) by {
        if k > 0 {
            assert(s@.take(k as int).last() == '/');
        }
    }
    let mut r = String::new();
    let mut i = k;
    while i < s.len()
        invariant
            k <= i <= s.len(),
            r@ == s@.subrange(k as int, i as int),
        decreases s.len() - i,
    {
        push_char(&mut r, s[i]);
        i = i + 1;
        assert(r@ =~= s@.subrange(k as int, i as int));
    }
    assert(after_last_slash(s@) =~= s@.subrange(k as int, s.len() as int));
    r
}

/// `e` is the sidebar entry of the device mounted at `m`.
pub open spec fn mount_entry(e: SidebarEntry, m: Seq<char>) -> bool {
    &&& e.path@ == m
    &&& e.label@ == after_last_slash(m)
    &&& e.icon@ == "💾"@
}

/// The mounted devices in a `/proc/mounts` text: each line whose mount point
/// (second word) lies under `/media/` or `/mnt/`, labelled with the mount
/// point's last part.
pub fn parse_mounts(text: &str) -> (v: Vec<SidebarEntry>)
    ensures
        v.len() == device_mounts(str_lines(text@)).len(),
        forall|i: int| 0 <= i < v.len() ==> mount_entry(#[trigger] v@[i], device_mounts(str_lines(text@))[i]),
{
    let lines = lines_of(text);
    let ghost ls = str_lines(text@);
    let mut v: Vec<SidebarEntry> = Vec::new();
    let mut k: usize = 0;
    while k < lines.len()
        invariant
            k <= lines.len(),
            strings_view(lines@) == ls,
            v.len() == device_mounts(ls.take(k as int)).len(),
            forall|i: int| 0 <= i < v.len() ==> mount_entry(#[trigger] v@[i], device_mounts(ls.take(k as int))[i]),
        decreases lines.len() - k,
    {
        proof {
            assert(ls.take(k + 1).drop_last() =~= ls.take(k as int));
            assert(ls.take(k + 1).last() == lines@[k as int]@);
        }
        let ghost before = v@;
        let ghost dm = device_mounts(ls.take(k as int));
        match second_word(lines[k].as_str()) {
            Some(m) => {
                if starts_with_literal(&m, "/media/") || starts_with_literal(&m, "/mnt/") {
                    let label = after_last_slash_of(&m);
                    let path = crate::text::string_of(&m);
                    let e = SidebarEntry { label, path, icon: "💾" };
                    assert(mount_entry(e, m@));
                    v.push(e);
                    proof {
                        assert(device_mount(lines@[k as int]@) == Some(m@));
                        assert(device_mounts(ls.take(k + 1)) == dm.push(m@));
                        assert forall|i: int| 0 <= i < v.len() implies mount_entry(#[trigger] v@[i], dm.push(m@)[i]) by {
                            if i < before.len() {
                                assert(v@[i] == before[i]);
                                assert(mount_entry(before[i], dm[i]));
                            }
                        }
                    }
                } else {
                    assert(device_mount(lines@[k as int]@) is None);
                    assert(device_mounts(ls.take(k + 1)) == dm);
                }
            },
            None => {
                assert(device_mount(lines@[k as int]@) is None);
                assert(device_mounts(ls.take(k + 1)) == dm);
            },
        }
        k = k + 1;
    }
    assert(ls.take(lines.len() as int) =~= ls);
    v
}

/// The row of an entry: its icon, a space and its label.
pub open spec fn entry_row_text(e: SidebarEntry) -> Seq<char> {
    e.icon@ + seq![' '] + e.label@
}

/// The rows the sidebar shows, top down.
pub open spec fn sidebar_rows(bookmarks: Seq<SidebarEntry>, mounts: Seq<SidebarEntry>) -> Seq<Seq<char>> {
    seq!["Bookmarks"@]
        + bookmarks.map_values(|e: SidebarEntry| entry_row_text(e))
        + seq!["Devices"@]
        + (if mounts.len() == 0 {
            seq!["  (none)"@]
        } else {
            mounts.map_values(|e: SidebarEntry| entry_row_text(e))
        })
}

/// The location row `row` (counted from 0 at the top) leads to: none for the
/// two headers, the bookmarks after the first, the devices after the second.
pub open spec fn row_target_spec(bookmarks: Seq<SidebarEntry>, mounts: Seq<SidebarEntry>, row: nat) -> Option<Seq<char>> {
    if row == 0 {
        None
    } else if row < 1 + bookmarks.len() {
        Some(bookmarks[row - 1].path@)
    } else if row == 1 + bookmarks.len() {
        None
    } else if row - bookmarks.len() - 2 < mounts.len() {
        Some(mounts[row - bookmarks.len() - 2].path@)
    } else {
        None
    }
}

fn entry_row(e: &SidebarEntry) -> (s: String)
    ensures
        s@ == entry_row_text(*e),
{
    let mut s = String::new();
    push_str(&mut s, e.icon);
    push_char(&mut s, ' ');
    push_str(&mut s, e.label.as_str());
    s
}

impl SidebarModel {
    /// The sidebar of `home`'s bookmarks and the devices of a `/proc/mounts`
    /// text.
    pub fn new(home: &str, mounts_text: &str) -> (m: SidebarModel)
        ensures
            m.bookmarks.len() == 5,
            m.bookmarks@[0].path@ == home@,
            m.mounts.len() == device_mounts(str_lines(mounts_text@)).len(),
            forall|i: int| 0 <= i < m.mounts.len() ==> mount_entry(#[trigger] m.mounts@[i], device_mounts(str_lines(mounts_text@))[i]),
    {
        let bookmarks = default_bookmarks(home);
        let mounts = parse_mounts(mounts_text);
        SidebarModel { bookmarks, mounts }
    }

    /// The texts of the rows, top down (see [`sidebar_rows`]).
    pub fn rows(&self) -> (v: Vec<String>)
        ensures
            strings_view(v@) == sidebar_rows(self.bookmarks@, self.mounts@),
    {
        let mut v: Vec<String> = Vec::new();
        v.push("Bookmarks".to_owned());
        let mut i: usize = 0;
        while i < self.bookmarks.len()
            invariant
                i <= self.bookmarks.len(),
                strings_view(v@) == seq!["Bookmarks"@] + self.bookmarks@.take(i as int).map_values(|e: SidebarEntry| entry_row_text(e)),
            decreases self.bookmarks.len() - i,
        {
            let s = entry_row(&self.bookmarks[i]);
            let ghost prev = v@;
            v.push(s);
            proof {
                assert(strings_view(v@) =~= strings_view(prev).push(s@));
                assert(self.bookmarks@.take(i + 1) =~= self.bookmarks@.take(i as int).push(self.bookmarks@[i as int]));
                assert(self.bookmarks@.take(i + 1).map_values(|e: SidebarEntry| entry_row_text(e))
                    =~= self.bookmarks@.take(i as int).map_values(|e: SidebarEntry| entry_row_text(e)).push(entry_row_text(self.bookmarks@[i as int])));
            }
            i = i + 1;
            assert(strings_view(v@) =~= seq!["Bookmarks"@] + self.bookmarks@.take(i as int).map_values(|e: SidebarEntry| entry_row_text(e)));
        }
        assert(self.bookmarks@.take(self.bookmarks.len() as int) =~= self.bookmarks@);
        v.push("Devices".to_owned());
        let ghost head = strings_view(v@);
        if self.mounts.len() == 0 {
            v.push("  (none)".to_owned());
            assert(strings_view(v@) =~= sidebar_rows(self.bookmarks@, self.mounts@));
        } else {
            let mut j: usize = 0;
            while j < self.mounts.len()
                invariant
                    j <= self.mounts.len(),
                    strings_view(v@) == head + self.mounts@.take(j as int).map_values(|e: SidebarEntry| entry_row_text(e)),
                decreases self.mounts.len() - j,
            {
                let s = entry_row(&self.mounts[j]);
                let ghost prev = v@;
                v.push(s);
                proof {
                    assert(strings_view(v@) =~= strings_view(prev).push(s@));
                    assert(self.mounts@.take(j + 1) =~= self.mounts@.take(j as int).push(self.mounts@[j as int]));
                    assert(self.mounts@.take(j + 1).map_values(|e: SidebarEntry| entry_row_text(e))
                        =~= self.mounts@.take(j as int).map_values(|e: SidebarEntry| entry_row_text(e)).push(entry_row_text(self.mounts@[j as int])));
                }
                j = j + 1;
                assert(strings_view(v@) =~= head + self.mounts@.take(j as int).map_values(|e: SidebarEntry| entry_row_text(e)));
            }
            assert(self.mounts@.take(self.mounts.len() as int) =~= self.mounts@);
            assert(strings_view(v@) =~= sidebar_rows(self.bookmarks@, self.mounts@));
        }
        v
    }

    /// The location row `row` leads to (see [`row_target_spec`]).
    pub fn row_target(&self, row: usize) -> (r: Option<String>)
        ensures
            crate::paths::opt_view(r) == row_target_spec(self.bookmarks@, self.mounts@, row as nat),
    {
        if row == 0 {
            return None;
        }
        let bm = self.bookmarks.len();
        if row - 1 < bm {
            return Some(self.bookmarks[row - 1].path.clone());
        }
        if row - 1 == bm {
            return None;
        }
        let mt = row - 2 - bm;
        if mt < self.mounts.len() {
            Some(self.mounts[mt].path.clone())
        } else {
            None
        }
    }
}

} // verus!

//! Directory entries: sort keys and the order of a listing, display-width
//! aware truncation and padding, and the text of a detail row.

use vstd::prelude::*;
use crate::fmt::{
    dec, f64_of, f64_value, fmt_padded, lemma_f64_exact, pad_left, push_dec, push_padded, push_right_aligned,
    push_tenths, tenths, tenths_text,
};
use crate::paths::push_str;
use crate::text::{chars_of, lowercase, push_char, starts_with_char, to_lowercase};

verus! {

// ── Sort types ──

/// The column a listing is sorted by.
#[derive(Clone, Copy, Debug, PartialEq, Eq, Structural)]
pub enum SortColumn {
    Name,
    Size,
    Modified,
}

/// The direction of the sort.
#[derive(Clone, Copy, Debug, PartialEq, Eq, Structural)]
pub enum SortOrder {
    Asc,
    Desc,
}

impl SortOrder {
    /// The opposite direction.
    pub fn toggle(self) -> (r: SortOrder)
        ensures
            r == (if self == SortOrder::Asc { SortOrder::Desc } else { SortOrder::Asc }),
    {
        match self {
            SortOrder::Asc => SortOrder::Desc,
            SortOrder::Desc => SortOrder::Asc,
        }
    }

    /// The arrow drawn beside the sorted column's header.
    pub fn indicator(self) -> (r: &'static str)
        ensures
            r@ == (if self == SortOrder::Asc { "▲"@ } else { "▼"@ }),
    {
        match self {
            SortOrder::Asc => "▲",
            SortOrder::Desc => "▼",
        }
    }
}

// ── Directory entry ──

/// One entry of a directory listing. `modified` is the modification time as
/// (seconds, nanoseconds) relative to the Unix epoch, ordered as the system
/// time it stands for.
pub struct DirEntry {
    pub name: String,
    pub is_dir: bool,
    pub is_symlink: bool,
    pub size: u64,
    pub modified: Option<(i64, u32)>,
}

// ── Display width ──

/// What `UnicodeWidthChar::width` reports for `c`: its column count, or
/// `None` for a control character.
pub uninterp spec fn char_width(c: char) -> Option<usize>;

/// `UnicodeWidthChar::width` of the unicode-width crate. Its source gives
/// printable ASCII one column, C0 and C1 controls `None`, and every other
/// width from a `u8` table.
#[verifier::external_body]
fn unicode_char_width(c: char) -> (w: Option<usize>)
    ensures
        w == char_width(c),
        (' ' <= c && c < '\u{7f}') ==> w == Some(1usize),
        (c < ' ' || ('\u{7f}' <= c && c < '\u{a0}')) ==> w is None,
        w matches Some(x) ==> x <= 255,
{
    unicode_width::UnicodeWidthChar::width(c)
}

/// The columns `c` takes, counting a control character as none.
pub open spec fn width_of(c: char) -> nat {
    match char_width(c) {
        Some(w) => w as nat,
        None => 0,
    }
}

/// The columns `s` takes.
pub open spec fn str_width(s: Seq<char>) -> nat
    decreases s.len(),
{
    if s.len() == 0 { 0 } else { width_of(s[0]) + str_width(s.skip(1)) }
}

/// The longest start of `s` that fits in `budget` columns, character by
/// character.
pub open spec fn truncate_spec(s: Seq<char>, budget: nat) -> Seq<char>
    decreases s.len(),
{
    if s.len() == 0 || width_of(s[0]) > budget {
        Seq::empty()
    } else {
        seq![s[0]] + truncate_spec(s.skip(1), (budget - width_of(s[0])) as nat)
    }
}

/// `s` followed by spaces up to `target` columns.
pub open spec fn pad_spec(s: Seq<char>, target: nat) -> Seq<char> {
    if str_width(s) >= target { s } else { s + Seq::new((target - str_width(s)) as nat, |i: int| ' ') }
}

fn width(c: char) -> (w: usize)
    ensures
        w == width_of(c),
        w <= 255,
{
    match unicode_char_width(c) {
        Some(w) => w,
        None => 0,
    }
}

/// Truncate a string to fit within `max_width` display columns (CJK-aware).
pub fn truncate_to_width(s: &str, max_width: usize) -> (r: String)
    ensures
        r@ == truncate_spec(s@, max_width as nat),
{
    let cs = chars_of(s);
    let mut used: usize = 0;
    let mut out = String::new();
    let mut i: usize = 0;
    assert(cs@.skip(0) =~= cs@);
    while i < cs.len()
        invariant
            i <= cs.len(),
            cs@ == s@,
            used <= max_width,
            out@ + truncate_spec(cs@.skip(i as int), (max_width - used) as nat) == truncate_spec(s@, max_width as nat),
        decreases cs.len() - i,
    {
        let c = cs[i];
        let cw = width(c);
        assert(cs@.skip(i as int)[0] == c);
        if cw > max_width - used {
            assert(truncate_spec(cs@.skip(i as int), (max_width - used) as nat) =~= Seq::<char>::empty());
            assert(out@ =~= truncate_spec(s@, max_width as nat));
            return out;
        }
        assert(cs@.skip(i as int).skip(1) =~= cs@.skip(i + 1));
        push_char(&mut out, c);
        used = used + cw;
        i = i + 1;
        assert(out@ + truncate_spec(cs@.skip(i as int), (max_width - used) as nat) =~= truncate_spec(s@, max_width as nat));
    }
    assert(cs@.skip(i as int) =~= Seq::<char>::empty());
    assert(out@ =~= truncate_spec(s@, max_width as nat));
    out
}

/// Pad a string with spaces to reach `target` display columns (CJK-aware).
pub fn pad_to_width(s: &str, target: usize) -> (r: String)
    ensures
        r@ == pad_spec(s@, target as nat),
{
    let cs = chars_of(s);
    let mut w: usize = 0;
    let mut i: usize = 0;
    let mut reached = target == 0;
    assert(cs@.skip(0) =~= cs@);
    while i < cs.len() && !reached
        invariant
            i <= cs.len(),
            cs@ == s@,
            w < target || reached,
            reached ==> str_width(s@) >= target,
            !reached ==> w + str_width(cs@.skip(i as int)) == str_width(s@),
        decreases cs.len() - i,
    {
        let cw = width(cs[i]);
        assert(cs@.skip(i as int).skip(1) =~= cs@.skip(i + 1));
        assert(cs@.skip(i as int)[0] == cs@[i as int]);
        if cw >= target - w {
            reached = true;
        } else {
            w = w + cw;
        }
        i = i + 1;
    }
    let mut out = s.to_owned();
    if !reached {
        assert(cs@.skip(i as int) =~= Seq::<char>::empty());
        crate::fmt::push_repeat(&mut out, ' ', target - w);
    }
    out
}

// ── Detail rows ──

/// The text of a local time as the listing shows it,
/// `YYYY-MM-DD HH:MM`, from `struct tm` fields (years since 1900, months from 0).
pub open spec fn local_time_spec(year: int, mon: int, mday: int, hour: int, min: int) -> Seq<char> {
    fmt_padded(year + 1900, 4) + seq!['-'] + fmt_padded(mon + 1, 2) + seq!['-'] + fmt_padded(mday, 2)
        + seq![' '] + fmt_padded(hour, 2) + seq![':'] + fmt_padded(min, 2)
}

/// The modification column shown for an entry with no modification time.
pub open spec fn no_time_text() -> Seq<char> {
    "           —"@
}

/// Broken-down local time, as `struct tm` holds it.
#[derive(Clone, Copy, Debug)]
pub struct LocalTime {
    pub year: i32,
    pub mon: i32,
    pub mday: i32,
    pub hour: i32,
    pub min: i32,
}

/// The modification column for an entry whose modification time is `local`
/// in local time, or that has none.
pub fn format_modified(local: Option<LocalTime>) -> (s: String)
    requires
        local matches Some(t) ==> t.year + 1900 <= i32::MAX && t.mon + 1 <= i32::MAX,
    ensures
        s@ == match local {
            Some(t) => local_time_spec(t.year as int, t.mon as int, t.mday as int, t.hour as int, t.min as int),
            None => no_time_text(),
        },
{
    match local {
        Some(t) => {
            let mut s = String::new();
            push_padded(&mut s, (t.year + 1900) as i64, 4);
            push_char(&mut s, '-');
            push_padded(&mut s, (t.mon + 1) as i64, 2);
            push_char(&mut s, '-');
            push_padded(&mut s, t.mday as i64, 2);
            push_char(&mut s, ' ');
            push_padded(&mut s, t.hour as i64, 2);
            push_char(&mut s, ':');
            push_padded(&mut s, t.min as i64, 2);
            assert(s@ =~= local_time_spec(t.year as int, t.mon as int, t.mday as int, t.hour as int, t.min as int));
            s
        },
        None => {
            let mut s = String::new();
            push_str(&mut s, "           —");
            assert(s@ =~= no_time_text());
            s
        },
    }
}

/// A byte count as the list shows it: bytes below 1 KiB, otherwise the
/// count as `f64` divided by 1024 (KB), 1024² (MB), 1024³ (GB) or 1024⁴
/// (TB), written with one decimal as `{:.1}` writes it.
pub open spec fn size_text(bytes: nat) -> Seq<char> {
    if bytes < 0x400 {
        dec(bytes) + " B"@
    } else if bytes < 0x10_0000 {
        tenths_text(tenths(f64_of(bytes), 0x400)) + " KB"@
    } else if bytes < 0x4000_0000 {
        tenths_text(tenths(f64_of(bytes), 0x10_0000)) + " MB"@
    } else if bytes < 0x100_0000_0000 {
        tenths_text(tenths(f64_of(bytes), 0x4000_0000)) + " GB"@
    } else {
        tenths_text(tenths(f64_of(bytes), 0x100_0000_0000)) + " TB"@
    }
}

/// Format a byte count as a human-readable string (B / KB / MB / GB / TB).
pub fn format_size(bytes: u64) -> (s: String)
    ensures
        s@ == size_text(bytes as nat),
{
    let mut s = String::new();
    if bytes < 0x400 {
        push_dec(&mut s, bytes);
        push_str(&mut s, " B");
        return s;
    }
    let f = f64_value(bytes);
    if bytes < 0x100_0000_0000 {
        proof {
            lemma_f64_exact(bytes as nat);
        }
    }
    if bytes < 0x10_0000 {
        push_tenths(&mut s, f, 0x400);
        push_str(&mut s, " KB");
    } else if bytes < 0x4000_0000 {
        push_tenths(&mut s, f, 0x10_0000);
        push_str(&mut s, " MB");
    } else if bytes < 0x100_0000_0000 {
        push_tenths(&mut s, f, 0x4000_0000);
        push_str(&mut s, " GB");
    } else {
        assert(f / 0x100_0000_0000 <= 0xffff_ffff_ffff);
        push_tenths(&mut s, f, 0x100_0000_0000);
        push_str(&mut s, " TB");
    }
    s
}

impl DirEntry {
    /// The size of this entry, human-readable (see [`size_text`]).
    pub fn format_size(&self) -> (s: String)
        ensures
            s@ == size_text(self.size as nat),
    {
        format_size(self.size)
    }

    /// The icon column of the entry: a link, a folder, or blank.
    pub open spec fn icon_spec(self) -> Seq<char> {
        if self.is_symlink { "🔗  "@ } else if self.is_dir { "📁  "@ } else { "    "@ }
    }

    /// The name column: the name (with a trailing `/` for a directory)
    /// truncated and padded to 20 columns.
    pub open spec fn name_column_spec(self) -> Seq<char> {
        let name = if self.is_dir { self.name@.push('/') } else { self.name@ };
        pad_spec(truncate_spec(name, 20), 20)
    }

    /// The detail row: icon, name column, the size text right-aligned in 8
    /// characters (none for a directory), and the modification text.
    pub open spec fn display_line_spec(self, size_text: Seq<char>, modified_text: Seq<char>) -> Seq<char> {
        let size_str = if self.is_dir { Seq::<char>::empty() } else { size_text };
        self.icon_spec() + self.name_column_spec() + seq![' '] + pad_left(size_str, 8, ' ') + seq![' '] + modified_text
    }

    /// The detail row of this entry, given the texts of its size and of its
    /// modification time.
    pub fn display_line(&self, size_text: &str, modified_text: &str) -> (s: String)
        ensures
            s@ == self.display_line_spec(size_text@, modified_text@),
    {
        let mut s = String::new();
        if self.is_symlink {
            push_str(&mut s, "🔗  ");
        } else if self.is_dir {
            push_str(&mut s, "📁  ");
        } else {
            push_str(&mut s, "    ");
        }
        let mut name = self.name.clone();
        if self.is_dir {
            push_char(&mut name, '/');
        }
        let truncated = truncate_to_width(name.as_str(), 20);
        let padded = pad_to_width(truncated.as_str(), 20);
        push_str(&mut s, padded.as_str());
        push_char(&mut s, ' ');
        if self.is_dir {
            push_right_aligned(&mut s, "", 8);
        } else {
            push_right_aligned(&mut s, size_text, 8);
        }
        push_char(&mut s, ' ');
        push_str(&mut s, modified_text);
        proof {
            reveal_strlit("");
        }
        assert(s@ =~= self.display_line_spec(size_text@, modified_text@));
        s
    }
}

// ── Listing order ──

/// Comparison of character sequences by code point, lexicographically (the
/// order of `str`): -1, 0 or 1.
pub open spec fn lex_order(a: Seq<char>, b: Seq<char>) -> int
    decreases a.len(),
{
    if a.len() == 0 {
        if b.len() == 0 { 0 } else { -1 }
    } else if b.len() == 0 {
        1
    } else if (a[0] as u32) < (b[0] as u32) {
        -1
    } else if (a[0] as u32) > (b[0] as u32) {
        1
    } else {
        lex_order(a.skip(1), b.skip(1))
    }
}

pub open spec fn int_order(a: int, b: int) -> int {
    if a < b { -1 } else if a > b { 1 } else { 0 }
}

/// The order of optional times: no time first, then by seconds and
/// nanoseconds.
pub open spec fn time_order(a: Option<(i64, u32)>, b: Option<(i64, u32)>) -> int {
    match (a, b) {
        (None, None) => 0,
        (None, Some(_)) => -1,
        (Some(_), None) => 1,
        (Some(x), Some(y)) => if x.0 != y.0 { int_order(x.0 as int, y.0 as int) } else { int_order(x.1 as int, y.1 as int) },
    }
}

/// The comparison of two entries by the sort column: names without regard to
/// case, sizes, or modification times.
pub open spec fn field_order(a: DirEntry, b: DirEntry, col: SortColumn) -> int {
    match col {
        SortColumn::Name => lex_order(lowercase(a.name@), lowercase(b.name@)),
        SortColumn::Size => int_order(a.size as int, b.size as int),
        SortColumn::Modified => time_order(a.modified, b.modified),
    }
}

/// The order of a listing: directories first, then by the sort column in the
/// sort direction. -1 when `a` goes first, 1 when `b` does, 0 when either may.
pub open spec fn listing_order(a: DirEntry, b: DirEntry, col: SortColumn, ord: SortOrder) -> int {
    if a.is_dir != b.is_dir {
        if a.is_dir { -1 } else { 1 }
    } else if ord == SortOrder::Desc {
        -field_order(a, b, col)
    } else {
        field_order(a, b, col)
    }
}

fn lex_compare(a: &Vec<char>, b: &Vec<char>) -> (r: i8)
    ensures
        r == lex_order(a@, b@),
        -1 <= r <= 1,
{
    let mut i: usize = 0;
    assert(a@.skip(0) =~= a@);
    assert(b@.skip(0) =~= b@);
    while i < a.len() && i < b.len()
        invariant
            i <= a.len(),
            i <= b.len(),
            lex_order(a@.skip(i as int), b@.skip(i as int)) == lex_order(a@, b@),
        decreases a.len() - i,
    {
        let x = a[i] as u32;
        let y = b[i] as u32;
        assert(a@.skip(i as int)[0] == a@[i as int]);
        assert(b@.skip(i as int)[0] == b@[i as int]);
        if x < y {
            return -1;
        } else if x > y {
            return 1;
        }
        assert(a@.skip(i as int).skip(1) =~= a@.skip(i + 1));
        assert(b@.skip(i as int).skip(1) =~= b@.skip(i + 1));
        i = i + 1;
    }
    if i < a.len() {
        1
    } else if i < b.len() {
        -1
    } else {
        0
    }
}

fn compare_u64(a: u64, b: u64) -> (r: i8)
    ensures
        r == int_order(a as int, b as int),
        -1 <= r <= 1,
{
    if a < b { -1 } else if a > b { 1 } else { 0 }
}

fn compare_times(a: Option<(i64, u32)>, b: Option<(i64, u32)>) -> (r: i8)
    ensures
        r == time_order(a, b),
        -1 <= r <= 1,
{
    match (a, b) {
        (None, None) => 0,
        (None, Some(_)) => -1,
        (Some(_), None) => 1,
        (Some(x), Some(y)) => {
            if x.0 != y.0 {
                if x.0 < y.0 { -1 } else { 1 }
            } else if x.1 < y.1 {
                -1
            } else if x.1 > y.1 {
                1
            } else {
                0
            }
        },
    }
}

/// The listing order of `a` and `b` (see [`listing_order`]).
pub fn compare_entry_keys(a: &DirEntry, b: &DirEntry, col: SortColumn, ord: SortOrder) -> (r: i8)
    ensures
        r == listing_order(*a, *b, col, ord),
{
    if a.is_dir != b.is_dir {
        return if a.is_dir { -1 } else { 1 };
    }
    let f: i8 = match col {
        SortColumn::Name => {
            let la = chars_of(to_lowercase(a.name.as_str()).as_str());
            let lb = chars_of(to_lowercase(b.name.as_str()).as_str());
            lex_compare(&la, &lb)
        },
        SortColumn::Size => compare_u64(a.size, b.size),
        SortColumn::Modified => compare_times(a.modified, b.modified),
    };
    if ord == SortOrder::Desc { -f } else { f }
}

/// Where a stable sort puts `x` among the already sorted `s`: after every
/// entry that does not go after it.
pub open spec fn insert_pos(s: Seq<DirEntry>, x: DirEntry, col: SortColumn, ord: SortOrder) -> nat
    decreases s.len(),
{
    if s.len() == 0 || listing_order(s[0], x, col, ord) > 0 {
        0
    } else {
        1 + insert_pos(s.skip(1), x, col, ord)
    }
}

/// The entries in listing order, equal entries keeping their relative order
/// (a stable sort).
pub open spec fn sorted_listing(s: Seq<DirEntry>, col: SortColumn, ord: SortOrder) -> Seq<DirEntry>
    decreases s.len(),
{
    if s.len() == 0 {
        Seq::empty()
    } else {
        let t = sorted_listing(s.drop_last(), col, ord);
        t.insert(insert_pos(t, s.last(), col, ord) as int, s.last())
    }
}

/// The entries a listing shows: all of them, or only those whose name does
/// not start with a dot.
pub open spec fn visible_entries(s: Seq<DirEntry>, show_hidden: bool) -> Seq<DirEntry>
    decreases s.len(),
{
    if s.len() == 0 {
        Seq::empty()
    } else {
        let rest = visible_entries(s.drop_last(), show_hidden);
        let e = s.last();
        if !show_hidden && e.name@.len() > 0 && e.name@[0] == '.' { rest } else { rest.push(e) }
    }
}

/// `s` is in listing order: no entry goes after one that follows it.
pub open spec fn in_listing_order(s: Seq<DirEntry>, col: SortColumn, ord: SortOrder) -> bool {
    forall|i: int, j: int| 0 <= i < j < s.len() ==> #[trigger] listing_order(s[i], s[j], col, ord) <= 0
}

proof fn lemma_lex_order(a: Seq<char>, b: Seq<char>, c: Seq<char>)
    ensures
        lex_order(a, a) == 0,
        lex_order(a, b) == -lex_order(b, a),
        -1 <= lex_order(a, b) <= 1,
        lex_order(a, b) <= 0 && lex_order(b, c) <= 0 ==> lex_order(a, c) <= 0,
    decreases a.len(),
{
    if a.len() > 0 && b.len() > 0 && c.len() > 0 {
        lemma_lex_order(a.skip(1), b.skip(1), c.skip(1));
    } else if a.len() > 0 && b.len() > 0 {
        lemma_lex_order(a.skip(1), b.skip(1), c);
    } else if a.len() > 0 {
        lemma_lex_order(a.skip(1), b, c);
    }
}

/// The listing order is a total preorder: every entry is level with itself,
/// swapping the two entries flips the sign, and "goes no later than" is
/// transitive. So a stable sort by it has exactly one outcome.
pub proof fn law_listing_order_total_preorder(a: DirEntry, b: DirEntry, c: DirEntry, col: SortColumn, ord: SortOrder)
    ensures
        listing_order(a, a, col, ord) == 0,
        listing_order(a, b, col, ord) == -listing_order(b, a, col, ord),
        -1 <= listing_order(a, b, col, ord) <= 1,
        listing_order(a, b, col, ord) <= 0 && listing_order(b, c, col, ord) <= 0 ==> listing_order(a, c, col, ord) <= 0,
{
    lemma_lex_order(lowercase(a.name@), lowercase(b.name@), lowercase(c.name@));
    lemma_lex_order(lowercase(b.name@), lowercase(a.name@), lowercase(c.name@));
    lemma_lex_order(lowercase(c.name@), lowercase(b.name@), lowercase(a.name@));
    lemma_lex_order(lowercase(a.name@), lowercase(c.name@), lowercase(b.name@));
}

proof fn lemma_insert_pos(t: Seq<DirEntry>, x: DirEntry, col: SortColumn, ord: SortOrder)
    ensures
        insert_pos(t, x, col, ord) <= t.len(),
        forall|k: int| 0 <= k < insert_pos(t, x, col, ord) ==> #[trigger] listing_order(t[k], x, col, ord) <= 0,
        insert_pos(t, x, col, ord) < t.len() ==> listing_order(t[insert_pos(t, x, col, ord) as int], x, col, ord) > 0,
    decreases t.len(),
{
    if t.len() > 0 && listing_order(t[0], x, col, ord) <= 0 {
        lemma_insert_pos(t.skip(1), x, col, ord);
        assert forall|k: int| 0 <= k < insert_pos(t, x, col, ord) implies #[trigger] listing_order(t[k], x, col, ord) <= 0 by {
            if k > 0 {
                assert(t[k] == t.skip(1)[k - 1]);
            }
        }
    }
}

/// What a listing sorts comes out in listing order, and nothing is gained or
/// lost: the sorted entries are the same entries, as a multiset.
pub proof fn law_sorted_listing(s: Seq<DirEntry>, col: SortColumn, ord: SortOrder)
    ensures
        in_listing_order(sorted_listing(s, col, ord), col, ord),
        sorted_listing(s, col, ord).to_multiset() == s.to_multiset(),
        sorted_listing(s, col, ord).len() == s.len(),
    decreases s.len(),
{
    broadcast use vstd::seq_lib::group_to_multiset_ensures;
    if s.len() > 0 {
        let t = sorted_listing(s.drop_last(), col, ord);
        let x = s.last();
        law_sorted_listing(s.drop_last(), col, ord);
        lemma_insert_pos(t, x, col, ord);
        let p = insert_pos(t, x, col, ord) as int;
        let r = t.insert(p, x);
        assert(s =~= s.drop_last().push(x));
        assert forall|i: int, j: int| 0 <= i < j < r.len() implies #[trigger] listing_order(r[i], r[j], col, ord) <= 0 by {
            law_listing_order_total_preorder(x, x, x, col, ord);
            if i < p && j == p {
            } else if i == p {
                // x against a later entry t[j - 1], which t[p] does not follow
                let y = t[p];
                law_listing_order_total_preorder(y, x, x, col, ord);
                law_listing_order_total_preorder(x, y, t[j - 1], col, ord);
                if j - 1 > p {
                    assert(listing_order(t[p], t[j - 1], col, ord) <= 0);
                }
            } else if j == p {
            } else {
                let ti = if i < p { i } else { i - 1 };
                let tj = if j < p { j } else { j - 1 };
                assert(r[i] == t[ti] && r[j] == t[tj]);
                assert(listing_order(t[ti], t[tj], col, ord) <= 0);
            }
        }
    }
}

/// Directories come before everything else in a listing.
pub proof fn law_sorted_listing_dirs_first(s: Seq<DirEntry>, col: SortColumn, ord: SortOrder, i: int, j: int)
    requires
        0 <= i < j < sorted_listing(s, col, ord).len(),
        sorted_listing(s, col, ord)[j].is_dir,
    ensures
        sorted_listing(s, col, ord)[i].is_dir,
{
    law_sorted_listing(s, col, ord);
    let r = sorted_listing(s, col, ord);
    assert(listing_order(r[i], r[j], col, ord) <= 0);
}

/// Without `show_hidden` a listing holds no entry whose name starts with a
/// dot; with it, every entry stays.
pub proof fn law_visible_entries(s: Seq<DirEntry>, show_hidden: bool)
    ensures
        !show_hidden ==> forall|i: int| 0 <= i < visible_entries(s, show_hidden).len() ==>
            !(#[trigger] visible_entries(s, show_hidden)[i].name@.len() > 0 && visible_entries(s, show_hidden)[i].name@[0] == '.'),
        show_hidden ==> visible_entries(s, show_hidden) == s,
    decreases s.len(),
{
    if s.len() > 0 {
        law_visible_entries(s.drop_last(), show_hidden);
        if show_hidden {
            assert(s.drop_last().push(s.last()) =~= s);
        }
    }
}

/// `slice::sort_by` with the listing order as comparator. The standard
/// library documents the sort as stable, which for a total preorder (see
/// [`law_listing_order_total_preorder`]) leaves exactly one
/// possible result.
#[verifier::external_body]
fn sort_entries(v: &mut Vec<DirEntry>, col: SortColumn, ord: SortOrder)
    ensures
        final(v)@ == sorted_listing(old(v)@, col, ord),
{
    v.sort_by(|a, b| crate::entry_order::compare_entries(a, b, col, ord));
}

/// The listing of a directory's raw entries: hidden entries dropped unless
/// `show_hidden`, then directories first, ordered by `col` in direction `ord`.
pub fn listing(raw: Vec<DirEntry>, show_hidden: bool, col: SortColumn, ord: SortOrder) -> (v: Vec<DirEntry>)
    ensures
        v@ == sorted_listing(visible_entries(raw@, show_hidden), col, ord),
{
    let mut kept: Vec<DirEntry> = Vec::new();
    let ghost all = raw@;
    for e in it: raw.into_iter()
        invariant
            it.seq() == all,
            kept@ == visible_entries(all.take(it.index() as int), show_hidden),
    {
        proof {
            assert(all.take(it.index() + 1).drop_last() =~= all.take(it.index() as int));
            assert(all.take(it.index() + 1).last() == e);
        }
        let hidden = !show_hidden && starts_with_char(e.name.as_str(), '.');
        if !hidden {
            kept.push(e);
        }
    }
    assert(all.take(all.len() as int) =~= all);
    sort_entries(&mut kept, col, ord);
    kept
}

/// The visible entries of two pieces are those of each piece, in order.
pub proof fn lemma_visible_append(a: Seq<DirEntry>, b: Seq<DirEntry>, show_hidden: bool)
    ensures
        visible_entries(a + b, show_hidden) == visible_entries(a, show_hidden) + visible_entries(b, show_hidden),
    decreases b.len(),
{
    if b.len() == 0 {
        assert(a + b =~= a);
        assert(visible_entries(a, show_hidden) + visible_entries(b, show_hidden) =~= visible_entries(a, show_hidden));
    } else {
        lemma_visible_append(a, b.drop_last(), show_hidden);
        assert((a + b).drop_last() =~= a + b.drop_last());
        assert((a + b).last() == b.last());
    }
}

} // verus!

//! Persistent settings: a small `key = value` file, read line by line and
//! written back in a fixed form.
//!
//! The pane ratios are fractions that the window layer reads and writes as
//! numbers; here they are kept as the text of their value in the file.

use vstd::prelude::*;
use crate::entry::{SortColumn, SortOrder};
use crate::fmt::{dec, push_dec};
use crate::paths::push_str;
use crate::state::{FileViewState, ViewMode};
use crate::text::{chars_of, lines_of, push_char, str_lines, string_of, strings_view, trim, trim_spec};

verus! {

/// The settings.
pub struct Config {
    pub show_hidden: bool,
    pub sort_column: String,
    pub sort_order: String,
    pub view_mode: String,
    pub window_width: u32,
    pub window_height: u32,
    /// The text of the sidebar's width ratio, if one is set.
    pub sidebar_ratio: Option<String>,
    /// The text of the preview's width ratio, if one is set.
    pub preview_ratio: Option<String>,
}

/// The settings as plain values.
pub struct ConfigView {
    pub show_hidden: bool,
    pub sort_column: Seq<char>,
    pub sort_order: Seq<char>,
    pub view_mode: Seq<char>,
    pub window_width: u32,
    pub window_height: u32,
    pub sidebar_ratio: Option<Seq<char>>,
    pub preview_ratio: Option<Seq<char>>,
}

impl View for Config {
    type V = ConfigView;

    open spec fn view(&self) -> ConfigView {
        ConfigView {
            show_hidden: self.show_hidden,
            sort_column: self.sort_column@,
            sort_order: self.sort_order@,
            view_mode: self.view_mode@,
            window_width: self.window_width,
            window_height: self.window_height,
            sidebar_ratio: crate::paths::opt_view(self.sidebar_ratio),
            preview_ratio: crate::paths::opt_view(self.preview_ratio),
        }
    }
}

/// The settings when there is no file: dot files hidden, by name ascending,
/// detail view, a 750 x 450 window, no pane ratios.
pub open spec fn default_config() -> ConfigView {
    ConfigView {
        show_hidden: false,
        sort_column: "name"@,
        sort_order: "asc"@,
        view_mode: "detail"@,
        window_width: 750,
        window_height: 450,
        sidebar_ratio: None,
        preview_ratio: None,
    }
}

impl Default for Config {
    fn default() -> (c: Self)
        ensures
            c@ == default_config(),
    {
        Config {
            show_hidden: false,
            sort_column: "name".to_owned(),
            sort_order: "asc".to_owned(),
            view_mode: "detail".to_owned(),
            window_width: 750,
            window_height: 450,
            sidebar_ratio: None,
            preview_ratio: None,
        }
    }
}

// ── Reading ──

/// The value of an ASCII digit.
pub open spec fn digit_value(c: char) -> nat {
    ((c as u32) - 0x30) as nat
}

/// All of `s` are ASCII digits.
pub open spec fn all_digits(s: Seq<char>) -> bool {
    forall|i: int| 0 <= i < s.len() ==> '0' <= #[trigger] s[i] && s[i] <= '9'
}

/// The number the digits `s` write in decimal.
pub open spec fn decimal_value(s: Seq<char>) -> nat
    decreases s.len(),
{
    if s.len() == 0 { 0 } else { decimal_value(s.drop_last()) * 10 + digit_value(s.last()) }
}

/// What `str::parse::<u32>` gives for `s`: one or more ASCII digits, after
/// an optional `+`, whose value fits in a `u32`.
pub open spec fn parse_u32_spec(s: Seq<char>) -> Option<u32> {
    let digits = if s.len() > 0 && s[0] == '+' { s.skip(1) } else { s };
    if digits.len() > 0 && all_digits(digits) && decimal_value(digits) <= u32::MAX {
        Some(decimal_value(digits) as u32)
    } else {
        None
    }
}

proof fn lemma_decimal_grows(s: Seq<char>, i: int)
    requires
        0 <= i <= s.len(),
        all_digits(s),
    ensures
        decimal_value(s.take(i)) <= decimal_value(s),
    decreases s.len() - i,
{
    if i < s.len() {
        lemma_decimal_grows(s, i + 1);
        assert(s.take(i + 1).drop_last() =~= s.take(i));
    } else {
        assert(s.take(i) =~= s);
    }
}

/// `str::parse::<u32>` (see [`parse_u32_spec`]).
pub fn parse_u32(s: &str) -> (r: Option<u32>)
    ensures
        r == parse_u32_spec(s@),
{
    let cs = chars_of(s);
    let start: usize = if cs.len() > 0 && cs[0] == '+' { 1 } else { 0 };
    let ghost digits = if s@.len() > 0 && s@[0] == '+' { s@.skip(1) } else { s@ };
    assert(digits =~= cs@.skip(start as int));
    if start >= cs.len() {
        return None;
    }
    let mut acc: u32 = 0;
    let mut i = start;
    while i < cs.len()
        invariant
            start <= i <= cs.len(),
            cs@ == s@,
            digits == cs@.skip(start as int),
            digits == (if s@.len() > 0 && s@[0] == '+' { s@.skip(1) } else { s@ }),
            all_digits(cs@.subrange(start as int, i as int)),
            acc as nat == decimal_value(cs@.subrange(start as int, i as int)),
        decreases cs.len() - i,
    {
        let c = cs[i];
        assert(cs@.subrange(start as int, i + 1).drop_last() =~= cs@.subrange(start as int, i as int));
        if !('0' <= c && c <= '9') {
            assert(!all_digits(digits)) by {
                assert(digits[i - start] == c);
            }
            return None;
        }
        let d = (c as u32) - 0x30;
        if acc > (u32::MAX - d) / 10 {
            proof {
                assert(acc * 10 + d > u32::MAX) by (nonlinear_arith)
                    requires
                        acc > (u32::MAX - d) / 10,
                        d <= 9,
                ;
                let p = cs@.subrange(start as int, i + 1);
                assert(decimal_value(p) > u32::MAX);
                if all_digits(digits) {
                    assert(digits.take(i + 1 - start) =~= p);
                    lemma_decimal_grows(digits, i + 1 - start);
                }
            }
            return None;
        }
        proof {
            assert(acc * 10 + d <= u32::MAX) by (nonlinear_arith)
                requires
                    acc <= (u32::MAX - d) / 10,
                    d <= 9,
            ;
        }
        acc = acc * 10 + d;
        i = i + 1;
    }
    assert(cs@.subrange(start as int, cs.len() as int) =~= digits);
    Some(acc)
}

/// `s` without the leading `c`s.
pub open spec fn strip_leading(s: Seq<char>, c: char) -> Seq<char>
    decreases s.len(),
{
    if s.len() > 0 && s[0] == c { strip_leading(s.skip(1), c) } else { s }
}

/// `s` without the trailing `c`s.
pub open spec fn strip_trailing(s: Seq<char>, c: char) -> Seq<char>
    decreases s.len(),
{
    if s.len() > 0 && s.last() == c { strip_trailing(s.drop_last(), c) } else { s }
}

/// `s` without `c` at either end, as `str::trim_matches` with a character
/// gives it.
pub open spec fn trim_matches_spec(s: Seq<char>, c: char) -> Seq<char> {
    strip_trailing(strip_leading(s, c), c)
}

/// The position of the first `c` in `s`.
pub open spec fn find_char(s: Seq<char>, c: char) -> Option<nat>
    decreases s.len(),
{
    if s.len() == 0 {
        None
    } else if s[0] == c {
        Some(0)
    } else {
        match find_char(s.skip(1), c) {
            Some(i) => Some(i + 1),
            None => None,
        }
    }
}

/// The settings after one line of the file: a blank line or a `#` comment
/// changes nothing; otherwise the line splits at its first `=` into a key
/// and a value, both without surrounding white space and the value without
/// surrounding double quotes, and a known key takes the value (a width that
/// is no number becomes the default width; a ratio takes the text as it
/// stands); an unknown key, or a line with no `=`, changes nothing.
pub open spec fn apply_line(c: ConfigView, line: Seq<char>) -> ConfigView {
    let l = trim_spec(line);
    if l.len() == 0 || l[0] == '#' {
        c
    } else {
        match find_char(l, '=') {
            None => c,
            Some(p) => {
                let key = trim_spec(l.take(p as int));
                let val = trim_matches_spec(trim_spec(l.skip(p as int + 1)), '"');
                if key == "show_hidden"@ {
                    ConfigView { show_hidden: val == "true"@, ..c }
                } else if key == "sort_column"@ {
                    ConfigView { sort_column: val, ..c }
                } else if key == "sort_order"@ {
                    ConfigView { sort_order: val, ..c }
                } else if key == "view_mode"@ {
                    ConfigView { view_mode: val, ..c }
                } else if key == "window_width"@ {
                    ConfigView { window_width: match parse_u32_spec(val) { Some(n) => n, None => 750 }, ..c }
                } else if key == "window_height"@ {
                    ConfigView { window_height: match parse_u32_spec(val) { Some(n) => n, None => 450 }, ..c }
                } else if key == "sidebar_ratio"@ {
                    ConfigView { sidebar_ratio: Some(val), ..c }
                } else if key == "preview_ratio"@ {
                    ConfigView { preview_ratio: Some(val), ..c }
                } else {
                    c
                }
            },
        }
    }
}

/// The settings after the lines `ls`, in order, starting from `c`.
pub open spec fn apply_lines(c: ConfigView, ls: Seq<Seq<char>>) -> ConfigView
    decreases ls.len(),
{
    if ls.len() == 0 { c } else { apply_line(apply_lines(c, ls.drop_last()), ls.last()) }
}

/// The settings a file text gives.
pub open spec fn parse_spec(content: Seq<char>) -> ConfigView {
    apply_lines(default_config(), str_lines(content))
}

fn strip_quotes(s: &str) -> (r: String)
    ensures
        r@ == trim_matches_spec(s@, '"'),
{
    let cs = chars_of(s);
    let mut a: usize = 0;
    assert(cs@.skip(0) =~= cs@);
    while a < cs.len() && cs[a] == '"'
        invariant
            a <= cs.len(),
            strip_leading(cs@, '"') == strip_leading(cs@.skip(a as int), '"'),
        decreases cs.len() - a,
    {
        assert(cs@.skip(a as int)[0] == cs@[a as int]);
        assert(cs@.skip(a as int).skip(1) =~= cs@.skip(a + 1));
        a = a + 1;
    }
    if a < cs.len() {
        assert(cs@.skip(a as int)[0] == cs@[a as int]);
    }
    let mut e = cs.len();
    assert(cs@.skip(a as int) =~= cs@.subrange(a as int, e as int));
    while e > a && cs[e - 1] == '"'
        invariant
            a <= e <= cs.len(),
            strip_leading(cs@, '"') == cs@.skip(a as int),
            trim_matches_spec(cs@, '"') == strip_trailing(cs@.subrange(a as int, e as int), '"'),
        decreases e - a,
    {
        assert(cs@.subrange(a as int, e as int).drop_last() =~= cs@.subrange(a as int, e - 1));
        e = e - 1;
    }
    let mut r = String::new();
    let mut i = a;
    while i < e
        invariant
            a <= i <= e,
            e <= cs.len(),
            r@ == cs@.subrange(a as int, i as int),
        decreases e - i,
    {
        push_char(&mut r, cs[i]);
        i = i + 1;
        assert(r@ =~= cs@.subrange(a as int, i as int));
    }
    r
}

fn find_eq(cs: &Vec<char>) -> (r: Option<usize>)
    ensures
        match r {
            Some(p) => find_char(cs@, '=') == Some(p as nat) && p < cs.len(),
            None => find_char(cs@, '=') is None,
        },
{
    let mut i: usize = 0;
    assert(cs@.skip(0) =~= cs@);
    while i < cs.len()
        invariant
            i <= cs.len(),
            find_char(cs@, '=') == (match find_char(cs@.skip(i as int), '=') {
                Some(k) => Some((k + i) as nat),
                None => None,
            }),
        decreases cs.len() - i,
    {
        assert(cs@.skip(i as int)[0] == cs@[i as int]);
        if cs[i] == '=' {
            return Some(i);
        }
        assert(cs@.skip(i as int).skip(1) =~= cs@.skip(i + 1));
        i = i + 1;
    }
    assert(cs@.skip(i as int) =~= Seq::<char>::empty());
    None
}

fn range_string(cs: &Vec<char>, from: usize, to: usize) -> (s: String)
    requires
        from <= to <= cs.len(),
    ensures
        s@ == cs@.subrange(from as int, to as int),
{
    let mut s = String::new();
    let mut i = from;
    while i < to
        invariant
            from <= i <= to,
            to <= cs.len(),
            s@ == cs@.subrange(from as int, i as int),
        decreases to - i,
    {
        push_char(&mut s, cs[i]);
        i = i + 1;
        assert(s@ =~= cs@.subrange(from as int, i as int));
    }
    s
}

impl Config {
    /// Take one line of the file (see [`apply_line`]).
    fn apply(&mut self, line: &str)
        ensures
            final(self)@ == apply_line(old(self)@, line@),
    {
        let l = trim(line);
        let lc = chars_of(l.as_str());
        if lc.len() == 0 || lc[0] == '#' {
            return;
        }
        let p = match find_eq(&lc) {
            Some(p) => p,
            None => return,
        };
        let key_raw = range_string(&lc, 0, p);
        let val_raw = range_string(&lc, p + 1, lc.len());
        assert(key_raw@ =~= lc@.take(p as int));
        assert(val_raw@ =~= lc@.skip(p + 1));
        let key = trim(key_raw.as_str());
        let val = strip_quotes(trim(val_raw.as_str()).as_str());
        let k = key.as_str();
        proof {
            reveal_strlit("show_hidden");
            reveal_strlit("sort_column");
            reveal_strlit("sort_order");
            reveal_strlit("view_mode");
            reveal_strlit("window_width");
            reveal_strlit("window_height");
            reveal_strlit("sidebar_ratio");
            reveal_strlit("preview_ratio");
            reveal_strlit("true");
        }
        if text_eq(k, "show_hidden") {
            self.show_hidden = text_eq(val.as_str(), "true");
        } else if text_eq(k, "sort_column") {
            self.sort_column = val;
        } else if text_eq(k, "sort_order") {
            self.sort_order = val;
        } else if text_eq(k, "view_mode") {
            self.view_mode = val;
        } else if text_eq(k, "window_width") {
            self.window_width = match parse_u32(val.as_str()) {
                Some(n) => n,
                None => 750,
            };
        } else if text_eq(k, "window_height") {
            self.window_height = match parse_u32(val.as_str()) {
                Some(n) => n,
                None => 450,
            };
        } else if text_eq(k, "sidebar_ratio") {
            self.sidebar_ratio = Some(val);
        } else if text_eq(k, "preview_ratio") {
            self.preview_ratio = Some(val);
        }
    }

    /// The settings a file text gives: the defaults, changed line by line
    /// (see [`apply_line`]).
    pub fn parse(content: &str) -> (c: Config)
        ensures
            c@ == parse_spec(content@),
    {
        let mut c = Config::default();
        let lines = lines_of(content);
        let ghost ls = str_lines(content@);
        let mut i: usize = 0;
        while i < lines.len()
            invariant
                i <= lines.len(),
                strings_view(lines@) == ls,
                c@ == apply_lines(default_config(), ls.take(i as int)),
            decreases lines.len() - i,
        {
            assert(ls.take(i + 1).drop_last() =~= ls.take(i as int));
            assert(ls.take(i + 1).last() == lines@[i as int]@);
            c.apply(lines[i].as_str());
            i = i + 1;
        }
        assert(ls.take(lines.len() as int) =~= ls);
        c
    }
}

/// Whether two texts are the same.
fn text_eq(a: &str, b: &str) -> (r: bool)
    ensures
        r == (a@ == b@),
{
    crate::lru_cache::str_equal(a, b)
}

// ── Writing ──

/// The text of a `bool` as the file writes it.
pub open spec fn bool_text(b: bool) -> Seq<char> {
    if b { "true"@ } else { "false"@ }
}

/// The file text of the settings: one `key = value` line each (see
/// [`format_lines`]), every line ended by a line feed.
pub open spec fn format_spec(c: ConfigView) -> Seq<char> {
    terminated(format_lines(c))
}

fn line_of(key: &str, raw: &str) -> (l: String)
    ensures
        l@ == key@ + key_sep() + raw@,
{
    let mut l = String::new();
    push_str(&mut l, key);
    push_char(&mut l, ' ');
    push_char(&mut l, '=');
    push_char(&mut l, ' ');
    push_str(&mut l, raw);
    assert(l@ =~= key@ + key_sep() + raw@);
    l
}

fn quoted(s: &str) -> (q: String)
    ensures
        q@ == seq!['"'] + s@ + seq!['"'],
{
    let mut q = String::new();
    push_char(&mut q, '"');
    push_str(&mut q, s);
    push_char(&mut q, '"');
    assert(q@ =~= seq!['"'] + s@ + seq!['"']);
    q
}

fn dec_string(n: u32) -> (s: String)
    ensures
        s@ == dec(n as nat),
{
    let mut s = String::new();
    push_dec(&mut s, n as u64);
    assert(s@ =~= dec(n as nat));
    s
}

fn terminate_lines(lines: &Vec<String>) -> (s: String)
    ensures
        s@ == terminated(strings_view(lines@)),
{
    let ghost views = strings_view(lines@);
    let mut s = String::new();
    let mut k: usize = 0;
    assert(views.take(0) =~= Seq::<Seq<char>>::empty());
    while k < lines.len()
        invariant
            k <= lines.len(),
            views == strings_view(lines@),
            s@ == terminated(views.take(k as int)),
        decreases lines.len() - k,
    {
        assert(views.take(k + 1).drop_last() =~= views.take(k as int));
        assert(views.take(k + 1).last() == lines@[k as int]@);
        push_str(&mut s, lines[k].as_str());
        push_char(&mut s, '\n');
        k = k + 1;
        assert(s@ =~= terminated(views.take(k as int)));
    }
    assert(views.take(lines.len() as int) =~= views);
    s
}

impl Config {
    /// The file text of the settings (see [`format_spec`]).
    pub fn format(&self) -> (s: String)
        ensures
            s@ == format_spec(self@),
    {
        proof {
            reveal_strlit("true");
            reveal_strlit("false");
        }
        let mut lines: Vec<String> = Vec::new();
        lines.push(line_of("show_hidden", if self.show_hidden { "true" } else { "false" }));
        let q = quoted(self.sort_column.as_str());
        lines.push(line_of("sort_column", q.as_str()));
        let q = quoted(self.sort_order.as_str());
        lines.push(line_of("sort_order", q.as_str()));
        let q = quoted(self.view_mode.as_str());
        lines.push(line_of("view_mode", q.as_str()));
        let d = dec_string(self.window_width);
        lines.push(line_of("window_width", d.as_str()));
        let d = dec_string(self.window_height);
        lines.push(line_of("window_height", d.as_str()));
        if let Some(r) = &self.sidebar_ratio {
            lines.push(line_of("sidebar_ratio", r.as_str()));
        }
        if let Some(r) = &self.preview_ratio {
            lines.push(line_of("preview_ratio", r.as_str()));
        }
        assert(strings_view(lines@) =~= format_lines(self@));
        terminate_lines(&lines)
    }

    /// The sort column the settings name: `size`, `modified`, or by name.
    pub fn to_sort_column(&self) -> (c: SortColumn)
        ensures
            c == (if self.sort_column@ == "size"@ {
                SortColumn::Size
            } else if self.sort_column@ == "modified"@ {
                SortColumn::Modified
            } else {
                SortColumn::Name
            }),
            c == column_of_name(self.sort_column@),
    {
        if text_eq(self.sort_column.as_str(), "size") {
            SortColumn::Size
        } else if text_eq(self.sort_column.as_str(), "modified") {
            SortColumn::Modified
        } else {
            SortColumn::Name
        }
    }

    /// The sort direction the settings name: `desc`, or ascending.
    pub fn to_sort_order(&self) -> (o: SortOrder)
        ensures
            o == (if self.sort_order@ == "desc"@ { SortOrder::Desc } else { SortOrder::Asc }),
            o == order_of_name(self.sort_order@),
    {
        if text_eq(self.sort_order.as_str(), "desc") { SortOrder::Desc } else { SortOrder::Asc }
    }

    /// The view mode the settings name: `list`, `compact`, or detail.
    pub fn to_view_mode(&self) -> (m: ViewMode)
        ensures
            m == (if self.view_mode@ == "list"@ {
                ViewMode::List
            } else if self.view_mode@ == "compact"@ {
                ViewMode::Compact
            } else {
                ViewMode::Detail
            }),
            m == mode_of_name(self.view_mode@),
    {
        if text_eq(self.view_mode.as_str(), "list") {
            ViewMode::List
        } else if text_eq(self.view_mode.as_str(), "compact") {
            ViewMode::Compact
        } else {
            ViewMode::Detail
        }
    }

    /// The settings of a view, with the texts of the pane ratios it uses;
    /// the window keeps the default size.
    pub fn from_state(state: &FileViewState, sidebar_ratio: Option<String>, preview_ratio: Option<String>) -> (c: Config)
        ensures
            c@.show_hidden == state.show_hidden,
            c@.sort_column == column_name(state.sort_column),
            c@.sort_order == order_name(state.sort_order),
            c@.view_mode == mode_name(state.view_mode),
            c@.window_width == 750,
            c@.window_height == 450,
            c@.sidebar_ratio == crate::paths::opt_view(sidebar_ratio),
            c@.preview_ratio == crate::paths::opt_view(preview_ratio),
    {
        let sort_column = match state.sort_column {
            SortColumn::Name => "name".to_owned(),
            SortColumn::Size => "size".to_owned(),
            SortColumn::Modified => "modified".to_owned(),
        };
        let sort_order = match state.sort_order {
            SortOrder::Asc => "asc".to_owned(),
            SortOrder::Desc => "desc".to_owned(),
        };
        let view_mode = match state.view_mode {
            ViewMode::Detail => "detail".to_owned(),
            ViewMode::List => "list".to_owned(),
            ViewMode::Compact => "compact".to_owned(),
        };
        Config {
            show_hidden: state.show_hidden,
            sort_column,
            sort_order,
            view_mode,
            window_width: 750,
            window_height: 450,
            sidebar_ratio,
            preview_ratio,
        }
    }
}

/// The sort column a settings name reads as: `size`, `modified`, or by name.
pub open spec fn column_of_name(s: Seq<char>) -> SortColumn {
    if s == "size"@ { SortColumn::Size } else if s == "modified"@ { SortColumn::Modified } else { SortColumn::Name }
}

/// The sort direction a settings name reads as: `desc`, or ascending.
pub open spec fn order_of_name(s: Seq<char>) -> SortOrder {
    if s == "desc"@ { SortOrder::Desc } else { SortOrder::Asc }
}

/// The view mode a settings name reads as: `list`, `compact`, or detail.
pub open spec fn mode_of_name(s: Seq<char>) -> ViewMode {
    if s == "list"@ { ViewMode::List } else if s == "compact"@ { ViewMode::Compact } else { ViewMode::Detail }
}

/// The name the settings use for a sort column.
pub open spec fn column_name(c: SortColumn) -> Seq<char> {
    match c {
        SortColumn::Name => "name"@,
        SortColumn::Size => "size"@,
        SortColumn::Modified => "modified"@,
    }
}

/// The name the settings use for a sort direction.
pub open spec fn order_name(o: SortOrder) -> Seq<char> {
    match o {
        SortOrder::Asc => "asc"@,
        SortOrder::Desc => "desc"@,
    }
}

/// The name the settings use for a view mode.
pub open spec fn mode_name(m: ViewMode) -> Seq<char> {
    match m {
        ViewMode::Detail => "detail"@,
        ViewMode::List => "list"@,
        ViewMode::Compact => "compact"@,
    }
}


// ── Round trip ──

/// A name value that survives the file: no line feed, and no double quote
/// at either end.
pub open spec fn quotable(s: Seq<char>) -> bool {
    &&& forall|i: int| 0 <= i < s.len() ==> #[trigger] s[i] != '\n'
    &&& s.len() > 0 ==> s[0] != '"' && s.last() != '"'
}

/// A ratio text that survives the file: not empty, no line feed, no white
/// space or double quote at either end.
pub open spec fn bare_value(s: Seq<char>) -> bool {
    &&& s.len() > 0
    &&& forall|i: int| 0 <= i < s.len() ==> #[trigger] s[i] != '\n'
    &&& !crate::text::white_space(s[0]) && !crate::text::white_space(s.last())
    &&& s[0] != '"' && s.last() != '"'
}

/// Settings whose texts all survive the file.
pub open spec fn writable(c: ConfigView) -> bool {
    &&& quotable(c.sort_column)
    &&& quotable(c.sort_order)
    &&& quotable(c.view_mode)
    &&& (c.sidebar_ratio matches Some(r) ==> bare_value(r))
    &&& (c.preview_ratio matches Some(r) ==> bare_value(r))
}

/// The lines `ls`, each followed by a line feed.
pub open spec fn terminated(ls: Seq<Seq<char>>) -> Seq<char>
    decreases ls.len(),
{
    if ls.len() == 0 { Seq::empty() } else { terminated(ls.drop_last()) + ls.last() + seq!['\n'] }
}

proof fn lemma_complete_lines_terminated(ls: Seq<Seq<char>>)
    requires
        forall|i: int, j: int| 0 <= i < ls.len() && 0 <= j < ls[i].len() ==> #[trigger] ls[i][j] != '\n',
    ensures
        crate::text::complete_lines(terminated(ls), '\n') == ls,
        terminated(ls).len() == 0 || terminated(ls).last() == '\n',
    decreases ls.len(),
{
    if ls.len() > 0 {
        let front = ls.drop_last();
        let l = ls.last();
        assert forall|i: int, j: int| 0 <= i < front.len() && 0 <= j < front[i].len() implies #[trigger] front[i][j] != '\n' by {
            assert(front[i] == ls[i]);
        }
        lemma_complete_lines_terminated(front);
        let t = terminated(front);
        let s = terminated(ls);
        assert(s == t + l + seq!['\n']);
        assert(s.drop_last() =~= t + l);
        assert forall|k: int| t.len() <= k < (t + l).len() implies (t + l)[k] != '\n' by {
            assert((t + l)[k] == l[k - t.len()]);
            assert(ls[ls.len() - 1] == l);
            assert(ls[ls.len() - 1][k - t.len()] != '\n');
        }
        crate::text::lemma_last_sep_at(t + l, '\n', t.len() as int);
        assert(s.take(t.len() as int) =~= t);
        assert(s.subrange(t.len() as int, s.len() - 1) =~= l);
        assert(front.push(l) =~= ls);
    } else {
        assert(terminated(ls) =~= Seq::<char>::empty());
    }
}

proof fn lemma_str_lines_terminated(ls: Seq<Seq<char>>)
    requires
        forall|i: int, j: int| 0 <= i < ls.len() && 0 <= j < ls[i].len() ==> #[trigger] ls[i][j] != '\n',
        forall|i: int| 0 <= i < ls.len() ==> #[trigger] ls[i].len() > 0 && ls[i].last() != '\r',
    ensures
        str_lines(terminated(ls)) == ls,
{
    lemma_complete_lines_terminated(ls);
    let s = terminated(ls);
    crate::text::lemma_last_sep_facts(s, '\n');
    if s.len() > 0 {
        assert(crate::text::last_sep(s, '\n') == s.len() - 1);
    }
    assert(s.take(crate::text::last_sep(s, '\n') + 1) =~= s);
    assert(ls.map_values(|l: Seq<char>| crate::text::strip_cr(l)) =~= ls);
}

proof fn lemma_trim_id(s: Seq<char>)
    requires
        s.len() > 0,
        !crate::text::white_space(s[0]),
        !crate::text::white_space(s.last()),
    ensures
        trim_spec(s) == s,
{
}

proof fn lemma_trim_space_front(x: Seq<char>)
    requires
        x.len() > 0,
        !crate::text::white_space(x[0]),
        !crate::text::white_space(x.last()),
    ensures
        trim_spec(seq![' '] + x) == x,
{
    let y = seq![' '] + x;
    assert(y.skip(1) =~= x);
    assert(y[0] == ' ');
    assert(crate::text::white_space(' '));
    assert(crate::text::trim_start_spec(x) == x);
    assert(crate::text::trim_start_spec(y) == crate::text::trim_start_spec(y.skip(1)));
    assert(crate::text::trim_end_spec(x) == x);
}

proof fn lemma_trim_space_back(x: Seq<char>)
    requires
        x.len() > 0,
        !crate::text::white_space(x[0]),
        !crate::text::white_space(x.last()),
    ensures
        trim_spec(x + seq![' ']) == x,
{
    let y = x + seq![' '];
    assert(y.drop_last() =~= x);
    assert(y[0] == x[0]);
    assert(y.last() == ' ');
    assert(crate::text::white_space(' '));
    assert(crate::text::trim_start_spec(y) == y);
    assert(crate::text::trim_end_spec(y) == crate::text::trim_end_spec(y.drop_last()));
    assert(crate::text::trim_end_spec(x) == x);
}

proof fn lemma_find_char_append(a: Seq<char>, b: Seq<char>, c: char)
    requires
        forall|i: int| 0 <= i < a.len() ==> #[trigger] a[i] != c,
    ensures
        find_char(a + b, c) == match find_char(b, c) {
            Some(i) => Some(i + a.len()),
            None => None,
        },
    decreases a.len(),
{
    if a.len() > 0 {
        let rest = a.skip(1);
        assert forall|i: int| 0 <= i < rest.len() implies #[trigger] rest[i] != c by {
            assert(rest[i] == a[i + 1]);
        }
        lemma_find_char_append(rest, b, c);
        assert((a + b).skip(1) =~= rest + b);
        assert((a + b)[0] == a[0]);
    } else {
        assert(a + b =~= b);
    }
}

/// How a `key = value` line splits: the key and the value come back.
proof fn lemma_key_line(key: Seq<char>, raw: Seq<char>)
    requires
        key.len() > 0,
        !crate::text::white_space(key[0]),
        key[0] != '#',
        !crate::text::white_space(key.last()),
        forall|i: int| 0 <= i < key.len() ==> #[trigger] key[i] != '=',
        raw.len() > 0,
        !crate::text::white_space(raw[0]),
        !crate::text::white_space(raw.last()),
    ensures
        ({
            let l = trim_spec(key + seq![' ', '=', ' '] + raw);
            &&& l.len() > 0
            &&& l[0] != '#'
            &&& find_char(l, '=') == Some(key.len() + 1)
            &&& trim_spec(l.take(key.len() as int + 1)) == key
            &&& trim_spec(l.skip(key.len() as int + 2)) == raw
        }),
{
    let line = key + seq![' ', '=', ' '] + raw;
    lemma_trim_id(line);
    let kk = key + seq![' '];
    assert forall|i: int| 0 <= i < kk.len() implies #[trigger] kk[i] != '=' by {
        if i < key.len() {
            assert(kk[i] == key[i]);
        }
    }
    assert(line =~= kk + (seq!['=', ' '] + raw));
    lemma_find_char_append(kk, seq!['=', ' '] + raw, '=');
    assert(line.take(key.len() as int + 1) =~= key + seq![' ']);
    lemma_trim_space_back(key);
    assert(line.skip(key.len() as int + 2) =~= seq![' '] + raw);
    lemma_trim_space_front(raw);
}

proof fn lemma_unquote(s: Seq<char>)
    requires
        s.len() > 0 ==> s[0] != '"' && s.last() != '"',
    ensures
        trim_matches_spec(seq!['"'] + s + seq!['"'], '"') == s,
{
    let q = seq!['"'] + s + seq!['"'];
    let t = s + seq!['"'];
    assert(q.skip(1) =~= t);
    assert(q[0] == '"');
    assert(strip_leading(q, '"') == strip_leading(t, '"'));
    assert(t.last() == '"');
    assert(t.drop_last() =~= s);
    if s.len() == 0 {
        assert(t =~= seq!['"']);
        assert(t.skip(1) =~= Seq::<char>::empty());
        assert(strip_leading(t, '"') == strip_leading(t.skip(1), '"'));
        assert(strip_leading(Seq::<char>::empty(), '"') == Seq::<char>::empty());
        assert(strip_trailing(Seq::<char>::empty(), '"') == Seq::<char>::empty());
        assert(s =~= Seq::<char>::empty());
    } else {
        assert(t[0] == s[0]);
        assert(strip_leading(t, '"') == t);
        assert(strip_trailing(t, '"') == strip_trailing(s, '"'));
        assert(strip_trailing(s, '"') == s);
    }
}

proof fn lemma_no_quotes(s: Seq<char>)
    requires
        s.len() > 0,
        s[0] != '"',
        s.last() != '"',
    ensures
        trim_matches_spec(s, '"') == s,
{
}

proof fn lemma_digit_value(k: nat)
    requires
        k < 10,
    ensures
        digit_value(crate::fmt::digit_char(k)) == k,
        '0' <= crate::fmt::digit_char(k) && crate::fmt::digit_char(k) <= '9',
{
}

proof fn lemma_dec_digits(n: nat)
    ensures
        dec(n).len() > 0,
        all_digits(dec(n)),
        decimal_value(dec(n)) == n,
        dec(n)[0] != '+',
        !crate::text::white_space(dec(n)[0]),
        !crate::text::white_space(dec(n).last()),
        dec(n)[0] != '"' && dec(n).last() != '"',
    decreases n,
{
    lemma_digit_value(n % 10);
    if n < 10 {
        lemma_digit_value(n);
        let e = dec(n);
        assert(e.drop_last() =~= Seq::<char>::empty());
        assert(e.last() == crate::fmt::digit_char(n));
        assert(decimal_value(e.drop_last()) == 0);
        assert(decimal_value(e) == decimal_value(e.drop_last()) * 10 + digit_value(e.last()));
    }
    if n >= 10 {
        lemma_dec_digits(n / 10);
        let d = dec(n / 10);
        let e = dec(n);
        assert(e == d.push(crate::fmt::digit_char(n % 10)));
        assert(e.drop_last() =~= d);
        assert forall|i: int| 0 <= i < e.len() implies '0' <= #[trigger] e[i] && e[i] <= '9' by {
            if i < d.len() {
                assert(e[i] == d[i]);
            }
        }
        assert(e[0] == d[0]);
        assert(e.last() == crate::fmt::digit_char(n % 10));
        assert(decimal_value(e) == decimal_value(e.drop_last()) * 10 + digit_value(e.last()));
        assert(n == (n / 10) * 10 + n % 10);
    }
}

proof fn lemma_parse_dec(n: u32)
    ensures
        parse_u32_spec(dec(n as nat)) == Some(n),
{
    lemma_dec_digits(n as nat);
}

/// The lines `format` writes for the settings `c`.
pub open spec fn format_lines(c: ConfigView) -> Seq<Seq<char>> {
    seq![
        "show_hidden"@ + seq![' ', '=', ' '] + bool_text(c.show_hidden),
        "sort_column"@ + seq![' ', '=', ' '] + (seq!['"'] + c.sort_column + seq!['"']),
        "sort_order"@ + seq![' ', '=', ' '] + (seq!['"'] + c.sort_order + seq!['"']),
        "view_mode"@ + seq![' ', '=', ' '] + (seq!['"'] + c.view_mode + seq!['"']),
        "window_width"@ + seq![' ', '=', ' '] + dec(c.window_width as nat),
        "window_height"@ + seq![' ', '=', ' '] + dec(c.window_height as nat),
    ] + (match c.sidebar_ratio {
        Some(r) => seq!["sidebar_ratio"@ + seq![' ', '=', ' '] + r],
        None => Seq::empty(),
    }) + (match c.preview_ratio {
        Some(r) => seq!["preview_ratio"@ + seq![' ', '=', ' '] + r],
        None => Seq::empty(),
    })
}

/// The separator between a key and its value.
pub open spec fn key_sep() -> Seq<char> {
    seq![' ', '=', ' ']
}

/// What the key literals look like: not empty, no white space, `#` or `=`.
proof fn lemma_keys()
    ensures
        key_shape("show_hidden"@),
        key_shape("sort_column"@),
        key_shape("sort_order"@),
        key_shape("view_mode"@),
        key_shape("window_width"@),
        key_shape("window_height"@),
        key_shape("sidebar_ratio"@),
        key_shape("preview_ratio"@),
        "show_hidden"@ != "sort_column"@,
        "show_hidden"@ != "sort_order"@,
        "show_hidden"@ != "view_mode"@,
        "show_hidden"@ != "window_width"@,
        "show_hidden"@ != "window_height"@,
        "show_hidden"@ != "sidebar_ratio"@,
        "show_hidden"@ != "preview_ratio"@,
        "sort_column"@ != "sort_order"@,
        "sort_column"@ != "view_mode"@,
        "sort_column"@ != "window_width"@,
        "sort_column"@ != "window_height"@,
        "sort_column"@ != "sidebar_ratio"@,
        "sort_column"@ != "preview_ratio"@,
        "sort_order"@ != "view_mode"@,
        "sort_order"@ != "window_width"@,
        "sort_order"@ != "window_height"@,
        "sort_order"@ != "sidebar_ratio"@,
        "sort_order"@ != "preview_ratio"@,
        "view_mode"@ != "window_width"@,
        "view_mode"@ != "window_height"@,
        "view_mode"@ != "sidebar_ratio"@,
        "view_mode"@ != "preview_ratio"@,
        "window_width"@ != "window_height"@,
        "window_width"@ != "sidebar_ratio"@,
        "window_width"@ != "preview_ratio"@,
        "window_height"@ != "sidebar_ratio"@,
        "window_height"@ != "preview_ratio"@,
        "sidebar_ratio"@ != "preview_ratio"@,
{
    reveal_strlit("show_hidden");
    reveal_strlit("sort_column");
    reveal_strlit("sort_order");
    reveal_strlit("view_mode");
    reveal_strlit("window_width");
    reveal_strlit("window_height");
    reveal_strlit("sidebar_ratio");
    reveal_strlit("preview_ratio");
    assert("show_hidden"@[1] != "sort_column"@[1]);
    assert("window_width"@.len() != "window_height"@.len());
    assert("window_height"@[0] != "sidebar_ratio"@[0]);
    assert("window_height"@[0] != "preview_ratio"@[0]);
    assert("sidebar_ratio"@[0] != "preview_ratio"@[0]);
}

/// A key as the file writes it: not empty, no white space at either end, no
/// `#` first and no `=` or line feed anywhere.
pub open spec fn key_shape(k: Seq<char>) -> bool {
    &&& k.len() > 0
    &&& !crate::text::white_space(k[0])
    &&& k[0] != '#'
    &&& !crate::text::white_space(k.last())
    &&& forall|i: int| 0 <= i < k.len() ==> #[trigger] k[i] != '=' && k[i] != '\n'
}

/// `apply_line` on a `key = raw` line.
proof fn lemma_apply_key_line(c: ConfigView, key: Seq<char>, raw: Seq<char>)
    requires
        key_shape(key),
        raw.len() > 0,
        !crate::text::white_space(raw[0]),
        !crate::text::white_space(raw.last()),
    ensures
        ({
            let val = trim_matches_spec(raw, '"');
            apply_line(c, key + key_sep() + raw) == (if key == "show_hidden"@ {
                ConfigView { show_hidden: val == "true"@, ..c }
            } else if key == "sort_column"@ {
                ConfigView { sort_column: val, ..c }
            } else if key == "sort_order"@ {
                ConfigView { sort_order: val, ..c }
            } else if key == "view_mode"@ {
                ConfigView { view_mode: val, ..c }
            } else if key == "window_width"@ {
                ConfigView { window_width: match parse_u32_spec(val) { Some(n) => n, None => 750 }, ..c }
            } else if key == "window_height"@ {
                ConfigView { window_height: match parse_u32_spec(val) { Some(n) => n, None => 450 }, ..c }
            } else if key == "sidebar_ratio"@ {
                ConfigView { sidebar_ratio: Some(val), ..c }
            } else if key == "preview_ratio"@ {
                ConfigView { preview_ratio: Some(val), ..c }
            } else {
                c
            })
        }),
{
    lemma_key_line(key, raw);
}

proof fn lemma_bool_text(b: bool)
    ensures
        bool_text(b).len() > 0,
        !crate::text::white_space(bool_text(b)[0]),
        !crate::text::white_space(bool_text(b).last()),
        bool_text(b)[0] != '"' && bool_text(b).last() != '"',
        bool_text(b).last() != '\r',
        forall|i: int| 0 <= i < bool_text(b).len() ==> #[trigger] bool_text(b)[i] != '\n',
        (bool_text(b) == "true"@) == b,
{
    reveal_strlit("true");
    reveal_strlit("false");
    assert("true"@ != "false"@) by {
        assert("true"@.len() != "false"@.len());
    }
}

proof fn lemma_quoted(s: Seq<char>)
    requires
        quotable(s),
    ensures
        ({
            let q = seq!['"'] + s + seq!['"'];
            &&& q.len() > 0
            &&& !crate::text::white_space(q[0])
            &&& !crate::text::white_space(q.last())
            &&& q.last() != '\r'
            &&& forall|i: int| 0 <= i < q.len() ==> #[trigger] q[i] != '\n'
            &&& trim_matches_spec(q, '"') == s
        }),
{
    lemma_unquote(s);
    let q = seq!['"'] + s + seq!['"'];
    assert forall|i: int| 0 <= i < q.len() implies #[trigger] q[i] != '\n' by {
        if 0 < i < q.len() - 1 {
            assert(q[i] == s[i - 1]);
        }
    }
}

/// A line `key = raw` with no line feed, and its last character.
proof fn lemma_line_shape(key: Seq<char>, raw: Seq<char>)
    requires
        key_shape(key),
        raw.len() > 0,
        forall|i: int| 0 <= i < raw.len() ==> #[trigger] raw[i] != '\n',
    ensures
        forall|i: int| 0 <= i < (key + key_sep() + raw).len() ==> #[trigger] (key + key_sep() + raw)[i] != '\n',
        (key + key_sep() + raw).len() > 0,
        (key + key_sep() + raw).last() == raw.last(),
{
    let l = key + key_sep() + raw;
    assert forall|i: int| 0 <= i < l.len() implies #[trigger] l[i] != '\n' by {
        if i < key.len() {
            assert(l[i] == key[i]);
        } else if i < key.len() + 3 {
        } else {
            assert(l[i] == raw[i - key.len() - 3]);
        }
    }
}


proof fn lemma_apply_lines_step(d: ConfigView, ls: Seq<Seq<char>>, k: int)
    requires
        0 <= k < ls.len(),
    ensures
        apply_lines(d, ls.take(k + 1)) == apply_line(apply_lines(d, ls.take(k)), ls[k]),
{
    assert(ls.take(k + 1).drop_last() =~= ls.take(k));
    assert(ls.take(k + 1).last() == ls[k]);
}

/// The keys of the lines `format` writes for `c`, in order.
spec fn format_keys(c: ConfigView) -> Seq<Seq<char>> {
    seq!["show_hidden"@, "sort_column"@, "sort_order"@, "view_mode"@, "window_width"@, "window_height"@]
        + (if c.sidebar_ratio is Some { seq!["sidebar_ratio"@] } else { Seq::empty() })
        + (if c.preview_ratio is Some { seq!["preview_ratio"@] } else { Seq::empty() })
}

/// The values of the lines `format` writes for `c`, in order.
spec fn format_raws(c: ConfigView) -> Seq<Seq<char>> {
    seq![
        bool_text(c.show_hidden),
        seq!['"'] + c.sort_column + seq!['"'],
        seq!['"'] + c.sort_order + seq!['"'],
        seq!['"'] + c.view_mode + seq!['"'],
        dec(c.window_width as nat),
        dec(c.window_height as nat),
    ] + (match c.sidebar_ratio { Some(r) => seq![r], None => Seq::empty() })
        + (match c.preview_ratio { Some(r) => seq![r], None => Seq::empty() })
}

/// Each line `format` writes for `c` is `key = value`, with a value that
/// reads back.
proof fn lemma_format_line_shapes(c: ConfigView)
    requires
        writable(c),
    ensures
        format_keys(c).len() == format_lines(c).len(),
        format_raws(c).len() == format_lines(c).len(),
        forall|i: int| 0 <= i < format_lines(c).len() ==> {
            let raw = #[trigger] format_raws(c)[i];
            &&& format_lines(c)[i] == format_keys(c)[i] + key_sep() + raw
            &&& key_shape(format_keys(c)[i])
            &&& raw.len() > 0
            &&& !crate::text::white_space(raw[0])
            &&& !crate::text::white_space(raw.last())
            &&& raw.last() != '\r'
            &&& forall|j: int| 0 <= j < raw.len() ==> #[trigger] raw[j] != '\n'
        },
        str_lines(format_spec(c)) == format_lines(c),
{
    lemma_keys();
    lemma_bool_text(c.show_hidden);
    lemma_quoted(c.sort_column);
    lemma_quoted(c.sort_order);
    lemma_quoted(c.view_mode);
    lemma_dec_digits(c.window_width as nat);
    lemma_dec_digits(c.window_height as nat);
    let ls = format_lines(c);
    let keys = format_keys(c);
    let raws = format_raws(c);
    assert(keys.len() == ls.len() && raws.len() == ls.len());
    assert forall|i: int| 0 <= i < ls.len() implies #[trigger] ls[i] == keys[i] + key_sep() + raws[i] && key_shape(keys[i])
        && raws[i].len() > 0 && !crate::text::white_space(raws[i][0]) && !crate::text::white_space(raws[i].last())
        && raws[i].last() != '\r' && (forall|j: int| 0 <= j < raws[i].len() ==> #[trigger] raws[i][j] != '\n') by {
        if i >= 6 {
            if i == 6 && c.sidebar_ratio is Some {
                assert(raws[i] == c.sidebar_ratio->0);
            } else {
                assert(raws[i] == c.preview_ratio->0);
            }
        }
    }
    assert forall|i: int, j: int| 0 <= i < ls.len() && 0 <= j < ls[i].len() implies #[trigger] ls[i][j] != '\n' by {
        lemma_line_shape(keys[i], raws[i]);
    }
    assert forall|i: int| 0 <= i < ls.len() implies #[trigger] ls[i].len() > 0 && ls[i].last() != '\r' by {
        lemma_line_shape(keys[i], raws[i]);
    }
    lemma_str_lines_terminated(ls);
}

/// `apply_line` on the line `format` writes at position `i`, where the
/// lines before it gave `prev`.
proof fn lemma_apply_format_line(c: ConfigView, i: int, prev: ConfigView)
    requires
        writable(c),
        0 <= i < format_lines(c).len(),
        apply_lines(default_config(), format_lines(c).take(i)) == prev,
    ensures
        apply_lines(default_config(), format_lines(c).take(i + 1)) == apply_line(prev, format_lines(c)[i]),
        i == 0 ==> apply_line(prev, format_lines(c)[i]) == (ConfigView { show_hidden: c.show_hidden, ..prev }),
        i == 1 ==> apply_line(prev, format_lines(c)[i]) == (ConfigView { sort_column: c.sort_column, ..prev }),
        i == 2 ==> apply_line(prev, format_lines(c)[i]) == (ConfigView { sort_order: c.sort_order, ..prev }),
        i == 3 ==> apply_line(prev, format_lines(c)[i]) == (ConfigView { view_mode: c.view_mode, ..prev }),
        i == 4 ==> apply_line(prev, format_lines(c)[i]) == (ConfigView { window_width: c.window_width, ..prev }),
        i == 5 ==> apply_line(prev, format_lines(c)[i]) == (ConfigView { window_height: c.window_height, ..prev }),
        i >= 6 && format_keys(c)[i] == "sidebar_ratio"@
            ==> apply_line(prev, format_lines(c)[i]) == (ConfigView { sidebar_ratio: c.sidebar_ratio, ..prev }),
        i >= 6 && format_keys(c)[i] == "preview_ratio"@
            ==> apply_line(prev, format_lines(c)[i]) == (ConfigView { preview_ratio: c.preview_ratio, ..prev }),
{
    lemma_format_line_shapes(c);
    let ls = format_lines(c);
    let keys = format_keys(c);
    let raws = format_raws(c);
    lemma_apply_lines_step(default_config(), ls, i);
    assert(ls[i] == keys[i] + key_sep() + raws[i]);
    lemma_apply_key_line(prev, keys[i], raws[i]);
    lemma_keys();
    if i == 0 {
        lemma_bool_text(c.show_hidden);
        lemma_no_quotes(bool_text(c.show_hidden));
    } else if i == 1 {
        lemma_quoted(c.sort_column);
    } else if i == 2 {
        lemma_quoted(c.sort_order);
    } else if i == 3 {
        lemma_quoted(c.view_mode);
    } else if i == 4 {
        lemma_dec_digits(c.window_width as nat);
        lemma_no_quotes(dec(c.window_width as nat));
        lemma_parse_dec(c.window_width);
    } else if i == 5 {
        lemma_dec_digits(c.window_height as nat);
        lemma_no_quotes(dec(c.window_height as nat));
        lemma_parse_dec(c.window_height);
    } else {
        lemma_no_quotes(raws[i]);
        if i == 6 && c.sidebar_ratio is Some {
            assert(raws[i] == c.sidebar_ratio->0);
            assert(keys[i] == "sidebar_ratio"@);
        } else {
            assert(raws[i] == c.preview_ratio->0);
            assert(keys[i] == "preview_ratio"@);
        }
    }
}

/// Applying the lines `format` writes for `c` to the defaults gives `c`.
proof fn lemma_apply_format_lines(c: ConfigView)
    requires
        writable(c),
    ensures
        apply_lines(default_config(), format_lines(c)) == c,
{
    lemma_format_line_shapes(c);
    lemma_keys();
    let ls = format_lines(c);
    let keys = format_keys(c);
    let d = default_config();
    assert(ls.take(0) =~= Seq::<Seq<char>>::empty());
    lemma_apply_format_line(c, 0, d);
    let c1 = apply_line(d, ls[0]);
    lemma_apply_format_line(c, 1, c1);
    let c2 = apply_line(c1, ls[1]);
    lemma_apply_format_line(c, 2, c2);
    let c3 = apply_line(c2, ls[2]);
    lemma_apply_format_line(c, 3, c3);
    let c4 = apply_line(c3, ls[3]);
    lemma_apply_format_line(c, 4, c4);
    let c5 = apply_line(c4, ls[4]);
    lemma_apply_format_line(c, 5, c5);
    let c6 = apply_line(c5, ls[5]);
    if ls.len() == 6 {
        assert(ls.take(6) =~= ls);
        assert(c6 == c);
    } else {
        lemma_apply_format_line(c, 6, c6);
        let c7 = apply_line(c6, ls[6]);
        if ls.len() == 7 {
            assert(ls.take(7) =~= ls);
            if c.sidebar_ratio is Some {
                assert(keys[6] == "sidebar_ratio"@);
            } else {
                assert(keys[6] == "preview_ratio"@);
            }
            assert(c7 == c);
        } else {
            assert(keys[6] == "sidebar_ratio"@);
            lemma_apply_format_line(c, 7, c7);
            let c8 = apply_line(c7, ls[7]);
            assert(keys[7] == "preview_ratio"@);
            assert(ls.take(8) =~= ls);
            assert(c8 == c);
        }
    }
}

/// Settings read back from the text `format` writes for them are the same
/// settings, for every value that the file can hold (see [`writable`]).
pub proof fn law_config_round_trip(c: ConfigView)
    requires
        writable(c),
    ensures
        parse_spec(format_spec(c)) == c,
{
    lemma_format_line_shapes(c);
    lemma_apply_format_lines(c);
}

/// Saving a view's settings and reading them back restores the view: the
/// view mode, sort column and sort order written for a view are read back
/// as the same ones, directly and through the whole settings text, with
/// the hidden-files flag; and the names written are the file's own words
/// (`detail`, `list`, `compact`; `name`, `size`, `modified`; `asc`,
/// `desc`), so a file written by an older or newer build reads the same.
pub proof fn law_saved_view_reloads(
    show_hidden: bool,
    col: SortColumn,
    ord: SortOrder,
    mode: ViewMode,
    sidebar_ratio: Option<Seq<char>>,
    preview_ratio: Option<Seq<char>>,
)
    requires
        sidebar_ratio matches Some(r) ==> bare_value(r),
        preview_ratio matches Some(r) ==> bare_value(r),
    ensures
        mode_of_name(mode_name(mode)) == mode,
        column_of_name(column_name(col)) == col,
        order_of_name(order_name(ord)) == ord,
        ({
            let c = ConfigView {
                show_hidden,
                sort_column: column_name(col),
                sort_order: order_name(ord),
                view_mode: mode_name(mode),
                window_width: 750,
                window_height: 450,
                sidebar_ratio,
                preview_ratio,
            };
            let p = parse_spec(format_spec(c));
            &&& mode_of_name(p.view_mode) == mode
            &&& column_of_name(p.sort_column) == col
            &&& order_of_name(p.sort_order) == ord
            &&& p.show_hidden == show_hidden
        }),
        mode_name(ViewMode::Detail) == "detail"@,
        mode_name(ViewMode::List) == "list"@,
        mode_name(ViewMode::Compact) == "compact"@,
        column_name(SortColumn::Name) == "name"@,
        column_name(SortColumn::Size) == "size"@,
        column_name(SortColumn::Modified) == "modified"@,
        order_name(SortOrder::Asc) == "asc"@,
        order_name(SortOrder::Desc) == "desc"@,
{
    reveal_strlit("detail");
    reveal_strlit("list");
    reveal_strlit("compact");
    reveal_strlit("name");
    reveal_strlit("size");
    reveal_strlit("modified");
    reveal_strlit("asc");
    reveal_strlit("desc");
    let c = ConfigView {
        show_hidden,
        sort_column: column_name(col),
        sort_order: order_name(ord),
        view_mode: mode_name(mode),
        window_width: 750,
        window_height: 450,
        sidebar_ratio,
        preview_ratio,
    };
    assert(quotable(c.sort_column));
    assert(quotable(c.sort_order));
    assert(quotable(c.view_mode));
    law_config_round_trip(c);
}

} // verus!

//! Text helpers shared by the parsers: splitting into lines, and the
//! conversions between bytes, characters and strings.

use vstd::prelude::*;

verus! {

/// The index of the last `sep` in `s`, or -1 where there is none.
pub open spec fn last_sep<T>(s: Seq<T>, sep: T) -> int
    decreases s.len(),
{
    if s.len() == 0 {
        -1
    } else if s.last() == sep {
        s.len() - 1
    } else {
        last_sep(s.drop_last(), sep)
    }
}

/// The lines of `s` that a `sep` ends, in order, without their separators.
pub open spec fn complete_lines<T>(s: Seq<T>, sep: T) -> Seq<Seq<T>>
    decreases s.len(),
{
    if s.len() == 0 {
        Seq::empty()
    } else {
        let j = last_sep(s.drop_last(), sep);
        proof {
            lemma_last_sep_facts(s.drop_last(), sep);
        }
        complete_lines(s.take(j + 1), sep).push(s.subrange(j + 1, s.len() - 1))
    }
}

/// The lines of `s` split at each `sep`, as `str::lines` splits at `'\n'`: a
/// separator ends a line, and a final piece without one is a line too (so
/// an empty text has no lines, and a trailing separator adds none).
pub open spec fn split_lines<T>(s: Seq<T>, sep: T) -> Seq<Seq<T>> {
    let start = last_sep(s, sep) + 1;
    let done = complete_lines(s.take(start), sep);
    if start < s.len() {
        done.push(s.skip(start))
    } else {
        done
    }
}

/// `last_sep` is the position of a separator, after which there is none.
pub proof fn lemma_last_sep_facts<T>(s: Seq<T>, sep: T)
    ensures
        -1 <= last_sep(s, sep) < s.len(),
        last_sep(s, sep) >= 0 ==> s[last_sep(s, sep)] == sep,
        forall|k: int| last_sep(s, sep) < k < s.len() ==> s[k] != sep,
    decreases s.len(),
{
    if s.len() > 0 && s.last() != sep {
        lemma_last_sep_facts(s.drop_last(), sep);
        assert forall|k: int| last_sep(s, sep) < k < s.len() implies s[k] != sep by {
            if k < s.len() - 1 {
                assert(s[k] == s.drop_last()[k]);
            }
        }
    }
}

/// Where `s[from..]` holds no separator and `from` is 0 or just after one,
/// the last separator is at `from - 1`.
pub proof fn lemma_last_sep_at<T>(s: Seq<T>, sep: T, from: int)
    requires
        0 <= from <= s.len(),
        from == 0 || s[from - 1] == sep,
        forall|k: int| from <= k < s.len() ==> s[k] != sep,
    ensures
        last_sep(s, sep) == from - 1,
    decreases s.len(),
{
    if s.len() > 0 && s.len() > from {
        assert(s.last() != sep);
        lemma_last_sep_at(s.drop_last(), sep, from);
    } else if s.len() > 0 {
        assert(s.last() == sep);
    }
}

/// Positions of the lines of `s` as half-open ranges: each line is
/// `s[r.0 .. r.1]`.
pub open spec fn ranges_cover<T>(s: Seq<T>, ranges: Seq<(usize, usize)>, lines: Seq<Seq<T>>) -> bool {
    &&& ranges.len() == lines.len()
    &&& forall|i: int| 0 <= i < ranges.len() ==> {
        &&& #[trigger] ranges[i].0 <= ranges[i].1 <= s.len()
        &&& s.subrange(ranges[i].0 as int, ranges[i].1 as int) == lines[i]
    }
}

/// Adding a range and its line keeps the ranges covering the lines.
pub proof fn lemma_ranges_push<T>(s: Seq<T>, ranges: Seq<(usize, usize)>, lines: Seq<Seq<T>>, r: (usize, usize), l: Seq<T>)
    requires
        ranges_cover(s, ranges, lines),
        r.0 <= r.1 <= s.len(),
        s.subrange(r.0 as int, r.1 as int) == l,
    ensures
        ranges_cover(s, ranges.push(r), lines.push(l)),
{
    assert forall|i: int| 0 <= i < ranges.push(r).len() implies {
        &&& #[trigger] ranges.push(r)[i].0 <= ranges.push(r)[i].1 <= s.len()
        &&& s.subrange(ranges.push(r)[i].0 as int, ranges.push(r)[i].1 as int) == lines.push(l)[i]
    } by {
        if i < ranges.len() {
            assert(ranges.push(r)[i] == ranges[i]);
            assert(lines.push(l)[i] == lines[i]);
        }
    }
}

/// The line ranges of a byte text, split at `'\n'` as `str::lines` does
/// (carriage returns are left in place).
pub fn byte_line_ranges(b: &[u8]) -> (r: Vec<(usize, usize)>)
    ensures
        ranges_cover(b@, r@, split_lines(b@, 10u8)),
{
    let mut out: Vec<(usize, usize)> = Vec::new();
    let mut start: usize = 0;
    let mut i: usize = 0;
    while i < b.len()
        invariant
            0 <= start <= i <= b.len(),
            start == 0 || b@[start - 1] == 10u8,
            forall|k: int| start <= k < i ==> b@[k] != 10u8,
            ranges_cover(b@, out@, complete_lines(b@.take(start as int), 10u8)),
        decreases b.len() - i,
    {
        if b[i] == 10u8 {
            proof {
                let c = b@.take(i + 1);
                assert(c.drop_last() =~= b@.take(i as int));
                lemma_last_sep_at(b@.take(i as int), 10u8, start as int);
                assert(c.take(start as int) =~= b@.take(start as int));
                assert(c.subrange(start as int, i as int) =~= b@.subrange(start as int, i as int));
                assert(complete_lines(c, 10u8) == complete_lines(b@.take(start as int), 10u8).push(b@.subrange(start as int, i as int)));
                lemma_ranges_push(b@, out@, complete_lines(b@.take(start as int), 10u8), (start, i), b@.subrange(start as int, i as int));
            }
            out.push((start, i));
            start = i + 1;
        }
        i = i + 1;
    }
    proof {
        lemma_last_sep_at(b@, 10u8, start as int);
    }
    if start < b.len() {
        out.push((start, b.len()));
        assert(b@.subrange(start as int, b.len() as int) =~= b@.skip(start as int));
    }
    out
}

/// The characters of a string.
pub fn chars_of(s: &str) -> (v: Vec<char>)
    ensures
        v@ == s@,
{
    let mut v: Vec<char> = Vec::new();
    for c in it: s.chars()
        invariant
            it.seq() == s@,
            v@ == it.seq().take(it.index() as int),
    {
        v.push(c);
        assert(v@ =~= it.seq().take(it.index() + 1));
    }
    assert(s@.take(s@.len() as int) =~= s@);
    v
}

/// `String::push`: the string with `c` appended.
#[verifier::external_body]
pub(crate) fn push_char(s: &mut String, c: char)
    ensures
        final(s)@ == old(s)@.push(c),
{
    s.push(c);
}

/// The string holding exactly the characters `cs`.
pub fn string_of(cs: &Vec<char>) -> (s: String)
    ensures
        s@ == cs@,
{
    let mut s = String::new();
    let mut i: usize = 0;
    while i < cs.len()
        invariant
            i <= cs.len(),
            s@ == cs@.take(i as int),
        decreases cs.len() - i,
    {
        push_char(&mut s, cs[i]);
        i = i + 1;
        assert(s@ =~= cs@.take(i as int));
    }
    assert(cs@.take(cs.len() as int) =~= cs@);
    s
}

/// What `String::from_utf8_lossy` makes of a byte sequence: its UTF-8
/// decoding, with each invalid sequence replaced by U+FFFD.
pub uninterp spec fn utf8_lossy(b: Seq<u8>) -> Seq<char>;

/// `String::from_utf8_lossy` (made owned): the decoding of `b`, which is the
/// plain UTF-8 decoding when `b` is valid UTF-8.
#[verifier::external_body]
pub(crate) fn string_from_utf8_lossy(b: &[u8]) -> (s: String)
    ensures
        s@ == utf8_lossy(b@),
        vstd::utf8::valid_utf8(b@) ==> s@ == vstd::utf8::decode_utf8(b@),
{
    String::from_utf8_lossy(b).into_owned()
}

/// What `str::to_lowercase` makes of a text: its Unicode lowercase mapping.
pub uninterp spec fn lowercase(s: Seq<char>) -> Seq<char>;

/// `str::to_lowercase`.
#[verifier::external_body]
pub(crate) fn to_lowercase(s: &str) -> (r: String)
    ensures
        r@ == lowercase(s@),
{
    s.to_lowercase()
}

/// Whether `s` starts with the character `c`.
pub fn starts_with_char(s: &str, c: char) -> (b: bool)
    ensures
        b == (s@.len() > 0 && s@[0] == c),
{
    let cs = chars_of(s);
    cs.len() > 0 && cs[0] == c
}

/// `haystack` holds `needle` as a contiguous piece.
pub open spec fn contains_seq(haystack: Seq<char>, needle: Seq<char>) -> bool {
    exists|i: int| 0 <= i <= haystack.len() - needle.len() && #[trigger] haystack.subrange(i, i + needle.len()) == needle
}

/// Whether `haystack` holds `needle` as a contiguous piece (`str::contains`).
pub fn contains_str(haystack: &Vec<char>, needle: &Vec<char>) -> (b: bool)
    ensures
        b == contains_seq(haystack@, needle@),
{
    if needle.len() > haystack.len() {
        return false;
    }
    let hlen = haystack.len();
    let nlen = needle.len();
    let last = hlen - nlen;
    let mut i: usize = 0;
    loop
        invariant
            hlen == haystack@.len(),
            nlen == needle@.len(),
            last == hlen - nlen,
            i <= last,
            forall|k: int| 0 <= k < i ==> #[trigger] haystack@.subrange(k, k + nlen) != needle@,
        decreases last - i,
    {
        let mut j: usize = 0;
        let mut same = true;
        while j < nlen
            invariant
                hlen == haystack@.len(),
                nlen == needle@.len(),
                i <= hlen - nlen,
                j <= nlen,
                same == (forall|m: int| 0 <= m < j ==> haystack@[i + m] == needle@[m]),
            decreases nlen - j,
        {
            if haystack[i + j] != needle[j] {
                same = false;
            }
            j = j + 1;
        }
        if same {
            assert(haystack@.subrange(i as int, i + nlen) =~= needle@);
            return true;
        }
        assert(haystack@.subrange(i as int, i + nlen) != needle@) by {
            if haystack@.subrange(i as int, i + nlen) == needle@ {
                assert forall|m: int| 0 <= m < nlen implies haystack@[i + m] == needle@[m] by {
                    assert(haystack@.subrange(i as int, i + nlen)[m] == haystack@[i + m]);
                }
            }
        }
        if i == last {
            return false;
        }
        i = i + 1;
    }
}


/// The texts of a sequence of strings.
pub open spec fn strings_view(v: Seq<String>) -> Seq<Seq<char>> {
    v.map_values(|s: String| s@)
}

/// A line without the carriage return that ended it, if any.
pub open spec fn strip_cr(l: Seq<char>) -> Seq<char> {
    if l.len() > 0 && l.last() == '\r' { l.drop_last() } else { l }
}

/// The lines of `s` as `str::lines` gives them: split at each `'\n'`, a
/// `'\r'` just before a `'\n'` dropped too; a final piece without a line
/// feed is a line as it stands, and a trailing line feed adds no line.
pub open spec fn str_lines(s: Seq<char>) -> Seq<Seq<char>> {
    let start = last_sep(s, '\n') + 1;
    let done = complete_lines(s.take(start), '\n').map_values(|l: Seq<char>| strip_cr(l));
    if start < s.len() {
        done.push(s.skip(start))
    } else {
        done
    }
}

fn string_of_range(cs: &Vec<char>, from: usize, to: usize) -> (s: String)
    requires
        from <= to <= cs.len(),
    ensures
        s@ == cs@.subrange(from as int, to as int),
{
    let mut s = String::new();
    let mut i = from;
    while i < to
        invariant
            from <= i <= to,
            to <= cs.len(),
            s@ == cs@.subrange(from as int, i as int),
        decreases to - i,
    {
        push_char(&mut s, cs[i]);
        i = i + 1;
        assert(s@ =~= cs@.subrange(from as int, i as int));
    }
    s
}

/// The lines of `s` (see [`str_lines`]).
pub fn lines_of(s: &str) -> (v: Vec<String>)
    ensures
        strings_view(v@) == str_lines(s@),
{
    let b = chars_of(s);
    let mut out: Vec<String> = Vec::new();
    let mut start: usize = 0;
    let mut i: usize = 0;
    while i < b.len()
        invariant
            b@ == s@,
            0 <= start <= i <= b.len(),
            start == 0 || b@[start - 1] == '\n',
            forall|k: int| start <= k < i ==> b@[k] != '\n',
            strings_view(out@) == complete_lines(b@.take(start as int), '\n').map_values(|l: Seq<char>| strip_cr(l)),
        decreases b.len() - i,
    {
        if b[i] == '\n' {
            let end = if i > start && b[i - 1] == '\r' { i - 1 } else { i };
            let line = string_of_range(&b, start, end);
            proof {
                let c = b@.take(i + 1);
                assert(c.drop_last() =~= b@.take(i as int));
                lemma_last_sep_at(b@.take(i as int), '\n', start as int);
                assert(c.take(start as int) =~= b@.take(start as int));
                assert(c.subrange(start as int, i as int) =~= b@.subrange(start as int, i as int));
                assert(line@ =~= strip_cr(b@.subrange(start as int, i as int)));
            }
            let ghost prev = out@;
            out.push(line);
            proof {
                let c = b@.take(i + 1);
                let cl = complete_lines(b@.take(start as int), '\n');
                assert(complete_lines(c, '\n') == cl.push(b@.subrange(start as int, i as int)));
                assert(strings_view(out@) =~= strings_view(prev).push(line@));
                assert(cl.push(b@.subrange(start as int, i as int)).map_values(|l: Seq<char>| strip_cr(l))
                    =~= cl.map_values(|l: Seq<char>| strip_cr(l)).push(strip_cr(b@.subrange(start as int, i as int))));
                assert(strings_view(out@) =~= complete_lines(c, '\n').map_values(|l: Seq<char>| strip_cr(l)));
                assert(b@.take(i + 1) =~= c);
            }
            start = i + 1;
        }
        i = i + 1;
    }
    proof {
        lemma_last_sep_at(b@, '\n', start as int);
    }
    if start < b.len() {
        let last = string_of_range(&b, start, b.len());
        out.push(last);
        assert(b@.subrange(start as int, b.len() as int) =~= b@.skip(start as int));
        assert(strings_view(out@) =~= str_lines(s@));
    } else {
        assert(strings_view(out@) =~= str_lines(s@));
    }
    out
}

/// Whether `c` has the Unicode White_Space property, as `char::is_whitespace`
/// reports: tab, line feed, vertical tab, form feed, carriage return, space,
/// U+0085, U+00A0, U+1680, U+2000 to U+200A, U+2028, U+2029, U+202F, U+205F
/// and U+3000.
pub open spec fn white_space(c: char) -> bool {
    let n = c as u32;
    (0x09 <= n && n <= 0x0d) || n == 0x20 || n == 0x85 || n == 0xa0 || n == 0x1680
        || (0x2000 <= n && n <= 0x200a) || n == 0x2028 || n == 0x2029 || n == 0x202f
        || n == 0x205f || n == 0x3000
}

/// `char::is_whitespace` (see [`white_space`]).
pub fn is_white_space(c: char) -> (b: bool)
    ensures
        b == white_space(c),
{
    let n = c as u32;
    (0x09 <= n && n <= 0x0d) || n == 0x20 || n == 0x85 || n == 0xa0 || n == 0x1680
        || (0x2000 <= n && n <= 0x200a) || n == 0x2028 || n == 0x2029 || n == 0x202f
        || n == 0x205f || n == 0x3000
}

/// `s` without leading white space.
pub open spec fn trim_start_spec(s: Seq<char>) -> Seq<char>
    decreases s.len(),
{
    if s.len() > 0 && white_space(s[0]) { trim_start_spec(s.skip(1)) } else { s }
}

/// `s` without trailing white space.
pub open spec fn trim_end_spec(s: Seq<char>) -> Seq<char>
    decreases s.len(),
{
    if s.len() > 0 && white_space(s.last()) { trim_end_spec(s.drop_last()) } else { s }
}

/// `s` without white space at either end, as `str::trim` gives it.
pub open spec fn trim_spec(s: Seq<char>) -> Seq<char> {
    trim_end_spec(trim_start_spec(s))
}

/// The number of leading white-space characters of `s`.
fn leading_white(cs: &Vec<char>) -> (k: usize)
    ensures
        k <= cs.len(),
        trim_start_spec(cs@) == cs@.skip(k as int),
{
    let mut k: usize = 0;
    assert(cs@.skip(0) =~= cs@);
    while k < cs.len() && is_white_space(cs[k])
        invariant
            k <= cs.len(),
            trim_start_spec(cs@) == trim_start_spec(cs@.skip(k as int)),
        decreases cs.len() - k,
    {
        assert(cs@.skip(k as int)[0] == cs@[k as int]);
        assert(cs@.skip(k as int).skip(1) =~= cs@.skip(k + 1));
        k = k + 1;
    }
    if k < cs.len() {
        assert(cs@.skip(k as int)[0] == cs@[k as int]);
    }
    k
}

/// The number of characters of `s` before its trailing white space, from
/// `from` on.
fn trailing_white_start(cs: &Vec<char>, from: usize) -> (e: usize)
    requires
        from <= cs.len(),
    ensures
        from <= e <= cs.len(),
        trim_end_spec(cs@.skip(from as int)) == cs@.subrange(from as int, e as int),
{
    let mut e = cs.len();
    assert(cs@.skip(from as int) =~= cs@.subrange(from as int, e as int));
    while e > from && is_white_space(cs[e - 1])
        invariant
            from <= e <= cs.len(),
            trim_end_spec(cs@.skip(from as int)) == trim_end_spec(cs@.subrange(from as int, e as int)),
        decreases e - from,
    {
        assert(cs@.subrange(from as int, e as int).drop_last() =~= cs@.subrange(from as int, e - 1));
        e = e - 1;
    }
    e
}

/// `s` without white space at either end (`str::trim`).
pub fn trim(s: &str) -> (r: String)
    ensures
        r@ == trim_spec(s@),
{
    let cs = chars_of(s);
    let k = leading_white(&cs);
    let e = trailing_white_start(&cs, k);
    string_of_range(&cs, k, e)
}

/// `s` without leading white space (`str::trim_start`).
pub fn trim_start(s: &str) -> (r: String)
    ensures
        r@ == trim_start_spec(s@),
{
    let cs = chars_of(s);
    let k = leading_white(&cs);
    assert(cs@.subrange(k as int, cs.len() as int) =~= cs@.skip(k as int));
    string_of_range(&cs, k, cs.len())
}


// ── UTF-8 encodings ──

/// The UTF-8 encoding of a concatenation is the concatenation of the
/// encodings.
pub proof fn lemma_encode_utf8_concat(a: Seq<char>, b: Seq<char>)
    ensures
        vstd::utf8::encode_utf8(a + b) == vstd::utf8::encode_utf8(a) + vstd::utf8::encode_utf8(b),
    decreases a.len(),
{
    if a.len() == 0 {
        assert(a + b =~= b);
        assert(vstd::utf8::encode_utf8(a) =~= Seq::<u8>::empty());
        assert(Seq::<u8>::empty() + vstd::utf8::encode_utf8(b) =~= vstd::utf8::encode_utf8(b));
    } else {
        assert((a + b).drop_first() =~= a.drop_first() + b);
        assert((a + b)[0] == a[0]);
        lemma_encode_utf8_concat(a.drop_first(), b);
        let head = vstd::utf8::encode_scalar(a[0] as u32);
        assert(head + (vstd::utf8::encode_utf8(a.drop_first()) + vstd::utf8::encode_utf8(b))
            =~= (head + vstd::utf8::encode_utf8(a.drop_first())) + vstd::utf8::encode_utf8(b));
    }
}

/// An ASCII character encodes as its own byte; every byte of another
/// character's encoding is at least 0x80.
pub proof fn lemma_encode_scalar_bytes(c: char)
    ensures
        (c as u32) < 0x80 ==> vstd::utf8::encode_scalar(c as u32) == seq![(c as u32) as u8],
        (c as u32) < 0x80 ==> ((c as u32) as u8) as u32 == c as u32,
        (c as u32) >= 0x80 ==> forall|k: int| 0 <= k < vstd::utf8::encode_scalar(c as u32).len()
            ==> #[trigger] vstd::utf8::encode_scalar(c as u32)[k] >= 0x80,
{
    let u = c as u32;
    assert(forall|x: u8| #![trigger (0xC0u8 | x)] (0xC0u8 | x) >= 0x80u8) by (bit_vector);
    assert(forall|x: u8| #![trigger (0xE0u8 | x)] (0xE0u8 | x) >= 0x80u8) by (bit_vector);
    assert(forall|x: u8| #![trigger (0xF0u8 | x)] (0xF0u8 | x) >= 0x80u8) by (bit_vector);
    assert(forall|x: u8| #![trigger (0x80u8 | x)] (0x80u8 | x) >= 0x80u8) by (bit_vector);
    if u < 0x80 {
        assert((u & 0x7F) as u8 == u as u8 && (u as u8) as u32 == u) by (bit_vector)
            requires
                u < 0x80,
        ;
        assert(vstd::utf8::encode_scalar(u) =~= seq![u as u8]);
    }
}

/// Where `p` holds no ASCII character `c`, its encoding holds no byte `c`.
pub proof fn lemma_encode_utf8_avoids(p: Seq<char>, c: char)
    requires
        (c as u32) < 0x80,
        !p.contains(c),
    ensures
        forall|k: int| 0 <= k < vstd::utf8::encode_utf8(p).len()
            ==> #[trigger] vstd::utf8::encode_utf8(p)[k] != (c as u32) as u8,
    decreases p.len(),
{
    if p.len() > 0 {
        assert(!p.drop_first().contains(c)) by {
            if p.drop_first().contains(c) {
                let j = choose|j: int| 0 <= j < p.drop_first().len() && p.drop_first()[j] == c;
                assert(p[j + 1] == c);
            }
        }
        lemma_encode_utf8_avoids(p.drop_first(), c);
        lemma_encode_scalar_bytes(p[0]);
        lemma_encode_scalar_bytes(c);
        assert(p[0] != c);
        vstd::utf8::char_u32_cast(p[0], p[0] as u32);
        vstd::utf8::char_u32_cast(c, c as u32);
        let head = vstd::utf8::encode_scalar(p[0] as u32);
        let e = vstd::utf8::encode_utf8(p);
        assert(e == head + vstd::utf8::encode_utf8(p.drop_first()));
        assert forall|k: int| 0 <= k < e.len() implies #[trigger] e[k] != (c as u32) as u8 by {
            if k < head.len() {
                assert(e[k] == head[k]);
                if (p[0] as u32) < 0x80 {
                    assert(head[k] == (p[0] as u32) as u8);
                    assert(p[0] as u32 != c as u32);
                }
            } else {
                assert(e[k] == vstd::utf8::encode_utf8(p.drop_first())[k - head.len()]);
            }
        }
    }
}

/// The last byte of the encoding of a non-empty text: the last character's
/// own byte when it is ASCII, and at least 0x80 otherwise.
pub proof fn lemma_encode_utf8_last(p: Seq<char>)
    requires
        p.len() > 0,
    ensures
        vstd::utf8::encode_utf8(p).len() > 0,
        (p.last() as u32) < 0x80 ==> vstd::utf8::encode_utf8(p).last() == (p.last() as u32) as u8,
        (p.last() as u32) >= 0x80 ==> vstd::utf8::encode_utf8(p).last() >= 0x80,
{
    let init = p.drop_last();
    let one = seq![p.last()];
    assert(p =~= init + one);
    lemma_encode_utf8_concat(init, one);
    assert(one.drop_first() =~= Seq::<char>::empty());
    assert(one[0] == p.last());
    let tail = vstd::utf8::encode_scalar(p.last() as u32);
    assert(vstd::utf8::encode_utf8(one.drop_first()) =~= Seq::<u8>::empty());
    assert(vstd::utf8::encode_utf8(one) =~= tail);
    lemma_encode_scalar_bytes(p.last());
    assert(tail.len() > 0);
    let e = vstd::utf8::encode_utf8(p);
    assert(e == vstd::utf8::encode_utf8(init) + vstd::utf8::encode_utf8(one));
    assert(e.last() == tail.last());
    assert(tail.last() == tail[tail.len() - 1]);
}

/// An ASCII text encodes byte for byte.
pub proof fn lemma_encode_utf8_ascii(p: Seq<char>)
    requires
        vstd::utf8::is_ascii_chars(p),
    ensures
        vstd::utf8::encode_utf8(p) == Seq::new(p.len(), |i: int| p[i] as u8),
{
    vstd::utf8::is_ascii_chars_encode_utf8(p);
    assert(vstd::utf8::encode_utf8(p) =~= Seq::new(p.len(), |i: int| p[i] as u8));
}

} // verus!

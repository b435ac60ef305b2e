//! File operations for drag-and-drop and the clipboard: parsing
//! `text/uri-list` payloads, running batches of copies or moves, and choosing
//! names that do not collide.
//!
//! The filesystem itself is reached through the operations handed to these
//! functions (`copy_to`, `move_to`, `taken`): this module decides what is
//! asked of them and in which order, and what the batch reports.

use vstd::prelude::*;
use vstd::string::StringSliceAdditionalSpecFns;
use crate::fmt::{dec, fmt_padded, push_dec, push_padded};
use crate::paths::push_str;
use crate::text::{
    chars_of, push_char, byte_line_ranges, ranges_cover, split_lines, string_from_utf8_lossy, utf8_lossy,
    complete_lines, lemma_last_sep_at, lemma_encode_utf8_concat, lemma_encode_scalar_bytes, lemma_encode_utf8_avoids,
    lemma_encode_utf8_last, lemma_encode_utf8_ascii,
};

verus! {

#[verifier::external_type_specification]
#[verifier::external_body]
pub struct ExIoError(std::io::Error);

/// Result of a file operation.
#[derive(Debug)]
pub enum FileOpResult {
    /// Number of files successfully processed.
    Done(usize),
    /// Partial success: completed count and first error encountered.
    Partial(usize, std::io::Error),
}

// ── Percent-encoding ──

pub open spec fn is_hex(c: u8) -> bool {
    (48 <= c <= 57) || (65 <= c <= 70) || (97 <= c <= 102)
}

pub open spec fn hex_val(c: u8) -> nat {
    if 48 <= c <= 57 { (c - 48) as nat } else if 65 <= c <= 70 { (c - 55) as nat } else { (c - 87) as nat }
}

/// The byte two hex digits stand for, when both are hex digits.
pub open spec fn hex_pair(a: u8, b: u8) -> Option<u8> {
    if is_hex(a) && is_hex(b) {
        Some((16 * hex_val(a) + hex_val(b)) as u8)
    } else {
        None
    }
}

/// Percent-decoding: each `%` followed by two hex digits becomes the byte
/// they stand for; every other byte is kept.
pub open spec fn pct_decode(b: Seq<u8>) -> Seq<u8>
    decreases b.len(),
{
    if b.len() == 0 {
        Seq::empty()
    } else if b[0] == 37 && b.len() > 2 && hex_pair(b[1], b[2]) is Some {
        seq![hex_pair(b[1], b[2])->0] + pct_decode(b.skip(3))
    } else {
        seq![b[0]] + pct_decode(b.skip(1))
    }
}

/// The uppercase hex digit of `n` (below 16).
pub open spec fn upper_hex_digit(n: nat) -> u8 {
    if n < 10 { (48 + n) as u8 } else { (55 + n) as u8 }
}

/// One byte percent-escaped: the byte itself where `keep` holds of it and it
/// is not `%`, else `%` and its two uppercase hex digits.
pub open spec fn pct_piece(c: u8, keep: spec_fn(u8) -> bool) -> Seq<u8> {
    if keep(c) && c != 37 {
        seq![c]
    } else {
        seq![37u8, upper_hex_digit((c / 16) as nat), upper_hex_digit((c % 16) as nat)]
    }
}

/// Percent-encoding of `b`, keeping the bytes that `keep` allows.
pub open spec fn pct_escape(b: Seq<u8>, keep: spec_fn(u8) -> bool) -> Seq<u8>
    decreases b.len(),
{
    if b.len() == 0 {
        Seq::empty()
    } else {
        pct_piece(b[0], keep) + pct_escape(b.skip(1), keep)
    }
}

/// Bytes a file URI path keeps unescaped: ASCII letters and digits, `-`,
/// `.`, `_`, `~` and `/`.
pub open spec fn path_safe_byte(c: u8) -> bool {
    ||| 48 <= c <= 57
    ||| 65 <= c <= 90
    ||| 97 <= c <= 122
    ||| c == 45 || c == 46 || c == 95 || c == 126 || c == 47
}

/// ASCII bytes read as characters.
pub open spec fn ascii_chars(b: Seq<u8>) -> Seq<char> {
    b.map_values(|c: u8| c as char)
}

/// The hex digit of `n` decodes back to `n`.
proof fn lemma_upper_hex_digit(n: nat)
    requires
        n < 16,
    ensures
        is_hex(upper_hex_digit(n)),
        hex_val(upper_hex_digit(n)) == n,
{
}

/// Decoding undoes the escape of one byte, whatever follows it.
proof fn lemma_pct_piece(c: u8, rest: Seq<u8>, keep: spec_fn(u8) -> bool)
    ensures
        pct_decode(pct_piece(c, keep) + rest) == seq![c] + pct_decode(rest),
{
    let t = pct_piece(c, keep) + rest;
    if keep(c) && c != 37 {
        assert(t.skip(1) =~= rest);
        assert(t[0] == c);
    } else {
        lemma_upper_hex_digit((c / 16) as nat);
        lemma_upper_hex_digit((c % 16) as nat);
        assert(t.skip(3) =~= rest);
        assert(t[0] == 37u8);
        assert(hex_pair(t[1], t[2]) == Some(c)) by {
            assert(16 * (c / 16) + c % 16 == c);
        }
    }
}

/// Percent-decoding undoes percent-encoding: whichever bytes are kept as
/// they are, decoding the escaped bytes gives `b` back.
pub proof fn law_pct_decode_escape(b: Seq<u8>, keep: spec_fn(u8) -> bool)
    ensures
        pct_decode(pct_escape(b, keep)) == b,
    decreases b.len(),
{
    if b.len() > 0 {
        law_pct_decode_escape(b.skip(1), keep);
        lemma_pct_piece(b[0], pct_escape(b.skip(1), keep), keep);
        assert(seq![b[0]] + b.skip(1) =~= b);
    }
}

/// Decoding a percent-encoded text gives the text back: for every text `s`
/// and every choice of bytes kept as they are, the escaped UTF-8 bytes of
/// `s` decode to valid UTF-8, so `percent_decode` returns `s`.
pub proof fn law_percent_decode_text(s: Seq<char>, keep: spec_fn(u8) -> bool)
    ensures
        vstd::utf8::valid_utf8(pct_decode(pct_escape(vstd::utf8::encode_utf8(s), keep))),
        vstd::utf8::decode_utf8(pct_decode(pct_escape(vstd::utf8::encode_utf8(s), keep))) == s,
{
    law_pct_decode_escape(vstd::utf8::encode_utf8(s), keep);
    vstd::utf8::encode_utf8_valid_utf8(s);
    vstd::utf8::encode_utf8_decode_utf8(s);
}

/// Text with no `%XX` escape decodes to itself: every `%` that is not
/// followed by two hex digits is kept, with what follows it.
pub proof fn law_percent_decode_plain(b: Seq<u8>)
    requires
        forall|k: int| 0 <= k < b.len() - 2 && #[trigger] b[k] == 37u8 ==> hex_pair(b[k + 1], b[k + 2]) is None,
    ensures
        pct_decode(b) == b,
    decreases b.len(),
{
    if b.len() > 0 {
        let r = b.skip(1);
        assert forall|k: int| 0 <= k < r.len() - 2 && #[trigger] r[k] == 37u8 implies hex_pair(r[k + 1], r[k + 2]) is None by {
            assert(r[k] == b[k + 1] && r[k + 1] == b[k + 2] && r[k + 2] == b[k + 3]);
        }
        law_percent_decode_plain(r);
        if b[0] == 37u8 && b.len() > 2 {
            assert(hex_pair(b[1], b[2]) is None);
        }
        assert(seq![b[0]] + r =~= b);
    }
}

fn upper_hex_char(n: u8) -> (c: char)
    requires
        n < 16,
    ensures
        c == upper_hex_digit(n as nat) as char,
{
    match n {
        0 => '0',
        1 => '1',
        2 => '2',
        3 => '3',
        4 => '4',
        5 => '5',
        6 => '6',
        7 => '7',
        8 => '8',
        9 => '9',
        10 => 'A',
        11 => 'B',
        12 => 'C',
        13 => 'D',
        14 => 'E',
        _ => 'F',
    }
}

fn is_path_safe(c: u8) -> (r: bool)
    ensures
        r == path_safe_byte(c),
{
    (48 <= c && c <= 57) || (65 <= c && c <= 90) || (97 <= c && c <= 122)
        || c == 45 || c == 46 || c == 95 || c == 126 || c == 47
}

/// Append the percent-encoding of `input`'s UTF-8 bytes, keeping the bytes
/// of a file URI path (see [`path_safe_byte`]).
fn push_escaped_path(out: &mut String, input: &str)
    ensures
        final(out)@ == old(out)@ + ascii_chars(pct_escape(input.spec_bytes(), |c: u8| path_safe_byte(c))),
{
    let ghost keep = |c: u8| path_safe_byte(c);
    let b = input.as_bytes();
    let ghost bs = b@;
    let mut i: usize = 0;
    assert(bs.skip(0) =~= bs);
    while i < b.len()
        invariant
            i <= b@.len(),
            bs == b@,
            bs == input.spec_bytes(),
            keep == (|c: u8| path_safe_byte(c)),
            old(out)@ + ascii_chars(pct_escape(bs, keep))
                == out@ + ascii_chars(pct_escape(bs.skip(i as int), keep)),
        decreases b.len() - i,
    {
        let c = b[i];
        let ghost rest = bs.skip(i as int);
        assert(rest[0] == c);
        assert(rest.skip(1) =~= bs.skip(i + 1));
        assert(pct_escape(rest, keep) == pct_piece(c, keep) + pct_escape(bs.skip(i + 1), keep));
        let ghost before = out@;
        if is_path_safe(c) && c != 37u8 {
            push_char(out, c as char);
            assert(ascii_chars(pct_piece(c, keep)) =~= seq![c as char]);
        } else {
            push_char(out, '%');
            push_char(out, upper_hex_char(c / 16));
            push_char(out, upper_hex_char(c % 16));
            assert(ascii_chars(pct_piece(c, keep)) =~= seq!['%', upper_hex_digit((c / 16) as nat) as char, upper_hex_digit((c % 16) as nat) as char]);
        }
        assert(ascii_chars(pct_piece(c, keep) + pct_escape(bs.skip(i + 1), keep))
            =~= ascii_chars(pct_piece(c, keep)) + ascii_chars(pct_escape(bs.skip(i + 1), keep)));
        i = i + 1;
        assert(out@ + ascii_chars(pct_escape(bs.skip(i as int), keep))
            =~= before + ascii_chars(pct_escape(rest, keep)));
    }
    assert(bs.skip(b@.len() as int) =~= Seq::<u8>::empty());
    assert(out@ =~= out@ + ascii_chars(pct_escape(bs.skip(i as int), keep)));
}

fn hex_digit(c: u8) -> (r: Option<u8>)
    ensures
        r is Some <==> is_hex(c),
        r matches Some(v) ==> v == hex_val(c),
{
    if 48 <= c && c <= 57 {
        Some(c - 48)
    } else if 65 <= c && c <= 70 {
        Some(c - 55)
    } else if 97 <= c && c <= 102 {
        Some(c - 87)
    } else {
        None
    }
}

fn hex_pair_value(a: u8, b: u8) -> (r: Option<u8>)
    ensures
        r == hex_pair(a, b),
{
    match (hex_digit(a), hex_digit(b)) {
        (Some(x), Some(y)) => Some(16 * x + y),
        _ => None,
    }
}

/// Percent-decode the bytes `b[from..to]`.
fn decode_bytes(b: &[u8], from: usize, to: usize) -> (out: Vec<u8>)
    requires
        from <= to <= b@.len(),
    ensures
        out@ == pct_decode(b@.subrange(from as int, to as int)),
{
    let ghost seg = b@.subrange(from as int, to as int);
    let mut out: Vec<u8> = Vec::new();
    let mut i = from;
    assert(seg.skip(0) =~= seg);
    while i < to
        invariant
            from <= i <= to,
            to <= b@.len(),
            seg == b@.subrange(from as int, to as int),
            out@ + pct_decode(seg.skip(i - from)) == pct_decode(seg),
        decreases to - i,
    {
        let ghost rest = seg.skip(i - from);
        assert(rest[0] == b@[i as int]);
        if b[i] == 37u8 && to - i > 2 {
            assert(rest[1] == b@[i + 1] && rest[2] == b@[i + 2]);
            match hex_pair_value(b[i + 1], b[i + 2]) {
                Some(v) => {
                    assert(rest.skip(3) =~= seg.skip(i + 3 - from));
                    out.push(v);
                    i = i + 3;
                    assert(out@ + pct_decode(seg.skip(i - from)) =~= pct_decode(seg));
                    continue;
                },
                None => {},
            }
        }
        assert(rest.skip(1) =~= seg.skip(i + 1 - from));
        out.push(b[i]);
        i = i + 1;
        assert(out@ + pct_decode(seg.skip(i - from)) =~= pct_decode(seg));
    }
    assert(seg.skip(to - from) =~= Seq::<u8>::empty());
    assert(out@ =~= out@ + pct_decode(seg.skip(to - from)));
    out
}

/// Decode percent-encoded bytes in a URI path component (an invalid UTF-8
/// result is repaired as `String::from_utf8_lossy` repairs it).
pub fn percent_decode(input: &str) -> (s: String)
    ensures
        s@ == utf8_lossy(pct_decode(input.spec_bytes())),
        vstd::utf8::valid_utf8(pct_decode(input.spec_bytes()))
            ==> s@ == vstd::utf8::decode_utf8(pct_decode(input.spec_bytes())),
{
    let b = input.as_bytes();
    assert(b@.subrange(0, b@.len() as int) =~= b@);
    let decoded = decode_bytes(b, 0, b.len());
    string_from_utf8_lossy(decoded.as_slice())
}

// ── text/uri-list ──

/// `l` without its trailing carriage returns.
pub open spec fn strip_trailing_cr(l: Seq<u8>) -> Seq<u8>
    decreases l.len(),
{
    if l.len() > 0 && l.last() == 13 { strip_trailing_cr(l.drop_last()) } else { l }
}

/// The bytes of `file://`.
pub open spec fn file_scheme() -> Seq<u8> {
    seq![102u8, 105u8, 108u8, 101u8, 58u8, 47u8, 47u8]
}

/// The still-encoded path of a uri-list line: lines that are empty or start
/// with `#` (comments) give none, and so do URIs that are not `file://`.
pub open spec fn uri_line_path(line: Seq<u8>) -> Option<Seq<u8>> {
    let t = strip_trailing_cr(line);
    if t.len() > 0 && t[0] != 35 && t.len() >= 7 && t.take(7) == file_scheme() {
        Some(t.skip(7))
    } else {
        None
    }
}

/// The still-encoded paths of the lines `ls`, in order.
pub open spec fn uri_paths(ls: Seq<Seq<u8>>) -> Seq<Seq<u8>>
    decreases ls.len(),
{
    if ls.len() == 0 {
        Seq::empty()
    } else {
        match uri_line_path(ls.last()) {
            Some(p) => uri_paths(ls.drop_last()).push(p),
            None => uri_paths(ls.drop_last()),
        }
    }
}

/// The lines of a uri-list payload.
pub open spec fn uri_lines(data: &str) -> Seq<Seq<u8>> {
    split_lines(data.spec_bytes(), 10u8)
}

/// The percent-decoded bytes of each `file://` path of the uri-list text
/// `b`, in order.
pub open spec fn uri_decoded(b: Seq<u8>) -> Seq<Seq<u8>> {
    uri_paths(split_lines(b, 10u8)).map_values(|p: Seq<u8>| pct_decode(p))
}

/// The paths a uri-list payload names, decoded.
pub open spec fn uri_list_paths(data: &str) -> Seq<Seq<char>> {
    let ps = uri_decoded(data.spec_bytes());
    Seq::new(ps.len(), |i: int| utf8_lossy(ps[i]))
}

/// Whether `b[at..]` starts with `file://`.
fn has_file_scheme(b: &[u8], at: usize, end: usize) -> (r: bool)
    requires
        at <= end <= b@.len(),
    ensures
        r == (end - at >= 7 && b@.subrange(at as int, end as int).take(7) == file_scheme()),
{
    if end - at < 7 {
        return false;
    }
    let r = b[at] == 102u8 && b[at + 1] == 105u8 && b[at + 2] == 108u8 && b[at + 3] == 101u8
        && b[at + 4] == 58u8 && b[at + 5] == 47u8 && b[at + 6] == 47u8;
    assert(r == (b@.subrange(at as int, end as int).take(7) =~= file_scheme()));
    r
}

/// Parse a `text/uri-list` payload (RFC 2483) into file paths.
///
/// - Lines starting with `#` are comments and skipped.
/// - Each URI is expected to be `file:///...`; non-file URIs are ignored.
/// - Percent-encoded bytes (`%XX`) are decoded.
pub fn parse_uri_list(data: &str) -> (paths: Vec<String>)
    ensures
        paths@.len() == uri_list_paths(data).len(),
        forall|i: int| 0 <= i < paths@.len() ==> #[trigger] paths@[i]@ == uri_list_paths(data)[i],
        forall|i: int| 0 <= i < paths@.len() && vstd::utf8::valid_utf8(uri_decoded(data.spec_bytes())[i])
            ==> #[trigger] paths@[i]@ == vstd::utf8::decode_utf8(uri_decoded(data.spec_bytes())[i]),
{
    let b = data.as_bytes();
    let ranges = byte_line_ranges(b);
    let ghost lines = uri_lines(data);
    let mut out: Vec<String> = Vec::new();
    let mut k: usize = 0;
    while k < ranges.len()
        invariant
            k <= ranges.len(),
            lines == split_lines(b@, 10u8),
            ranges_cover(b@, ranges@, lines),
            lines == uri_lines(data),
            out@.len() == uri_paths(lines.take(k as int)).len(),
            forall|j: int| 0 <= j < out@.len() ==>
                #[trigger] out@[j]@ == utf8_lossy(pct_decode(uri_paths(lines.take(k as int))[j])),
            forall|j: int| 0 <= j < out@.len() && vstd::utf8::valid_utf8(pct_decode(uri_paths(lines.take(k as int))[j])) ==>
                #[trigger] out@[j]@ == vstd::utf8::decode_utf8(pct_decode(uri_paths(lines.take(k as int))[j])),
        decreases ranges.len() - k,
    {
        let (s, e) = ranges[k];
        let ghost line = lines[k as int];
        assert(b@.subrange(s as int, e as int) == line);
        let mut t = e;
        while t > s && b[t - 1] == 13u8
            invariant
                s <= t <= e,
                e <= b@.len(),
                strip_trailing_cr(line) == strip_trailing_cr(b@.subrange(s as int, t as int)),
                line == b@.subrange(s as int, e as int),
            decreases t - s,
        {
            assert(b@.subrange(s as int, t - 1) =~= b@.subrange(s as int, t as int).drop_last());
            t = t - 1;
        }
        let ghost stripped = b@.subrange(s as int, t as int);
        assert(strip_trailing_cr(line) == stripped);
        assert(lines.take(k + 1).drop_last() =~= lines.take(k as int));
        assert(lines.take(k + 1).last() == line);
        if t > s && b[s] != 35u8 && has_file_scheme(b, s, t) {
            assert(stripped[0] == b@[s as int]);
            assert(uri_line_path(line) == Some(stripped.skip(7)));
            assert(stripped.skip(7) =~= b@.subrange(s + 7, t as int));
            let decoded = decode_bytes(b, s + 7, t);
            let path = string_from_utf8_lossy(decoded.as_slice());
            out.push(path);
        } else {
            if t > s {
                assert(stripped[0] == b@[s as int]);
            }
            assert(uri_line_path(line) is None);
        }
        k = k + 1;
    }
    assert(lines.take(ranges.len() as int) =~= lines);
    out
}

// ── Copy, then paste ──

/// A path that comes back unchanged through a uri-list: it holds no line
/// feed and no `%`, and does not end in a carriage return.
pub open spec fn plain_uri_path(p: Seq<char>) -> bool {
    &&& !p.contains('\n')
    &&& !p.contains('%')
    &&& !(p.len() > 0 && p.last() == '\r')
}

/// The bytes of a path that a uri-list line carries unchanged.
spec fn plain_bytes(e: Seq<u8>) -> bool {
    &&& forall|k: int| 0 <= k < e.len() ==> #[trigger] e[k] != 10u8 && e[k] != 37u8
    &&& !(e.len() > 0 && e.last() == 13u8)
}

/// The UTF-8 encodings of `ps`.
spec fn encodings(ps: Seq<Seq<char>>) -> Seq<Seq<u8>> {
    ps.map_values(|p: Seq<char>| vstd::utf8::encode_utf8(p))
}

/// The lines `file://` + path + `\r` of paths whose bytes are `es`.
spec fn cr_lines(es: Seq<Seq<u8>>) -> Seq<Seq<u8>> {
    Seq::new(es.len(), |i: int| file_scheme() + es[i] + seq![13u8])
}

proof fn lemma_plain_bytes(p: Seq<char>)
    requires
        plain_uri_path(p),
    ensures
        plain_bytes(vstd::utf8::encode_utf8(p)),
{
    assert(('\n' as u32) == 10 && ('%' as u32) == 37 && ('\r' as u32) == 13);
    lemma_encode_utf8_avoids(p, '\n');
    lemma_encode_utf8_avoids(p, '%');
    lemma_encode_scalar_bytes('\n');
    lemma_encode_scalar_bytes('%');
    if p.len() > 0 {
        lemma_encode_utf8_last(p);
        vstd::utf8::char_u32_cast(p.last(), p.last() as u32);
        vstd::utf8::char_u32_cast('\r', 13u32);
        lemma_encode_scalar_bytes(p.last());
    } else {
        assert(vstd::utf8::encode_utf8(p) =~= Seq::<u8>::empty());
    }
}

proof fn lemma_uri_literals()
    ensures
        vstd::utf8::encode_utf8("file://"@) == file_scheme(),
        vstd::utf8::encode_utf8("\r\n"@) == seq![13u8, 10u8],
{
    reveal_strlit("file://");
    reveal_strlit("\r\n");
    lemma_encode_utf8_ascii("file://"@);
    lemma_encode_utf8_ascii("\r\n"@);
    assert(vstd::utf8::encode_utf8("file://"@) =~= file_scheme());
    assert(vstd::utf8::encode_utf8("\r\n"@) =~= seq![13u8, 10u8]);
}

/// The bytes of the uri-list of `ps`, one path at a time.
proof fn lemma_uri_text_step(ps: Seq<Seq<char>>)
    requires
        ps.len() >= 1,
    ensures
        ps.len() == 1 ==> vstd::utf8::encode_utf8(uri_list_spec(ps)) == file_scheme() + vstd::utf8::encode_utf8(ps[0]),
        ps.len() >= 2 ==> vstd::utf8::encode_utf8(uri_list_spec(ps))
            == vstd::utf8::encode_utf8(uri_list_spec(ps.drop_last())) + seq![13u8, 10u8] + file_scheme()
                + vstd::utf8::encode_utf8(ps.last()),
{
    lemma_uri_literals();
    if ps.len() == 1 {
        lemma_encode_utf8_concat("file://"@, ps[0]);
    } else {
        let a = uri_list_spec(ps.drop_last());
        lemma_encode_utf8_concat(a + "\r\n"@ + "file://"@, ps.last());
        lemma_encode_utf8_concat(a + "\r\n"@, "file://"@);
        lemma_encode_utf8_concat(a, "\r\n"@);
    }
}

/// How the uri-list of `ps` splits into lines.
proof fn lemma_uri_text_lines(ps: Seq<Seq<char>>)
    requires
        ps.len() >= 1,
        forall|i: int| 0 <= i < ps.len() ==> plain_bytes(#[trigger] vstd::utf8::encode_utf8(ps[i])),
    ensures
        complete_lines(vstd::utf8::encode_utf8(uri_list_spec(ps)) + seq![13u8, 10u8], 10u8) == cr_lines(encodings(ps)),
        split_lines(vstd::utf8::encode_utf8(uri_list_spec(ps)), 10u8)
            == cr_lines(encodings(ps.drop_last())).push(file_scheme() + vstd::utf8::encode_utf8(ps.last())),
    decreases ps.len(),
{
    let b = vstd::utf8::encode_utf8(uri_list_spec(ps));
    let e = vstd::utf8::encode_utf8(ps.last());
    assert(plain_bytes(e)) by {
        assert(ps.last() == ps[ps.len() - 1]);
    }
    let line = file_scheme() + e;
    let pre = if ps.len() == 1 {
        Seq::<u8>::empty()
    } else {
        vstd::utf8::encode_utf8(uri_list_spec(ps.drop_last())) + seq![13u8, 10u8]
    };
    lemma_uri_text_step(ps);
    assert(b =~= pre + line);
    assert forall|k: int| 0 <= k < line.len() implies #[trigger] line[k] != 10u8 by {
        if k >= 7 {
            assert(line[k] == e[k - 7]);
        }
    }
    assert(pre.len() == 0 || pre[pre.len() - 1] == 10u8);
    let pl = pre.len() as int;
    // the complete lines of the text with one more line end
    let s = b + seq![13u8, 10u8];
    let s0 = s.drop_last();
    assert(s0 =~= pre + line + seq![13u8]);
    assert forall|k: int| pl <= k < s0.len() implies s0[k] != 10u8 by {
        if k < pl + line.len() {
            assert(s0[k] == line[k - pl]);
        }
    }
    lemma_last_sep_at(s0, 10u8, pl);
    assert(s.take(pl) =~= pre);
    assert(s.subrange(pl, s.len() - 1) =~= line + seq![13u8]);
    let done = cr_lines(encodings(ps.drop_last()));
    if ps.len() == 1 {
        assert(pre =~= Seq::<u8>::empty());
        assert(done =~= Seq::<Seq<u8>>::empty());
        assert(complete_lines(pre, 10u8) == done);
    } else {
        assert forall|i: int| 0 <= i < ps.drop_last().len()
            implies plain_bytes(#[trigger] vstd::utf8::encode_utf8(ps.drop_last()[i])) by {
            assert(ps.drop_last()[i] == ps[i]);
        }
        lemma_uri_text_lines(ps.drop_last());
        assert(complete_lines(pre, 10u8) == done);
    }
    assert(complete_lines(s, 10u8) == done.push(line + seq![13u8]));
    assert(done.push(line + seq![13u8]) =~= cr_lines(encodings(ps))) by {
        assert forall|i: int| 0 <= i < ps.len() implies
            #[trigger] cr_lines(encodings(ps))[i] == done.push(line + seq![13u8])[i] by {
            if i < ps.len() - 1 {
                assert(ps.drop_last()[i] == ps[i]);
            }
        }
    }
    // the lines of the text itself
    assert forall|k: int| pl <= k < b.len() implies b[k] != 10u8 by {
        assert(b[k] == line[k - pl]);
    }
    lemma_last_sep_at(b, 10u8, pl);
    assert(b.take(pl) =~= pre);
    assert(b.skip(pl) =~= line);
}

/// A path line, with or without its carriage return, gives back the path.
proof fn lemma_uri_line(e: Seq<u8>)
    requires
        plain_bytes(e),
    ensures
        uri_line_path(file_scheme() + e + seq![13u8]) == Some(e),
        uri_line_path(file_scheme() + e) == Some(e),
{
    let l = file_scheme() + e;
    assert((l + seq![13u8]).drop_last() =~= l);
    assert((l + seq![13u8]).last() == 13u8);
    if e.len() > 0 {
        assert(l.last() == e.last());
    }
    assert(l.last() != 13u8);
    assert(strip_trailing_cr(l) == l);
    assert(strip_trailing_cr(l + seq![13u8]) == l);
    assert(l.take(7) =~= file_scheme());
    assert(l.skip(7) =~= e);
}

proof fn lemma_uri_paths_cr(es: Seq<Seq<u8>>)
    requires
        forall|i: int| 0 <= i < es.len() ==> plain_bytes(#[trigger] es[i]),
    ensures
        uri_paths(cr_lines(es)) == es,
    decreases es.len(),
{
    if es.len() == 0 {
        assert(cr_lines(es) =~= Seq::<Seq<u8>>::empty());
    } else {
        assert(cr_lines(es).drop_last() =~= cr_lines(es.drop_last()));
        assert(forall|i: int| 0 <= i < es.drop_last().len() ==> es.drop_last()[i] == es[i]);
        lemma_uri_paths_cr(es.drop_last());
        assert(es.last() == es[es.len() - 1]);
        lemma_uri_line(es.last());
        assert(cr_lines(es).last() == file_scheme() + es.last() + seq![13u8]);
        assert(es.drop_last().push(es.last()) =~= es);
    }
}

/// Bytes without `%` decode to themselves.
proof fn lemma_pct_plain(b: Seq<u8>)
    requires
        forall|k: int| 0 <= k < b.len() ==> #[trigger] b[k] != 37u8,
    ensures
        pct_decode(b) == b,
    decreases b.len(),
{
    if b.len() > 0 {
        assert(forall|k: int| 0 <= k < b.skip(1).len() ==> b.skip(1)[k] == b[k + 1]);
        lemma_pct_plain(b.skip(1));
        assert(b[0] != 37u8);
        assert(seq![b[0]] + b.skip(1) =~= b);
    }
}

/// Copying files and pasting them gives the same files back: the decoded
/// paths of the uri-list text of `paths` are `paths`, for
/// paths that hold no line feed and no `%` and do not end in a carriage
/// return.
pub proof fn law_uri_list_round_trip(paths: Seq<Seq<char>>)
    requires
        forall|i: int| 0 <= i < paths.len() ==> plain_uri_path(#[trigger] paths[i]),
    ensures
        uri_decoded(vstd::utf8::encode_utf8(uri_list_spec(paths))).len() == paths.len(),
        forall|i: int| 0 <= i < paths.len() ==> {
            &&& vstd::utf8::valid_utf8(#[trigger] uri_decoded(vstd::utf8::encode_utf8(uri_list_spec(paths)))[i])
            &&& vstd::utf8::decode_utf8(uri_decoded(vstd::utf8::encode_utf8(uri_list_spec(paths)))[i]) == paths[i]
        },
{
    let b = vstd::utf8::encode_utf8(uri_list_spec(paths));
    if paths.len() == 0 {
        assert(b =~= Seq::<u8>::empty());
        assert(split_lines(b, 10u8) =~= Seq::<Seq<u8>>::empty());
        return;
    }
    assert forall|i: int| 0 <= i < paths.len() implies plain_bytes(#[trigger] vstd::utf8::encode_utf8(paths[i])) by {
        lemma_plain_bytes(paths[i]);
    }
    lemma_uri_text_lines(paths);
    let es = encodings(paths);
    let lines = split_lines(b, 10u8);
    assert(lines == cr_lines(encodings(paths.drop_last())).push(file_scheme() + vstd::utf8::encode_utf8(paths.last())));
    assert(encodings(paths.drop_last()) =~= es.drop_last());
    assert(cr_lines(es.drop_last()).push(file_scheme() + es.last()) == lines);
    assert forall|i: int| 0 <= i < es.len() implies plain_bytes(#[trigger] es[i]) by {
        assert(es[i] == vstd::utf8::encode_utf8(paths[i]));
    }
    assert(forall|i: int| 0 <= i < es.drop_last().len() ==> es.drop_last()[i] == es[i]);
    lemma_uri_paths_cr(es.drop_last());
    lemma_uri_line(es.last());
    assert(lines.drop_last() =~= cr_lines(es.drop_last()));
    assert(uri_paths(lines) == es.drop_last().push(es.last()));
    assert(es.drop_last().push(es.last()) =~= es);
    assert forall|i: int| 0 <= i < paths.len() implies {
        &&& vstd::utf8::valid_utf8(#[trigger] uri_decoded(b)[i])
        &&& vstd::utf8::decode_utf8(uri_decoded(b)[i]) == paths[i]
    } by {
        assert(es[i] == vstd::utf8::encode_utf8(paths[i]));
        lemma_pct_plain(es[i]);
        vstd::utf8::encode_utf8_valid_utf8(paths[i]);
        vstd::utf8::encode_utf8_decode_utf8(paths[i]);
    }
}

// ── Batches ──

/// What a batch of transfers into `dest` reports for the sources `srcs`: it
/// stops at the first failure, and every earlier transfer succeeded.
pub open spec fn transfer_reports<F: Fn(&String, &str) -> Result<String, std::io::Error>>(
    f: F,
    srcs: Seq<Seq<char>>,
    dest: &str,
    r: FileOpResult,
) -> bool {
    match r {
        FileOpResult::Done(n) => {
            &&& n == srcs.len()
            &&& forall|i: int| 0 <= i < n ==> #[trigger] copied(f, srcs[i], dest)
        },
        FileOpResult::Partial(d, e) => {
            &&& d < srcs.len()
            &&& forall|i: int| 0 <= i < d ==> #[trigger] copied(f, srcs[i], dest)
            &&& copy_failed(f, srcs[d as int], dest, e)
        },
    }
}

/// Apply `op` to each source in order, stopping at the first failure:
/// `Done(n)` when all `n` succeed, `Partial(done, error)` at the first error.
pub fn run_batch<F: Fn(&String) -> Result<(), std::io::Error>>(sources: &[String], op: F) -> (r: FileOpResult)
    requires
        forall|s: &String| op.requires((s,)),
    ensures
        match r {
            FileOpResult::Done(n) => {
                &&& n == sources@.len()
                &&& forall|i: int| 0 <= i < n ==> op.ensures((&sources@[i],), Ok(()))
            },
            FileOpResult::Partial(d, e) => {
                &&& d < sources@.len()
                &&& forall|i: int| 0 <= i < d ==> op.ensures((&sources@[i],), Ok(()))
                &&& op.ensures((&sources@[d as int],), Err(e))
            },
        },
{
    let mut done: usize = 0;
    while done < sources.len()
        invariant
            done <= sources@.len(),
            forall|s: &String| op.requires((s,)),
            forall|i: int| 0 <= i < done ==> op.ensures((&sources@[i],), Ok(())),
        decreases sources.len() - done,
    {
        let src = &sources[done];
        let res = op(src);
        assert(op.ensures((src,), res));
        match res {
            Ok(()) => {
                let ghost u = res->Ok_0;
                assert(u == ());
                assert(res == Ok::<(), std::io::Error>(()));
                done = done + 1;
            },
            Err(e) => {
                return FileOpResult::Partial(done, e);
            },
        }
    }
    FileOpResult::Done(done)
}

/// `copy_to(src, dest)` reported success for some string whose view is `src`.
pub open spec fn copied<F: Fn(&String, &str) -> Result<String, std::io::Error>>(f: F, src: Seq<char>, dest: &str) -> bool {
    exists|s: String, p: String| s@ == src && #[trigger] f.ensures((&s, dest), Ok(p))
}

/// `copy_to(src, dest)` reported the error `e` for some string whose view is `src`.
pub open spec fn copy_failed<F: Fn(&String, &str) -> Result<String, std::io::Error>>(
    f: F,
    src: Seq<char>,
    dest: &str,
    e: std::io::Error,
) -> bool {
    exists|s: String| s@ == src && #[trigger] f.ensures((&s, dest), Err(e))
}

/// Batch-apply `transfer(src, dest_dir)` to each source in order, stopping at
/// the first failure.
fn transfer_batch<F: Fn(&String, &str) -> Result<String, std::io::Error>>(
    sources: &[String],
    dest_dir: &str,
    transfer: F,
) -> (r: FileOpResult)
    requires
        forall|s: &String, d: &str| transfer.requires((s, d)),
    ensures
        transfer_reports(transfer, sources@.map_values(|s: String| s@), dest_dir, r),
{
    let ghost views = sources@.map_values(|s: String| s@);
    let t = &transfer;
    let one = |src: &String| -> (r: Result<(), std::io::Error>)
        requires
            t.requires((src, dest_dir)),
        ensures
            r is Ok ==> copied(*t, src@, dest_dir),
            r matches Err(e) ==> copy_failed(*t, src@, dest_dir, e),
        {
            match t(src, dest_dir) {
                Ok(_) => Ok(()),
                Err(e) => Err(e),
            }
        };
    let r = run_batch(sources, one);
    proof {
        match &r {
            FileOpResult::Done(n) => {
                assert forall|i: int| 0 <= i < *n implies #[trigger] copied(transfer, views[i], dest_dir) by {
                    assert(one.ensures((&sources@[i],), Ok(())));
                }
            },
            FileOpResult::Partial(d, e) => {
                assert forall|i: int| 0 <= i < *d implies #[trigger] copied(transfer, views[i], dest_dir) by {
                    assert(one.ensures((&sources@[i],), Ok(())));
                }
                assert(one.ensures((&sources@[*d as int],), Err(*e)));
            },
        }
    }
    r
}

/// Batch-copy a list of paths into `dest_dir`, with `copy_to` copying one
/// source into a directory; stops at the first failure.
pub fn copy_batch<F: Fn(&String, &str) -> Result<String, std::io::Error>>(
    sources: &[String],
    dest_dir: &str,
    copy_to: F,
) -> (r: FileOpResult)
    requires
        forall|s: &String, d: &str| copy_to.requires((s, d)),
    ensures
        transfer_reports(copy_to, sources@.map_values(|s: String| s@), dest_dir, r),
{
    transfer_batch(sources, dest_dir, copy_to)
}

/// Batch-move a list of paths into `dest_dir`, with `move_to` moving one
/// source into a directory; stops at the first failure.
pub fn move_batch<F: Fn(&String, &str) -> Result<String, std::io::Error>>(
    sources: &[String],
    dest_dir: &str,
    move_to: F,
) -> (r: FileOpResult)
    requires
        forall|s: &String, d: &str| move_to.requires((s, d)),
    ensures
        transfer_reports(move_to, sources@.map_values(|s: String| s@), dest_dir, r),
{
    transfer_batch(sources, dest_dir, move_to)
}

/// Process a `text/uri-list` drop payload: parse the URIs and copy the files
/// they name into `dest_dir`, in order, stopping at the first failure.
pub fn handle_uri_drop<F: Fn(&String, &str) -> Result<String, std::io::Error>>(
    uri_list: &str,
    dest_dir: &str,
    copy_to: F,
) -> (r: FileOpResult)
    requires
        forall|s: &String, d: &str| copy_to.requires((s, d)),
    ensures
        transfer_reports(copy_to, uri_list_paths(uri_list), dest_dir, r),
{
    let paths = parse_uri_list(uri_list);
    assert(paths@.map_values(|s: String| s@) =~= uri_list_paths(uri_list));
    copy_batch(paths.as_slice(), dest_dir, copy_to)
}

/// Lines that name no file leave no path.
proof fn lemma_uri_paths_none(ls: Seq<Seq<u8>>)
    requires
        forall|i: int| 0 <= i < ls.len() ==> uri_line_path(#[trigger] ls[i]) is None,
    ensures
        uri_paths(ls).len() == 0,
    decreases ls.len(),
{
    if ls.len() > 0 {
        assert(forall|i: int| 0 <= i < ls.drop_last().len() ==> ls.drop_last()[i] == ls[i]);
        lemma_uri_paths_none(ls.drop_last());
        assert(ls.last() == ls[ls.len() - 1]);
    }
}

/// Dropping a payload copies what parsing it gives: for a list `parsed`
/// that meets what `parse_uri_list` promises of `data`, the sources that
/// `copy_batch` is handed are the ones `handle_uri_drop` copies, so each
/// report of one batch is a report of the other.
pub proof fn law_uri_drop_copies_parsed<F: Fn(&String, &str) -> Result<String, std::io::Error>>(
    data: &str,
    parsed: Seq<String>,
    dest: &str,
    f: F,
    r: FileOpResult,
)
    requires
        parsed.len() == uri_list_paths(data).len(),
        forall|i: int| 0 <= i < parsed.len() ==> #[trigger] parsed[i]@ == uri_list_paths(data)[i],
    ensures
        transfer_reports(f, parsed.map_values(|p: String| p@), dest, r)
            <==> transfer_reports(f, uri_list_paths(data), dest, r),
{
    assert(parsed.map_values(|p: String| p@) =~= uri_list_paths(data));
}

/// A payload in which no line names a file (comments, blank lines, other
/// schemes) is accepted and copies nothing: the drop reports `Done(0)`.
pub proof fn law_uri_drop_without_files<F: Fn(&String, &str) -> Result<String, std::io::Error>>(
    data: &str,
    dest: &str,
    f: F,
    r: FileOpResult,
)
    requires
        forall|i: int| 0 <= i < uri_lines(data).len() ==> uri_line_path(#[trigger] uri_lines(data)[i]) is None,
    ensures
        uri_list_paths(data).len() == 0,
        transfer_reports(f, uri_list_paths(data), dest, r) ==> (r matches FileOpResult::Done(n) && n == 0),
{
    lemma_uri_paths_none(uri_lines(data));
}

// ── Trash and rename ──

/// The text of a `.trashinfo` file for `path` deleted at `date`
/// (freedesktop.org trash specification): the path's UTF-8 bytes are
/// URL-escaped, keeping those of [`path_safe_byte`].
pub open spec fn trash_info_spec(path: Seq<char>, date: Seq<char>) -> Seq<char> {
    "[Trash Info]\nPath="@ + ascii_chars(pct_escape(vstd::utf8::encode_utf8(path), |c: u8| path_safe_byte(c)))
        + "\nDeletionDate="@ + date + "\n"@
}

/// The `.trashinfo` file text recording where `original_path` was and when it
/// was deleted.
pub fn trash_info_text(original_path: &str, deletion_date: &str) -> (s: String)
    ensures
        s@ == trash_info_spec(original_path@, deletion_date@),
{
    let mut s = String::new();
    push_str(&mut s, "[Trash Info]\nPath=");
    push_escaped_path(&mut s, original_path);
    push_str(&mut s, "\nDeletionDate=");
    push_str(&mut s, deletion_date);
    push_str(&mut s, "\n");
    assert(s@ =~= trash_info_spec(original_path@, deletion_date@));
    s
}

/// `YYYY-MM-DDTHH:MM:SS` for a broken-down local time whose fields are as
/// `struct tm` holds them (years since 1900, months from 0).
pub open spec fn iso8601_spec(year: int, mon: int, mday: int, hour: int, min: int, sec: int) -> Seq<char> {
    fmt_padded(year + 1900, 4) + seq!['-'] + fmt_padded(mon + 1, 2) + seq!['-'] + fmt_padded(mday, 2)
        + seq!['T'] + fmt_padded(hour, 2) + seq![':'] + fmt_padded(min, 2) + seq![':'] + fmt_padded(sec, 2)
}

/// The deletion date of a `.trashinfo` file, from `struct tm` fields.
pub fn format_iso8601(tm_year: i32, tm_mon: i32, tm_mday: i32, tm_hour: i32, tm_min: i32, tm_sec: i32) -> (s: String)
    requires
        tm_year + 1900 <= i32::MAX,
        tm_mon + 1 <= i32::MAX,
    ensures
        s@ == iso8601_spec(tm_year as int, tm_mon as int, tm_mday as int, tm_hour as int, tm_min as int, tm_sec as int),
{
    let mut s = String::new();
    push_padded(&mut s, (tm_year + 1900) as i64, 4);
    push_char(&mut s, '-');
    push_padded(&mut s, (tm_mon + 1) as i64, 2);
    push_char(&mut s, '-');
    push_padded(&mut s, tm_mday as i64, 2);
    push_char(&mut s, 'T');
    push_padded(&mut s, tm_hour as i64, 2);
    push_char(&mut s, ':');
    push_padded(&mut s, tm_min as i64, 2);
    push_char(&mut s, ':');
    push_padded(&mut s, tm_sec as i64, 2);
    assert(s@ =~= iso8601_spec(tm_year as int, tm_mon as int, tm_mday as int, tm_hour as int, tm_min as int, tm_sec as int));
    s
}

/// A name a file can be renamed to: not empty, and free of `/` and NUL.
pub open spec fn valid_new_name(name: Seq<char>) -> bool {
    &&& name.len() > 0
    &&& !name.contains('/')
    &&& !name.contains('\0')
}

/// Whether `name` may be used as a new file name.
pub fn is_valid_new_name(name: &str) -> (b: bool)
    ensures
        b == valid_new_name(name@),
{
    let cs = chars_of(name);
    if cs.len() == 0 {
        return false;
    }
    let mut i: usize = 0;
    while i < cs.len()
        invariant
            i <= cs.len(),
            cs@ == name@,
            forall|j: int| 0 <= j < i ==> cs@[j] != '/' && cs@[j] != '\0',
        decreases cs.len() - i,
    {
        if cs[i] == '/' || cs[i] == '\0' {
            assert(name@[i as int] == cs@[i as int]);
            return false;
        }
        i = i + 1;
    }
    true
}


// ── Destinations ──

/// Why no destination could be chosen.
#[derive(Clone, Copy, Debug, PartialEq, Eq, Structural)]
pub enum DestError {
    /// The source path has no file name (it is `/` or ends in `..`).
    NoFileName,
    /// Every numbered name was taken.
    NoFreeName,
}

/// Where a copy or move of `src` into `dest_dir` goes: the source's file
/// name in `dest_dir`, numbered `(n)` before the extension when that is
/// taken (see [`crate::paths::unique_path`]).
pub fn transfer_destination<F: Fn(&String) -> bool>(src: &str, dest_dir: &str, taken: F) -> (r: Result<String, DestError>)
    requires
        forall|s: &String| taken.requires((s,)),
    ensures
        crate::paths::path_file_name(src@) is None <==> r == Err::<String, DestError>(DestError::NoFileName),
        crate::paths::path_file_name(src@) matches Some(n) ==> ({
            let cand = crate::paths::path_join(dest_dir@, n);
            match r {
                Ok(p) => crate::paths::first_free(taken, |k: nat| crate::paths::unique_candidate(cand, k), 0xffff_ffff, Some(p)),
                Err(e) => e == DestError::NoFreeName
                    && crate::paths::first_free(taken, |k: nat| crate::paths::unique_candidate(cand, k), 0xffff_ffff, None),
            }
        }),
{
    let name = match crate::paths::file_name(src) {
        Some(n) => n,
        None => return Err(DestError::NoFileName),
    };
    let cand = crate::paths::join_path(dest_dir, name.as_str());
    match crate::paths::unique_path(cand.as_str(), taken) {
        Some(p) => Ok(p),
        None => Err(DestError::NoFreeName),
    }
}

/// The `.trashinfo` file that records the item trashed as `dest`: the
/// item's file name with `.trashinfo` added, in `info_dir`.
pub open spec fn trash_info_path_spec(info_dir: Seq<char>, dest: Seq<char>) -> Seq<char> {
    let name = match crate::paths::path_file_name(dest) {
        Some(n) => n,
        None => Seq::empty(),
    };
    crate::paths::path_join(info_dir, name + ".trashinfo"@)
}

/// The `.trashinfo` file that records the item trashed as `dest`.
pub fn trash_info_path(info_dir: &str, dest: &str) -> (p: String)
    ensures
        p@ == trash_info_path_spec(info_dir@, dest@),
{
    let mut name = match crate::paths::file_name(dest) {
        Some(n) => n,
        None => String::new(),
    };
    push_str(&mut name, ".trashinfo");
    crate::paths::join_path(info_dir, name.as_str())
}

/// The new path of `path` renamed to `new_name`: `new_name` in the same
/// directory, or `None` when `path` has no parent.
pub fn rename_target(path: &str, new_name: &str) -> (r: Option<String>)
    ensures
        match crate::paths::path_parent(path@) {
            Some(d) => r matches Some(p) && p@ == crate::paths::path_join(d, new_name@),
            None => r is None,
        },
{
    match crate::paths::parent(path) {
        Some(d) => Some(crate::paths::join_path(d.as_str(), new_name)),
        None => None,
    }
}

// ── Clipboard and messages ──

/// The `text/uri-list` text of `paths`: each as a `file://` URI, separated
/// by CR LF.
pub open spec fn uri_list_spec(paths: Seq<Seq<char>>) -> Seq<char>
    decreases paths.len(),
{
    if paths.len() == 0 {
        Seq::empty()
    } else if paths.len() == 1 {
        "file://"@ + paths[0]
    } else {
        uri_list_spec(paths.drop_last()) + "\r\n"@ + "file://"@ + paths.last()
    }
}

/// The `text/uri-list` text of `paths` (see [`uri_list_spec`]).
pub fn uri_list_text(paths: &Vec<String>) -> (s: String)
    ensures
        s@ == uri_list_spec(paths@.map_values(|p: String| p@)),
{
    let ghost views = paths@.map_values(|p: String| p@);
    let mut s = String::new();
    let mut i: usize = 0;
    assert(views.take(0) =~= Seq::<Seq<char>>::empty());
    while i < paths.len()
        invariant
            i <= paths.len(),
            views == paths@.map_values(|p: String| p@),
            s@ == uri_list_spec(views.take(i as int)),
        decreases paths.len() - i,
    {
        assert(views.take(i + 1).drop_last() =~= views.take(i as int));
        assert(views.take(i + 1).last() == paths@[i as int]@);
        if i > 0 {
            push_str(&mut s, "\r\n");
        } else {
            assert(views.take(1) =~= seq![paths@[0]@]);
        }
        push_str(&mut s, "file://");
        push_str(&mut s, paths[i].as_str());
        i = i + 1;
        assert(s@ =~= uri_list_spec(views.take(i as int)));
    }
    assert(views.take(paths.len() as int) =~= views);
    s
}

/// The message after copying `count` files to the clipboard.
pub fn copied_message(count: usize) -> (s: String)
    ensures
        s@ == "Copied "@ + dec(count as nat) + " file(s)"@,
{
    let mut s = String::new();
    push_str(&mut s, "Copied ");
    push_dec(&mut s, count as u64);
    push_str(&mut s, " file(s)");
    s
}

/// The message after pasting `ok` of `total` files.
pub fn pasted_message(ok: usize, total: usize) -> (s: String)
    ensures
        s@ == "Pasted "@ + dec(ok as nat) + "/"@ + dec(total as nat) + " file(s)"@,
{
    let mut s = String::new();
    push_str(&mut s, "Pasted ");
    push_dec(&mut s, ok as u64);
    push_str(&mut s, "/");
    push_dec(&mut s, total as u64);
    push_str(&mut s, " file(s)");
    s
}

/// The message after moving `ok` files to the trash.
pub fn trashed_message(ok: usize) -> (s: String)
    ensures
        s@ == "Moved "@ + dec(ok as nat) + " file(s) to trash"@,
{
    let mut s = String::new();
    push_str(&mut s, "Moved ");
    push_dec(&mut s, ok as u64);
    push_str(&mut s, " file(s) to trash");
    s
}

/// The error text when the rename target exists already.
pub fn already_exists_message(name: &str) -> (s: String)
    ensures
        s@ == "'"@ + name@ + "' already exists"@,
{
    let mut s = String::new();
    push_str(&mut s, "'");
    push_str(&mut s, name);
    push_str(&mut s, "' already exists");
    s
}

} // verus!

//! Path strings: the parts `std::path::Path` reports, joining, and choosing a
//! name that is not taken yet.

use vstd::prelude::*;
use vstd::string::StringExecFns;
use crate::fmt::{dec, push_dec};
use crate::text::push_char;

verus! {

/// What `Path::file_name` reports for the path `p`: its last component, if
/// that is a normal one.
pub uninterp spec fn path_file_name(p: Seq<char>) -> Option<Seq<char>>;

/// What `Path::file_stem` reports for the path `p`.
pub uninterp spec fn path_file_stem(p: Seq<char>) -> Option<Seq<char>>;

/// What `Path::extension` reports for the path `p`.
pub uninterp spec fn path_extension(p: Seq<char>) -> Option<Seq<char>>;

/// What `Path::parent` reports for the path `p`.
pub uninterp spec fn path_parent(p: Seq<char>) -> Option<Seq<char>>;

/// An optional string as an optional character sequence.
pub open spec fn opt_view(o: Option<String>) -> Option<Seq<char>> {
    match o {
        Some(s) => Some(s@),
        None => None,
    }
}

/// `Path::file_name`, as a string.
#[verifier::external_body]
pub(crate) fn file_name(p: &str) -> (r: Option<String>)
    ensures
        opt_view(r) == path_file_name(p@),
{
    match std::path::Path::new(p).file_name() {
        Some(n) => Some(n.to_string_lossy().into_owned()),
        None => None,
    }
}

/// `Path::file_stem`, as a string.
#[verifier::external_body]
pub(crate) fn file_stem(p: &str) -> (r: Option<String>)
    ensures
        opt_view(r) == path_file_stem(p@),
{
    match std::path::Path::new(p).file_stem() {
        Some(n) => Some(n.to_string_lossy().into_owned()),
        None => None,
    }
}

/// `Path::extension`, as a string.
#[verifier::external_body]
pub(crate) fn extension(p: &str) -> (r: Option<String>)
    ensures
        opt_view(r) == path_extension(p@),
{
    match std::path::Path::new(p).extension() {
        Some(n) => Some(n.to_string_lossy().into_owned()),
        None => None,
    }
}

/// `Path::parent`, as a string.
#[verifier::external_body]
pub(crate) fn parent(p: &str) -> (r: Option<String>)
    ensures
        opt_view(r) == path_parent(p@),
{
    match std::path::Path::new(p).parent() {
        Some(n) => Some(n.to_string_lossy().into_owned()),
        None => None,
    }
}

/// `base` joined with `name` as `PathBuf::push` joins on Unix: an absolute
/// `name` replaces `base`; otherwise a `/` goes between them unless `base` is
/// empty or already ends with one.
pub open spec fn path_join(base: Seq<char>, name: Seq<char>) -> Seq<char> {
    if name.len() > 0 && name[0] == '/' {
        name
    } else if base.len() == 0 || base.last() == '/' {
        base + name
    } else {
        base + seq!['/'] + name
    }
}

/// Append the characters of `s`.
pub fn push_str(out: &mut String, s: &str)
    ensures
        final(out)@ == old(out)@ + s@,
{
    out.append(s);
}

/// `base` joined with `name` (see [`path_join`]).
pub fn join_path(base: &str, name: &str) -> (r: String)
    ensures
        r@ == path_join(base@, name@),
{
    let cs = crate::text::chars_of(name);
    if cs.len() > 0 && cs[0] == '/' {
        return name.to_owned();
    }
    let bs = crate::text::chars_of(base);
    let mut out = base.to_owned();
    if !(bs.len() == 0 || bs[bs.len() - 1] == '/') {
        push_char(&mut out, '/');
    }
    push_str(&mut out, name);
    assert(out@ =~= path_join(base@, name@));
    out
}

/// `stem(n)` followed by `.ext` where there is an extension.
pub open spec fn numbered_name(stem: Seq<char>, ext: Option<Seq<char>>, n: nat) -> Seq<char> {
    let base = stem + seq!['('] + dec(n) + seq![')'];
    match ext {
        Some(e) => base + seq!['.'] + e,
        None => base,
    }
}

/// The `k`-th path tried for `candidate`: the candidate itself, then the
/// same file name numbered `(k)` before the extension, in the same directory.
pub open spec fn unique_candidate(candidate: Seq<char>, k: nat) -> Seq<char> {
    if k == 0 {
        candidate
    } else {
        let stem = match path_file_stem(candidate) {
            Some(s) => s,
            None => Seq::empty(),
        };
        let dir = match path_parent(candidate) {
            Some(p) => p,
            None => seq!['.'],
        };
        path_join(dir, numbered_name(stem, path_extension(candidate), k))
    }
}

/// `taken` answered `b` for some string whose view is `p`.
pub open spec fn answered<F: Fn(&String) -> bool>(taken: F, p: Seq<char>, b: bool) -> bool {
    exists|s: String| s@ == p && #[trigger] taken.ensures((&s,), b)
}

/// The outcome of a search through `cand(0)`, `cand(1)`, ... below `limit`:
/// the first one reported free, or none when all were reported taken.
pub open spec fn first_free<F: Fn(&String) -> bool>(
    taken: F,
    cand: spec_fn(nat) -> Seq<char>,
    limit: nat,
    r: Option<String>,
) -> bool {
    match r {
        Some(p) => exists|k: nat| {
            &&& k < limit
            &&& p@ == cand(k)
            &&& #[trigger] answered(taken, cand(k), false)
            &&& forall|j: nat| j < k ==> #[trigger] answered(taken, cand(j), true)
        },
        None => forall|j: nat| j < limit ==> #[trigger] answered(taken, cand(j), true),
    }
}

fn numbered(stem: &str, ext: &Option<String>, n: u32) -> (r: String)
    ensures
        r@ == numbered_name(stem@, opt_view(*ext), n as nat),
{
    let mut s = stem.to_owned();
    push_char(&mut s, '(');
    push_dec(&mut s, n as u64);
    push_char(&mut s, ')');
    match ext {
        Some(e) => {
            push_char(&mut s, '.');
            push_str(&mut s, e.as_str());
        },
        None => {},
    }
    assert(s@ =~= numbered_name(stem@, opt_view(*ext), n as nat));
    s
}

/// A path that `taken` reports free: `candidate` itself, or else the first of
/// `stem(1).ext`, `stem(2).ext`, ... in the same directory. `None` when every
/// number a `u32` counts up to is taken.
pub fn unique_path<F: Fn(&String) -> bool>(candidate: &str, taken: F) -> (r: Option<String>)
    requires
        forall|s: &String| taken.requires((s,)),
    ensures
        first_free(taken, |k: nat| unique_candidate(candidate@, k), 0xffff_ffff, r),
{
    let ghost cand = |k: nat| unique_candidate(candidate@, k);
    let first = candidate.to_owned();
    if !taken(&first) {
        assert(answered(taken, cand(0), false));
        return Some(first);
    }
    assert(answered(taken, cand(0), true));
    let stem = match file_stem(candidate) {
        Some(s) => s,
        None => String::new(),
    };
    let ext = extension(candidate);
    let dir = match parent(candidate) {
        Some(p) => p,
        None => {
            let mut d = String::new();
            push_char(&mut d, '.');
            d
        },
    };
    assert(dir@ == (match path_parent(candidate@) { Some(p) => p, None => seq!['.'] }));
    let mut n: u32 = 1;
    loop
        invariant
            1 <= n < 0xffff_ffff,
            forall|s: &String| taken.requires((s,)),
            cand == (|k: nat| unique_candidate(candidate@, k)),
            stem@ == (match path_file_stem(candidate@) { Some(s) => s, None => Seq::<char>::empty() }),
            opt_view(ext) == path_extension(candidate@),
            dir@ == (match path_parent(candidate@) { Some(p) => p, None => seq!['.'] }),
            forall|j: nat| j < n ==> #[trigger] answered(taken, cand(j), true),
        decreases 0xffff_ffffu32 - n,
    {
        let name = numbered(stem.as_str(), &ext, n);
        let p = join_path(dir.as_str(), name.as_str());
        assert(p@ == cand(n as nat));
        if !taken(&p) {
            assert(answered(taken, cand(n as nat), false));
            return Some(p);
        }
        assert(answered(taken, cand(n as nat), true));
        if n == 0xffff_fffe {
            return None;
        }
        n = n + 1;
    }
}

/// The `k`-th path tried for a new folder in `dir`: `New Folder`, then
/// `New Folder(k)`.
pub open spec fn new_folder_candidate(dir: Seq<char>, k: nat) -> Seq<char> {
    let base = seq!['N', 'e', 'w', ' ', 'F', 'o', 'l', 'd', 'e', 'r'];
    if k == 0 {
        path_join(dir, base)
    } else {
        path_join(dir, base + seq!['('] + dec(k) + seq![')'])
    }
}

/// The path for a new folder inside `dir`: `New Folder`, or the first of
/// `New Folder(1)`, `New Folder(2)`, ... that `taken` reports free. `None`
/// when every number a `u32` counter reaches is taken.
pub fn new_folder_path<F: Fn(&String) -> bool>(dir: &str, taken: F) -> (r: Option<String>)
    requires
        forall|s: &String| taken.requires((s,)),
    ensures
        first_free(taken, |k: nat| new_folder_candidate(dir@, k), 0xffff_ffff, r),
{
    let ghost cand = |k: nat| new_folder_candidate(dir@, k);
    let base = "New Folder";
    proof {
        reveal_strlit("New Folder");
    }
    let first = join_path(dir, base);
    assert(first@ == cand(0));
    if !taken(&first) {
        assert(answered(taken, cand(0), false));
        return Some(first);
    }
    assert(answered(taken, cand(0), true));
    let mut n: u32 = 1;
    loop
        invariant
            1 <= n < 0xffff_ffff,
            forall|s: &String| taken.requires((s,)),
            cand == (|k: nat| new_folder_candidate(dir@, k)),
            base@ == seq!['N', 'e', 'w', ' ', 'F', 'o', 'l', 'd', 'e', 'r'],
            forall|j: nat| j < n ==> #[trigger] answered(taken, cand(j), true),
        decreases 0xffff_ffffu32 - n,
    {
        let mut name = base.to_owned();
        push_char(&mut name, '(');
        push_dec(&mut name, n as u64);
        push_char(&mut name, ')');
        let p = join_path(dir, name.as_str());
        assert(name@ =~= base@ + seq!['('] + dec(n as nat) + seq![')']);
        assert(p@ == cand(n as nat));
        if !taken(&p) {
            assert(answered(taken, cand(n as nat), false));
            return Some(p);
        }
        assert(answered(taken, cand(n as nat), true));
        if n == 0xffff_fffe {
            return None;
        }
        n = n + 1;
    }
}

} // verus!

//! The breadcrumb bar: the back and forward buttons, then the location as a
//! row of segments, each leading to the directory it ends.
//!
//! Positions are counted in character cells from the bar's left padding.

use vstd::prelude::*;
use vstd::utf8::encode_utf8;
use vstd::string::StringSliceAdditionalSpecFns;
use crate::paths::{join_path, path_join};
use crate::text::strings_view;

verus! {

/// The cells of the back button.
pub const BACK_CELLS: (usize, usize) = (0, 2);
/// The cells of the forward button.
pub const FORWARD_CELLS: (usize, usize) = (3, 5);

/// What `Path::components` gives for `p`, each component as text.
pub uninterp spec fn path_components(p: Seq<char>) -> Seq<Seq<char>>;

/// `Path::components`, each component as a string.
#[verifier::external_body]
fn components_of(p: &str) -> (v: Vec<String>)
    ensures
        strings_view(v@) == path_components(p@),
{
    std::path::Path::new(p).components().map(|c| c.as_os_str().to_string_lossy().into_owned()).collect()
}

/// One segment of the bar: its label, the directory it leads to, and the
/// cells it takes, from `start` up to but not including `end`.
pub struct Crumb {
    pub label: String,
    pub path: String,
    pub start: usize,
    pub end: usize,
}

/// A segment as plain values.
pub open spec fn crumb_view(c: Crumb) -> (Seq<char>, Seq<char>, nat, nat) {
    (c.label@, c.path@, c.start as nat, c.end as nat)
}

/// The number of UTF-8 bytes of `s`, as `str::len` reports it.
pub open spec fn byte_len(s: Seq<char>) -> nat {
    (encode_utf8(s).len() as usize) as nat
}

/// `n`, or the largest `usize` when it is larger.
pub open spec fn capped(n: nat) -> nat {
    if n <= usize::MAX { n } else { usize::MAX as nat }
}

/// The segments for the components `names` that follow the root: first the
/// root `/` in cell 6, then each name three cells (` > `) after the one
/// before, as wide as its UTF-8 bytes, leading to the path built so far.
pub open spec fn crumbs_spec(names: Seq<Seq<char>>) -> Seq<(Seq<char>, Seq<char>, nat, nat)>
    decreases names.len(),
{
    if names.len() == 0 {
        seq![("/"@, "/"@, 6nat, 7nat)]
    } else {
        let prev = crumbs_spec(names.drop_last());
        let last = prev.last();
        let name = names.last();
        let start = capped(last.3 + 3);
        prev.push((name, path_join(last.1, name), start, capped(start + byte_len(name))))
    }
}

/// The components after the first, as the bar shows them.
pub open spec fn shown_components(p: Seq<char>) -> Seq<Seq<char>> {
    let cs = path_components(p);
    if cs.len() == 0 { cs } else { cs.skip(1) }
}

proof fn lemma_crumbs_nonempty(names: Seq<Seq<char>>)
    ensures
        crumbs_spec(names).len() == names.len() + 1,
    decreases names.len(),
{
    if names.len() > 0 {
        lemma_crumbs_nonempty(names.drop_last());
    }
}

/// The segments of the bar for the location `path` (see [`crumbs_spec`]).
pub fn breadcrumbs(path: &str) -> (v: Vec<Crumb>)
    ensures
        v@.map_values(|c: Crumb| crumb_view(c)) == crumbs_spec(shown_components(path@)),
{
    let comps = components_of(path);
    let ghost names = shown_components(path@);
    let mut v: Vec<Crumb> = Vec::new();
    v.push(Crumb { label: "/".to_owned(), path: "/".to_owned(), start: 6, end: 7 });
    proof {
        reveal_strlit("/");
        assert(v@.map_values(|c: Crumb| crumb_view(c)) =~= crumbs_spec(Seq::<Seq<char>>::empty()));
    }
    if comps.len() == 0 {
        assert(names =~= Seq::<Seq<char>>::empty());
        return v;
    }
    let mut k: usize = 1;
    assert(names.take(0) =~= Seq::<Seq<char>>::empty());
    while k < comps.len()
        invariant
            1 <= k <= comps.len(),
            strings_view(comps@) == path_components(path@),
            names == path_components(path@).skip(1),
            v.len() == k,
            v@.map_values(|c: Crumb| crumb_view(c)) == crumbs_spec(names.take(k - 1)),
        decreases comps.len() - k,
    {
        proof {
            lemma_crumbs_nonempty(names.take(k - 1));
            assert(names.take(k as int).drop_last() =~= names.take(k - 1));
            assert(names.take(k as int).last() == comps@[k as int]@);
        }
        let prev_end = v[v.len() - 1].end;
        let prev_path = v[v.len() - 1].path.clone();
        let name = comps[k].as_str();
        let start = prev_end.saturating_add(3);
        let end = start.saturating_add(name.len());
        let p = join_path(prev_path.as_str(), name);
        let ghost before = v@;
        v.push(Crumb { label: comps[k].clone(), path: p, start, end });
        proof {
            let prev = crumbs_spec(names.take(k - 1));
            assert(before.map_values(|c: Crumb| crumb_view(c)) == prev);
            assert(prev.last() == crumb_view(before.last()));
            assert(name.spec_bytes() == encode_utf8(name@));
            assert(start as nat == capped(prev.last().3 + 3));
            assert(end as nat == capped(start as nat + byte_len(names.take(k as int).last())));
            assert(crumb_view(v@.last()) == (names.take(k as int).last(), path_join(prev.last().1, names.take(k as int).last()),
                start as nat, end as nat));
            assert(v@.map_values(|c: Crumb| crumb_view(c)) =~= prev.push(crumb_view(v@.last())));
        }
        k = k + 1;
    }
    assert(names.take(comps.len() - 1) =~= names);
    v
}

/// The segment `cell` falls in: the first whose cells, from `start` up to
/// but not including `end`, hold it.
pub fn crumb_at(crumbs: &Vec<Crumb>, cell: usize) -> (r: Option<usize>)
    ensures
        match r {
            Some(i) => {
                &&& i < crumbs@.len()
                &&& crumbs@[i as int].start <= cell < crumbs@[i as int].end
                &&& forall|j: int| 0 <= j < i ==> !(#[trigger] crumbs@[j].start <= cell < crumbs@[j].end)
            },
            None => forall|j: int| 0 <= j < crumbs@.len() ==> !(#[trigger] crumbs@[j].start <= cell < crumbs@[j].end),
        },
{
    let mut i: usize = 0;
    while i < crumbs.len()
        invariant
            i <= crumbs@.len(),
            forall|j: int| 0 <= j < i ==> !(#[trigger] crumbs@[j].start <= cell < crumbs@[j].end),
        decreases crumbs.len() - i,
    {
        if crumbs[i].start <= cell && cell < crumbs[i].end {
            return Some(i);
        }
        i = i + 1;
    }
    None
}

} // verus!

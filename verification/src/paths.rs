//! Filesystem paths as text: where a relative asset is looked for, and in
//! which order. Whether a file is there is asked of the caller.
use vstd::prelude::*;

use crate::text::{chars_of, string_of_range, trim, trim_bounds, views};

verus! {

/// The view of an optional string.
pub open spec fn opt_view(o: Option<String>) -> Option<Seq<char>> {
    match o {
        Some(s) => Some(s@),
        None => None,
    }
}

/// What `Path::parent` gives for a path written as `p`.
pub uninterp spec fn path_parent(p: Seq<char>) -> Option<Seq<char>>;

/// What `Path::join` gives for `base` joined with `rel`.
pub uninterp spec fn path_join(base: Seq<char>, rel: Seq<char>) -> Seq<char>;

/// Calls `Path::parent`. The documentation promises `None` for the empty
/// path; the rest of its component rules are named, not restated.
#[verifier::external_body]
pub(crate) fn parent_of(p: &str) -> (r: Option<String>)
    ensures
        opt_view(r) == path_parent(p@),
        p@.len() == 0 ==> r is None,
{
    match std::path::Path::new(p).parent() {
        Some(d) => Some(d.to_string_lossy().into_owned()),
        None => None,
    }
}

/// Calls `Path::join`; its separator and absolute-path rules are named, not
/// restated.
#[verifier::external_body]
pub(crate) fn join_path(base: &str, rel: &str) -> (r: String)
    ensures
        r@ == path_join(base@, rel@),
{
    std::path::Path::new(base).join(rel).to_string_lossy().into_owned()
}

/// The directory of `p`, joined with `rel`, if `p` has a parent.
pub open spec fn beside(p: Seq<char>, rel: Seq<char>) -> Seq<Seq<char>> {
    match path_parent(p) {
        Some(d) => seq![path_join(d, rel)],
        None => Seq::<Seq<char>>::empty(),
    }
}

/// Where a configured asset is looked for, in order: the (trimmed) path as
/// written, beside the config file, then beside the running binary.
pub open spec fn asset_candidates(
    config_path: Seq<char>,
    exe_path: Option<Seq<char>>,
    rel: Seq<char>,
) -> Seq<Seq<char>> {
    let r = trim(rel);
    if r.len() == 0 {
        Seq::<Seq<char>>::empty()
    } else {
        seq![r] + beside(config_path, r) + match exe_path {
            Some(e) => beside(e, r),
            None => Seq::<Seq<char>>::empty(),
        }
    }
}

/// A file check said "no" for some string spelling `p`.
pub open spec fn checked_absent<F: Fn(String) -> bool>(is_file: F, p: Seq<char>) -> bool {
    exists|s: String| s@ == p && call_ensures(is_file, (s,), false)
}

/// `r` is the first of `candidates` for which the check said "yes", every
/// earlier one having been checked and found absent; `None` when all were.
pub open spec fn first_present<F: Fn(String) -> bool>(
    candidates: Seq<Seq<char>>,
    is_file: F,
    r: Option<String>,
) -> bool {
    match r {
        Some(c) => exists|i: int|
            0 <= i < candidates.len() && candidates[i] == c@ && call_ensures(is_file, (c,), true)
                && forall|j: int| 0 <= j < i ==> #[trigger] checked_absent(is_file, candidates[j]),
        None => forall|j: int|
            0 <= j < candidates.len() ==> #[trigger] checked_absent(is_file, candidates[j]),
    }
}

fn push_beside(out: &mut Vec<String>, p: &str, rel: &str)
    ensures
        views(final(out)@) == views(old(out)@) + beside(p@, rel@),
{
    match parent_of(p) {
        Some(d) => {
            let j = join_path(d.as_str(), rel);
            let ghost before = out@;
            out.push(j);
            assert(views(out@) =~= views(before) + beside(p@, rel@));
        },
        None => {
            assert(views(out@) =~= views(out@) + beside(p@, rel@));
        },
    }
}

/// The places an asset is looked for, in order.
pub fn candidates(config_path: &str, exe_path: Option<&str>, rel: &str) -> (r: Vec<String>)
    ensures
        views(r@) == asset_candidates(
            config_path@,
            match exe_path {
                Some(e) => Some(e@),
                None => None,
            },
            rel@,
        ),
{
    let v = chars_of(rel);
    let (lo, hi) = trim_bounds(&v, None);
    let mut out: Vec<String> = Vec::new();
    if lo == hi {
        assert(views(out@) =~= Seq::<Seq<char>>::empty());
        return out;
    }
    let r = string_of_range(&v, lo, hi);
    out.push(string_of_range(&v, lo, hi));
    assert(views(out@) =~= seq![r@]);
    push_beside(&mut out, config_path, r.as_str());
    match exe_path {
        Some(e) => {
            push_beside(&mut out, e, r.as_str());
        },
        None => {
            assert(views(out@) =~= views(out@) + Seq::<Seq<char>>::empty());
        },
    }
    out
}

/// The first of `cands` that `is_file` reports present.
pub fn first_existing<F: Fn(String) -> bool>(cands: Vec<String>, is_file: &F) -> (r: Option<String>)
    requires
        forall|s: String| is_file.requires((s,)),
    ensures
        first_present(views(cands@), *is_file, r),
{
    let ghost cs = views(cands@);
    let mut i: usize = 0;
    while i < cands.len()
        invariant
            i <= cands.len(),
            cs == views(cands@),
            forall|s: String| is_file.requires((s,)),
            forall|j: int| 0 <= j < i ==> #[trigger] checked_absent(*is_file, cs[j]),
        decreases cands.len() - i,
    {
        let c = cands[i].clone();
        let probe = c.clone();
        if is_file(probe) {
            assert(call_ensures(*is_file, (c,), true));
            assert(cs[i as int] == c@);
            let ghost k = i as int;
            assert(0 <= k < cs.len() && cs[k] == c@ && call_ensures(*is_file, (c,), true)
                && forall|j: int| 0 <= j < k ==> #[trigger] checked_absent(*is_file, cs[j]));
            return Some(c);
        }
        assert(checked_absent(*is_file, cs[i as int]));
        i = i + 1;
    }
    None
}

} // verus!

//! Resolving the path arguments into the input to read: standard input,
//! or the discovered files — sorted, with repeats of one path collapsed,
//! plus the discovery errors met along the way. Walking directories is
//! the front end's job; it hands over what it found.

use vstd::prelude::*;
use vstd::multiset::Multiset;

use crate::fmt::{any_stdin, classify_paths, dedup_paths, dedup_spec, path_eq, views, PathsKind, MIXED_STDIN};

verus! {

/// Files to process plus non-fatal discovery errors.
#[derive(Debug, Default)]
pub struct Resolved {
    /// The discovered source files, sorted and de-duplicated.
    pub files: Vec<String>,
    /// Non-fatal discovery errors, reported without aborting the run.
    pub errors: Vec<String>,
}

/// The resolved input source.
#[derive(Debug)]
pub enum Input {
    /// Read a single document from stdin.
    Stdin,
    /// A set of files discovered from the path arguments.
    Files(Resolved),
}

/// `a` sorts at or before `b` under `Path`'s order (component by
/// component).
pub uninterp spec fn path_le(a: Seq<char>, b: Seq<char>) -> bool;

/// `v` is in `Path` order.
pub open spec fn path_sorted(v: Seq<Seq<char>>) -> bool {
    forall|i: int, j: int| 0 <= i < j < v.len() ==> path_le(v[i], v[j])
}

/// `Path`'s order is transitive on the items of `v`.
pub open spec fn path_le_transitive_on(v: Seq<Seq<char>>) -> bool {
    forall|i: int, j: int, k: int|
        #![trigger path_le(v[i], v[j]), path_le(v[j], v[k])]
        0 <= i < v.len() && 0 <= j < v.len() && 0 <= k < v.len() && path_le(v[i], v[j]) && path_le(
            v[j],
            v[k],
        ) ==> path_le(v[i], v[k])
}

/// Sort the paths with `<[PathBuf]>::sort` (stable, by `Path`'s `Ord`):
/// the result holds the same paths, in `Path` order; that order, a total
/// order as `Ord` requires, is transitive on them.
#[verifier::external_body]
fn sort_paths(files: Vec<String>) -> (r: Vec<String>)
    ensures
        views(r@).to_multiset() == views(files@).to_multiset(),
        forall|i: int, j: int| 0 <= i < j < r@.len() ==> path_le(r@[i]@, r@[j]@),
        path_le_transitive_on(views(r@)),
{
    let mut paths: Vec<std::path::PathBuf> = files.into_iter().map(std::path::PathBuf::from).collect();
    paths.sort();
    paths.into_iter().map(|p| p.into_os_string().into_string().unwrap_or_default()).collect()
}

/// `v` in strictly ascending `Path` order: each item sorts before every
/// later one and not after it.
pub open spec fn path_strictly_sorted(v: Seq<Seq<char>>) -> bool {
    forall|i: int, j: int| 0 <= i < j < v.len() ==> path_le(v[i], v[j]) && !path_le(v[j], v[i])
}

proof fn lemma_dedup_of_sorted(v: Seq<Seq<char>>)
    requires
        path_sorted(v),
        path_le_transitive_on(v),
        forall|k: int|
            0 <= k < v.len() - 1 ==> #[trigger] path_eq(v[k], v[k + 1]) == (path_le(v[k], v[k + 1])
                && path_le(v[k + 1], v[k])),
    ensures
        forall|i: int| 0 <= i < dedup_spec(v).len() ==> v.contains(#[trigger] dedup_spec(v)[i]),
        path_strictly_sorted(dedup_spec(v)),
    decreases v.len(),
{
    if v.len() <= 1 {
        assert forall|i: int| 0 <= i < dedup_spec(v).len() implies v.contains(#[trigger] dedup_spec(v)[i]) by {
            assert(dedup_spec(v)[i] == v[i]);
        }
    } else {
        let n = v.len() - 1;
        let u = v.drop_last();
        assert forall|k: int| 0 <= k < u.len() - 1 implies #[trigger] path_eq(u[k], u[k + 1]) == (
        path_le(u[k], u[k + 1]) && path_le(u[k + 1], u[k])) by {
            assert(path_eq(v[k], v[k + 1]) == (path_le(v[k], v[k + 1]) && path_le(v[k + 1], v[k])));
        }
        lemma_dedup_of_sorted(u);
        let du = dedup_spec(u);
        assert forall|i: int| 0 <= i < du.len() implies u.contains(#[trigger] du[i]) && v.contains(du[i]) by {
            let p = choose|p: int| 0 <= p < u.len() && u[p] == du[i];
            assert(v[p] == du[i]);
        }
        if !path_eq(v[n - 1], v[n]) {
            let d = du.push(v[n]);
            assert(dedup_spec(v) == d);
            let m = n - 1;
            assert(path_eq(v[m], v[m + 1]) == (path_le(v[m], v[m + 1]) && path_le(v[m + 1], v[m])));
            assert(v[m + 1] == v[n]);
            assert forall|i: int| 0 <= i < d.len() implies v.contains(#[trigger] d[i]) by {
                if i == du.len() {
                    assert(d[i] == v[n]);
                } else {
                    assert(d[i] == du[i]);
                }
            }
            assert forall|i: int, j: int| 0 <= i < j < d.len() implies path_le(d[i], d[j]) && !path_le(
                d[j],
                d[i],
            ) by {
                if j < du.len() {
                    assert(d[i] == du[i] && d[j] == du[j]);
                } else {
                    assert(u.contains(du[i]));
                    let p = choose|p: int| 0 <= p < u.len() && u[p] == du[i];
                    assert(d[i] == v[p] && d[j] == v[n]);
                    assert(path_le(v[p], v[n]));
                    if path_le(v[n], v[p]) {
                        if p < n - 1 {
                            assert(path_le(v[p], v[n - 1]));
                            assert(path_le(v[n], v[n - 1]));
                        }
                        assert(path_le(v[n - 1], v[n]));
                    }
                }
            }
        } else {
            assert(dedup_spec(v) == du);
        }
    }
}

/// Classify the path arguments and finish the discovery: standard input
/// when there are none or the sole one is `-`; an error when `-` is mixed
/// with other paths; otherwise the files the walk `found`, sorted, with
/// adjacent repeats of a path collapsed, and its errors.
pub fn resolve(paths: &[String], found: Resolved) -> (r: Result<Input, &'static str>)
    ensures
        paths@.len() == 0 ==> r matches Ok(Input::Stdin),
        paths@.len() == 1 && any_stdin(paths@) ==> r matches Ok(Input::Stdin),
        paths@.len() > 1 && any_stdin(paths@) ==> r == Err::<Input, &'static str>(MIXED_STDIN),
        paths@.len() > 0 && !any_stdin(paths@) ==> (r matches Ok(Input::Files(res)) && res.errors@
            == found.errors@ && exists|sorted: Seq<Seq<char>>|
            #![trigger dedup_spec(sorted)]
            sorted.to_multiset() == views(found.files@).to_multiset() && path_sorted(sorted)
                && views(res.files@) == dedup_spec(sorted)),
        paths@.len() > 0 && !any_stdin(paths@) ==> (r matches Ok(Input::Files(res))
            && path_strictly_sorted(views(res.files@))),
{
    match classify_paths(paths) {
        Err(e) => Err(e),
        Ok(PathsKind::Stdin) => Ok(Input::Stdin),
        Ok(PathsKind::Files) => {
            let sorted = sort_paths(found.files);
            let ghost sv = views(sorted@);
            proof {
                assert forall|i: int, j: int| 0 <= i < j < sv.len() implies path_le(sv[i], sv[j]) by {
                    assert(sv[i] == sorted@[i]@ && sv[j] == sorted@[j]@);
                }
            }
            let files = dedup_paths(sorted);
            proof {
                assert(views(files@) == dedup_spec(sv));
                assert forall|k: int| 0 <= k < sv.len() - 1 implies #[trigger] path_eq(sv[k], sv[k + 1]) == (
                path_le(sv[k], sv[k + 1]) && path_le(sv[k + 1], sv[k])) by {
                    assert(sv[k] == sorted@[k]@ && sv[k + 1] == sorted@[k + 1]@);
                    assert(path_eq(sorted@[k]@, sorted@[k + 1]@) == (path_le(sorted@[k]@, sorted@[k + 1]@)
                        && path_le(sorted@[k + 1]@, sorted@[k]@)));
                }
                lemma_dedup_of_sorted(sv);
            }
            Ok(Input::Files(Resolved { files, errors: found.errors }))
        },
    }
}

} // verus!

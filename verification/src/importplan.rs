//! How the files of a package come from the store into its directory: the
//! directories to make first (shallow ones before deep ones), the files to
//! bring over, `package.json` last as the sign that the import finished, and
//! when the importer falls back from hard links to copies.

use crate::paths::{normal_components, normal_components_of};
use crate::strs::{strs_eq, strs_view};
use crate::text::{owned, str_eq};
use vstd::prelude::*;

verus! {

pub open spec fn package_json_chars() -> Seq<char> {
    seq!['p', 'a', 'c', 'k', 'a', 'g', 'e', '.', 'j', 's', 'o', 'n']
}

/// The directory a file sits in, by its components; none for a file at the
/// top of the package.
pub open spec fn parent_dir_spec(rel: Seq<char>) -> Option<Seq<Seq<char>>> {
    let cs = normal_components_of(rel);
    if cs.len() >= 2 {
        Some(cs.drop_last())
    } else {
        None
    }
}

/// What the importer does with a package's file list.
#[derive(Debug, Clone)]
pub struct ImportPlan {
    /// The directories to make, each by its components, shallow ones first.
    pub dirs: Vec<Vec<String>>,
    /// The files to bring over, in listed order, without `package.json`.
    pub files: Vec<String>,
    /// Whether `package.json` is listed; it is written after the rest.
    pub package_json: bool,
}

pub open spec fn dirs_view(d: Seq<Vec<String>>) -> Seq<Seq<Seq<char>>> {
    d.map_values(|v: Vec<String>| strs_view(v@))
}

/// The relative paths of a file list of `(path, hash)` pairs.
pub open spec fn rels_of(files: Seq<(String, String)>) -> Seq<Seq<char>> {
    files.map_values(|e: (String, String)| e.0@)
}

/// The listed paths other than `package.json`, in order.
pub open spec fn non_marker(rels: Seq<Seq<char>>) -> Seq<Seq<char>>
    decreases rels.len(),
{
    if rels.len() == 0 {
        seq![]
    } else {
        let rest = non_marker(rels.drop_last());
        if rels.last() == package_json_chars() {
            rest
        } else {
            rest.push(rels.last())
        }
    }
}

/// `d` is the directory of one of the first `n` listed files.
pub open spec fn listed_dir(rels: Seq<Seq<char>>, n: int, d: Seq<Seq<char>>) -> bool {
    exists|k: int| 0 <= k < n && parent_dir_spec(rels[k]) == Some(d)
}

/// The directories of the first `n` files, each once, shallow ones first.
pub open spec fn dirs_of(rels: Seq<Seq<char>>, n: int, dv: Seq<Seq<Seq<char>>>) -> bool {
    &&& forall|i: int, j: int| 0 <= i < j < dv.len() ==> dv[i] != dv[j]
    &&& forall|i: int, j: int| 0 <= i < j < dv.len() ==> dv[i].len() <= dv[j].len()
    &&& forall|i: int| 0 <= i < dv.len() ==> listed_dir(rels, n, #[trigger] dv[i])
    &&& forall|k: int|
        0 <= k < n && (#[trigger] parent_dir_spec(rels[k])) is Some ==> dv.contains(
            parent_dir_spec(rels[k])->0,
        )
}

/// Whether a list of directories holds `d`.
fn holds_dir(dirs: &Vec<Vec<String>>, d: &Vec<String>) -> (r: bool)
    ensures
        r == dirs_view(dirs@).contains(strs_view(d@)),
{
    let ghost dv = dirs_view(dirs@);
    let mut i: usize = 0;
    while i < dirs.len()
        invariant
            i <= dirs@.len(),
            dv == dirs_view(dirs@),
            forall|j: int| 0 <= j < i ==> dv[j] != strs_view(d@),
        decreases dirs@.len() - i,
    {
        if strs_eq(&dirs[i], d) {
            assert(dv[i as int] == strs_view(d@));
            return true;
        }
        i = i + 1;
    }
    false
}

/// Where a directory of `n` components goes in a list sorted by depth:
/// after every directory no deeper than it.
fn depth_slot(dirs: &Vec<Vec<String>>, n: usize) -> (p: usize)
    requires
        forall|i: int, j: int|
            0 <= i < j < dirs@.len() ==> dirs_view(dirs@)[i].len() <= dirs_view(dirs@)[j].len(),
    ensures
        p <= dirs@.len(),
        forall|i: int| 0 <= i < p ==> dirs_view(dirs@)[i].len() <= n,
        forall|i: int| p <= i < dirs@.len() ==> dirs_view(dirs@)[i].len() > n,
{
    let ghost dv = dirs_view(dirs@);
    let mut p: usize = 0;
    while p < dirs.len() && dirs[p].len() <= n
        invariant
            p <= dirs@.len(),
            dv == dirs_view(dirs@),
            forall|i: int| 0 <= i < p ==> dv[i].len() <= n,
        decreases dirs@.len() - p,
    {
        assert(dv[p as int].len() == dirs@[p as int]@.len());
        p = p + 1;
    }
    if p < dirs.len() {
        assert(dv[p as int].len() == dirs@[p as int]@.len());
    }
    p
}

/// The import plan of a package's file list (`(path, hash)` pairs).
#[verifier::rlimit(40)]
pub fn import_plan(files: &Vec<(String, String)>) -> (r: ImportPlan)
    ensures
        dirs_of(rels_of(files@), files@.len() as int, dirs_view(r.dirs@)),
        strs_view(r.files@) == non_marker(rels_of(files@)),
        r.package_json == rels_of(files@).contains(package_json_chars()),
{
    let ghost rels = rels_of(files@);
    let pj = "package.json";
    proof {
        reveal_strlit("package.json");
        assert(pj@ =~= package_json_chars());
    }
    let mut dirs: Vec<Vec<String>> = Vec::new();
    let mut out: Vec<String> = Vec::new();
    let mut has_pj = false;
    let mut i: usize = 0;
    proof {
        assert(strs_view(out@) =~= non_marker(rels.take(0)));
    }
    while i < files.len()
        invariant
            i <= files@.len(),
            rels == rels_of(files@),
            pj@ == package_json_chars(),
            dirs_of(rels, i as int, dirs_view(dirs@)),
            strs_view(out@) == non_marker(rels.take(i as int)),
            has_pj == (exists|k: int| 0 <= k < i && rels[k] == package_json_chars()),
        decreases files@.len() - i,
    {
        let rel = files[i].0.as_str();
        assert(rels[i as int] == rel@);
        proof {
            assert(rels.take(i as int + 1).drop_last() =~= rels.take(i as int));
            assert(rels.take(i as int + 1).last() == rel@);
        }
        let ghost before = strs_view(out@);
        if str_eq(rel, pj) {
            has_pj = true;
            assert(rels[i as int] == package_json_chars());
        } else {
            out.push(owned(rel));
            proof {
                assert(strs_view(out@) =~= before.push(rel@));
            }
        }
        let ghost old_dv = dirs_view(dirs@);
        let mut cs = normal_components(rel);
        if cs.len() >= 2 {
            let ghost full = strs_view(cs@);
            cs.pop();
            proof {
                assert(strs_view(cs@) =~= full.drop_last());
                assert(parent_dir_spec(rel@) == Some(strs_view(cs@)));
            }
            let ghost c = strs_view(cs@);
            if !holds_dir(&dirs, &cs) {
                let p = depth_slot(&dirs, cs.len());
                dirs.insert(p, cs);
                proof {
                    let dv = dirs_view(dirs@);
                    assert(dv =~= old_dv.insert(p as int, c));
                    assert forall|a: int, b: int| 0 <= a < b < dv.len() implies dv[a] != dv[b] by {
                        if a == p {
                            assert(old_dv[b - 1] != c);
                        } else if b == p {
                            assert(old_dv[a] != c);
                        }
                    }
                    assert forall|a: int, b: int| 0 <= a < b < dv.len() implies dv[a].len()
                        <= dv[b].len() by {
                        if a == p {
                            assert(old_dv[b - 1].len() > c.len());
                        } else if b == p {
                            assert(old_dv[a].len() <= c.len());
                        }
                    }
                    assert forall|a: int| 0 <= a < dv.len() implies listed_dir(
                        rels,
                        i as int + 1,
                        #[trigger] dv[a],
                    ) by {
                        if a == p {
                            assert(parent_dir_spec(rels[i as int]) == Some(dv[a]));
                        } else if a < p {
                            assert(listed_dir(rels, i as int, old_dv[a]));
                        } else {
                            assert(listed_dir(rels, i as int, old_dv[a - 1]));
                        }
                    }
                    assert forall|k: int|
                        0 <= k < i + 1 && (#[trigger] parent_dir_spec(rels[k])) is Some implies dv.contains(
                        parent_dir_spec(rels[k])->0,
                    ) by {
                        if k == i {
                            assert(dv[p as int] == c);
                        } else {
                            assert(old_dv.contains(parent_dir_spec(rels[k])->0));
                            let a = choose|a: int|
                                0 <= a < old_dv.len() && old_dv[a] == parent_dir_spec(rels[k])->0;
                            if a < p {
                                assert(dv[a] == old_dv[a]);
                            } else {
                                assert(dv[a + 1] == old_dv[a]);
                            }
                        }
                    }
                }
            } else {
                proof {
                    assert forall|a: int| 0 <= a < old_dv.len() implies listed_dir(
                        rels,
                        i as int + 1,
                        #[trigger] old_dv[a],
                    ) by {
                        assert(listed_dir(rels, i as int, old_dv[a]));
                    }
                }
            }
        } else {
            proof {
                assert(parent_dir_spec(rel@) is None);
                assert forall|a: int| 0 <= a < old_dv.len() implies listed_dir(
                    rels,
                    i as int + 1,
                    #[trigger] old_dv[a],
                ) by {
                    assert(listed_dir(rels, i as int, old_dv[a]));
                }
            }
        }
        i = i + 1;
    }
    proof {
        assert(rels.take(files@.len() as int) =~= rels);
        if has_pj {
            let k = choose|k: int| 0 <= k < rels.len() && rels[k] == package_json_chars();
            assert(rels.contains(package_json_chars()));
        }
    }
    ImportPlan { dirs, files: out, package_json: has_pj }
}

/// How a hard link from the store failed.
#[derive(Debug, Clone, Copy, PartialEq, Eq)]
pub enum LinkFailure {
    /// The store and the package lie on different devices.
    CrossesDevices,
    PermissionDenied,
    NotFound,
    /// Any other error: the file is counted as failed and skipped.
    Other,
}

/// What the importer does after a hard link failed: whether it copies this
/// file, and whether it copies every later file of the package.
#[derive(Debug, Clone, Copy)]
pub struct Fallback {
    pub copy: bool,
    pub copy_from_now_on: bool,
}

/// The importer's answer to a failed hard link: a crossing of devices turns
/// the rest of the package to copies; a refused or vanished link copies this
/// file only; anything else skips it.
pub fn after_link_failure(f: LinkFailure) -> (r: Fallback)
    ensures
        r.copy == !(f is Other),
        r.copy_from_now_on == (f is CrossesDevices),
{
    match f {
        LinkFailure::CrossesDevices => Fallback { copy: true, copy_from_now_on: true },
        LinkFailure::PermissionDenied => Fallback { copy: true, copy_from_now_on: false },
        LinkFailure::NotFound => Fallback { copy: true, copy_from_now_on: false },
        LinkFailure::Other => Fallback { copy: false, copy_from_now_on: false },
    }
}

} // verus!

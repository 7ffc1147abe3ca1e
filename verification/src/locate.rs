//! The manifest locator: directional searches for a file of a given name.
//!
//! The downward search looks for a named entry anywhere in the subtree of
//! a starting point, skipping the occurrence directly inside the starting
//! directory itself; the upward search walks from a starting point toward
//! the filesystem root until an ancestor directly contains the named
//! file. Both return the directory containing the find, never the found
//! file itself, and both report "not found" as an ordinary absent result.

use crate::fs_tree::{
    child_present, dir_at, dir_present, entry_at, file_at, file_present, path_exists,
    path_exists_exec, path_present, tree_wf, FsEntry, FsTree, SpecFsEntry,
};
use crate::path_model::{is_path_prefix, is_prefix_exec, parent_of, path_prefix_copy, str_eq};
use crate::{manifest_file_name, manifest_file_name_spec};
use vstd::prelude::*;

verus! {

// ---------------------------------------------------------------------
// Downward search
// ---------------------------------------------------------------------

/// Where the downward search roots itself: the starting path when it is a
/// directory, the directory containing it when it is a file, nothing when
/// it names nothing.
pub open spec fn nested_root(t: Seq<SpecFsEntry>, start: Seq<Seq<char>>) -> Option<
    Seq<Seq<char>>,
> {
    if dir_at(t, start) {
        Some(start)
    } else if file_at(t, start) && start.len() > 0 {
        Some(parent_of(start))
    } else {
        None
    }
}

/// The entry qualifies for the downward search from `root` for name `f`:
/// it lies in the subtree of `root`, its own name equals `f`, and it is
/// not the excluded direct occurrence `root/f` itself.
pub open spec fn nested_match(root: Seq<Seq<char>>, f: Seq<char>, e: SpecFsEntry) -> bool {
    &&& e.path.len() > 0
    &&& is_path_prefix(root, e.path)
    &&& e.path.last() == f
    &&& e.path != root.push(f)
}

/// What the downward search returns: nothing when the starting path names
/// nothing; otherwise the parent directory of the first qualifying entry
/// in snapshot order, or nothing when no entry qualifies.
pub open spec fn nested_search_post(
    t: Seq<SpecFsEntry>,
    start: Seq<Seq<char>>,
    f: Seq<char>,
    r: Option<Seq<Seq<char>>>,
) -> bool {
    match nested_root(t, start) {
        Some(root) => match r {
            Some(d) => exists|i: int|
                0 <= i < t.len() && nested_match(root, f, #[trigger] t[i]) && d == parent_of(
                    t[i].path,
                ) && (forall|j: int| 0 <= j < i ==> !nested_match(root, f, #[trigger] t[j])),
            None => forall|i: int| 0 <= i < t.len() ==> !nested_match(root, f, #[trigger] t[i]),
        },
        None => r is None,
    }
}

fn entry_nested_match(e: &FsEntry, root: &Vec<String>, fname: &String) -> (r: bool)
    ensures
        r == nested_match(root.deep_view(), fname@, e@),
{
    if e.path.len() == 0 {
        return false;
    }
    if !is_prefix_exec(root, &e.path) {
        return false;
    }
    if !str_eq(&e.path[e.path.len() - 1], fname) {
        assert(e@.path.last() != fname@);
        return false;
    }
    if e.path.len() - 1 == root.len() {
        proof {
            assert(e@.path =~= root.deep_view().push(fname@));
        }
        return false;
    }
    assert(e@.path.len() != root.deep_view().push(fname@).len());
    true
}

/// Search the subtree below `starter_path` (below the directory containing
/// it, when it names a file) for an entry named `file_name`, skipping the
/// occurrence directly inside the starting directory; return the directory
/// containing the first find in snapshot order, or nothing.
pub fn find_nested_dir_with_file(
    tree: &FsTree,
    starter_path: &Vec<String>,
    file_name: &str,
) -> (r: Option<Vec<String>>)
    ensures
        nested_search_post(tree@, starter_path.deep_view(), file_name@, r.deep_view()),
{
    let ghost start = starter_path.deep_view();
    let root: Vec<String>;
    if dir_present(tree, starter_path) {
        root = path_prefix_copy(starter_path, starter_path.len());
        proof {
            assert(root.deep_view() =~= start);
        }
    } else if file_present(tree, starter_path) {
        assert(start.len() > 0);
        root = path_prefix_copy(starter_path, starter_path.len() - 1);
    } else {
        return None;
    }
    let ghost rootv = root.deep_view();
    assert(nested_root(tree@, start) == Some(rootv));
    let fname: String = file_name.to_owned();
    let n = tree.entries.len();
    let mut i: usize = 0;
    while i < n
        invariant
            n == tree.entries.len(),
            0 <= i <= n,
            start == starter_path.deep_view(),
            rootv == root.deep_view(),
            fname@ == file_name@,
            nested_root(tree@, start) == Some(rootv),
            forall|j: int| 0 <= j < i ==> !nested_match(rootv, file_name@, #[trigger] tree@[j]),
        decreases n - i,
    {
        if entry_nested_match(&tree.entries[i], &root, &fname) {
            let e_len = tree.entries[i].path.len();
            assert(e_len > 0);
            let d = path_prefix_copy(&tree.entries[i].path, e_len - 1);
            assert(d.deep_view() == parent_of(tree@[i as int].path));
            return Some(d);
        }
        i += 1;
    }
    None
}

/// Search the subtree below `starter_path` for a project manifest, skipping
/// the one directly inside the starting directory; return the directory
/// containing the first find, or nothing.
pub fn find_nested_manifest_dir(tree: &FsTree, starter_path: &Vec<String>) -> (r: Option<
    Vec<String>,
>)
    ensures
        nested_search_post(tree@, starter_path.deep_view(), manifest_file_name_spec(), r.deep_view()),
{
    find_nested_dir_with_file(tree, starter_path, manifest_file_name())
}

/// The subtree of the downward search's root holds a qualifying entry.
pub open spec fn nested_hit_exists(
    t: Seq<SpecFsEntry>,
    start: Seq<Seq<char>>,
    f: Seq<char>,
) -> bool {
    match nested_root(t, start) {
        Some(root) => exists|i: int| 0 <= i < t.len() && nested_match(root, f, #[trigger] t[i]),
        None => false,
    }
}

/// Law of the downward search: a directory comes back exactly when the
/// subtree holds a qualifying entry; with no qualifying entry anywhere the
/// search returns nothing.
pub proof fn lemma_nested_search_absent(
    t: Seq<SpecFsEntry>,
    start: Seq<Seq<char>>,
    f: Seq<char>,
    r: Option<Seq<Seq<char>>>,
)
    requires
        nested_search_post(t, start, f, r),
    ensures
        (r is Some) <==> nested_hit_exists(t, start, f),
{
}

/// Idempotence of the downward search: its outcome is a function of the
/// snapshot and the arguments alone, so two calls against the same
/// filesystem state with the same arguments return the same directory.
pub proof fn lemma_nested_search_deterministic(
    t: Seq<SpecFsEntry>,
    start: Seq<Seq<char>>,
    f: Seq<char>,
    r1: Option<Seq<Seq<char>>>,
    r2: Option<Seq<Seq<char>>>,
)
    requires
        nested_search_post(t, start, f, r1),
        nested_search_post(t, start, f, r2),
    ensures
        r1 == r2,
{
    if nested_root(t, start) is Some {
        let root = nested_root(t, start).unwrap();
        match (r1, r2) {
            (Some(d1), Some(d2)) => {
                let i1 = choose|i: int|
                    0 <= i < t.len() && nested_match(root, f, #[trigger] t[i]) && d1 == parent_of(
                        t[i].path,
                    ) && (forall|j: int| 0 <= j < i ==> !nested_match(root, f, #[trigger] t[j]));
                let i2 = choose|i: int|
                    0 <= i < t.len() && nested_match(root, f, #[trigger] t[i]) && d2 == parent_of(
                        t[i].path,
                    ) && (forall|j: int| 0 <= j < i ==> !nested_match(root, f, #[trigger] t[j]));
                assert(!(i1 < i2) && !(i2 < i1));
            },
            _ => {},
        }
    }
}

/// Under a well-formed snapshot, what the downward search returns is a
/// directory (or the implicit root), never a file: every path it yields
/// denotes a directory.
pub proof fn lemma_nested_result_is_dir(
    t: Seq<SpecFsEntry>,
    start: Seq<Seq<char>>,
    f: Seq<char>,
    r: Option<Seq<Seq<char>>>,
)
    requires
        tree_wf(t),
        nested_search_post(t, start, f, r),
    ensures
        r matches Some(d) ==> dir_at(t, d),
{
    if r is Some && nested_root(t, start) is Some {
        let root = nested_root(t, start).unwrap();
        let d = r.unwrap();
        let i = choose|i: int|
            0 <= i < t.len() && nested_match(root, f, #[trigger] t[i]) && d == parent_of(t[i].path);
        if t[i].path.len() > 1 {
            assert(entry_at(t, t[i].path.subrange(0, t[i].path.len() - 1), true));
        }
    }
}

// ---------------------------------------------------------------------
// Upward search
// ---------------------------------------------------------------------

/// What the upward search returns: nothing when the starting path names
/// nothing (the walk cannot even begin); otherwise the longest prefix of
/// the starting path, the filesystem root excluded, whose directory
/// directly contains `f` — or nothing when no such prefix exists.
pub open spec fn upward_search_post(
    t: Seq<SpecFsEntry>,
    start: Seq<Seq<char>>,
    f: Seq<char>,
    r: Option<Seq<Seq<char>>>,
) -> bool {
    match r {
        Some(d) => {
            &&& path_exists(t, start)
            &&& 1 <= d.len() <= start.len()
            &&& d == start.subrange(0, d.len() as int)
            &&& path_present(t, d.push(f))
            &&& forall|m: int|
                d.len() < m <= start.len() ==> !path_present(
                    t,
                    #[trigger] start.subrange(0, m).push(f),
                )
        },
        None => !path_exists(t, start) || forall|m: int|
            1 <= m <= start.len() ==> !path_present(t, #[trigger] start.subrange(0, m).push(f)),
    }
}

/// Walk from `starter_path` up toward the filesystem root and return the
/// first directory on the way, the starting level included and the root
/// itself excluded, that directly contains an entry named `file_name`;
/// return nothing when the starting path names nothing or when the walk
/// reaches the root without a find.
pub fn find_parent_dir_with_file(
    tree: &FsTree,
    starter_path: &Vec<String>,
    file_name: &str,
) -> (r: Option<Vec<String>>)
    ensures
        upward_search_post(tree@, starter_path.deep_view(), file_name@, r.deep_view()),
{
    let ghost start = starter_path.deep_view();
    if !path_exists_exec(tree, starter_path) {
        return None;
    }
    let fname: String = file_name.to_owned();
    let mut k: usize = starter_path.len();
    while k > 0
        invariant
            start == starter_path.deep_view(),
            fname@ == file_name@,
            path_exists(tree@, start),
            0 <= k <= starter_path.len(),
            forall|m: int|
                k < m <= start.len() ==> !path_present(
                    tree@,
                    #[trigger] start.subrange(0, m).push(file_name@),
                ),
        decreases k,
    {
        if child_present(tree, starter_path, k, &fname) {
            let d = path_prefix_copy(starter_path, k);
            proof {
                assert(d.deep_view().len() == k);
                assert(start.subrange(0, d.deep_view().len() as int) == d.deep_view());
                assert(path_present(tree@, d.deep_view().push(file_name@)));
            }
            return Some(d);
        }
        k -= 1;
    }
    None
}

/// Walk from `starter_path` up toward the filesystem root and return the
/// first directory on the way that directly contains a project manifest,
/// or nothing.
pub fn find_parent_manifest_dir(tree: &FsTree, starter_path: &Vec<String>) -> (r: Option<
    Vec<String>,
>)
    ensures
        upward_search_post(tree@, starter_path.deep_view(), manifest_file_name_spec(), r.deep_view()),
{
    find_parent_dir_with_file(tree, starter_path, manifest_file_name())
}

/// Idempotence of the upward search: its outcome is a function of the
/// snapshot and the arguments alone, so two calls against the same
/// filesystem state with the same arguments return the same directory.
pub proof fn lemma_upward_search_deterministic(
    t: Seq<SpecFsEntry>,
    start: Seq<Seq<char>>,
    f: Seq<char>,
    r1: Option<Seq<Seq<char>>>,
    r2: Option<Seq<Seq<char>>>,
)
    requires
        upward_search_post(t, start, f, r1),
        upward_search_post(t, start, f, r2),
    ensures
        r1 == r2,
{
    match (r1, r2) {
        (Some(d1), Some(d2)) => {
            if d1.len() < d2.len() {
                assert(!path_present(t, start.subrange(0, d2.len() as int).push(f)));
            }
            if d2.len() < d1.len() {
                assert(!path_present(t, start.subrange(0, d1.len() as int).push(f)));
            }
        },
        (Some(d1), None) => {
            assert(!path_present(t, start.subrange(0, d1.len() as int).push(f)));
        },
        (None, Some(d2)) => {
            assert(!path_present(t, start.subrange(0, d2.len() as int).push(f)));
        },
        (None, None) => {},
    }
}

// ---------------------------------------------------------------------
// Upward search gated by an acceptance check
// ---------------------------------------------------------------------

/// The ancestor made of the first `m` components of `start` directly
/// contains a project manifest; the filesystem root does not count.
pub open spec fn manifest_level(t: Seq<SpecFsEntry>, start: Seq<Seq<char>>, m: int) -> bool {
    1 <= m <= start.len() && path_present(
        t,
        start.subrange(0, m).push(manifest_file_name_spec()),
    )
}

/// The caller's acceptance check returned false on the ancestor made of
/// the first `m` components of `start`.
pub open spec fn level_rejected<F: Fn(&Vec<String>) -> bool>(
    check: F,
    start: Seq<Seq<char>>,
    m: int,
) -> bool {
    exists|v: Vec<String>|
        v.deep_view() == start.subrange(0, m) && call_ensures(check, (&v,), false)
}

/// What the checked upward search returns: the deepest manifest-holding
/// ancestor of the starting path that the caller's check accepted, every
/// manifest-holding ancestor below it having been offered to the check
/// and rejected; or nothing, when the starting path names nothing or the
/// check rejected every manifest-holding ancestor.
pub open spec fn checked_search_post<F: Fn(&Vec<String>) -> bool>(
    t: Seq<SpecFsEntry>,
    start: Seq<Seq<char>>,
    check: F,
    r: Option<Seq<Seq<char>>>,
) -> bool {
    match r {
        Some(d) => {
            &&& path_exists(t, start)
            &&& manifest_level(t, start, d.len() as int)
            &&& d == start.subrange(0, d.len() as int)
            &&& exists|v: Vec<String>| v.deep_view() == d && call_ensures(check, (&v,), true)
            &&& forall|m: int|
                d.len() < m <= start.len() && manifest_level(t, start, m) ==> level_rejected(
                    check,
                    start,
                    m,
                )
        },
        None => !path_exists(t, start) || forall|m: int|
            manifest_level(t, start, m) ==> level_rejected(check, start, m),
    }
}

/// Walk from `starter_path` up toward the filesystem root; each time a
/// directory with a project manifest is found, ask the caller's `check`;
/// return the first such directory it accepts, or nothing when the walk
/// runs out of manifest-holding ancestors (or the starting path names
/// nothing). Every manifest-holding ancestor below the returned one was
/// offered to `check` and rejected.
pub fn find_parent_manifest_dir_with_check<F: Fn(&Vec<String>) -> bool>(
    tree: &FsTree,
    starter_path: &Vec<String>,
    check: F,
) -> (r: Option<Vec<String>>)
    requires
        tree.wf(),
        forall|v: Vec<String>| call_requires(check, (&v,)),
    ensures
        checked_search_post(tree@, starter_path.deep_view(), check, r.deep_view()),
        r matches Some(d) ==> call_ensures(check, (&d,), true) && dir_at(tree@, d.deep_view()),
{
    let ghost start = starter_path.deep_view();
    let mut cur: Vec<String> = path_prefix_copy(starter_path, starter_path.len());
    proof {
        assert(cur.deep_view() =~= start);
    }
    loop
        invariant
            tree.wf(),
            forall|v: Vec<String>| call_requires(check, (&v,)),
            start == starter_path.deep_view(),
            cur.deep_view().len() <= start.len(),
            cur.deep_view() == start.subrange(0, cur.deep_view().len() as int),
            cur.deep_view().len() == start.len() || path_exists(tree@, cur.deep_view()),
            cur.deep_view().len() < start.len() ==> path_exists(tree@, start),
            forall|m: int|
                cur.deep_view().len() < m <= start.len() && manifest_level(tree@, start, m)
                    ==> level_rejected(check, start, m),
        decreases cur.len(),
    {
        let ghost curv = cur.deep_view();
        proof {
            assert forall|m: int| 1 <= m <= curv.len() implies #[trigger] curv.subrange(0, m)
                == start.subrange(0, m) by {
                assert(curv.subrange(0, m) =~= start.subrange(0, m));
            }
        }
        match find_parent_manifest_dir(tree, &cur) {
            None => {
                proof {
                    if curv.len() == start.len() {
                        assert(curv =~= start);
                    }
                    if path_exists(tree@, curv) {
                        assert forall|m: int|
                            manifest_level(tree@, start, m) implies level_rejected(
                            check,
                            start,
                            m,
                        ) by {
                            if m <= curv.len() {
                                assert(!path_present(
                                    tree@,
                                    curv.subrange(0, m).push(manifest_file_name_spec()),
                                ));
                            }
                        }
                    } else {
                        assert(!path_exists(tree@, start));
                    }
                }
                return None;
            },
            Some(d) => {
                let ghost dv = d.deep_view();
                proof {
                    assert(dv == curv.subrange(0, dv.len() as int));
                    assert(dv =~= start.subrange(0, dv.len() as int));
                    assert(manifest_level(tree@, start, dv.len() as int));
                }
                if check(&d) {
                    proof {
                        // The returned directory exists as a directory: the
                        // manifest entry's ancestors are directories.
                        let i = choose|i: int|
                            0 <= i < tree@.len() && tree@[i].path == dv.push(
                                manifest_file_name_spec(),
                            );
                        assert(tree@[i].path.len() == dv.len() + 1);
                        if dv.len() >= 1 {
                            assert(entry_at(
                                tree@,
                                tree@[i].path.subrange(0, dv.len() as int),
                                true,
                            ));
                            assert(tree@[i].path.subrange(0, dv.len() as int) =~= dv);
                        }
                        assert forall|m: int|
                            dv.len() < m <= start.len() && manifest_level(tree@, start, m)
                                implies level_rejected(check, start, m) by {
                            if m <= curv.len() {
                                assert(!path_present(
                                    tree@,
                                    curv.subrange(0, m).push(manifest_file_name_spec()),
                                ));
                            }
                        }
                        if curv.len() == start.len() {
                            assert(curv =~= start);
                        }
                    }
                    return Some(d);
                }
                // The check rejected this manifest directory: resume the
                // walk one level above it.
                let dl = d.len();
                proof {
                    assert(dv.len() == dl);
                }
                let next = path_prefix_copy(&d, dl - 1);
                proof {
                    let ghost nv = next.deep_view();
                    assert(nv =~= start.subrange(0, dl - 1));
                    // The new starting point exists: it is an ancestor of
                    // the manifest entry, hence a directory (or the root).
                    let i = choose|i: int|
                        0 <= i < tree@.len() && tree@[i].path == dv.push(manifest_file_name_spec());
                    assert(tree@[i].path.len() == dv.len() + 1);
                    if dl - 1 >= 1 {
                        assert(entry_at(tree@, tree@[i].path.subrange(0, dl - 1 as int), true));
                        assert(tree@[i].path.subrange(0, dl - 1 as int) =~= nv);
                    }
                    if curv.len() == start.len() {
                        assert(curv =~= start);
                    }
                    // Record the rejection of this level.
                    assert(level_rejected(check, start, dl as int));
                    assert forall|m: int|
                        dl - 1 < m <= start.len() && manifest_level(tree@, start, m)
                            implies level_rejected(check, start, m) by {
                        if m != dl && m <= curv.len() {
                            assert(!path_present(
                                tree@,
                                curv.subrange(0, m).push(manifest_file_name_spec()),
                            ));
                        }
                    }
                }
                cur = next;
            },
        }
    }
}

/// Idempotence of the checked upward search: when the caller's check is a
/// function of the directory path alone — it accepts exactly the paths in
/// some set `accepts` — the search's outcome is a function of the
/// snapshot, the starting path and that set, so two calls against the
/// same filesystem state with the same arguments return the same
/// directory.
pub proof fn lemma_checked_search_deterministic<F: Fn(&Vec<String>) -> bool>(
    t: Seq<SpecFsEntry>,
    start: Seq<Seq<char>>,
    check: F,
    accepts: Set<Seq<Seq<char>>>,
    r1: Option<Seq<Seq<char>>>,
    r2: Option<Seq<Seq<char>>>,
)
    requires
        forall|v: Vec<String>, b: bool|
            call_ensures(check, (&v,), b) ==> b == accepts.contains(v.deep_view()),
        checked_search_post(t, start, check, r1),
        checked_search_post(t, start, check, r2),
    ensures
        r1 == r2,
{
    match (r1, r2) {
        (Some(d1), Some(d2)) => {
            if d1.len() < d2.len() {
                assert(accepts.contains(d2));
                assert(level_rejected(check, start, d2.len() as int));
                assert(!accepts.contains(d2));
            }
            if d2.len() < d1.len() {
                assert(accepts.contains(d1));
                assert(level_rejected(check, start, d1.len() as int));
                assert(!accepts.contains(d1));
            }
        },
        (Some(d1), None) => {
            assert(accepts.contains(d1));
            assert(level_rejected(check, start, d1.len() as int));
            assert(!accepts.contains(d1));
        },
        (None, Some(d2)) => {
            assert(accepts.contains(d2));
            assert(level_rejected(check, start, d2.len() as int));
            assert(!accepts.contains(d2));
        },
        (None, None) => {},
    }
}

/// Under a well-formed snapshot, what the upward search returns denotes a
/// directory, never a file.
pub proof fn lemma_upward_result_is_dir(
    t: Seq<SpecFsEntry>,
    start: Seq<Seq<char>>,
    f: Seq<char>,
    r: Option<Seq<Seq<char>>>,
)
    requires
        tree_wf(t),
        upward_search_post(t, start, f, r),
    ensures
        r matches Some(d) ==> dir_at(t, d),
{
    if r is Some {
        let d = r.unwrap();
        let i = choose|i: int| 0 <= i < t.len() && t[i].path == d.push(f);
        assert(t[i].path.len() == d.len() + 1);
        assert(entry_at(t, t[i].path.subrange(0, d.len() as int), true));
        assert(t[i].path.subrange(0, d.len() as int) =~= d);
    }
}

} // verus!

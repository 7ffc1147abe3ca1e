//! A snapshot of the part of a filesystem that a search needs.
//!
//! The snapshot lists entries — a path plus whether it names a directory —
//! in the order the caller recorded them while walking the real tree. The
//! filesystem root (the empty path) is always a directory and is never
//! listed. A well-formed snapshot lists each path once and lists every
//! ancestor of an entry as a directory, as a real filesystem does.

use crate::path_model::{path_eq, str_eq};
use vstd::prelude::*;

verus! {

/// One filesystem entry: where it is, and whether it is a directory.
pub struct FsEntry {
    /// The components of the entry's path; never empty.
    pub path: Vec<String>,
    /// True for a directory, false for a regular file.
    pub is_dir: bool,
}

/// The ghost value of an [`FsEntry`].
pub struct SpecFsEntry {
    /// The components of the entry's path.
    pub path: Seq<Seq<char>>,
    /// True for a directory, false for a regular file.
    pub is_dir: bool,
}

impl View for FsEntry {
    type V = SpecFsEntry;

    open spec fn view(&self) -> SpecFsEntry {
        SpecFsEntry { path: self.path.deep_view(), is_dir: self.is_dir }
    }
}

/// A filesystem snapshot: the entries seen while walking the real tree.
pub struct FsTree {
    /// The recorded entries, in the order the walk yielded them.
    pub entries: Vec<FsEntry>,
}

impl View for FsTree {
    type V = Seq<SpecFsEntry>;

    open spec fn view(&self) -> Seq<SpecFsEntry> {
        Seq::new(self.entries@.len(), |i: int| self.entries@[i]@)
    }
}

/// Some entry of `t` has path `p` and kind `is_dir`.
pub open spec fn entry_at(t: Seq<SpecFsEntry>, p: Seq<Seq<char>>, is_dir: bool) -> bool {
    exists|i: int| 0 <= i < t.len() && t[i].path == p && t[i].is_dir == is_dir
}

/// Some entry of `t` has path `p`, of either kind.
pub open spec fn path_present(t: Seq<SpecFsEntry>, p: Seq<Seq<char>>) -> bool {
    exists|i: int| 0 <= i < t.len() && t[i].path == p
}

/// `p` names a directory: the implicit root, or a directory entry.
pub open spec fn dir_at(t: Seq<SpecFsEntry>, p: Seq<Seq<char>>) -> bool {
    p.len() == 0 || entry_at(t, p, true)
}

/// `p` names a regular file.
pub open spec fn file_at(t: Seq<SpecFsEntry>, p: Seq<Seq<char>>) -> bool {
    entry_at(t, p, false)
}

/// `p` names something: the implicit root, a directory, or a file.
pub open spec fn path_exists(t: Seq<SpecFsEntry>, p: Seq<Seq<char>>) -> bool {
    p.len() == 0 || path_present(t, p)
}

/// The snapshot describes a possible filesystem: no entry names the root,
/// no path is listed twice, and every proper ancestor of an entry is
/// listed as a directory.
pub open spec fn tree_wf(t: Seq<SpecFsEntry>) -> bool {
    &&& forall|i: int| 0 <= i < t.len() ==> (#[trigger] t[i]).path.len() > 0
    &&& forall|i: int, j: int|
        0 <= i < j < t.len() ==> (#[trigger] t[i]).path != (#[trigger] t[j]).path
    &&& forall|i: int, k: int|
        0 <= i < t.len() && 1 <= k < t[i].path.len() ==> entry_at(
            t,
            #[trigger] t[i].path.subrange(0, k),
            true,
        )
}

impl FsTree {
    /// The snapshot describes a possible filesystem.
    pub open spec fn wf(&self) -> bool {
        tree_wf(self@)
    }
}

/// True when `p` holds the first `k` components of `base` followed by `name`.
fn matches_child(p: &Vec<String>, base: &Vec<String>, k: usize, name: &String) -> (r: bool)
    requires
        k <= base.len(),
    ensures
        r == (p.deep_view() == base.deep_view().subrange(0, k as int).push(name@)),
{
    let ghost target = base.deep_view().subrange(0, k as int).push(name@);
    if p.len() == 0 || p.len() - 1 != k {
        assert(p.deep_view().len() != target.len());
        return false;
    }
    let mut i: usize = 0;
    while i < k
        invariant
            k <= base.len(),
            p.len() == k + 1,
            0 <= i <= k,
            target == base.deep_view().subrange(0, k as int).push(name@),
            forall|j: int| 0 <= j < i ==> p.deep_view()[j] == target[j],
        decreases k - i,
    {
        if !str_eq(&p[i], &base[i]) {
            assert(p.deep_view()[i as int] != target[i as int]);
            return false;
        }
        i += 1;
    }
    if !str_eq(&p[k], name) {
        assert(p.deep_view()[k as int] != target[k as int]);
        return false;
    }
    assert(p.deep_view() =~= target);
    true
}

/// Some entry of `tree` sits at `base[..k]` extended with `name`.
pub fn child_present(tree: &FsTree, base: &Vec<String>, k: usize, name: &String) -> (r: bool)
    requires
        k <= base.len(),
    ensures
        r == path_present(tree@, base.deep_view().subrange(0, k as int).push(name@)),
{
    let ghost target = base.deep_view().subrange(0, k as int).push(name@);
    let n = tree.entries.len();
    let mut i: usize = 0;
    while i < n
        invariant
            k <= base.len(),
            n == tree.entries.len(),
            0 <= i <= n,
            target == base.deep_view().subrange(0, k as int).push(name@),
            forall|j: int| 0 <= j < i ==> tree@[j].path != target,
        decreases n - i,
    {
        if matches_child(&tree.entries[i].path, base, k, name) {
            assert(tree@[i as int].path == target);
            return true;
        }
        i += 1;
    }
    false
}

/// `p` names a directory in the snapshot, the implicit root included.
pub fn dir_present(tree: &FsTree, p: &Vec<String>) -> (r: bool)
    ensures
        r == dir_at(tree@, p.deep_view()),
{
    if p.len() == 0 {
        return true;
    }
    let n = tree.entries.len();
    let mut i: usize = 0;
    while i < n
        invariant
            n == tree.entries.len(),
            p.len() > 0,
            0 <= i <= n,
            forall|j: int|
                0 <= j < i ==> !(tree@[j].path == p.deep_view() && tree@[j].is_dir == true),
        decreases n - i,
    {
        if tree.entries[i].is_dir && path_eq(&tree.entries[i].path, p) {
            assert(tree@[i as int].path == p.deep_view() && tree@[i as int].is_dir == true);
            return true;
        }
        i += 1;
    }
    assert(p.deep_view().len() != 0);
    false
}

/// `p` names a regular file in the snapshot.
pub fn file_present(tree: &FsTree, p: &Vec<String>) -> (r: bool)
    ensures
        r == file_at(tree@, p.deep_view()),
{
    let n = tree.entries.len();
    let mut i: usize = 0;
    while i < n
        invariant
            n == tree.entries.len(),
            0 <= i <= n,
            forall|j: int|
                0 <= j < i ==> !(tree@[j].path == p.deep_view() && tree@[j].is_dir == false),
        decreases n - i,
    {
        if !tree.entries[i].is_dir && path_eq(&tree.entries[i].path, p) {
            assert(tree@[i as int].path == p.deep_view() && tree@[i as int].is_dir == false);
            return true;
        }
        i += 1;
    }
    false
}

/// `p` names something in the snapshot, the implicit root included.
pub fn path_exists_exec(tree: &FsTree, p: &Vec<String>) -> (r: bool)
    ensures
        r == path_exists(tree@, p.deep_view()),
{
    if p.len() == 0 {
        return true;
    }
    let n = tree.entries.len();
    let mut i: usize = 0;
    while i < n
        invariant
            n == tree.entries.len(),
            p.len() > 0,
            0 <= i <= n,
            forall|j: int| 0 <= j < i ==> tree@[j].path != p.deep_view(),
        decreases n - i,
    {
        if path_eq(&tree.entries[i].path, p) {
            assert(tree@[i as int].path == p.deep_view());
            return true;
        }
        i += 1;
    }
    assert(p.deep_view().len() != 0);
    false
}

} // verus!

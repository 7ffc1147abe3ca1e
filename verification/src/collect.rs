//! The extension filter and the source-file collector.
//!
//! [`is_sway_file`] is the leaf predicate: an existing regular file whose
//! extension equals the configured one. [`get_sway_files`] gathers every
//! file under a root directory that passes the filter.

use crate::fs_tree::{dir_at, file_at, file_present, path_present, tree_wf, FsEntry, FsTree, SpecFsEntry};
use crate::path_model::{
    has_extension, is_path_prefix, is_prefix_exec, name_has_extension, path_prefix_copy,
};
use crate::{sway_extension, sway_extension_spec};
use vstd::prelude::*;

verus! {

/// `p` names an existing regular file with the configured source extension.
pub open spec fn spec_is_sway_file(t: Seq<SpecFsEntry>, p: Seq<Seq<char>>) -> bool {
    &&& p.len() > 0
    &&& file_at(t, p)
    &&& has_extension(p.last(), sway_extension_spec())
}

/// True iff `file` names an existing regular file — not a directory, not
/// absent — whose extension equals the configured source extension.
pub fn is_sway_file(tree: &FsTree, file: &Vec<String>) -> (r: bool)
    ensures
        r == spec_is_sway_file(tree@, file.deep_view()),
{
    if file.len() == 0 {
        return false;
    }
    if !file_present(tree, file) {
        return false;
    }
    name_has_extension(file[file.len() - 1].as_str(), sway_extension())
}

/// Law of the extension filter: it rejects every path that names nothing,
/// every path that names a directory, and every path whose name's
/// extension is not the configured one — a name with no extension
/// included.
pub proof fn lemma_extension_filter_rejects(t: Seq<SpecFsEntry>, p: Seq<Seq<char>>)
    requires
        tree_wf(t),
    ensures
        !path_present(t, p) ==> !spec_is_sway_file(t, p),
        dir_at(t, p) ==> !spec_is_sway_file(t, p),
        p.len() > 0 && !has_extension(p.last(), sway_extension_spec()) ==> !spec_is_sway_file(
            t,
            p,
        ),
{
    if dir_at(t, p) && file_at(t, p) {
        let i = choose|i: int| 0 <= i < t.len() && t[i].path == p && t[i].is_dir == true;
        let j = choose|j: int| 0 <= j < t.len() && t[j].path == p && t[j].is_dir == false;
        assert(t[i].path == t[j].path && i != j);
    }
}

/// The entry is a regular file strictly under `root` whose name carries
/// the configured source extension.
pub open spec fn sway_file_match(root: Seq<Seq<char>>, e: SpecFsEntry) -> bool {
    &&& !e.is_dir
    &&& e.path.len() > root.len()
    &&& is_path_prefix(root, e.path)
    &&& has_extension(e.path.last(), sway_extension_spec())
}

fn entry_matches_sway(e: &FsEntry, root: &Vec<String>) -> (r: bool)
    ensures
        r == sway_file_match(root.deep_view(), e@),
{
    if e.is_dir {
        return false;
    }
    if e.path.len() <= root.len() {
        return false;
    }
    if !is_prefix_exec(root, &e.path) {
        return false;
    }
    name_has_extension(e.path[e.path.len() - 1].as_str(), sway_extension())
}

/// All regular files under the directory `path`, at any depth, whose
/// extension is the configured source extension, in the order the
/// snapshot lists them.
///
/// The first clause pins the result exactly; the second restates it as a
/// membership law: a path is returned iff the snapshot holds a matching
/// file entry for it. The root itself is never returned, and no directory
/// is ever returned.
pub fn get_sway_files(tree: &FsTree, path: &Vec<String>) -> (files: Vec<Vec<String>>)
    ensures
        files.deep_view() == tree@.filter(
            |e: SpecFsEntry| sway_file_match(path.deep_view(), e),
        ).map_values(|e: SpecFsEntry| e.path),
        forall|p: Seq<Seq<char>>|
            #[trigger] files.deep_view().contains(p) <==> exists|i: int|
                0 <= i < tree@.len() && sway_file_match(path.deep_view(), #[trigger] tree@[i])
                    && tree@[i].path == p,
{
    broadcast use vstd::prelude::Seq::lemma_filter_push;

    let ghost rootv = path.deep_view();
    let ghost pred = |e: SpecFsEntry| sway_file_match(rootv, e);
    let ghost pathof = |e: SpecFsEntry| e.path;
    let n = tree.entries.len();
    let mut files: Vec<Vec<String>> = Vec::new();
    let mut i: usize = 0;
    while i < n
        invariant
            n == tree.entries.len(),
            0 <= i <= n,
            rootv == path.deep_view(),
            pred == (|e: SpecFsEntry| sway_file_match(rootv, e)),
            pathof == (|e: SpecFsEntry| e.path),
            files.deep_view() == tree@.subrange(0, i as int).filter(pred).map_values(pathof),
            forall|p: Seq<Seq<char>>|
                #[trigger] files.deep_view().contains(p) <==> exists|j: int|
                    0 <= j < i && sway_file_match(rootv, #[trigger] tree@[j]) && tree@[j].path
                        == p,
        decreases n - i,
    {
        let ghost old_files = files.deep_view();
        let ghost prefix = tree@.subrange(0, i as int);
        assert(tree@.subrange(0, i + 1) =~= prefix.push(tree@[i as int]));
        if entry_matches_sway(&tree.entries[i], path) {
            let p = path_prefix_copy(&tree.entries[i].path, tree.entries[i].path.len());
            assert(p.deep_view() =~= tree@[i as int].path);
            files.push(p);
            proof {
                assert(files.deep_view() =~= old_files.push(tree@[i as int].path));
                prefix.lemma_filter_push(tree@[i as int], pred);
                assert(pred(tree@[i as int]));
                assert(files.deep_view() =~= tree@.subrange(0, i + 1).filter(pred).map_values(
                    pathof,
                ));
                assert forall|q: Seq<Seq<char>>| #[trigger]
                    files.deep_view().contains(q) implies exists|j: int|
                    0 <= j < i + 1 && sway_file_match(rootv, #[trigger] tree@[j]) && tree@[j].path
                        == q by {
                    if old_files.contains(q) {
                    } else {
                        let w = choose|w: int| 0 <= w < files.deep_view().len() && files.deep_view()[w] == q;
                        assert(q == tree@[i as int].path);
                        assert(sway_file_match(rootv, tree@[i as int]));
                    }
                }
                assert forall|q: Seq<Seq<char>>|
                    (exists|j: int|
                        0 <= j < i + 1 && sway_file_match(rootv, #[trigger] tree@[j])
                            && tree@[j].path == q) implies #[trigger] files.deep_view().contains(
                    q,
                ) by {
                    let j = choose|j: int|
                        0 <= j < i + 1 && sway_file_match(rootv, tree@[j]) && tree@[j].path == q;
                    if j < i {
                        assert(old_files.contains(q));
                        let w = choose|w: int| 0 <= w < old_files.len() && old_files[w] == q;
                        assert(files.deep_view()[w] == q);
                    } else {
                        assert(files.deep_view()[files.deep_view().len() - 1] == q);
                    }
                }
            }
        } else {
            proof {
                prefix.lemma_filter_push(tree@[i as int], pred);
                assert(!pred(tree@[i as int]));
                assert forall|q: Seq<Seq<char>>|
                    (exists|j: int|
                        0 <= j < i + 1 && sway_file_match(rootv, #[trigger] tree@[j])
                            && tree@[j].path == q) implies #[trigger] files.deep_view().contains(
                    q,
                ) by {
                    let j = choose|j: int|
                        0 <= j < i + 1 && sway_file_match(rootv, tree@[j]) && tree@[j].path == q;
                    assert(j < i);
                }
            }
        }
        i += 1;
    }
    assert(tree@.subrange(0, n as int) =~= tree@);
    files
}

} // verus!

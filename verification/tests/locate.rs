use sway_utils::fs_tree::{FsEntry, FsTree};
use sway_utils::locate::{
    find_nested_dir_with_file, find_nested_manifest_dir, find_parent_dir_with_file,
    find_parent_manifest_dir, find_parent_manifest_dir_with_check,
};

fn path(parts: &[&str]) -> Vec<String> {
    parts.iter().map(|s| s.to_string()).collect()
}

fn entry(parts: &[&str], is_dir: bool) -> FsEntry {
    FsEntry { path: path(parts), is_dir }
}

/// The snapshot of `/p` directly holding `Forc.toml` and a subdirectory
/// `sub` that holds another `Forc.toml`.
fn nested_tree() -> FsTree {
    FsTree {
        entries: vec![
            entry(&["p"], true),
            entry(&["p", "Forc.toml"], false),
            entry(&["p", "sub"], true),
            entry(&["p", "sub", "Forc.toml"], false),
        ],
    }
}

#[test]
fn downward_search_skips_the_direct_occurrence() {
    let tree = nested_tree();
    assert_eq!(find_nested_manifest_dir(&tree, &path(&["p"])), Some(path(&["p", "sub"])));
    assert_eq!(
        find_nested_dir_with_file(&tree, &path(&["p"]), "Forc.toml"),
        Some(path(&["p", "sub"]))
    );
}

#[test]
fn downward_search_with_no_match_returns_absent() {
    let tree = FsTree {
        entries: vec![
            entry(&["p"], true),
            entry(&["p", "a.sw"], false),
            entry(&["p", "sub"], true),
        ],
    };
    assert_eq!(find_nested_manifest_dir(&tree, &path(&["p"])), None);
}

#[test]
fn downward_search_with_only_the_direct_occurrence_returns_absent() {
    let tree = FsTree {
        entries: vec![entry(&["p"], true), entry(&["p", "Forc.toml"], false)],
    };
    assert_eq!(find_nested_manifest_dir(&tree, &path(&["p"])), None);
}

#[test]
fn downward_search_from_a_file_roots_at_its_directory() {
    let tree = FsTree {
        entries: vec![
            entry(&["p"], true),
            entry(&["p", "main.sw"], false),
            entry(&["p", "sub"], true),
            entry(&["p", "sub", "Forc.toml"], false),
        ],
    };
    assert_eq!(
        find_nested_manifest_dir(&tree, &path(&["p", "main.sw"])),
        Some(path(&["p", "sub"]))
    );
}

#[test]
fn downward_search_from_an_absent_path_returns_absent() {
    let tree = nested_tree();
    assert_eq!(find_nested_manifest_dir(&tree, &path(&["nowhere"])), None);
}

#[test]
fn downward_search_finds_other_file_names() {
    let tree = FsTree {
        entries: vec![
            entry(&["p"], true),
            entry(&["p", "inner"], true),
            entry(&["p", "inner", "notes.txt"], false),
        ],
    };
    assert_eq!(
        find_nested_dir_with_file(&tree, &path(&["p"]), "notes.txt"),
        Some(path(&["p", "inner"]))
    );
    assert_eq!(find_nested_dir_with_file(&tree, &path(&["p"]), "absent.txt"), None);
}

/// The snapshot of `/root/a/b` where `/root/a/Forc.toml` exists and
/// `/root/Forc.toml` does not.
fn upward_tree() -> FsTree {
    FsTree {
        entries: vec![
            entry(&["root"], true),
            entry(&["root", "a"], true),
            entry(&["root", "a", "Forc.toml"], false),
            entry(&["root", "a", "b"], true),
        ],
    }
}

#[test]
fn upward_search_returns_the_nearest_ancestor_with_the_file() {
    let tree = upward_tree();
    assert_eq!(
        find_parent_manifest_dir(&tree, &path(&["root", "a", "b"])),
        Some(path(&["root", "a"]))
    );
    assert_eq!(
        find_parent_dir_with_file(&tree, &path(&["root", "a", "b"]), "Forc.toml"),
        Some(path(&["root", "a"]))
    );
}

#[test]
fn upward_search_from_the_filesystem_root_returns_absent() {
    let tree = upward_tree();
    let root: Vec<String> = Vec::new();
    assert_eq!(find_parent_manifest_dir(&tree, &root), None);
}

#[test]
fn upward_search_with_no_match_anywhere_returns_absent() {
    let tree = FsTree {
        entries: vec![
            entry(&["root"], true),
            entry(&["root", "a"], true),
            entry(&["root", "a", "b"], true),
        ],
    };
    assert_eq!(find_parent_manifest_dir(&tree, &path(&["root", "a", "b"])), None);
}

#[test]
fn upward_search_starts_at_the_starting_level_itself() {
    let tree = FsTree {
        entries: vec![
            entry(&["root"], true),
            entry(&["root", "a"], true),
            entry(&["root", "a", "Forc.toml"], false),
        ],
    };
    assert_eq!(
        find_parent_manifest_dir(&tree, &path(&["root", "a"])),
        Some(path(&["root", "a"]))
    );
}

#[test]
fn upward_search_from_an_absent_path_returns_absent() {
    // The starting path cannot be resolved at all, as when
    // canonicalization fails on a path that does not exist.
    let tree = upward_tree();
    assert_eq!(find_parent_manifest_dir(&tree, &path(&["root", "zzz", "b"])), None);
}

#[test]
fn upward_search_from_a_file_checks_its_directory() {
    let tree = FsTree {
        entries: vec![
            entry(&["p"], true),
            entry(&["p", "Forc.toml"], false),
            entry(&["p", "x.txt"], false),
        ],
    };
    assert_eq!(find_parent_manifest_dir(&tree, &path(&["p", "x.txt"])), Some(path(&["p"])));
}

/// The snapshot of `/root/a/b` with manifests at `/root/a` and `/root`.
fn two_manifest_tree() -> FsTree {
    FsTree {
        entries: vec![
            entry(&["root"], true),
            entry(&["root", "Forc.toml"], false),
            entry(&["root", "a"], true),
            entry(&["root", "a", "Forc.toml"], false),
            entry(&["root", "a", "b"], true),
        ],
    }
}

#[test]
fn checked_search_skips_rejected_manifest_dirs() {
    let tree = two_manifest_tree();
    // The check rejects /root/a and accepts /root.
    let result = find_parent_manifest_dir_with_check(&tree, &path(&["root", "a", "b"]), |d: &Vec<
        String,
    >| d.len() == 1);
    assert_eq!(result, Some(path(&["root"])));
}

#[test]
fn checked_search_returns_the_nearest_accepted_manifest_dir() {
    let tree = two_manifest_tree();
    let result =
        find_parent_manifest_dir_with_check(&tree, &path(&["root", "a", "b"]), |_d: &Vec<String>| {
            true
        });
    assert_eq!(result, Some(path(&["root", "a"])));
}

#[test]
fn checked_search_with_every_manifest_rejected_returns_absent() {
    let tree = two_manifest_tree();
    let result =
        find_parent_manifest_dir_with_check(&tree, &path(&["root", "a", "b"]), |_d: &Vec<String>| {
            false
        });
    assert_eq!(result, None);
}

#[test]
fn checked_search_from_an_absent_path_returns_absent() {
    let tree = two_manifest_tree();
    let result =
        find_parent_manifest_dir_with_check(&tree, &path(&["none", "here"]), |_d: &Vec<String>| {
            true
        });
    assert_eq!(result, None);
}

#[test]
fn searches_are_idempotent() {
    let tree = two_manifest_tree();
    let start = path(&["root", "a", "b"]);
    assert_eq!(
        find_parent_manifest_dir(&tree, &start),
        find_parent_manifest_dir(&tree, &start)
    );
    assert_eq!(
        find_nested_manifest_dir(&tree, &path(&["root"])),
        find_nested_manifest_dir(&tree, &path(&["root"]))
    );
    assert_eq!(
        find_parent_manifest_dir_with_check(&tree, &start, |d: &Vec<String>| d.len() == 1),
        find_parent_manifest_dir_with_check(&tree, &start, |d: &Vec<String>| d.len() == 1)
    );
}

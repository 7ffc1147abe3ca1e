use sway_utils::collect::{get_sway_files, is_sway_file};
use sway_utils::fs_tree::{FsEntry, FsTree};

fn path(parts: &[&str]) -> Vec<String> {
    parts.iter().map(|s| s.to_string()).collect()
}

fn entry(parts: &[&str], is_dir: bool) -> FsEntry {
    FsEntry { path: path(parts), is_dir }
}

/// The snapshot of a directory `/p` holding `a.sw`, `b.sw`, `c.txt` and a
/// subdirectory `d` with `e.sw` inside.
fn sample_tree() -> FsTree {
    FsTree {
        entries: vec![
            entry(&["p"], true),
            entry(&["p", "a.sw"], false),
            entry(&["p", "b.sw"], false),
            entry(&["p", "c.txt"], false),
            entry(&["p", "d"], true),
            entry(&["p", "d", "e.sw"], false),
        ],
    }
}

#[test]
fn collector_returns_exactly_the_sway_files() {
    let tree = sample_tree();
    let mut found = get_sway_files(&tree, &path(&["p"]));
    found.sort();
    let mut expected = vec![
        path(&["p", "a.sw"]),
        path(&["p", "b.sw"]),
        path(&["p", "d", "e.sw"]),
    ];
    expected.sort();
    assert_eq!(found, expected);
}

#[test]
fn collector_on_empty_directory_returns_nothing() {
    let tree = FsTree { entries: vec![entry(&["p"], true)] };
    assert_eq!(get_sway_files(&tree, &path(&["p"])), Vec::<Vec<String>>::new());
}

#[test]
fn collector_never_returns_a_directory() {
    let tree = FsTree {
        entries: vec![
            entry(&["p"], true),
            entry(&["p", "dir.sw"], true),
            entry(&["p", "dir.sw", "inner.sw"], false),
        ],
    };
    assert_eq!(get_sway_files(&tree, &path(&["p"])), vec![path(&["p", "dir.sw", "inner.sw"])]);
}

#[test]
fn collector_ignores_files_outside_the_root() {
    let tree = FsTree {
        entries: vec![
            entry(&["p"], true),
            entry(&["q"], true),
            entry(&["q", "x.sw"], false),
            entry(&["p", "y.sw"], false),
        ],
    };
    assert_eq!(get_sway_files(&tree, &path(&["p"])), vec![path(&["p", "y.sw"])]);
}

#[test]
fn filter_accepts_an_existing_sway_file() {
    let tree = sample_tree();
    assert!(is_sway_file(&tree, &path(&["p", "a.sw"])));
    assert!(is_sway_file(&tree, &path(&["p", "d", "e.sw"])));
}

#[test]
fn filter_rejects_an_absent_path() {
    let tree = sample_tree();
    assert!(!is_sway_file(&tree, &path(&["p", "missing.sw"])));
}

#[test]
fn filter_rejects_a_directory() {
    let tree = FsTree {
        entries: vec![entry(&["p"], true), entry(&["p", "d.sw"], true)],
    };
    assert!(!is_sway_file(&tree, &path(&["p", "d.sw"])));
    assert!(!is_sway_file(&tree, &path(&["p"])));
}

#[test]
fn filter_rejects_other_and_missing_extensions() {
    let tree = FsTree {
        entries: vec![
            entry(&["p"], true),
            entry(&["p", "c.txt"], false),
            entry(&["p", "noext"], false),
            entry(&["p", "a.SW"], false),
            entry(&["p", "a.swx"], false),
            entry(&["p", ".sw"], false),
            entry(&["p", "trailingdot."], false),
        ],
    };
    assert!(!is_sway_file(&tree, &path(&["p", "c.txt"])));
    assert!(!is_sway_file(&tree, &path(&["p", "noext"])));
    assert!(!is_sway_file(&tree, &path(&["p", "a.SW"])));
    assert!(!is_sway_file(&tree, &path(&["p", "a.swx"])));
    // A lone leading dot introduces no extension.
    assert!(!is_sway_file(&tree, &path(&["p", ".sw"])));
    assert!(!is_sway_file(&tree, &path(&["p", "trailingdot."])));
}

#[test]
fn filter_accepts_extension_after_the_last_dot_only() {
    let tree = FsTree {
        entries: vec![
            entry(&["p"], true),
            entry(&["p", "a.txt.sw"], false),
            entry(&["p", "a.sw.txt"], false),
        ],
    };
    assert!(is_sway_file(&tree, &path(&["p", "a.txt.sw"])));
    assert!(!is_sway_file(&tree, &path(&["p", "a.sw.txt"])));
}

#[test]
fn collector_and_filter_are_idempotent() {
    let tree = sample_tree();
    let root = path(&["p"]);
    assert_eq!(get_sway_files(&tree, &root), get_sway_files(&tree, &root));
    let file = path(&["p", "a.sw"]);
    assert_eq!(is_sway_file(&tree, &file), is_sway_file(&tree, &file));
}

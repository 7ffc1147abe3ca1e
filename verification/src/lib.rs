//! Directory-tree discovery utilities for a build system: locate project
//! manifest files and enumerate source files of a known extension.
//!
//! The searches are pure functions over a snapshot of the relevant part of
//! the filesystem (an [`fs_tree::FsTree`]): a caller walks the real
//! directories, records what it finds, and the library answers where the
//! nearest manifest is and which files are source files.

pub mod collect;
pub mod fs_tree;
pub mod locate;
pub mod path_model;
pub mod prefixes;

use vstd::prelude::*;

verus! {

/// The file extension that marks a source file of this language.
pub open spec fn sway_extension_spec() -> Seq<char> {
    "sw"@
}

/// The configured source-file extension, without a leading dot.
pub fn sway_extension() -> (r: &'static str)
    ensures
        r@ == sway_extension_spec(),
{
    "sw"
}

/// The reserved file name that marks a project manifest.
pub open spec fn manifest_file_name_spec() -> Seq<char> {
    "Forc.toml"@
}

/// The reserved project-manifest file name.
pub fn manifest_file_name() -> (r: &'static str)
    ensures
        r@ == manifest_file_name_spec(),
{
    "Forc.toml"
}

} // verus!

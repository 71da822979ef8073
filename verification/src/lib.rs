//! A verified core for a Homebrew-compatible package installer: a
//! content-addressed store catalog with transactional install/uninstall
//! records, canonical prefix/cellar path layout, bottle-content shape
//! selection, and the relocation passes that rewrite embedded Homebrew
//! paths in text files and binaries.
//!
//! Filesystem access, process spawning and the download pipeline live
//! outside this crate; the functions here take what was read from disk as
//! plain values and say exactly what they decide or compute.

use vstd::prelude::*;

pub mod binpatch;
pub mod cellar;
pub mod db;
pub mod elf;
pub mod elfpatch;
pub mod linker;
pub mod migrate;
pub mod pathfix;
pub mod paths;
pub mod relocate;
pub mod replace;
pub mod ssl;
pub mod store;
pub mod text;

verus! {

/// The error taxonomy of the engine. Every fallible operation of the
/// library reports one of these.
#[derive(Debug, Clone)]
pub enum ZbError {
    /// An I/O or schema-integrity failure that must abort the command.
    StoreCorruption { message: String },
    /// An operation expected an installed keg that is absent.
    NotInstalled { name: String },
    /// A prefix path already exists and is not owned by the current install.
    LinkConflict { path: String, owner: Option<String> },
    /// The download collaborator could not produce a bottle.
    ResolutionFailed { name: String, reason: String },
    /// Initialisation could not set up the root or prefix directories.
    Bootstrap { message: String },
}

} // verus!

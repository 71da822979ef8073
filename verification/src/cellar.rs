//! The cellar: versioned per-package keg directories, the choice of a
//! bottle's content root, and the materialisation plan.
//!
//! Creating, copying and removing directories happen outside the library;
//! the functions here compute paths and decide what a materialisation has
//! to do, given what the caller found on disk.

use vstd::prelude::*;
use crate::paths::{path_join, spec_join};

verus! {

/// How a tree can be brought into the cellar, best first: a
/// whole-directory clone, a per-file hard link, a byte copy.
#[derive(Debug, Clone, Copy, PartialEq, Eq)]
pub enum CopyStrategy {
    Clonefile,
    Hardlink,
    Copy,
}

/// The cellar root: kegs live at `<cellar_dir>/<name>/<version>`.
pub struct Cellar {
    cellar_dir: String,
}

impl View for Cellar {
    type V = Seq<char>;

    closed spec fn view(&self) -> Seq<char> {
        self.cellar_dir@
    }
}

pub open spec fn spec_keg_path(cellar: Seq<char>, name: Seq<char>, version: Seq<char>) -> Seq<
    char,
> {
    spec_join(spec_join(cellar, name), version)
}

impl Cellar {
    /// The cellar under `root`, at `<root>/cellar`.
    pub fn new(root: &str) -> (r: Cellar)
        ensures
            r@ == spec_join(root@, "cellar"@),
    {
        Cellar { cellar_dir: path_join(root, "cellar") }
    }

    /// A cellar at exactly `cellar_dir`.
    pub fn new_at(cellar_dir: String) -> (r: Cellar)
        ensures
            r@ == cellar_dir@,
    {
        Cellar { cellar_dir }
    }

    /// The directory of one keg: `<cellar_dir>/<name>/<version>`.
    pub fn keg_path(&self, name: &str, version: &str) -> (r: String)
        ensures
            r@ == spec_keg_path(self@, name@, version@),
    {
        let nd = path_join(self.cellar_dir.as_str(), name);
        path_join(nd.as_str(), version)
    }

    /// The parent directory that holds every version of `name`.
    pub fn keg_parent(&self, name: &str) -> (r: String)
        ensures
            r@ == spec_join(self@, name@),
    {
        path_join(self.cellar_dir.as_str(), name)
    }
}

// ---------------------------------------------------------------------------
// Bottle content root
// ---------------------------------------------------------------------------

/// Where a bottle's content sits inside a store entry, by the three
/// shapes bottles come in. Homebrew bottles nest their tree as
/// `<name>/<version>/…`; that shape is preferred, then
/// `<name>/<single child>`, and otherwise the entry is used as it stands.
pub open spec fn spec_bottle_content(
    store_entry: Seq<char>,
    name: Seq<char>,
    version: Seq<char>,
    has_name_version_dir: bool,
    single_child: Option<Seq<char>>,
) -> Seq<char> {
    if has_name_version_dir {
        spec_join(spec_join(store_entry, name), version)
    } else {
        match single_child {
            Some(c) => spec_join(spec_join(store_entry, name), c),
            None => store_entry,
        }
    }
}

/// Pick the bottle content root. The caller reports what it found on
/// disk: whether `<store_entry>/<name>/<version>` is a directory, and the
/// name of the single subdirectory of `<store_entry>/<name>` if that
/// directory exists with exactly one.
pub fn find_bottle_content(
    store_entry: &str,
    name: &str,
    version: &str,
    has_name_version_dir: bool,
    single_child: &Option<String>,
) -> (r: String)
    ensures
        r@ == spec_bottle_content(
            store_entry@,
            name@,
            version@,
            has_name_version_dir,
            match single_child {
                Some(c) => Some(c@),
                None => None,
            },
        ),
{
    if has_name_version_dir {
        let nd = path_join(store_entry, name);
        path_join(nd.as_str(), version)
    } else {
        match single_child {
            Some(c) => {
                let nd = path_join(store_entry, name);
                path_join(nd.as_str(), c.as_str())
            },
            None => store_entry.to_owned(),
        }
    }
}

// ---------------------------------------------------------------------------
// Materialisation plan
// ---------------------------------------------------------------------------

/// What a materialisation has to do.
#[derive(Debug)]
pub enum MaterializeStep {
    /// The keg directory already exists: leave it untouched.
    UseExisting,
    /// Copy the tree rooted at `source` into the keg directory.
    CopyFrom { source: String },
}

/// Decide a materialisation: an existing keg is returned unchanged — no
/// re-copy and no re-patch — and only a missing keg is copied from the
/// bottle content root. A second materialisation of the same
/// `(name, version)` therefore finds the keg in place and plans nothing.
pub fn plan_materialize(keg_exists: bool, source_root: &str) -> (r: MaterializeStep)
    ensures
        keg_exists <==> r is UseExisting,
        !keg_exists ==> (r matches MaterializeStep::CopyFrom { source } && source@
            == source_root@),
{
    if keg_exists {
        MaterializeStep::UseExisting
    } else {
        MaterializeStep::CopyFrom { source: source_root.to_owned() }
    }
}

} // verus!

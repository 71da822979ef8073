//! The linker's arithmetic: where a keg file is farmed out to inside the
//! prefix, and the conflict rule for a path that is already taken.
//!
//! Creating and deleting the symlinks happens outside the library.

use vstd::prelude::*;
use vstd::seq_lib::*;
use crate::paths::{path_join, spec_join};
use crate::db::{LinkedFile, FileModel};
use crate::ZbError;

verus! {

/// The subdirectories of a keg whose files are linked into the prefix.
pub fn linkable_subdirs() -> (r: Vec<String>)
    ensures
        r@.len() == 9,
        r@[0]@ == "bin"@ && r@[1]@ == "sbin"@ && r@[2]@ == "lib"@ && r@[3]@ == "include"@
            && r@[4]@ == "share"@ && r@[5]@ == "etc"@ && r@[6]@ == "Frameworks"@ && r@[7]@
            == "libexec"@ && r@[8]@ == "var"@,
{
    let mut v: Vec<String> = Vec::new();
    v.push("bin".to_owned());
    v.push("sbin".to_owned());
    v.push("lib".to_owned());
    v.push("include".to_owned());
    v.push("share".to_owned());
    v.push("etc".to_owned());
    v.push("Frameworks".to_owned());
    v.push("libexec".to_owned());
    v.push("var".to_owned());
    v
}

/// Where a keg file lands in the prefix, and what the symlink points at.
pub open spec fn spec_linked_path(prefix: Seq<char>, subdir: Seq<char>, rel: Seq<char>) -> Seq<
    char,
> {
    spec_join(spec_join(prefix, subdir), rel)
}

pub open spec fn spec_target_path(keg: Seq<char>, subdir: Seq<char>, rel: Seq<char>) -> Seq<char> {
    spec_join(spec_join(keg, subdir), rel)
}

/// The linked-file record for one keg file: the symlink goes at
/// `<prefix>/<subdir>/<rel>` and points at `<keg>/<subdir>/<rel>`.
pub fn plan_link_entry(
    name: &str,
    version: &str,
    prefix: &str,
    keg_path: &str,
    subdir: &str,
    rel: &str,
) -> (r: LinkedFile)
    ensures
        r@ == (FileModel {
            name: name@,
            version: version@,
            linked_path: spec_linked_path(prefix@, subdir@, rel@),
            target_path: spec_target_path(keg_path@, subdir@, rel@),
        }),
{
    let ld = path_join(prefix, subdir);
    let td = path_join(keg_path, subdir);
    LinkedFile {
        name: name.to_owned(),
        version: version.to_owned(),
        linked_path: path_join(ld.as_str(), rel),
        target_path: path_join(td.as_str(), rel),
    }
}

/// Law: every planned link targets a path inside the keg directory — the
/// target extends `<keg>/`.
pub proof fn lemma_link_target_in_keg(keg: Seq<char>, subdir: Seq<char>, rel: Seq<char>)
    ensures
        (keg + seq!['/']).is_prefix_of(spec_target_path(keg, subdir, rel)),
{
    assert((keg + seq!['/']).is_prefix_of(spec_target_path(keg, subdir, rel))) by {
        assert(spec_target_path(keg, subdir, rel).take((keg + seq!['/']).len() as int) =~= keg
            + seq!['/']);
    }
}

/// The conflict rule: a prefix path that already exists stops the link,
/// naming the offending path and its owner if one is recorded.
pub fn decide_link_conflict(path_exists: bool, linked_path: &str, owner: Option<String>) -> (r:
    Result<(), ZbError>)
    ensures
        !path_exists ==> r is Ok,
        path_exists ==> (r matches Err(ZbError::LinkConflict { path, owner: o }) && path@
            == linked_path@ && o == owner),
{
    if path_exists {
        Err(ZbError::LinkConflict { path: linked_path.to_owned(), owner })
    } else {
        Ok(())
    }
}

} // verus!

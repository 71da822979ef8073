//! The content-addressed store's layout: one immutable directory per
//! store key, at a path that is a pure function of the root and the key.
//!
//! Populating and deleting the directories happens outside the library;
//! which keys a sweep may delete is decided by the catalog
//! (`Database::gc`).

use vstd::prelude::*;
use crate::paths::{path_join, spec_join};

verus! {

/// The directory of one store entry: `<root>/store/<store_key>`. The
/// mapping touches no disk and two calls on the same inputs agree.
pub open spec fn spec_entry_path(root: Seq<char>, store_key: Seq<char>) -> Seq<char> {
    spec_join(spec_join(root, "store"@), store_key)
}

/// Where the entry of `store_key` lives under `root`.
pub fn entry_path(root: &str, store_key: &str) -> (r: String)
    ensures
        r@ == spec_entry_path(root@, store_key@),
{
    let sd = path_join(root, "store");
    path_join(sd.as_str(), store_key)
}

} // verus!

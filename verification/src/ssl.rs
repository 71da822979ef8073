//! Locating a usable CA bundle under the prefix: the candidate paths are
//! fixed, and the first one present on disk wins. The caller reports
//! which candidates exist; these functions pick.

use vstd::prelude::*;
use crate::paths::{path_join, spec_join};
use crate::db::{Database, has_keg_named, keg_pos};
use crate::elf::{first_true, first_present};

verus! {

/// The candidate bundle paths under a bare prefix, in the order they are
/// tried.
pub open spec fn spec_prefix_bundle_candidates(prefix: Seq<char>) -> Seq<Seq<char>> {
    seq![
        spec_join(prefix, "opt/ca-certificates/share/ca-certificates/cacert.pem"@),
        spec_join(prefix, "etc/ca-certificates/cacert.pem"@),
        spec_join(prefix, "etc/openssl/cert.pem"@),
        spec_join(prefix, "share/ca-certificates/cacert.pem"@),
    ]
}

/// The first CA bundle present under the prefix. `present[i]` reports
/// whether the i-th candidate path exists on disk.
pub fn find_ca_bundle_from_prefix(prefix: &str, present: &Vec<bool>) -> (r: Option<String>)
    requires
        present@.len() == 4,
    ensures
        ({
            let p = first_true(present@);
            match r {
                Some(x) => p < 4 && x@ == spec_prefix_bundle_candidates(prefix@)[p],
                None => p == 4,
            }
        }),
{
    let mut candidates: Vec<String> = Vec::new();
    candidates.push(path_join(prefix, "opt/ca-certificates/share/ca-certificates/cacert.pem"));
    candidates.push(path_join(prefix, "etc/ca-certificates/cacert.pem"));
    candidates.push(path_join(prefix, "etc/openssl/cert.pem"));
    candidates.push(path_join(prefix, "share/ca-certificates/cacert.pem"));
    let r = first_present(&candidates, present);
    proof {
        let p = first_true(present@);
        if 0 <= p < 4 {
            if p == 0 {
                assert(candidates@[0]@ == spec_prefix_bundle_candidates(prefix@)[0]);
            } else if p == 1 {
                assert(candidates@[1]@ == spec_prefix_bundle_candidates(prefix@)[1]);
            } else if p == 2 {
                assert(candidates@[2]@ == spec_prefix_bundle_candidates(prefix@)[2]);
            } else {
                assert(candidates@[3]@ == spec_prefix_bundle_candidates(prefix@)[3]);
            }
        }
    }
    r
}

/// The candidate CA directories under a prefix, in the order they are
/// tried.
pub open spec fn spec_ca_dir_candidates(prefix: Seq<char>) -> Seq<Seq<char>> {
    seq![
        spec_join(prefix, "etc/ca-certificates"@),
        spec_join(prefix, "etc/openssl/certs"@),
        spec_join(prefix, "share/ca-certificates"@),
    ]
}

/// The first CA directory present under the prefix. `present[i]` reports
/// whether the i-th candidate exists as a directory.
pub fn find_ca_dir(prefix: &str, present: &Vec<bool>) -> (r: Option<String>)
    requires
        present@.len() == 3,
    ensures
        ({
            let p = first_true(present@);
            match r {
                Some(x) => p < 3 && x@ == spec_ca_dir_candidates(prefix@)[p],
                None => p == 3,
            }
        }),
{
    let mut candidates: Vec<String> = Vec::new();
    candidates.push(path_join(prefix, "etc/ca-certificates"));
    candidates.push(path_join(prefix, "etc/openssl/certs"));
    candidates.push(path_join(prefix, "share/ca-certificates"));
    let r = first_present(&candidates, present);
    proof {
        let p = first_true(present@);
        if 0 <= p < 3 {
            if p == 0 {
                assert(candidates@[0]@ == spec_ca_dir_candidates(prefix@)[0]);
            } else if p == 1 {
                assert(candidates@[1]@ == spec_ca_dir_candidates(prefix@)[1]);
            } else {
                assert(candidates@[2]@ == spec_ca_dir_candidates(prefix@)[2]);
            }
        }
    }
    r
}

/// The candidate bundle paths inside an installed ca-certificates keg.
pub open spec fn spec_keg_bundle_candidates(prefix: Seq<char>, version: Seq<char>) -> Seq<
    Seq<char>,
> {
    let keg = spec_join(spec_join(spec_join(prefix, "Cellar"@), "ca-certificates"@), version);
    seq![
        spec_join(keg, "share/ca-certificates/cacert.pem"@),
        spec_join(keg, "share/ca-bundle.crt"@),
        spec_join(keg, "etc/openssl/cert.pem"@),
        spec_join(keg, "ssl/cert.pem"@),
    ]
}

/// The CA bundle of the installed ca-certificates keg: none when the
/// package is not installed, else the first of its four candidate paths
/// that is present. `present[i]` reports whether the i-th exists.
pub fn find_ca_bundle(prefix: &str, db: &Database, present: &Vec<bool>) -> (r: Option<String>)
    requires
        present@.len() == 4,
    ensures
        ({
            let kegs = db@.kegs;
            if !has_keg_named(kegs, "ca-certificates"@) {
                r is None
            } else {
                let version = kegs[keg_pos(kegs, "ca-certificates"@)].version;
                let p = first_true(present@);
                match r {
                    Some(x) => p < 4 && x@ == spec_keg_bundle_candidates(prefix@, version)[p],
                    None => p == 4,
                }
            }
        }),
{
    let installed = match db.get_installed("ca-certificates") {
        Some(k) => k,
        None => {
            return None;
        },
    };
    let c = path_join(prefix, "Cellar");
    let n = path_join(c.as_str(), "ca-certificates");
    let keg = path_join(n.as_str(), installed.version.as_str());
    let mut candidates: Vec<String> = Vec::new();
    candidates.push(path_join(keg.as_str(), "share/ca-certificates/cacert.pem"));
    candidates.push(path_join(keg.as_str(), "share/ca-bundle.crt"));
    candidates.push(path_join(keg.as_str(), "etc/openssl/cert.pem"));
    candidates.push(path_join(keg.as_str(), "ssl/cert.pem"));
    let r = first_present(&candidates, present);
    proof {
        let version = db@.kegs[keg_pos(db@.kegs, "ca-certificates"@)].version;
        assert(keg@ == spec_join(
            spec_join(spec_join(prefix@, "Cellar"@), "ca-certificates"@),
            version,
        ));
        let p = first_true(present@);
        if 0 <= p < 4 {
            if p == 0 {
                assert(candidates@[0]@ == spec_keg_bundle_candidates(prefix@, version)[0]);
            } else if p == 1 {
                assert(candidates@[1]@ == spec_keg_bundle_candidates(prefix@, version)[1]);
            } else if p == 2 {
                assert(candidates@[2]@ == spec_keg_bundle_candidates(prefix@, version)[2]);
            } else {
                assert(candidates@[3]@ == spec_keg_bundle_candidates(prefix@, version)[3]);
            }
        }
    }
    r
}

} // verus!

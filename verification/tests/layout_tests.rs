use zerobrew::cellar::{find_bottle_content, plan_materialize, Cellar, MaterializeStep};
use zerobrew::linker::{decide_link_conflict, linkable_subdirs, plan_link_entry};
use zerobrew::ssl::{find_ca_bundle, find_ca_bundle_from_prefix, find_ca_dir};
use zerobrew::store::entry_path;
use zerobrew::db::Database;
use zerobrew::ZbError;

#[test]
fn keg_path_format() {
    let cellar = Cellar::new("/tmp-root");

    let path = cellar.keg_path("libheif", "2.0.1");
    assert!(path.ends_with("cellar/libheif/2.0.1"));
}

#[test]
fn keg_path_is_exact() {
    let cellar = Cellar::new("/zb");
    assert_eq!(cellar.keg_path("jq", "1.7.1"), "/zb/cellar/jq/1.7.1");
    assert_eq!(cellar.keg_parent("jq"), "/zb/cellar/jq");
    let at = Cellar::new_at("/prefix/Cellar".to_string());
    assert_eq!(at.keg_path("jq", "1.7.1"), "/prefix/Cellar/jq/1.7.1");
}

#[test]
fn bottle_content_prefers_name_version_then_single_child_then_entry() {
    // Shape one: entry/name/version exists.
    let p = find_bottle_content("/store/k", "jq", "1.7.1", true, &None);
    assert_eq!(p, "/store/k/jq/1.7.1");

    // Shape two: entry/name with a single child directory.
    let p = find_bottle_content("/store/k", "jq", "1.7.1", false, &Some("1.6".to_string()));
    assert_eq!(p, "/store/k/jq/1.6");

    // Shape three: the flat entry, also when entry/name exists without a
    // single child directory.
    let p = find_bottle_content("/store/k", "jq", "1.7.1", false, &None);
    assert_eq!(p, "/store/k");
}

#[test]
fn materialize_plans_nothing_for_an_existing_keg() {
    let step = plan_materialize(true, "/store/k/jq/1.7.1");
    assert!(matches!(step, MaterializeStep::UseExisting));

    let step = plan_materialize(false, "/store/k/jq/1.7.1");
    match step {
        MaterializeStep::CopyFrom { source } => assert_eq!(source, "/store/k/jq/1.7.1"),
        MaterializeStep::UseExisting => panic!("a missing keg must be copied"),
    }
}

#[test]
fn store_entry_path_is_deterministic() {
    assert_eq!(entry_path("/root", "abc123"), "/root/store/abc123");
    assert_eq!(entry_path("/root", "abc123"), entry_path("/root", "abc123"));
}

#[test]
fn link_entry_paths_and_target_inside_keg() {
    let f = plan_link_entry("jq", "1.7.1", "/zb/prefix", "/zb/prefix/Cellar/jq/1.7.1", "bin", "jq");
    assert_eq!(f.name, "jq");
    assert_eq!(f.version, "1.7.1");
    assert_eq!(f.linked_path, "/zb/prefix/bin/jq");
    assert_eq!(f.target_path, "/zb/prefix/Cellar/jq/1.7.1/bin/jq");
    assert!(f.target_path.starts_with("/zb/prefix/Cellar/jq/1.7.1/"));
}

#[test]
fn linkable_subdirs_are_the_nine_canonical_ones() {
    let dirs = linkable_subdirs();
    assert_eq!(
        dirs,
        vec!["bin", "sbin", "lib", "include", "share", "etc", "Frameworks", "libexec", "var"]
    );
}

#[test]
fn link_conflict_names_path_and_owner() {
    assert!(decide_link_conflict(false, "/zb/bin/jq", None).is_ok());

    let err = decide_link_conflict(true, "/zb/bin/jq", Some("onig".to_string())).unwrap_err();
    match err {
        ZbError::LinkConflict { path, owner } => {
            assert_eq!(path, "/zb/bin/jq");
            assert_eq!(owner, Some("onig".to_string()));
        },
        _ => panic!("expected a link conflict"),
    }
}

#[test]
fn ca_bundle_picks_the_first_present_candidate() {
    let r = find_ca_bundle_from_prefix("/zb", &vec![false, true, false, false]);
    assert_eq!(r, Some("/zb/etc/ca-certificates/cacert.pem".to_string()));

    let r = find_ca_bundle_from_prefix("/zb", &vec![false, false, false, false]);
    assert!(r.is_none());

    let r = find_ca_bundle_from_prefix("/zb", &vec![true, true, true, true]);
    assert_eq!(
        r,
        Some("/zb/opt/ca-certificates/share/ca-certificates/cacert.pem".to_string())
    );
}

#[test]
fn ca_dir_picks_the_first_present_candidate() {
    let r = find_ca_dir("/zb", &vec![false, false, true]);
    assert_eq!(r, Some("/zb/share/ca-certificates".to_string()));
    assert!(find_ca_dir("/zb", &vec![false, false, false]).is_none());
}

#[test]
fn ca_bundle_requires_the_package_installed() {
    let mut db = Database::in_memory().unwrap();
    assert!(find_ca_bundle("/zb", &db, &vec![true, true, true, true]).is_none());

    {
        let mut tx = db.transaction();
        tx.record_install("ca-certificates", "2024-11-26", "cakey").unwrap();
        tx.commit(&mut db).unwrap();
    }
    let r = find_ca_bundle("/zb", &db, &vec![false, true, false, false]);
    assert_eq!(
        r,
        Some("/zb/Cellar/ca-certificates/2024-11-26/share/ca-bundle.crt".to_string())
    );
}

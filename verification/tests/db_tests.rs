use zerobrew::db::Database;

#[test]
fn install_and_list() {
    let mut db = Database::in_memory().unwrap();

    {
        let mut tx = db.transaction();
        tx.record_install("foo", "1.0.0", "abc123").unwrap();
        tx.commit(&mut db).unwrap();
    }

    let installed = db.list_installed().unwrap();
    assert_eq!(installed.len(), 1);
    assert_eq!(installed[0].name, "foo");
    assert_eq!(installed[0].version, "1.0.0");
    assert_eq!(installed[0].store_key, "abc123");
}

#[test]
fn rollback_leaves_no_partial_state() {
    let mut db = Database::in_memory().unwrap();

    {
        let mut tx = db.transaction();
        tx.record_install("foo", "1.0.0", "abc123").unwrap();
        // Not committed: the staged tables are dropped here.
    }

    let installed = db.list_installed().unwrap();
    assert!(installed.is_empty());

    assert_eq!(db.get_store_refcount("abc123"), 0);
}

#[test]
fn uninstall_decrements_refcount() {
    let mut db = Database::in_memory().unwrap();

    {
        let mut tx = db.transaction();
        tx.record_install("foo", "1.0.0", "shared123").unwrap();
        tx.record_install("bar", "2.0.0", "shared123").unwrap();
        tx.commit(&mut db).unwrap();
    }

    assert_eq!(db.get_store_refcount("shared123"), 2);

    {
        let mut tx = db.transaction();
        tx.record_uninstall("foo").unwrap();
        tx.commit(&mut db).unwrap();
    }

    assert_eq!(db.get_store_refcount("shared123"), 1);
    assert!(db.get_installed("foo").is_none());
    assert!(db.get_installed("bar").is_some());
}

#[test]
fn get_unreferenced_store_keys() {
    let mut db = Database::in_memory().unwrap();

    {
        let mut tx = db.transaction();
        tx.record_install("foo", "1.0.0", "key1").unwrap();
        tx.record_install("bar", "2.0.0", "key2").unwrap();
        tx.commit(&mut db).unwrap();
    }

    {
        let mut tx = db.transaction();
        tx.record_uninstall("foo").unwrap();
        tx.record_uninstall("bar").unwrap();
        tx.commit(&mut db).unwrap();
    }

    let unreferenced = db.get_unreferenced_store_keys().unwrap();
    assert_eq!(unreferenced.len(), 2);
    assert!(unreferenced.contains(&"key1".to_string()));
    assert!(unreferenced.contains(&"key2".to_string()));
}

#[test]
fn linked_files_are_recorded() {
    let mut db = Database::in_memory().unwrap();

    {
        let mut tx = db.transaction();
        tx.record_install("foo", "1.0.0", "abc123").unwrap();
        tx.record_linked_file(
            "foo",
            "1.0.0",
            "/opt/homebrew/bin/foo",
            "/opt/zerobrew/cellar/foo/1.0.0/bin/foo",
        )
        .unwrap();
        tx.commit(&mut db).unwrap();
    }

    {
        let mut tx = db.transaction();
        tx.record_uninstall("foo").unwrap();
        tx.commit(&mut db).unwrap();
    }

    assert!(db.get_installed("foo").is_none());
}

#[test]
fn linked_files_can_be_read_back_and_vanish_on_uninstall() {
    let mut db = Database::in_memory().unwrap();

    {
        let mut tx = db.transaction();
        tx.record_install("foo", "1.0.0", "abc123").unwrap();
        tx.record_linked_file("foo", "1.0.0", "/p/bin/foo", "/p/cellar/foo/1.0.0/bin/foo")
            .unwrap();
        tx.record_linked_file("foo", "1.0.0", "/p/lib/libfoo", "/p/cellar/foo/1.0.0/lib/libfoo")
            .unwrap();
        // A second record for the same (name, linked_path) replaces the row.
        tx.record_linked_file("foo", "1.0.0", "/p/bin/foo", "/p/cellar/foo/1.0.0/bin/foo2")
            .unwrap();
        tx.commit(&mut db).unwrap();
    }

    let files = db.get_linked_files("foo");
    assert_eq!(files.len(), 2);
    assert_eq!(files[0].linked_path, "/p/lib/libfoo");
    assert_eq!(files[1].linked_path, "/p/bin/foo");
    assert_eq!(files[1].target_path, "/p/cellar/foo/1.0.0/bin/foo2");

    {
        let mut tx = db.transaction();
        tx.record_uninstall("foo").unwrap();
        tx.commit(&mut db).unwrap();
    }
    assert!(db.get_linked_files("foo").is_empty());
}

#[test]
fn list_is_sorted_by_name_ascending() {
    let mut db = Database::in_memory().unwrap();

    {
        let mut tx = db.transaction();
        tx.record_install("zeta", "1.0.0", "kz").unwrap();
        tx.record_install("alpha", "1.0.0", "ka").unwrap();
        tx.record_install("mid", "1.0.0", "km").unwrap();
        tx.commit(&mut db).unwrap();
    }

    let names: Vec<String> = db.list_installed().unwrap().iter().map(|k| k.name.clone()).collect();
    assert_eq!(names, vec!["alpha", "mid", "zeta"]);
}

#[test]
fn reinstall_same_name_keeps_one_row() {
    let mut db = Database::in_memory().unwrap();

    {
        let mut tx = db.transaction();
        tx.record_install("foo", "1.0.0", "k1").unwrap();
        tx.commit(&mut db).unwrap();
    }
    {
        let mut tx = db.transaction();
        tx.record_install("foo", "2.0.0", "k2").unwrap();
        tx.commit(&mut db).unwrap();
    }

    let installed = db.list_installed().unwrap();
    assert_eq!(installed.len(), 1);
    assert_eq!(installed[0].version, "2.0.0");
    assert_eq!(installed[0].store_key, "k2");
}

#[test]
fn install_uninstall_round_trip_leaves_only_a_dead_ref() {
    let mut db = Database::in_memory().unwrap();

    {
        let mut tx = db.transaction();
        tx.record_install("foo", "1.0.0", "abc123").unwrap();
        tx.commit(&mut db).unwrap();
    }
    {
        let mut tx = db.transaction();
        let key = tx.record_uninstall("foo").unwrap();
        assert_eq!(key, Some("abc123".to_string()));
        tx.commit(&mut db).unwrap();
    }

    assert!(db.list_installed().unwrap().is_empty());
    assert_eq!(db.get_store_refcount("abc123"), 0);
    // The store row survives until a sweep, as the store directory does.
    let unreferenced = db.get_unreferenced_store_keys().unwrap();
    assert_eq!(unreferenced, vec!["abc123".to_string()]);

    let removed = db.gc().unwrap();
    assert_eq!(removed, vec!["abc123".to_string()]);
    assert!(db.get_unreferenced_store_keys().unwrap().is_empty());
    assert_eq!(db.get_store_refcount("abc123"), 0);
}

#[test]
fn gc_removes_exactly_the_dead_keys() {
    let mut db = Database::in_memory().unwrap();

    {
        let mut tx = db.transaction();
        tx.record_install("a", "1.0.0", "k1").unwrap();
        tx.record_install("b", "1.0.0", "k2").unwrap();
        tx.commit(&mut db).unwrap();
    }
    {
        let mut tx = db.transaction();
        tx.record_uninstall("a").unwrap();
        tx.commit(&mut db).unwrap();
    }

    let removed = db.gc().unwrap();
    assert_eq!(removed, vec!["k1".to_string()]);
    assert_eq!(db.get_store_refcount("k2"), 1);
    assert!(db.get_unreferenced_store_keys().unwrap().is_empty());
    assert!(db.get_installed("b").is_some());
}

#[test]
fn uninstall_of_missing_name_returns_none() {
    let mut db = Database::in_memory().unwrap();
    let mut tx = db.transaction();
    let key = tx.record_uninstall("ghost").unwrap();
    assert!(key.is_none());
    tx.commit(&mut db).unwrap();
    assert!(db.list_installed().unwrap().is_empty());
}

#[test]
fn store_refs_are_readable_in_table_order() {
    let mut db = Database::in_memory().unwrap();
    {
        let mut tx = db.transaction();
        tx.record_install("a", "1.0.0", "k1").unwrap();
        tx.record_install("b", "1.0.0", "k2").unwrap();
        tx.record_uninstall("a").unwrap();
        tx.commit(&mut db).unwrap();
    }
    let refs = db.list_store_refs();
    assert_eq!(refs.len(), 2);
    assert_eq!(refs[0].store_key, "k1");
    assert_eq!(refs[0].refcount, 0);
    assert_eq!(refs[1].store_key, "k2");
    assert_eq!(refs[1].refcount, 1);
}

#[test]
fn record_install_at_pins_the_timestamp() {
    let mut db = Database::in_memory().unwrap();
    let mut tx = db.transaction();
    tx.record_install_at("foo", "1.0.0", "k", 42).unwrap();
    tx.commit(&mut db).unwrap();
    let keg = db.get_installed("foo").unwrap();
    assert_eq!(keg.installed_at, 42);
}

#[test]
fn record_install_timestamp_is_not_negative() {
    let mut db = Database::in_memory().unwrap();
    let mut tx = db.transaction();
    tx.record_install("foo", "1.0.0", "k").unwrap();
    tx.commit(&mut db).unwrap();
    assert!(db.get_installed("foo").unwrap().installed_at >= 0);
}

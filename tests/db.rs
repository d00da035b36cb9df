use std::path::Path;

use alpm_local::db::{DbStatus, DbUsage, SignatureLevel, SyncDbName, DEFAULT_SYNC_DB_EXT};

#[test]
fn db_path() {
    let base_path = "/var/lib/pacman/";
    let base_path2 = "/var/lib/pacman";
    let ext = "db";

    let tests = vec![("sync1", "/var/lib/pacman/sync/sync1.db")];
    for (db_name, target) in tests {
        let db_name = SyncDbName::new(db_name).unwrap();
        let target = Path::new(target);
        assert_eq!(Path::new(&db_name.path(&base_path, &ext)), target);
        assert_eq!(Path::new(&db_name.path(&base_path2, &ext)), target);
    }
}

#[test]
fn db_path_exact_text() {
    let name = SyncDbName::new("core").unwrap();
    assert_eq!(name.path("/var/lib/pacman", DEFAULT_SYNC_DB_EXT), "/var/lib/pacman/sync/core.db");
    assert_eq!(name.path("/var/lib/pacman/", "files"), "/var/lib/pacman/sync/core.files");
    assert_eq!(name.as_str(), "core");
}

#[test]
fn sync_db_name_rejects_empty_and_slash() {
    assert!(SyncDbName::new("").is_none());
    assert!(SyncDbName::new("a/b").is_none());
    assert!(SyncDbName::new("extra").is_some());
}

#[test]
fn usage_all_contains_each_usage() {
    let all = DbUsage::all();
    assert!(all.contains(DbUsage::sync()));
    assert!(all.contains(DbUsage::search()));
    assert!(all.contains(DbUsage::install()));
    assert!(all.contains(DbUsage::upgrade()));
    let union = DbUsage::sync().union(DbUsage::search()).union(DbUsage::install()).union(DbUsage::upgrade());
    assert_eq!(union, all);
    assert_eq!(all.bits(), 15);
}

#[test]
fn usage_default_is_all() {
    assert_eq!(DbUsage::default(), DbUsage::all());
}

#[test]
fn usage_set_algebra() {
    let a = DbUsage::sync().union(DbUsage::install());
    assert!(a.contains(DbUsage::sync()));
    assert!(!a.contains(DbUsage::search()));
    assert_eq!(a.intersection(DbUsage::install()), DbUsage::install());
    assert!(a.intersection(DbUsage::upgrade()).is_empty());
    assert_eq!(DbUsage::from_bits_truncate(0xff), DbUsage::all());
    assert!(DbUsage::empty().is_empty());
}

#[test]
fn signature_level_default_is_inherit() {
    assert_eq!(SignatureLevel::default(), SignatureLevel::Inherit);
}

#[test]
fn db_status_values() {
    assert_ne!(DbStatus::Missing, DbStatus::Exists { valid: true });
    assert_ne!(DbStatus::Exists { valid: false }, DbStatus::Exists { valid: true });
}

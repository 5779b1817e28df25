use oxide_cli::addon_cache::{
    addons_index_file_name, cached_addon_dir, get_cached_addon, is_addon_installed, AddonCacheError,
    AddonsCache,
};
use oxide_cli::manifest::AddonManifest;

const NOW: &str = "2026-01-01T00:00:00Z";
const LATER: &str = "2026-01-02T00:00:00Z";

fn make_manifest(id: &str) -> AddonManifest {
    AddonManifest {
        schema_version: "1".into(),
        id: id.into(),
        name: format!("{id}-name"),
        version: "1.0.0".into(),
        description: "test addon".into(),
        author: "test".into(),
        requires: vec![],
        inputs: vec![],
        detect: vec![],
        variants: vec![],
    }
}

#[test]
fn update_addons_cache_adds_entry() {
    let mut cache = AddonsCache::empty(NOW);
    cache.record_install(&make_manifest("drizzle"), "drizzle", "sha1", NOW);
    let entry = get_cached_addon(&cache, "drizzle").unwrap();
    assert_eq!(entry.id, "drizzle");
    assert_eq!(entry.version, "1.0.0");
    assert_eq!(entry.commit_sha, "sha1");
    assert_eq!(entry.name, "drizzle-name");
    assert_eq!(entry.path, "drizzle");
    assert_eq!(entry.repo_url, "");
}

#[test]
fn update_addons_cache_replaces_duplicate() {
    let mut cache = AddonsCache::empty(NOW);
    cache.record_install(&make_manifest("drizzle"), "drizzle", "sha1", NOW);
    let mut manifest_v2 = make_manifest("drizzle");
    manifest_v2.version = "2.0.0".into();
    cache.record_install(&manifest_v2, "drizzle", "sha2", NOW);
    let result = get_cached_addon(&cache, "drizzle").unwrap();
    assert_eq!(result.version, "2.0.0");
    assert_eq!(result.commit_sha, "sha2");
    assert_eq!(cache.addons.len(), 1);
}

#[test]
fn update_addons_cache_stores_multiple_addons() {
    let mut cache = AddonsCache::empty(NOW);
    cache.record_install(&make_manifest("drizzle"), "drizzle", "sha1", NOW);
    cache.record_install(&make_manifest("prisma"), "prisma", "sha2", NOW);
    assert_eq!(cache.addons.len(), 2);
}

#[test]
fn get_cached_addon_returns_entry_when_present() {
    let mut cache = AddonsCache::empty(NOW);
    cache.record_install(&make_manifest("drizzle"), "drizzle", "abc", NOW);
    assert_eq!(get_cached_addon(&cache, "drizzle").unwrap().id, "drizzle");
}

#[test]
fn get_cached_addon_returns_none_when_absent() {
    let mut cache = AddonsCache::empty(NOW);
    cache.record_install(&make_manifest("drizzle"), "drizzle", "abc", NOW);
    assert!(get_cached_addon(&cache, "unknown").is_none());
}

#[test]
fn get_cached_addon_returns_none_when_no_index() {
    let cache = AddonsCache::empty(NOW);
    assert!(get_cached_addon(&cache, "drizzle").is_none());
}

#[test]
fn remove_addon_removes_entry() {
    let mut cache = AddonsCache::empty(NOW);
    cache.record_install(&make_manifest("drizzle"), "drizzle", "abc", NOW);
    cache.remove("drizzle", LATER).unwrap();
    assert!(get_cached_addon(&cache, "drizzle").is_none());
}

#[test]
fn remove_addon_deletes_directory() {
    let mut cache = AddonsCache::empty(NOW);
    cache.record_install(&make_manifest("drizzle"), "drizzle", "abc", NOW);
    assert_eq!(cached_addon_dir(&cache, "/data/addons", "drizzle").unwrap(), "/data/addons/drizzle");
    let removed_path = cache.remove("drizzle", LATER).unwrap();
    assert_eq!(removed_path, "drizzle");
}

#[test]
fn remove_addon_not_installed_is_err() {
    let mut cache = AddonsCache::empty(NOW);
    let err = cache.remove("nonexistent", LATER).unwrap_err();
    assert!(matches!(&err, AddonCacheError::NotInstalled(id) if id == "nonexistent"));
    assert_eq!(err.to_string(), "Addon 'nonexistent' is not installed");
}

#[test]
fn remove_addon_keeps_other_addons() {
    let mut cache = AddonsCache::empty(NOW);
    cache.record_install(&make_manifest("drizzle"), "drizzle", "a", NOW);
    cache.record_install(&make_manifest("prisma"), "prisma", "b", NOW);
    cache.remove("drizzle", LATER).unwrap();
    assert!(get_cached_addon(&cache, "prisma").is_some());
    assert_eq!(cache.addons.len(), 1);
}

#[test]
fn is_addon_installed_true_when_in_cache_and_dir_exists() {
    let mut cache = AddonsCache::empty(NOW);
    cache.record_install(&make_manifest("drizzle"), "drizzle", "abc", NOW);
    assert!(is_addon_installed(&cache, "drizzle", true));
}

#[test]
fn is_addon_installed_false_when_not_in_cache() {
    let cache = AddonsCache::empty(NOW);
    assert!(!is_addon_installed(&cache, "drizzle", true));
}

#[test]
fn is_addon_installed_false_when_dir_missing() {
    let mut cache = AddonsCache::empty(NOW);
    cache.record_install(&make_manifest("drizzle"), "drizzle", "abc", NOW);
    assert!(!is_addon_installed(&cache, "drizzle", false));
}

#[test]
fn recording_keeps_other_entries_in_order_and_moves_the_replaced_one_last() {
    let mut cache = AddonsCache::empty(NOW);
    cache.record_install(&make_manifest("a"), "a", "1", NOW);
    cache.record_install(&make_manifest("b"), "b", "2", NOW);
    cache.record_install(&make_manifest("c"), "c", "3", NOW);
    cache.record_install(&make_manifest("a"), "a-new", "4", NOW);
    let ids: Vec<&str> = cache.addons.iter().map(|a| a.id.as_str()).collect();
    assert_eq!(ids, vec!["b", "c", "a"]);
    assert_eq!(get_cached_addon(&cache, "a").unwrap().path, "a-new");
    assert_eq!(get_cached_addon(&cache, "b").unwrap().commit_sha, "2");
}

#[test]
fn removing_leaves_the_index_unchanged_when_absent() {
    let mut cache = AddonsCache::empty(NOW);
    cache.record_install(&make_manifest("a"), "a", "1", NOW);
    let stamp = cache.last_updated.clone();
    assert!(cache.remove("zzz", LATER).is_err());
    assert_eq!(cache.addons.len(), 1);
    assert_eq!(cache.last_updated, stamp);
}

#[test]
fn index_file_is_named_after_the_cli() {
    assert_eq!(addons_index_file_name(), "oxide-addons.json");
}

#[test]
fn removing_undoes_recording() {
    let mut cache = AddonsCache::empty(NOW);
    cache.record_install(&make_manifest("a"), "a", "1", NOW);
    cache.record_install(&make_manifest("b"), "b", "2", NOW);
    cache.record_install(&make_manifest("a"), "a2", "3", NOW);
    cache.remove("a", LATER).unwrap();
    let ids: Vec<&str> = cache.addons.iter().map(|a| a.id.as_str()).collect();
    assert_eq!(ids, vec!["b"]);
}

#[test]
fn recording_and_removing_stamp_the_index() {
    let mut cache = AddonsCache::empty(NOW);
    assert_eq!(cache.last_updated, NOW);
    cache.record_install(&make_manifest("a"), "a", "1", LATER);
    assert_eq!(cache.last_updated, LATER);
    cache.remove("a", "2026-03-03T00:00:00Z").unwrap();
    assert_eq!(cache.last_updated, "2026-03-03T00:00:00Z");
}

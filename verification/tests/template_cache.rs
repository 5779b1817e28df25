use oxide_cli::prune::prune_candidates;
use oxide_cli::template_cache::{
    get_cached_template, is_template_installed, template_dir, template_manifest_file_name,
    templates_index_file_name, AnesisTemplate, AnesisTemplateMetadata, AnesisTemplateRepository,
    TemplateCacheError, TemplatesCache,
};

const NOW: &str = "2026-01-01T00:00:00Z";
const LATER: &str = "2026-01-02T00:00:00Z";

fn template(name: &str) -> AnesisTemplate {
    AnesisTemplate {
        name: name.to_string(),
        version: "1.0.0".to_string(),
        anesis_version: "0.5.0".to_string(),
        official: true,
        repository: AnesisTemplateRepository { url: "https://github.com/example/repo".to_string() },
        metadata: AnesisTemplateMetadata { display_name: name.to_string(), description: "test".to_string() },
    }
}

fn cache_with(name: &str, sha: &str) -> TemplatesCache {
    let mut cache = TemplatesCache::empty(NOW);
    cache.record_install(&template(name), name, sha, NOW);
    cache
}

#[test]
fn update_cache_adds_entry() {
    let cache = cache_with("react-vite", "abc123");
    assert_eq!(cache.templates.len(), 1);
    assert_eq!(cache.templates[0].name, "react-vite");
    assert_eq!(cache.templates[0].commit_sha, "abc123");
}

#[test]
fn update_cache_replaces_duplicate() {
    let mut cache = cache_with("react-vite", "aaa");
    cache.record_install(&template("react-vite"), "react-vite", "bbb", NOW);
    assert_eq!(cache.templates.len(), 1);
    assert_eq!(cache.templates[0].commit_sha, "bbb");
}

#[test]
fn remove_template_removes_entry_and_dir() {
    let mut cache = cache_with("react-vite", "abc");
    let path = cache.remove("react-vite", LATER).unwrap();
    assert!(cache.templates.is_empty());
    assert_eq!(path, "react-vite");
    assert_eq!(template_dir("/data/templates", &path), "/data/templates/react-vite");
    assert!(prune_candidates("/data/templates", &path).is_empty());
}

#[test]
fn remove_template_not_installed_is_err() {
    let mut cache = cache_with("react-vite", "abc");
    let err = cache.remove("nonexistent", LATER).unwrap_err();
    assert!(matches!(&err, TemplateCacheError::NotInstalled(n) if n == "nonexistent"));
    assert_eq!(err.to_string(), "Template 'nonexistent' is not installed");
    assert_eq!(cache.templates.len(), 1);
}

#[test]
fn get_cached_template_returns_entry_when_present() {
    let cache = cache_with("react-vite", "sha1");
    let entry = get_cached_template(&cache, "react-vite").unwrap();
    assert_eq!(entry.name, "react-vite");
    assert_eq!(entry.commit_sha, "sha1");
    assert_eq!(entry.source, "https://github.com/example/repo");
    assert!(entry.official);
}

#[test]
fn get_cached_template_returns_none_for_unknown_name() {
    let cache = cache_with("react-vite", "sha1");
    assert!(get_cached_template(&cache, "nonexistent").is_none());
}

#[test]
fn get_cached_template_returns_none_when_no_index() {
    let cache = TemplatesCache::empty(NOW);
    assert!(get_cached_template(&cache, "react-vite").is_none());
}

#[test]
fn is_template_installed_true_when_cached_and_dir_exists() {
    let cache = cache_with("react-vite", "abc");
    assert!(is_template_installed(&cache, "react-vite", true));
}

#[test]
fn is_template_installed_false_when_not_in_cache() {
    let cache = TemplatesCache::empty(NOW);
    assert!(!is_template_installed(&cache, "react-vite", true));
}

#[test]
fn is_template_installed_false_when_dir_missing() {
    let cache = cache_with("react-vite", "abc");
    assert!(!is_template_installed(&cache, "react-vite", false));
}

#[test]
fn record_install_returns_the_stored_entry() {
    let mut cache = TemplatesCache::empty(NOW);
    let entry = cache.record_install(&template("svelte"), "templates/svelte", "c0ffee", NOW);
    assert_eq!(entry.name, "svelte");
    assert_eq!(entry.version, "1.0.0");
    assert_eq!(entry.path, "templates/svelte");
    assert_eq!(get_cached_template(&cache, "svelte").unwrap().path, "templates/svelte");
}

#[test]
fn nested_template_directories_are_pruned_up_to_the_root() {
    assert_eq!(
        prune_candidates("/data/templates", "owner/repo/react"),
        vec!["/data/templates/owner/repo".to_string(), "/data/templates/owner".to_string()]
    );
    assert_eq!(prune_candidates("/data/templates/", "a//b/"), vec!["/data/templates/a".to_string()]);
    assert_eq!(prune_candidates("rel", "x/y"), vec!["rel/x".to_string()]);
}

#[test]
fn pruning_walks_to_the_filesystem_root_when_the_entry_is_absolute() {
    assert_eq!(
        prune_candidates("/data/templates", "/tmp/t"),
        vec!["/tmp".to_string(), "/".to_string()]
    );
}

#[test]
fn index_and_manifest_file_names() {
    assert_eq!(templates_index_file_name(), "oxide-templates.json");
    assert_eq!(template_manifest_file_name(), "oxide.template.json");
}

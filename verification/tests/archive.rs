use oxide_cli::archive::{path_components, strip_archive_path_for_tests};

fn strip(raw: &str, subdir: Option<&str>) -> Option<String> {
    strip_archive_path_for_tests(raw, subdir)
}

#[test]
fn strips_the_archive_root() {
    assert_eq!(strip("owner-repo-abc123/src/main.rs", None), Some("src/main.rs".to_string()));
    assert_eq!(strip("owner-repo-abc123/README.md", None), Some("README.md".to_string()));
}

#[test]
fn the_root_entry_itself_is_skipped() {
    assert_eq!(strip("owner-repo-abc123/", None), None);
    assert_eq!(strip("owner-repo-abc123", None), None);
    assert_eq!(strip("", None), None);
}

#[test]
fn keeps_only_entries_under_the_subdir_relative_to_it() {
    let sub = Some("templates/react");
    assert_eq!(strip("r-abc/templates/react/package.json", sub), Some("package.json".to_string()));
    assert_eq!(strip("r-abc/templates/react/src/App.tsx", sub), Some("src/App.tsx".to_string()));
    assert_eq!(strip("r-abc/templates/react/", sub), None);
    assert_eq!(strip("r-abc/templates/vue/package.json", sub), None);
    assert_eq!(strip("r-abc/templates/reactive/x", sub), None);
    assert_eq!(strip("r-abc/other.txt", sub), None);
}

#[test]
fn subdir_is_compared_by_components() {
    assert_eq!(strip("r/a/b/c.txt", Some("a/b/")), Some("c.txt".to_string()));
    assert_eq!(strip("r/a/b/c.txt", Some("./a//b")), None);
    assert_eq!(strip("r/a/b/c.txt", Some("a//b/.")), Some("c.txt".to_string()));
    assert_eq!(strip("r/a//b/./c.txt", Some("a/b")), Some("c.txt".to_string()));
    assert_eq!(strip("r/a/b/c.txt", Some("/a")), None);
    assert_eq!(strip("r/a/b/c.txt", Some("")), Some("a/b/c.txt".to_string()));
}

#[test]
fn components_follow_path_components_on_unix() {
    let comps = |p: &str| -> Vec<String> {
        path_components(&p.chars().collect()).into_iter().map(|c| c.into_iter().collect()).collect()
    };
    assert_eq!(comps("/usr//lib/./x/"), vec!["/", "usr", "lib", "x"]);
    assert_eq!(comps("./a/b"), vec![".", "a", "b"]);
    assert_eq!(comps("a/../b"), vec!["a", "..", "b"]);
    assert_eq!(comps(""), Vec::<String>::new());
    for p in ["/usr//lib/./x/", "./a/b", "a/../b", "", ".", "//x"] {
        let expected: Vec<String> =
            std::path::Path::new(p).components().map(|c| c.as_os_str().to_string_lossy().into_owned()).collect();
        assert_eq!(comps(p), expected, "components of {p:?}");
    }
}

#[test]
fn stripped_paths_are_always_relative() {
    assert_eq!(strip("/etc/passwd", None), Some("etc/passwd".to_string()));
    assert_eq!(strip("/abs/x/y", None), Some("abs/x/y".to_string()));
    assert_eq!(strip("root//x", None), Some("x".to_string()));
    for raw in ["/a/b", "a//b", "./x/y", "r/../z", "/"] {
        if let Some(rel) = strip(raw, None) {
            assert!(!rel.is_empty() && !rel.starts_with('/'), "{raw:?} gave {rel:?}");
        }
    }
}

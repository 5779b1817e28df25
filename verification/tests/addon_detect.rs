use oxide_cli::detect::{detect_variant, doc_has_path, eval_rule, probe_for, FileRead};
use oxide_cli::manifest::{DetectBlock, DetectRule, MatchMode};

fn read<'a>(files: &[(&'a str, &'a str)], name: &str) -> Option<&'a str> {
    files.iter().find(|(n, _)| *n == name).map(|(_, c)| *c)
}

fn file_of(rule: &DetectRule) -> &str {
    match rule {
        DetectRule::FileExists { file, .. }
        | DetectRule::FileContains { file, .. }
        | DetectRule::JsonContains { file, .. }
        | DetectRule::TomlContains { file, .. }
        | DetectRule::YamlContains { file, .. } => file,
    }
}

fn probe(rule: &DetectRule, files: &[(&str, &str)]) -> FileRead {
    let text = read(files, file_of(rule));
    FileRead { exists: text.is_some(), text: text.map(str::to_string) }
}

fn detect(blocks: &[DetectBlock], files: &[(&str, &str)]) -> Option<String> {
    let probes: Vec<Vec<FileRead>> =
        blocks.iter().map(|b| b.rules.iter().map(|r| probe(r, files)).collect()).collect();
    detect_variant(blocks, &probes)
}

fn block(id: &str, match_mode: MatchMode, rules: Vec<DetectRule>) -> DetectBlock {
    DetectBlock { id: id.into(), match_mode, rules }
}

fn present(file: &str, negate: bool) -> DetectRule {
    DetectRule::FileExists { file: file.into(), negate }
}

fn contains(file: &str, text: &str, negate: bool) -> DetectRule {
    DetectRule::FileContains { file: file.into(), contains: text.into(), negate }
}

fn json(file: &str, key_path: &str, value: Option<&str>, negate: bool) -> DetectRule {
    DetectRule::JsonContains { file: file.into(), key_path: key_path.into(), value: value.map(Into::into), negate }
}

fn toml_rule(file: &str, key_path: &str, value: Option<&str>, negate: bool) -> DetectRule {
    DetectRule::TomlContains { file: file.into(), key_path: key_path.into(), value: value.map(Into::into), negate }
}

fn yaml(file: &str, key_path: &str, value: Option<&str>, negate: bool) -> DetectRule {
    DetectRule::YamlContains { file: file.into(), key_path: key_path.into(), value: value.map(Into::into), negate }
}

const EXPRESS_PKG: &str = r#"{"dependencies":{"express":"^4"}}"#;
const CRATE: &str = "[package]\nname = \"my-crate\"\n";

#[test]
fn file_exists_matches() {
    let d = vec![block("node", MatchMode::Any, vec![present("package.json", false)])];
    assert_eq!(detect(&d, &[("package.json", "{}")]), Some("node".into()));
}

#[test]
fn file_exists_negate() {
    let d = vec![block("no-package", MatchMode::Any, vec![present("package.json", true)])];
    assert_eq!(detect(&d, &[]), Some("no-package".into()));
}

#[test]
fn file_contains_matches() {
    let d = vec![block("express", MatchMode::Any, vec![contains("package.json", "express", false)])];
    assert_eq!(detect(&d, &[("package.json", EXPRESS_PKG)]), Some("express".into()));
}

#[test]
fn json_contains_key_path() {
    let d = vec![block("express", MatchMode::Any, vec![json("package.json", "dependencies.express", None, false)])];
    assert_eq!(detect(&d, &[("package.json", EXPRESS_PKG)]), Some("express".into()));
}

#[test]
fn match_mode_all_requires_all_rules() {
    let d = vec![block("both", MatchMode::All, vec![present("package.json", false), present("tsconfig.json", false)])];
    assert_eq!(detect(&d, &[("package.json", "{}")]), None);
}

#[test]
fn no_matching_block_returns_none() {
    let d = vec![block("node", MatchMode::Any, vec![present("package.json", false)])];
    assert_eq!(detect(&d, &[]), None);
}

#[test]
fn file_contains_negate_matches_when_content_absent() {
    let d = vec![block("no-express", MatchMode::Any, vec![contains("app.js", "express", true)])];
    assert_eq!(detect(&d, &[("app.js", "const koa = require('koa');")]), Some("no-express".into()));
}

#[test]
fn file_contains_negate_no_match_when_content_present() {
    let d = vec![block("no-express", MatchMode::Any, vec![contains("app.js", "express", true)])];
    assert_eq!(detect(&d, &[("app.js", "const express = require('express');")]), None);
}

#[test]
fn json_contains_value_matches() {
    let d = vec![block("esm", MatchMode::Any, vec![json("package.json", "type", Some("module"), false)])];
    assert_eq!(detect(&d, &[("package.json", r#"{"type":"module","version":"1.0.0"}"#)]), Some("esm".into()));
}

#[test]
fn json_contains_value_no_match_when_different() {
    let d = vec![block("esm", MatchMode::Any, vec![json("package.json", "type", Some("module"), false)])];
    assert_eq!(detect(&d, &[("package.json", r#"{"type":"commonjs"}"#)]), None);
}

#[test]
fn json_contains_missing_file_no_match() {
    let d = vec![block("node", MatchMode::Any, vec![json("package.json", "dependencies.express", None, false)])];
    assert_eq!(detect(&d, &[]), None);
}

#[test]
fn toml_contains_key_path_match() {
    let d = vec![block("rust", MatchMode::Any, vec![toml_rule("Cargo.toml", "package.name", None, false)])];
    assert_eq!(detect(&d, &[("Cargo.toml", CRATE)]), Some("rust".into()));
}

#[test]
fn toml_contains_value_matches() {
    let d = vec![block("my-crate", MatchMode::Any, vec![toml_rule("Cargo.toml", "package.name", Some("my-crate"), false)])];
    assert_eq!(detect(&d, &[("Cargo.toml", CRATE)]), Some("my-crate".into()));
}

#[test]
fn toml_contains_value_no_match_when_different() {
    let d = vec![block("my-crate", MatchMode::Any, vec![toml_rule("Cargo.toml", "package.name", Some("my-crate"), false)])];
    assert_eq!(detect(&d, &[("Cargo.toml", "[package]\nname = \"other-crate\"\n")]), None);
}

#[test]
fn toml_contains_missing_file_no_match() {
    let d = vec![block("rust", MatchMode::Any, vec![toml_rule("Cargo.toml", "package.name", None, false)])];
    assert_eq!(detect(&d, &[]), None);
}

#[test]
fn yaml_contains_key_path_match() {
    let d = vec![block("has-db", MatchMode::Any, vec![yaml("config.yaml", "database.host", None, false)])];
    assert_eq!(detect(&d, &[("config.yaml", "database:\n  host: localhost\n")]), Some("has-db".into()));
}

#[test]
fn yaml_contains_value_matches() {
    let d = vec![block("prod", MatchMode::Any, vec![yaml("config.yaml", "env", Some("production"), false)])];
    assert_eq!(detect(&d, &[("config.yaml", "env: production\n")]), Some("prod".into()));
}

#[test]
fn yaml_contains_value_no_match_when_different() {
    let d = vec![block("prod", MatchMode::Any, vec![yaml("config.yaml", "env", Some("production"), false)])];
    assert_eq!(detect(&d, &[("config.yaml", "env: staging\n")]), None);
}

#[test]
fn yaml_contains_missing_file_no_match() {
    let d = vec![block("prod", MatchMode::Any, vec![yaml("config.yaml", "env", None, false)])];
    assert_eq!(detect(&d, &[]), None);
}

#[test]
fn match_mode_all_returns_id_when_all_rules_pass() {
    let d = vec![block("ts-node", MatchMode::All, vec![present("package.json", false), present("tsconfig.json", false)])];
    assert_eq!(detect(&d, &[("package.json", "{}"), ("tsconfig.json", "{}")]), Some("ts-node".into()));
}

#[test]
fn first_matching_block_is_returned() {
    let d = vec![
        block("first", MatchMode::Any, vec![present("package.json", false)]),
        block("second", MatchMode::Any, vec![present("tsconfig.json", false)]),
    ];
    assert_eq!(detect(&d, &[("package.json", "{}"), ("tsconfig.json", "{}")]), Some("first".into()));
}

#[test]
fn second_block_returned_when_first_doesnt_match() {
    let d = vec![
        block("first", MatchMode::Any, vec![present("package.json", false)]),
        block("second", MatchMode::Any, vec![present("tsconfig.json", false)]),
    ];
    assert_eq!(detect(&d, &[("tsconfig.json", "{}")]), Some("second".into()));
}

#[test]
fn empty_detect_list_returns_none() {
    assert_eq!(detect(&[], &[("package.json", "{}")]), None);
}

#[test]
fn match_mode_all_requires_all_rules_part2() {
    let d = vec![block("ts-node", MatchMode::All, vec![present("package.json", false), present("tsconfig.json", false)])];
    assert_eq!(detect(&d, &[("package.json", "{}")]), None);
}

#[test]
fn json_contains_negate_matches_when_key_absent() {
    let d = vec![block("no-express", MatchMode::Any, vec![json("package.json", "dependencies.express", None, true)])];
    assert_eq!(detect(&d, &[("package.json", r#"{"name":"my-app"}"#)]), Some("no-express".into()));
}

#[test]
fn json_contains_negate_no_match_when_key_present() {
    let d = vec![block("no-express", MatchMode::Any, vec![json("package.json", "dependencies.express", None, true)])];
    assert_eq!(detect(&d, &[("package.json", r#"{"dependencies":{"express":"^4.0.0"}}"#)]), None);
}

#[test]
fn toml_contains_negate_matches_when_key_absent() {
    let d = vec![block("no-tokio", MatchMode::Any, vec![toml_rule("Cargo.toml", "dependencies.tokio", None, true)])];
    assert_eq!(detect(&d, &[("Cargo.toml", CRATE)]), Some("no-tokio".into()));
}

#[test]
fn toml_contains_negate_no_match_when_key_present() {
    let d = vec![block("no-tokio", MatchMode::Any, vec![toml_rule("Cargo.toml", "dependencies.tokio", None, true)])];
    let text = "[package]\nname = \"my-crate\"\n\n[dependencies]\ntokio = \"1\"\n";
    assert_eq!(detect(&d, &[("Cargo.toml", text)]), None);
}

#[test]
fn yaml_contains_negate_matches_when_key_absent() {
    let d = vec![block("no-database", MatchMode::Any, vec![yaml("config.yaml", "database.host", None, true)])];
    assert_eq!(detect(&d, &[("config.yaml", "name: my-app\n")]), Some("no-database".into()));
}

#[test]
fn yaml_contains_negate_no_match_when_key_present() {
    let d = vec![block("no-database", MatchMode::Any, vec![yaml("config.yaml", "database.host", None, true)])];
    assert_eq!(detect(&d, &[("config.yaml", "database:\n  host: localhost\n")]), None);
}

#[test]
fn json_contains_numeric_value_matches_as_string() {
    let d = vec![block("node18", MatchMode::Any, vec![json("package.json", "engines.node", Some("18"), false)])];
    assert_eq!(detect(&d, &[("package.json", r#"{"engines":{"node":18}}"#)]), Some("node18".into()));
}

#[test]
fn file_exists_negate_matches_when_file_absent() {
    let d = vec![block("no-file", MatchMode::Any, vec![present("missing.txt", true)])];
    assert_eq!(detect(&d, &[]), Some("no-file".into()));
}

#[test]
fn file_contains_negate_matches_when_file_missing() {
    let d = vec![block("no-express", MatchMode::Any, vec![contains("app.js", "express", true)])];
    assert_eq!(detect(&d, &[]), Some("no-express".into()));
}

#[test]
fn any_block_with_no_rules_never_matches_and_all_block_always_does() {
    let d = vec![block("any-empty", MatchMode::Any, vec![]), block("all-empty", MatchMode::All, vec![])];
    assert_eq!(detect(&d, &[]), Some("all-empty".into()));
}

#[test]
fn negation_flips_each_rule() {
    let files = [("package.json", EXPRESS_PKG)];
    for (plain, negated) in [
        (present("package.json", false), present("package.json", true)),
        (contains("package.json", "express", false), contains("package.json", "express", true)),
        (json("package.json", "dependencies", None, false), json("package.json", "dependencies", None, true)),
    ] {
        assert_ne!(eval_rule(&plain, &probe(&plain, &files)), eval_rule(&negated, &probe(&negated, &files)));
    }
}

#[test]
fn invalid_documents_never_match() {
    let d = vec![block("j", MatchMode::Any, vec![json("package.json", "a", None, false)])];
    assert_eq!(detect(&d, &[("package.json", "{not json")]), None);
    let d = vec![block("j", MatchMode::Any, vec![json("package.json", "a", None, true)])];
    assert_eq!(detect(&d, &[("package.json", "{not json")]), Some("j".into()));
}

#[test]
fn key_paths_walk_mappings_only() {
    let rule = json("package.json", "a", None, false);
    let text = r#"{"a":{"b":[1,2]},"c":"x","d":true}"#.to_string();
    let doc = probe_for(&rule, true, Some(text)).doc.unwrap();
    assert!(doc_has_path(&doc, "a.b", None));
    assert!(doc_has_path(&doc, "a.b", Some("[1,2]")));
    assert!(!doc_has_path(&doc, "a.b.0", None));
    assert!(doc_has_path(&doc, "c", Some("x")));
    assert!(!doc_has_path(&doc, "c", Some("\"x\"")));
    assert!(doc_has_path(&doc, "d", Some("true")));
    assert!(!doc_has_path(&doc, "", None));
    assert!(!doc_has_path(&doc, "a.", None));
}

#[test]
fn each_format_is_parsed_by_its_rule() {
    let json_rule = json("f", "k", None, false);
    let toml_r = toml_rule("f", "k", None, false);
    let yaml_r = yaml("f", "k", None, false);
    assert!(probe_for(&json_rule, true, Some("{\"k\": 1}".to_string())).doc.is_some());
    assert!(probe_for(&json_rule, true, Some("k = 1".to_string())).doc.is_none());
    assert!(probe_for(&toml_r, true, Some("k = 1".to_string())).doc.is_some());
    assert!(probe_for(&toml_r, true, Some("{\"k\": }".to_string())).doc.is_none());
    assert!(probe_for(&yaml_r, true, Some("k: 1".to_string())).doc.is_some());
    assert!(probe_for(&present("f", false), true, Some("k: 1".to_string())).doc.is_none());
    assert!(probe_for(&json_rule, false, None).doc.is_none());
}

#[test]
fn yaml_values_are_rendered_by_debug_and_toml_by_display() {
    let y = vec![block("y", MatchMode::Any, vec![yaml("c.yaml", "n", Some("Number(3)"), false)])];
    assert_eq!(detect(&y, &[("c.yaml", "n: 3\n")]), Some("y".into()));
    let t = vec![block("t", MatchMode::Any, vec![toml_rule("c.toml", "n", Some("3"), false)])];
    assert_eq!(detect(&t, &[("c.toml", "n = 3\n")]), Some("t".into()));
}

#[test]
fn yaml_tagged_keys_are_not_matched_but_tagged_mappings_are_walked() {
    let tagged_key = vec![block("db", MatchMode::Any, vec![yaml("config.yaml", "database", None, false)])];
    assert_eq!(detect(&tagged_key, &[("config.yaml", "!custom database: x\n")]), None);
    assert_eq!(detect(&tagged_key, &[("config.yaml", "database: x\n")]), Some("db".into()));
    let tagged_map = vec![block("db", MatchMode::Any, vec![yaml("config.yaml", "database.host", None, false)])];
    assert_eq!(detect(&tagged_map, &[("config.yaml", "database: !conf\n  host: h\n")]), Some("db".into()));
}

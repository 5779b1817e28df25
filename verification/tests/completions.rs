use oxide_cli::completions::{
    addon_commands, addon_help, addons_for_use, command_about, complete_env_var, completions_end_marker,
    completions_start_marker, installed_template_help, installed_template_names,
    powershell_profile_paths_in, powershell_profile_snippet, powershell_single_quote,
    sort_addons_by_id, zsh_fpath_snippet, CompletionShell, InstalledAddonCompletion,
};
use oxide_cli::managed_block::{managed_update, upsert_managed_block};
use oxide_cli::manifest::{AddonCommand, AddonManifest, Variant};
use oxide_cli::template_cache::{AnesisTemplate, AnesisTemplateMetadata, AnesisTemplateRepository, TemplatesCache};

const START: &str = "# oxide completions start";
const END: &str = "# oxide completions end";

const NOW: &str = "2026-01-01T00:00:00Z";

fn zsh_config_after(existing: &str, dir: &str) -> String {
    upsert_managed_block(existing, &zsh_fpath_snippet(dir), START, END)
}

#[test]
fn upsert_managed_block_inserts_into_empty() {
    let result = upsert_managed_block("", "# start\ncode\n# end", "# start", "# end");
    assert_eq!(result, "# start\ncode\n# end\n");
}

#[test]
fn upsert_managed_block_replaces_existing() {
    let original = "before\n\n# start\nold code\n# end\nafter\n";
    let result = upsert_managed_block(original, "# start\nnew code\n# end", "# start", "# end");
    assert_eq!(result, "before\n\n# start\nnew code\n# end\nafter\n");
}

#[test]
fn upsert_managed_block_appends_when_absent() {
    let result = upsert_managed_block("existing content\n", "# start\ncode\n# end", "# start", "# end");
    assert_eq!(result, "existing content\n\n# start\ncode\n# end\n");
}

#[test]
fn powershell_profile_paths_in_returns_both_profiles() {
    let paths = powershell_profile_paths_in("/home/user/Documents");
    assert_eq!(paths.len(), 2);
    assert!(paths[0].ends_with("PowerShell/Microsoft.PowerShell_profile.ps1"));
    assert!(paths[1].ends_with("WindowsPowerShell/Microsoft.PowerShell_profile.ps1"));
}

#[test]
fn template_candidates_empty_when_no_cache() {
    assert!(installed_template_names(&TemplatesCache::empty(NOW)).is_empty());
}

#[test]
fn zsh_fpath_snippet_contains_dir_and_compinit() {
    let snippet = zsh_fpath_snippet("/home/user/.zfunc");
    assert!(snippet.contains("fpath=(/home/user/.zfunc $fpath)"));
    assert!(snippet.contains("autoload -Uz compinit && compinit"));
    assert!(snippet.starts_with("# oxide completions start"));
    assert!(snippet.ends_with("# oxide completions end"));
}

#[test]
fn upsert_zsh_config_writes_new_file() {
    let content = zsh_config_after("", "/home/user/.zfunc");
    assert!(content.contains("fpath=(/home/user/.zfunc $fpath)"));
}

#[test]
fn upsert_zsh_config_is_idempotent() {
    let once = zsh_config_after("", "/home/user/.zfunc");
    let twice = zsh_config_after(&once, "/home/user/.zfunc");
    assert_eq!(once, twice);
    assert_eq!(twice.matches("# oxide completions start").count(), 1);
}

#[test]
fn upsert_zsh_config_replaces_old_block() {
    let first = zsh_config_after("", "/old/.zfunc");
    let content = zsh_config_after(&first, "/new/.zfunc");
    assert!(content.contains("/new/.zfunc"));
    assert!(!content.contains("/old/.zfunc"));
}

#[test]
fn upsert_zsh_config_preserves_existing_content() {
    let content = zsh_config_after("export PATH=$PATH:/usr/local/bin\n", "/home/user/.zfunc");
    assert!(content.contains("export PATH=$PATH:/usr/local/bin"));
    assert!(content.contains("fpath=(/home/user/.zfunc $fpath)"));
}

#[test]
fn powershell_profile_paths_cover_both_shells() {
    let profiles = powershell_profile_paths_in("/tmp/Documents");
    assert_eq!(profiles, vec![
        "/tmp/Documents/PowerShell/Microsoft.PowerShell_profile.ps1".to_string(),
        "/tmp/Documents/WindowsPowerShell/Microsoft.PowerShell_profile.ps1".to_string(),
    ]);
}

#[test]
fn powershell_profile_snippet_embeds_script_path() {
    let snippet = powershell_profile_snippet("C:\\Users\\maksym\\.oxide\\completions\\oxide.ps1");
    assert!(snippet.contains(START));
    assert!(snippet.contains(END));
    assert!(snippet.contains("$oxideCompletionScript = 'C:\\Users\\maksym\\.oxide\\completions\\oxide.ps1'"));
}

#[test]
fn upsert_managed_block_appends_once() {
    let block = format!("{START}\nmanaged\n{END}");
    let updated = upsert_managed_block("Set-PSReadLineOption -EditMode Windows\n", &block, START, END);
    let updated_again = upsert_managed_block(&updated, &block, START, END);
    assert_eq!(updated, updated_again);
    assert_eq!(updated.matches(START).count(), 1);
}

#[test]
fn managed_block_normalises_crlf_and_keeps_the_tail() {
    let original = "a\r\n# s\r\nold\r\n# e\r\nz";
    assert_eq!(upsert_managed_block(original, "# s\nnew\n# e", "# s", "# e"), "a\n# s\nnew\n# e\nz");
    assert_eq!(upsert_managed_block("x", "B", "# s", "# e"), "x\n\nB\n");
    assert_eq!(upsert_managed_block("# s\nno end", "B", "# s", "# e"), "# s\nno end\n\nB\n");
}

#[test]
fn powershell_snippet_is_exact_and_quotes_apostrophes() {
    assert_eq!(powershell_single_quote("C:\\it's"), "C:\\it''s");
    assert_eq!(
        powershell_profile_snippet("/h/o'x.ps1"),
        "# oxide completions start\n$oxideCompletionScript = '/h/o''x.ps1'\nif (Test-Path $oxideCompletionScript) {\n. $oxideCompletionScript\n}\n# oxide completions end"
    );
}

#[test]
fn zsh_snippet_is_exact() {
    assert_eq!(
        zsh_fpath_snippet("/z"),
        "# oxide completions start\nfpath=(/z $fpath)\nautoload -Uz compinit && compinit\n# oxide completions end"
    );
}

#[test]
fn shells_have_engine_names() {
    assert_eq!(CompletionShell::Bash.env_name(), "bash");
    assert_eq!(CompletionShell::Zsh.env_name(), "zsh");
    assert_eq!(CompletionShell::Fish.env_name(), "fish");
    assert_eq!(CompletionShell::PowerShell.env_name(), "powershell");
    assert_eq!(complete_env_var(), "COMPLETE");
    assert_eq!(completions_start_marker(), START);
    assert_eq!(completions_end_marker(), END);
}

fn template(name: &str) -> AnesisTemplate {
    AnesisTemplate {
        name: name.to_string(),
        version: "1.0.0".to_string(),
        anesis_version: "0.1.0".to_string(),
        official: false,
        repository: AnesisTemplateRepository { url: String::new() },
        metadata: AnesisTemplateMetadata { display_name: name.to_string(), description: String::new() },
    }
}

#[test]
fn template_names_are_sorted_and_unique() {
    let mut cache = TemplatesCache::empty(NOW);
    cache.record_install(&template("vue"), "vue", "1", NOW);
    cache.record_install(&template("angular"), "angular", "2", NOW);
    cache.record_install(&template("react"), "react", "3", NOW);
    assert_eq!(installed_template_names(&cache), vec!["angular", "react", "vue"]);
}

fn command(name: &str, description: &str) -> AddonCommand {
    AddonCommand { name: name.to_string(), description: description.to_string(), once: false, steps: vec![] }
}

#[test]
fn addon_commands_merge_variants_by_name() {
    let manifest = AddonManifest {
        schema_version: "1".into(),
        id: "drizzle".into(),
        name: "Drizzle".into(),
        version: "1.0.0".into(),
        description: String::new(),
        author: String::new(),
        requires: vec![],
        inputs: vec![],
        detect: vec![],
        variants: vec![
            Variant { when: Some("next".into()), commands: vec![command("migrate", ""), command("install", "Install it")] },
            Variant { when: None, commands: vec![command("migrate", "Run migrations"), command("install", "Other")] },
        ],
    };
    let commands = addon_commands(&manifest);
    let pairs: Vec<(&str, &str)> =
        commands.iter().map(|c| (c.name.as_str(), c.description.as_str())).collect();
    assert_eq!(pairs, vec![("install", "Install it"), ("migrate", "Run migrations")]);
}

#[test]
fn addon_helps() {
    assert_eq!(installed_template_help(), "Installed template");
    assert_eq!(addon_help("Drizzle", "1.2.0"), "Installed addon: Drizzle v1.2.0");
    assert_eq!(command_about(""), "Installed addon command");
    assert_eq!(command_about("Run it"), "Run it");
}

#[test]
fn addons_are_ordered_by_id() {
    let addon = |id: &str| InstalledAddonCompletion {
        id: id.to_string(),
        name: id.to_string(),
        version: "1".to_string(),
        commands: vec![],
    };
    let sorted = sort_addons_by_id(vec![addon("zod"), addon("axios"), addon("msw")]);
    let ids: Vec<&str> = sorted.iter().map(|a| a.id.as_str()).collect();
    assert_eq!(ids, vec!["axios", "msw", "zod"]);
}

#[test]
fn lone_carriage_returns_do_not_break_idempotence() {
    let block = format!("{START}\nmanaged\n{END}");
    let once = upsert_managed_block("a\rb", &block, START, END);
    assert_eq!(upsert_managed_block(&once, &block, START, END), once);
    let crlf = upsert_managed_block("x\r\ny\r\n", &block, START, END);
    assert_eq!(upsert_managed_block(&crlf, &block, START, END), crlf);
}

#[test]
fn appended_block_has_one_start_marker_and_a_second_upsert_writes_nothing() {
    let block = zsh_fpath_snippet("/home/user/.zfunc");
    let first = managed_update("export A=1\n", &block, START, END).unwrap();
    assert_eq!(first.matches(START).count(), 1);
    assert_eq!(managed_update(&first, &block, START, END), None);
}

#[test]
fn a_crlf_zsh_config_is_written_once_then_left_alone() {
    let block = zsh_fpath_snippet("/home/user/.zfunc");
    let first = managed_update("export A=1\r\nexport B=2", &block, START, END).unwrap();
    assert_eq!(first, format!("export A=1\nexport B=2\n\n{block}\n"));
    assert_eq!(first.matches(START).count(), 1);
    assert_eq!(managed_update(&first, &block, START, END), None);
}

#[test]
fn replacing_the_one_block_keeps_one_start_marker() {
    let old = zsh_config_after("export A=1\n", "/old/.zfunc");
    let updated = managed_update(&old, &zsh_fpath_snippet("/new/.zfunc"), START, END).unwrap();
    assert_eq!(updated.matches(START).count(), 1);
    assert_eq!(updated, format!("export A=1\n\n{}\n", zsh_fpath_snippet("/new/.zfunc")));
    assert_eq!(managed_update(&updated, &zsh_fpath_snippet("/new/.zfunc"), START, END), None);
}

#[test]
fn use_gets_each_new_addon_id_once() {
    let addon = |id: &str, name: &str| InstalledAddonCompletion {
        id: id.to_string(),
        name: name.to_string(),
        version: "1".to_string(),
        commands: vec![],
    };
    let existing = vec!["list".to_string(), "ls".to_string()];
    let added = addons_for_use(&existing, vec![addon("msw", "a"), addon("ls", "b"), addon("msw", "c"), addon("zod", "d")]);
    let kept: Vec<(&str, &str)> = added.iter().map(|a| (a.id.as_str(), a.name.as_str())).collect();
    assert_eq!(kept, vec![("msw", "a"), ("zod", "d")]);
}

use oxide_cli::lock::{lock_file_name, LockEntry, LockFile};

fn sample_entry(id: &str) -> LockEntry {
    LockEntry {
        id: id.to_string(),
        version: "1.0.0".to_string(),
        variant: "universal".to_string(),
        commands_executed: vec![],
    }
}

#[test]
fn is_command_executed_false_when_no_entry() {
    let lock = LockFile::default();
    assert!(!lock.is_command_executed("drizzle", "install"));
}

#[test]
fn addon_version_returns_current_version_when_entry_exists() {
    let mut lock = LockFile::default();
    lock.upsert_entry(sample_entry("drizzle"));
    assert_eq!(lock.addon_version("drizzle"), Some("1.0.0"));
}

#[test]
fn mark_command_executed_adds_once() {
    let mut lock = LockFile::default();
    lock.upsert_entry(sample_entry("drizzle"));
    lock.mark_command_executed("drizzle", "install");
    lock.mark_command_executed("drizzle", "install");
    let entry = lock.addons.iter().find(|e| e.id == "drizzle").unwrap();
    assert_eq!(entry.commands_executed.len(), 1);
}

#[test]
fn upsert_entry_adds_new() {
    let mut lock = LockFile::default();
    lock.upsert_entry(sample_entry("drizzle"));
    assert_eq!(lock.addons.len(), 1);
}

#[test]
fn upsert_entry_replaces_existing() {
    let mut lock = LockFile::default();
    lock.upsert_entry(sample_entry("drizzle"));
    lock.upsert_entry(LockEntry {
        id: "drizzle".to_string(),
        version: "2.0.0".to_string(),
        variant: "nestjs".to_string(),
        commands_executed: vec!["install".to_string()],
    });
    assert_eq!(lock.addons.len(), 1);
    assert_eq!(lock.addons[0].version, "2.0.0");
    assert_eq!(lock.addons[0].variant, "nestjs");
}

#[test]
fn mark_command_executed_noop_when_no_entry() {
    let mut lock = LockFile::default();
    lock.mark_command_executed("unknown", "install");
    assert!(lock.addons.is_empty());
}

#[test]
fn marked_command_reads_back_as_executed() {
    let mut lock = LockFile::default();
    lock.upsert_entry(sample_entry("drizzle"));
    lock.upsert_entry(sample_entry("prisma"));
    lock.mark_command_executed("drizzle", "install");
    assert!(lock.is_command_executed("drizzle", "install"));
    assert!(!lock.is_command_executed("drizzle", "migrate"));
    assert!(!lock.is_command_executed("prisma", "install"));
    assert_eq!(lock.addons[0].commands_executed, vec!["install".to_string()]);
}

#[test]
fn upsert_keeps_other_entries_and_their_order() {
    let mut lock = LockFile::default();
    lock.upsert_entry(sample_entry("a"));
    lock.upsert_entry(sample_entry("b"));
    lock.upsert_entry(LockEntry { version: "9.9.9".to_string(), ..sample_entry("a") });
    let ids: Vec<&str> = lock.addons.iter().map(|e| e.id.as_str()).collect();
    assert_eq!(ids, vec!["a", "b"]);
    assert_eq!(lock.addon_version("a"), Some("9.9.9"));
    assert_eq!(lock.addon_version("missing"), None);
}

#[test]
fn lock_file_name_is_fixed() {
    assert_eq!(lock_file_name(), "oxide.lock");
}

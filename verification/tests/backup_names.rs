use cc_switch::backup::{backups_to_prune, BackupKey};
use cc_switch::{
    backup_file_name, choose_backup_file_name, choose_codex_backup_file_name,
    codex_backup_file_name, parse_codex_backup_sort_key, parse_settings_backup_sort_key,
    select_codex_backups_to_prune, select_settings_backups_to_prune, temp_file_name, Timestamp,
};

fn at(year: i32, month: u8, day: u8, hour: u8, minute: u8, second: u8) -> Timestamp {
    Timestamp { year, month, day, hour, minute, second }
}

fn strings(items: &[&str]) -> Vec<String> {
    items.iter().map(|s| s.to_string()).collect()
}

#[test]
fn backup_file_name_uses_timestamp_and_suffix() {
    let now = at(2026, 5, 31, 13, 45, 9);
    assert_eq!(backup_file_name(now, 0), "settings-20260531-134509.json");
    assert_eq!(backup_file_name(now, 2), "settings-20260531-134509-2.json");
}

#[test]
fn backup_file_name_pads_small_and_negative_years() {
    assert_eq!(backup_file_name(at(7, 1, 2, 3, 4, 5), 0), "settings-00070102-030405.json");
    assert_eq!(backup_file_name(at(-44, 3, 15, 0, 0, 0), 10), "settings--00440315-000000-10.json");
}

#[test]
fn codex_backup_file_name_uses_source_stamp_and_suffix() {
    let now = at(2026, 5, 31, 13, 45, 0);
    assert_eq!(codex_backup_file_name("config.toml", now, 0), "config.toml.20260531-134500.bak");
    assert_eq!(codex_backup_file_name("auth.json", now, 3), "auth.json.20260531-134500-3.bak");
}

#[test]
fn parse_codex_backup_sort_key_reads_names_back() {
    assert_eq!(
        parse_codex_backup_sort_key("config.toml.20260531-134500.bak"),
        Some((
            "config.toml".to_string(),
            "20260531-134500".to_string(),
            0,
            "config.toml.20260531-134500.bak".to_string()
        ))
    );
    assert_eq!(
        parse_codex_backup_sort_key("auth.json.20260531-134500-12.bak"),
        Some((
            "auth.json".to_string(),
            "20260531-134500".to_string(),
            12,
            "auth.json.20260531-134500-12.bak".to_string()
        ))
    );
}

#[test]
fn parse_codex_backup_sort_key_rejects_other_names() {
    assert_eq!(parse_codex_backup_sort_key("config.toml"), None);
    assert_eq!(parse_codex_backup_sort_key("config.toml.2026053-134500.bak"), None);
    assert_eq!(parse_codex_backup_sort_key("config.toml.20260531x134500.bak"), None);
    assert_eq!(parse_codex_backup_sort_key("noseparator20260531-134500.bak"), None);
    assert_eq!(parse_codex_backup_sort_key("auth.json.20260531-134500-.bak"), None);
    assert_eq!(parse_codex_backup_sort_key("auth.json.20260531-134500-99999999999.bak"), None);
}

#[test]
fn codex_backup_names_round_trip() {
    let now = at(2026, 12, 1, 23, 59, 58);
    for suffix in [0u32, 1, 9, 10, 4_294_967_295] {
        let name = codex_backup_file_name("models_catalog.json", now, suffix);
        let key = parse_codex_backup_sort_key(&name).unwrap();
        assert_eq!(key.0, "models_catalog.json");
        assert_eq!(key.1, "20261201-235958");
        assert_eq!(key.2, suffix);
        assert_eq!(key.3, name);
    }
}

#[test]
fn settings_backup_names_round_trip() {
    let now = at(2026, 5, 31, 13, 45, 9);
    assert_eq!(
        parse_settings_backup_sort_key(&backup_file_name(now, 0)),
        Some(("20260531-134509".to_string(), 0))
    );
    assert_eq!(
        parse_settings_backup_sort_key(&backup_file_name(now, 7)),
        Some(("20260531-134509".to_string(), 7))
    );
    assert_eq!(parse_settings_backup_sort_key("settings.json"), None);
}

#[test]
fn create_backup_prunes_old_backups_and_keeps_latest_five() {
    let names = strings(&[
        "settings-20260531-134500.json",
        "settings-20260531-134501.json",
        "settings-20260531-134502.json",
        "settings-20260531-134503.json",
        "settings-20260531-134504.json",
        "settings-20260531-134505.json",
    ]);
    assert_eq!(select_settings_backups_to_prune(&names, 5), vec![0]);
}

#[test]
fn use_codex_profile_prunes_backups_per_codex_target_file() {
    let names = strings(&[
        "config.toml.20260531-134500.bak",
        "config.toml.20260531-134501.bak",
        "auth.json.20260531-134500.bak",
        "auth.json.20260531-134501.bak",
        "config.toml.20260531-134502.bak",
        "notes.txt",
    ]);
    assert_eq!(select_codex_backups_to_prune(&names, "config.toml", 2), vec![0]);
    assert_eq!(select_codex_backups_to_prune(&names, "auth.json", 2), Vec::<usize>::new());
    assert_eq!(select_codex_backups_to_prune(&names, "auth.json", 1), vec![2]);
}

#[test]
fn pruning_orders_by_stamp_then_suffix() {
    let keys: Vec<Option<BackupKey>> = vec![
        Some(("20260531-134500".to_string(), 2, "a-2".to_string())),
        None,
        Some(("20260531-134500".to_string(), 10, "a-10".to_string())),
        Some(("20260530-000000".to_string(), 0, "b".to_string())),
        Some(("20260601-000000".to_string(), 0, "c".to_string())),
    ];
    assert_eq!(backups_to_prune(&keys, 2), vec![0, 3]);
    assert_eq!(backups_to_prune(&keys, 0), vec![0, 2, 3, 4]);
    assert_eq!(backups_to_prune(&keys, 4), Vec::<usize>::new());
}

#[test]
fn choose_backup_file_name_skips_taken_names() {
    let now = at(2026, 5, 31, 13, 45, 9);
    let existing = strings(&[
        "settings-20260531-134509.json",
        "settings-20260531-134509-1.json",
        "other.json",
    ]);
    assert_eq!(
        choose_backup_file_name(now, &existing),
        Some(("settings-20260531-134509-2.json".to_string(), 2))
    );
    assert_eq!(
        choose_backup_file_name(now, &Vec::new()),
        Some(("settings-20260531-134509.json".to_string(), 0))
    );
    let codex_existing = strings(&["auth.json.20260531-134509.bak"]);
    assert_eq!(
        choose_codex_backup_file_name("auth.json", now, &codex_existing),
        Some(("auth.json.20260531-134509-1.bak".to_string(), 1))
    );
}

#[test]
fn temp_file_name_holds_pid_and_nonce() {
    assert_eq!(temp_file_name(4242, 1_700_000_000_123_456_789), ".cc-switch-4242-1700000000123456789.tmp");
}

#[test]
fn pruning_follows_time_then_numeric_suffix() {
    let early = at(2025, 12, 31, 23, 59, 59);
    let late = at(2026, 1, 1, 0, 0, 0);
    let names = vec![
        codex_backup_file_name("auth.json", late, 10),
        codex_backup_file_name("auth.json", early, 0),
        codex_backup_file_name("auth.json", late, 9),
        codex_backup_file_name("auth.json", late, 0),
    ];
    assert_eq!(select_codex_backups_to_prune(&names, "auth.json", 1), vec![1, 2, 3]);
    assert_eq!(select_codex_backups_to_prune(&names, "auth.json", 2), vec![1, 3]);
    assert_eq!(select_codex_backups_to_prune(&names, "auth.json", 3), vec![1]);
}

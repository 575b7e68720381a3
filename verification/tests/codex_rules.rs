use cc_switch::codex::{
    catalog_action, current_codex_profile_name_for_history, ensure_target_file_slot,
    optional_models_catalog_path, pending_sync_file,
    read_existing_codex_current_name, sync_answer_accepts, validate_target_auth_json,
    CatalogAction, CodexSyncKind, CodexUseError, EntryKind, SlotError, SyncError,
};
use cc_switch::profile::ProfileNameError;
use cc_switch::text::sort_strings;
use cc_switch::use_codex_profile;

#[test]
fn use_codex_profile_requires_auth_json_in_profile() {
    assert_eq!(
        use_codex_profile("openai", EntryKind::File, EntryKind::Missing, EntryKind::Missing),
        Err(CodexUseError::AuthNotFound)
    );
}

#[test]
fn use_codex_profile_checks_name_and_files_in_order() {
    assert_eq!(
        use_codex_profile(".x", EntryKind::Missing, EntryKind::Missing, EntryKind::Other),
        Err(CodexUseError::InvalidName(ProfileNameError::LeadingDot))
    );
    assert_eq!(
        use_codex_profile("openai", EntryKind::Other, EntryKind::File, EntryKind::Missing),
        Err(CodexUseError::ConfigNotFound)
    );
    assert_eq!(
        use_codex_profile("deepseek", EntryKind::File, EntryKind::File, EntryKind::Other),
        Err(CodexUseError::CatalogNotFile)
    );
    assert_eq!(
        use_codex_profile("deepseek", EntryKind::File, EntryKind::File, EntryKind::File),
        Ok(true)
    );
    assert_eq!(
        use_codex_profile("openai", EntryKind::File, EntryKind::File, EntryKind::Missing),
        Ok(false)
    );
    assert_eq!(optional_models_catalog_path(EntryKind::Missing), Ok(false));
}

#[test]
fn collect_codex_profiles_returns_sorted_names() {
    let names = vec!["zeta".to_string(), "openai".to_string(), "alpha".to_string()];
    assert_eq!(sort_strings(names), vec!["alpha", "openai", "zeta"]);
}

#[test]
fn target_slots_accept_files_and_missing_paths() {
    assert_eq!(ensure_target_file_slot(EntryKind::Missing), Ok(()));
    assert_eq!(ensure_target_file_slot(EntryKind::File), Ok(()));
    assert_eq!(ensure_target_file_slot(EntryKind::Other), Err(SlotError::NotAFile));
}

#[test]
fn current_record_must_hold_a_valid_name() {
    assert_eq!(
        read_existing_codex_current_name(Some("openai".to_string())).as_deref(),
        Some("openai")
    );
    assert_eq!(read_existing_codex_current_name(Some("../x".to_string())), None);
    assert_eq!(read_existing_codex_current_name(None), None);
}

#[test]
fn history_needs_active_files_and_existing_preset() {
    let openai = Some("openai".to_string());
    assert_eq!(
        current_codex_profile_name_for_history(true, true, openai.clone(), true).as_deref(),
        Some("openai")
    );
    assert_eq!(current_codex_profile_name_for_history(false, true, openai.clone(), true), None);
    assert_eq!(current_codex_profile_name_for_history(true, true, openai, false), None);
    assert_eq!(
        current_codex_profile_name_for_history(true, true, Some("bad name".to_string()), true),
        None
    );
}

#[test]
fn use_codex_profile_syncs_only_changed_config_file() {
    let edited = b"model = \"gpt-5\"\nprovider = \"local\"\n";
    let preset = b"model = \"gpt-5\"\n";
    assert_eq!(
        pending_sync_file(Some(edited), preset, CodexSyncKind::Config),
        Ok(Some(edited.to_vec()))
    );
    assert_eq!(pending_sync_file(Some(preset), preset, CodexSyncKind::Config), Ok(None));
    assert_eq!(pending_sync_file(None, preset, CodexSyncKind::Config), Ok(None));
}

#[test]
fn use_codex_profile_aborts_when_active_auth_json_is_invalid() {
    assert_eq!(
        pending_sync_file(Some(b"{ invalid"), b"{\"token\":\"openai\"}", CodexSyncKind::Auth),
        Err(SyncError::InvalidTargetJson)
    );
    assert_eq!(
        pending_sync_file(Some(b"{\"token\":\"x\"}"), b"{ invalid", CodexSyncKind::Auth),
        Err(SyncError::InvalidProfileJson)
    );
    assert!(!validate_target_auth_json(Some(b"{ invalid")));
    assert!(validate_target_auth_json(None));
    assert!(validate_target_auth_json(Some(b" {\"token\":\"x\"} \n")));
}

#[test]
fn json_validity_follows_serde_json() {
    assert!(validate_target_auth_json(Some(b"{}")));
    assert!(validate_target_auth_json(Some(b"[1, 2]")));
    assert!(!validate_target_auth_json(Some(b"{ invalid catalog\xff\n")));
    assert!(!validate_target_auth_json(Some(b"")));
}

#[test]
fn model_catalog_is_written_removed_or_left_alone() {
    assert_eq!(catalog_action(true, true), CatalogAction::Write);
    assert_eq!(catalog_action(true, false), CatalogAction::Write);
    assert_eq!(catalog_action(false, true), CatalogAction::RemoveStale);
    assert_eq!(catalog_action(false, false), CatalogAction::Nothing);
}

#[test]
fn sync_answers_accept_yes_only() {
    assert!(sync_answer_accepts("y\n"));
    assert!(sync_answer_accepts(" YES "));
    assert!(!sync_answer_accepts(""));
    assert!(!sync_answer_accepts("no"));
    assert!(!sync_answer_accepts("yeah"));
}

#[test]
fn sync_kinds_name_their_files() {
    assert_eq!(CodexSyncKind::Config.file_name(), "config.toml");
    assert_eq!(CodexSyncKind::Auth.file_name(), "auth.json");
    assert_eq!(CodexSyncKind::ModelsCatalog.file_name(), "models_catalog.json");
}

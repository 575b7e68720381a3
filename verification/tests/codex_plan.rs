use cc_switch::codex::{
    check_codex_preset, plan_codex_switch, sync_back_plan, CatalogAction, CodexPresetError,
    CodexSwitchError, CodexSyncKind, CodexUseError, EntryKind, SyncStep,
};
use cc_switch::profile::{BeforeRecordAction, ProfileNameError};
use EntryKind::{File, Missing, Other};

#[test]
fn check_codex_preset_refuses_invalid_json() {
    assert_eq!(check_codex_preset(b"{\"k\":1}", None), Ok(()));
    assert_eq!(check_codex_preset(b"{\"k\":1}", Some(b" [] ")), Ok(()));
    assert_eq!(check_codex_preset(b"{", None), Err(CodexPresetError::InvalidAuth));
    assert_eq!(check_codex_preset(b"{", Some(b"{")), Err(CodexPresetError::InvalidAuth));
    assert_eq!(
        check_codex_preset(b"{}", Some(b"not json")),
        Err(CodexPresetError::InvalidCatalog)
    );
}

#[test]
fn plan_codex_switch_backs_up_existing_files_and_writes_catalog() {
    let previous = "openai".to_string();
    let plan = plan_codex_switch(
        EntryKind::File,
        EntryKind::File,
        EntryKind::Missing,
        Some(b"{}"),
        b"{\"k\":\"v\"}",
        Some(b"{}"),
        Some(&previous),
        "deepseek",
    )
    .unwrap();
    assert!(plan.backup_config && plan.backup_auth && !plan.backup_catalog);
    assert_eq!(plan.catalog, CatalogAction::Write);
    assert_eq!(plan.before, BeforeRecordAction::Write("openai".to_string()));
}

#[test]
fn plan_codex_switch_removes_stale_catalog_and_clears_history() {
    let plan = plan_codex_switch(
        EntryKind::Missing,
        EntryKind::Missing,
        EntryKind::File,
        None,
        b"{}",
        None,
        None,
        "openai",
    )
    .unwrap();
    assert!(!plan.backup_config && !plan.backup_auth && plan.backup_catalog);
    assert_eq!(plan.catalog, CatalogAction::RemoveStale);
    assert_eq!(plan.before, BeforeRecordAction::Clear);
}

#[test]
fn plan_codex_switch_refuses_before_any_action() {
    let refuse = |config, auth, catalog, active: Option<&[u8]>, preset: &[u8], preset_catalog: Option<&[u8]>| {
        plan_codex_switch(config, auth, catalog, active, preset, preset_catalog, None, "x").unwrap_err()
    };
    assert_eq!(refuse(Other, Other, Other, None, b"{", None), CodexSwitchError::ConfigSlotNotFile);
    assert_eq!(refuse(File, Other, Missing, None, b"{}", None), CodexSwitchError::AuthSlotNotFile);
    assert_eq!(refuse(File, File, Other, None, b"{}", None), CodexSwitchError::CatalogSlotNotFile);
    assert_eq!(refuse(File, File, Missing, Some(b"{"), b"{}", None), CodexSwitchError::InvalidTargetAuth);
    assert_eq!(
        refuse(File, File, Missing, Some(b"{}"), b"nope", None),
        CodexSwitchError::InvalidPreset(CodexPresetError::InvalidAuth)
    );
    assert_eq!(
        refuse(Missing, Missing, Missing, None, b"{}", Some(b"{")),
        CodexSwitchError::InvalidPreset(CodexPresetError::InvalidCatalog)
    );
}

#[test]
fn sync_back_writes_auth_at_once_and_asks_for_the_rest() {
    assert_eq!(
        sync_back_plan(true, true, true),
        vec![
            SyncStep::WriteNow(CodexSyncKind::Auth),
            SyncStep::AskThenWrite(CodexSyncKind::Config),
            SyncStep::AskThenWrite(CodexSyncKind::ModelsCatalog),
        ]
    );
    assert_eq!(sync_back_plan(false, true, false), vec![SyncStep::AskThenWrite(CodexSyncKind::Config)]);
    assert_eq!(sync_back_plan(true, false, false), vec![SyncStep::WriteNow(CodexSyncKind::Auth)]);
    assert_eq!(sync_back_plan(false, false, false), Vec::<SyncStep>::new());
}

#[test]
fn refusal_messages_name_the_problem() {
    assert_eq!(ProfileNameError::Empty.message("x"), "Profile name cannot be empty");
    assert_eq!(ProfileNameError::LeadingDot.message(".x"), "Profile name cannot start with '.'");
    assert_eq!(ProfileNameError::InvalidCharacter.message("a/b"), "Invalid profile name: a/b");
    assert_eq!(
        CodexUseError::ConfigNotFound.message("openai", "/p/config.toml"),
        "Codex profile config not found: /p/config.toml"
    );
    assert_eq!(
        CodexUseError::AuthNotFound.message("openai", "/p/auth.json"),
        "Codex profile auth not found: /p/auth.json"
    );
    assert_eq!(
        CodexUseError::CatalogNotFile.message("openai", "/p/m.json"),
        "Codex profile model catalog is not a file: /p/m.json"
    );
    assert_eq!(
        CodexUseError::InvalidName(ProfileNameError::Empty).message("", "/p"),
        "Profile name cannot be empty"
    );
}

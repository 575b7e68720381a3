use std::path::PathBuf;

use cc_switch::config::{check_app_config, effective_max_backup_files, ConfigError};
use cc_switch::paths::{plan_user_path, UserPathBase, UserPathError};
use cc_switch::{resolve_user_path, AppConfig, BackupsConfig, ClaudeConfig, ConfigFile};

#[test]
fn resolve_user_path_expands_home_prefix() {
    let home_dir = PathBuf::from("/tmp/sandbox/home");
    let config_dir = PathBuf::from("/tmp/sandbox/.cc-switch-simple");
    let resolved = resolve_user_path("~/custom/settings.json", &config_dir, &home_dir).unwrap();
    assert_eq!(resolved, home_dir.join("custom").join("settings.json"));
}

#[test]
fn resolve_user_path_uses_config_dir_for_relative_paths() {
    let home_dir = PathBuf::from("/tmp/sandbox/home");
    let config_dir = PathBuf::from("/tmp/sandbox/.cc-switch-simple");
    let resolved = resolve_user_path("assistant/settings.json", &config_dir, &home_dir).unwrap();
    assert_eq!(resolved, config_dir.join("assistant").join("settings.json"));
}

#[test]
fn resolve_user_path_handles_home_absolute_and_empty() {
    let home_dir = PathBuf::from("/home/u");
    let config_dir = PathBuf::from("/home/u/.cc-switch-simple");
    assert_eq!(resolve_user_path("  ~  ", &config_dir, &home_dir).unwrap(), home_dir);
    assert_eq!(
        resolve_user_path("/etc/settings.json", &config_dir, &home_dir).unwrap(),
        PathBuf::from("/etc/settings.json")
    );
    assert_eq!(resolve_user_path("  \t ", &config_dir, &home_dir), Err(UserPathError::Empty));
}

#[test]
fn plan_user_path_classifies_paths() {
    assert_eq!(plan_user_path("~", false), Ok((UserPathBase::Home, String::new())));
    assert_eq!(plan_user_path(" ~/a/b ", false), Ok((UserPathBase::Home, "a/b".to_string())));
    assert_eq!(plan_user_path("~\\a", false), Ok((UserPathBase::Home, "a".to_string())));
    assert_eq!(plan_user_path("/abs", true), Ok((UserPathBase::Absolute, "/abs".to_string())));
    assert_eq!(plan_user_path("rel/x", false), Ok((UserPathBase::ConfigDir, "rel/x".to_string())));
    assert_eq!(plan_user_path("~user", false), Ok((UserPathBase::ConfigDir, "~user".to_string())));
    assert_eq!(plan_user_path("", false), Err(UserPathError::Empty));
}

#[test]
fn load_config_reads_custom_target_path() {
    let file = ConfigFile {
        claude: ClaudeConfig {
            settings_path: Some("~/Library/Application Support/Assistant/settings.json".to_string()),
        },
        backups: BackupsConfig { max_files: None },
    };
    let config: AppConfig = file.into();
    assert_eq!(
        config.target_settings_path.as_deref(),
        Some("~/Library/Application Support/Assistant/settings.json")
    );
    assert_eq!(effective_max_backup_files(&config), 5);
}

#[test]
fn zero_backup_limit_is_refused() {
    let zero = AppConfig { target_settings_path: None, max_backup_files: Some(0) };
    assert_eq!(check_app_config(zero).unwrap_err(), ConfigError::ZeroBackupLimit);
    let three = AppConfig { target_settings_path: None, max_backup_files: Some(3) };
    let accepted = check_app_config(three).unwrap();
    assert_eq!(effective_max_backup_files(&accepted), 3);
    assert_eq!(AppConfig::empty().max_backup_files, None);
}

fn sample_paths() -> cc_switch::ResolvedPaths {
    let root = PathBuf::from("/tmp/sandbox/.cc-switch-simple");
    let codex_home = PathBuf::from("/tmp/sandbox/.codex");
    cc_switch::ResolvedPaths {
        config_dir: root.clone(),
        config_file_path: root.join("config.toml"),
        profiles_dir: root.join("profiles"),
        current_path: root.join("current"),
        before_path: root.join("before"),
        backups_dir: root.join("backups"),
        target_settings_path: PathBuf::from("/tmp/sandbox/settings.json"),
        codex_profiles_dir: root.join("codex"),
        codex_current_path: root.join("codex").join("current"),
        codex_before_path: root.join("codex").join("before"),
        codex_backups_dir: root.join("backups").join("codex"),
        codex_target_config_path: codex_home.join("config.toml"),
        codex_target_auth_path: codex_home.join("auth.json"),
        codex_target_models_catalog_path: codex_home.join("models_catalog.json"),
        max_backup_files: 5,
    }
}

#[test]
fn profile_path_joins_profiles_dir_and_json_name() {
    let paths = sample_paths();
    let path = paths.profile_path("deepseek");
    assert_eq!(path, PathBuf::from("/tmp/sandbox/.cc-switch-simple/profiles/deepseek.json"));
    assert_ne!(path, paths.profiles_dir);
}

#[test]
fn codex_paths_sit_in_the_preset_directory() {
    let paths = sample_paths();
    let dir = PathBuf::from("/tmp/sandbox/.cc-switch-simple/codex/openai");
    assert_eq!(paths.codex_profile_dir("openai"), dir);
    assert_eq!(paths.codex_profile_path("openai"), dir.join("config.toml"));
    assert_eq!(paths.codex_auth_path("openai"), dir.join("auth.json"));
    assert_eq!(paths.codex_models_catalog_path("openai"), dir.join("models_catalog.json"));
    assert_ne!(paths.codex_profile_dir("openai"), paths.codex_profiles_dir);
}

#[test]
fn resolve_user_path_keeps_absolute_paths() {
    let home_dir = PathBuf::from("/tmp/sandbox/home");
    let config_dir = PathBuf::from("/tmp/sandbox/.cc-switch-simple");
    let resolved = resolve_user_path("  /etc/app/settings.json ", &config_dir, &home_dir).unwrap();
    assert_eq!(resolved, PathBuf::from("/etc/app/settings.json"));
    assert_eq!(resolve_user_path(" ~ ", &config_dir, &home_dir).unwrap(), home_dir);
    assert_eq!(resolve_user_path("   ", &config_dir, &home_dir), Err(UserPathError::Empty));
}

#[test]
fn config_errors_have_messages() {
    assert_eq!(ConfigError::ZeroBackupLimit.message(), "Configured backups.max_files must be greater than 0");
    assert_eq!(UserPathError::Empty.message(), "Configured settings_path cannot be empty");
}

#[test]
fn resolved_paths_lay_out_the_runtime_tree() {
    let root = PathBuf::from("/tmp/sandbox/.cc-switch-simple");
    let codex_home = PathBuf::from("/tmp/sandbox/.codex");
    let target = PathBuf::from("/tmp/sandbox/settings.json");
    let paths = cc_switch::ResolvedPaths::new(root.clone(), target.clone(), codex_home.clone(), 7);
    assert_eq!(paths.config_dir, root);
    assert_eq!(paths.config_file_path, root.join("config.toml"));
    assert_eq!(paths.profiles_dir, root.join("profiles"));
    assert_eq!(paths.current_path, root.join("current"));
    assert_eq!(paths.before_path, root.join("before"));
    assert_eq!(paths.backups_dir, root.join("backups"));
    assert_eq!(paths.target_settings_path, target);
    assert_eq!(paths.codex_profiles_dir, root.join("codex"));
    assert_eq!(paths.codex_current_path, root.join("codex").join("current"));
    assert_eq!(paths.codex_before_path, root.join("codex").join("before"));
    assert_eq!(paths.codex_backups_dir, root.join("backups").join("codex"));
    assert_eq!(paths.codex_target_config_path, codex_home.join("config.toml"));
    assert_eq!(paths.codex_target_auth_path, codex_home.join("auth.json"));
    assert_eq!(paths.codex_target_models_catalog_path, codex_home.join("models_catalog.json"));
    assert_eq!(paths.max_backup_files, 7);
}

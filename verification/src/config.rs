//! The user configuration file (`config.toml`): an optional table that
//! overrides the path of the switched `settings.json` (`settings_path`), and an
//! optional `[backups]` table with the number of backups to keep
//! (`max_files`, 5 by default, never 0).

use vstd::prelude::*;
use crate::paths::DEFAULT_MAX_BACKUP_FILES;

verus! {

/// The table naming the settings path.
#[derive(Debug, Clone)]
pub struct ClaudeConfig {
    /// Overrides the path of the assistant's `settings.json`.
    pub settings_path: Option<String>,
}

/// The `[backups]` table.
#[derive(Debug, Clone)]
pub struct BackupsConfig {
    /// How many backups of each file to keep.
    pub max_files: Option<usize>,
}

/// `config.toml` as written on disk; a missing table reads as an empty one.
#[derive(Debug, Clone)]
pub struct ConfigFile {
    pub claude: ClaudeConfig,
    pub backups: BackupsConfig,
}

/// The configuration the application works with, flattened from the file.
#[derive(Debug, Clone)]
pub struct AppConfig {
    /// The configured target settings path; `None` means the default one.
    pub target_settings_path: Option<String>,
    /// The configured backup limit; `None` means the default one.
    pub max_backup_files: Option<usize>,
}

impl Default for ClaudeConfig {
    /// A table that names no settings path.
    fn default() -> (res: Self)
        ensures
            res.settings_path is None,
    {
        ClaudeConfig { settings_path: None }
    }
}

impl Default for BackupsConfig {
    /// A table that names no backup limit.
    fn default() -> (res: Self)
        ensures
            res.max_files is None,
    {
        BackupsConfig { max_files: None }
    }
}

impl Default for ConfigFile {
    /// The file with both tables empty, as a missing file reads.
    fn default() -> (res: Self)
        ensures
            res.claude.settings_path is None,
            res.backups.max_files is None,
    {
        ConfigFile { claude: ClaudeConfig::default(), backups: BackupsConfig::default() }
    }
}

impl AppConfig {
    /// The configuration used when there is no `config.toml`.
    pub fn empty() -> (res: AppConfig)
        ensures
            res.target_settings_path is None,
            res.max_backup_files is None,
    {
        AppConfig { target_settings_path: None, max_backup_files: None }
    }
}

impl From<ConfigFile> for AppConfig {
    fn from(value: ConfigFile) -> (res: Self)
        ensures
            res.target_settings_path == value.claude.settings_path,
            res.max_backup_files == value.backups.max_files,
    {
        AppConfig {
            target_settings_path: value.claude.settings_path,
            max_backup_files: value.backups.max_files,
        }
    }
}

impl vstd::std_specs::convert::FromSpecImpl<ConfigFile> for AppConfig {
    open spec fn obeys_from_spec() -> bool {
        true
    }

    open spec fn from_spec(v: ConfigFile) -> AppConfig {
        AppConfig {
            target_settings_path: v.claude.settings_path,
            max_backup_files: v.backups.max_files,
        }
    }
}

/// Flattening `config.toml` keeps what it says: the configured settings path
/// and backup limit carry over unchanged, so `[backups].max_files = n` keeps
/// `n` backups and an absent limit keeps the default five.
pub proof fn lemma_config_keeps_settings(v: ConfigFile)
    ensures
        <AppConfig as vstd::std_specs::convert::FromSpec<ConfigFile>>::from_spec(v).max_backup_files
            == v.backups.max_files,
        <AppConfig as vstd::std_specs::convert::FromSpec<ConfigFile>>::from_spec(v).target_settings_path
            == v.claude.settings_path,
        <AppConfig as vstd::std_specs::convert::FromSpec<ConfigFile>>::obeys_from_spec(),
{
}

/// Why a configuration was refused.
#[derive(Debug, Clone, Copy, PartialEq, Eq)]
pub enum ConfigError {
    /// `[backups].max_files` is 0.
    ZeroBackupLimit,
}

impl ConfigError {
    /// The message for refusing the configuration.
    pub fn message(&self) -> (res: String)
        ensures
            res@ == "Configured backups.max_files must be greater than 0"@,
    {
        let mut out: Vec<char> = Vec::new();
        crate::text::push_str(&mut out, "Configured backups.max_files must be greater than 0");
        crate::text::string_from_chars(out.as_slice())
    }
}

/// Accepts a configuration unless it sets the backup limit to 0.
pub fn check_app_config(config: AppConfig) -> (res: Result<AppConfig, ConfigError>)
    ensures
        config.max_backup_files == Some(0usize) ==> res == Err::<AppConfig, ConfigError>(
            ConfigError::ZeroBackupLimit,
        ),
        config.max_backup_files != Some(0usize) ==> res == Ok::<AppConfig, ConfigError>(config),
{
    match config.max_backup_files {
        Some(0) => Err(ConfigError::ZeroBackupLimit),
        _ => Ok(config),
    }
}

/// The backup limit in force: the configured one, else the default of 5.
pub fn effective_max_backup_files(config: &AppConfig) -> (res: usize)
    ensures
        res == match config.max_backup_files {
            Some(n) => n,
            None => DEFAULT_MAX_BACKUP_FILES,
        },
{
    match config.max_backup_files {
        Some(n) => n,
        None => DEFAULT_MAX_BACKUP_FILES,
    }
}

} // verus!

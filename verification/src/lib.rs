//! Verified core of `cc-switch`: the rules that decide which profile is
//! active, which one comes next, how profile names are checked, how JSON
//! settings are compared and how backup files are named and pruned.
//!
//! Everything that touches the file system, the terminal or the clock lives
//! in the companion binary crate; it hands plain values to the functions here
//! and carries out the decisions they return.

pub mod profile;
pub mod text;
pub mod json;
pub mod json_unique;
pub mod backup;
pub mod paths;
pub mod config;
pub mod codex;
pub mod doctor;
pub mod cli;

pub use backup::{
    backup_file_name, choose_backup_file_name, choose_codex_backup_file_name, codex_backup_file_name,
    parse_codex_backup_sort_key, parse_settings_backup_sort_key, select_codex_backups_to_prune,
    select_settings_backups_to_prune, temp_file_name, Timestamp,
};
pub use cli::{Cli, CodexCli, CodexCommands, Commands};
pub use codex::{use_codex_profile, CodexProfileEntry};
pub use config::{AppConfig, BackupsConfig, ClaudeConfig, ConfigFile};
pub use json::{canonical_json_value, JsonMember, JsonValue};
pub use paths::{resolve_user_path, ResolvedPaths};
pub use profile::{
    detect_current_profile_index, detect_current_profile_name, next_profile_index,
    validate_profile_name, ProfileEntry,
};

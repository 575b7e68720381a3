//! Runtime locations and the user configuration file.

use vstd::prelude::*;
use crate::text::{trimmed, trim_chars, string_from_chars, starts_with, copy_range, chars_start_with};
use crate::profile::{profile_file_name, profile_file_name_text};

verus! {

#[verifier::external_type_specification]
#[verifier::external_body]
pub struct ExPathBuf(std::path::PathBuf);

/// How many backups of each file are kept when the configuration names no limit.
pub const DEFAULT_MAX_BACKUP_FILES: usize = 5;

/// All runtime paths, resolved once.
#[derive(Debug, Clone)]
pub struct ResolvedPaths {
    /// Runtime configuration root.
    pub config_dir: std::path::PathBuf,
    /// The `config.toml` file.
    pub config_file_path: std::path::PathBuf,
    /// Directory of the JSON settings profiles.
    pub profiles_dir: std::path::PathBuf,
    /// Record of the current settings profile.
    pub current_path: std::path::PathBuf,
    /// Record of the settings profile active before the last switch.
    pub before_path: std::path::PathBuf,
    /// Directory of the settings backups.
    pub backups_dir: std::path::PathBuf,
    /// The `settings.json` that is switched.
    pub target_settings_path: std::path::PathBuf,
    /// Directory of the Codex presets.
    pub codex_profiles_dir: std::path::PathBuf,
    /// Record of the current Codex preset.
    pub codex_current_path: std::path::PathBuf,
    /// Record of the Codex preset active before the last switch.
    pub codex_before_path: std::path::PathBuf,
    /// Directory of the Codex backups.
    pub codex_backups_dir: std::path::PathBuf,
    /// The active Codex `config.toml`.
    pub codex_target_config_path: std::path::PathBuf,
    /// The active Codex `auth.json`.
    pub codex_target_auth_path: std::path::PathBuf,
    /// The active Codex `models_catalog.json`.
    pub codex_target_models_catalog_path: std::path::PathBuf,
    /// How many backups of each file are kept.
    pub max_backup_files: usize,
}

/// The path that `Path::join` makes of `base` and `rest`: `base` followed by
/// the relative path `rest` (or `rest` itself when it is absolute). How a
/// separator is placed and what counts as absolute are fixed by the platform
/// the crate is built for, so the result is named rather than spelled out.
pub uninterp spec fn joined_path(base: std::path::PathBuf, rest: Seq<char>) -> std::path::PathBuf;

/// Calls `Path::join`, whose result depends on `base` and `rest` alone.
#[verifier::external_body]
pub(crate) fn join_path(base: &std::path::PathBuf, rest: &str) -> (res: std::path::PathBuf)
    ensures
        res == joined_path(*base, rest@),
{
    base.join(rest)
}

/// Whether `Path::is_absolute` holds of the path a text names: a leading `/`
/// on Unix, a prefix and a root on Windows. Which rule applies is fixed by
/// the platform the crate is built for, so the result is named.
pub uninterp spec fn is_absolute_path(path: Seq<char>) -> bool;

/// Calls `Path::is_absolute` on the path `path` names.
#[verifier::external_body]
fn path_is_absolute(path: &str) -> (res: bool)
    ensures
        res == is_absolute_path(path@),
{
    std::path::Path::new(path).is_absolute()
}

/// The path that `PathBuf::from` makes of a text.
pub uninterp spec fn path_named(path: Seq<char>) -> std::path::PathBuf;

/// Calls `PathBuf::from` on a string: the path that the string names.
#[verifier::external_body]
fn path_from_str(path: &str) -> (res: std::path::PathBuf)
    ensures
        res == path_named(path@),
{
    std::path::PathBuf::from(path)
}

/// `PathBuf::clone` gives an identical path.
pub assume_specification[ <std::path::PathBuf as std::clone::Clone>::clone ](
    path: &std::path::PathBuf,
) -> (res: std::path::PathBuf)
    ensures
        res == *path,
;

impl ResolvedPaths {
    /// The JSON file of the settings profile `name`: `<profiles_dir>/<name>.json`.
    pub fn profile_path(&self, name: &str) -> (res: std::path::PathBuf)
        ensures
            res == joined_path(self.profiles_dir, profile_file_name_text(name@)),
    {
        let file = profile_file_name(name);
        join_path(&self.profiles_dir, file.as_str())
    }

    /// Directory of the Codex preset `name`: `<codex_profiles_dir>/<name>`.
    pub fn codex_profile_dir(&self, name: &str) -> (res: std::path::PathBuf)
        ensures
            res == joined_path(self.codex_profiles_dir, name@),
    {
        join_path(&self.codex_profiles_dir, name)
    }

    /// The `config.toml` of the Codex preset `name`.
    pub fn codex_profile_path(&self, name: &str) -> (res: std::path::PathBuf)
        ensures
            res == joined_path(joined_path(self.codex_profiles_dir, name@), "config.toml"@),
    {
        let dir = self.codex_profile_dir(name);
        join_path(&dir, "config.toml")
    }

    /// The `auth.json` of the Codex preset `name`.
    pub fn codex_auth_path(&self, name: &str) -> (res: std::path::PathBuf)
        ensures
            res == joined_path(joined_path(self.codex_profiles_dir, name@), "auth.json"@),
    {
        let dir = self.codex_profile_dir(name);
        join_path(&dir, "auth.json")
    }

    /// The optional `models_catalog.json` of the Codex preset `name`.
    pub fn codex_models_catalog_path(&self, name: &str) -> (res: std::path::PathBuf)
        ensures
            res == joined_path(
                joined_path(self.codex_profiles_dir, name@),
                "models_catalog.json"@,
            ),
    {
        let dir = self.codex_profile_dir(name);
        join_path(&dir, "models_catalog.json")
    }
}

impl ResolvedPaths {
    /// Lays out every runtime path under the configuration root
    /// `config_dir` and the Codex directory `codex_home`, with the target
    /// settings file and the backup limit already decided.
    pub fn new(
        config_dir: std::path::PathBuf,
        target_settings_path: std::path::PathBuf,
        codex_home: std::path::PathBuf,
        max_backup_files: usize,
    ) -> (res: ResolvedPaths)
        ensures
            res.config_dir == config_dir,
            res.config_file_path == joined_path(config_dir, "config.toml"@),
            res.profiles_dir == joined_path(config_dir, "profiles"@),
            res.current_path == joined_path(config_dir, "current"@),
            res.before_path == joined_path(config_dir, "before"@),
            res.backups_dir == joined_path(config_dir, "backups"@),
            res.target_settings_path == target_settings_path,
            res.codex_profiles_dir == joined_path(config_dir, "codex"@),
            res.codex_current_path == joined_path(joined_path(config_dir, "codex"@), "current"@),
            res.codex_before_path == joined_path(joined_path(config_dir, "codex"@), "before"@),
            res.codex_backups_dir == joined_path(joined_path(config_dir, "backups"@), "codex"@),
            res.codex_target_config_path == joined_path(codex_home, "config.toml"@),
            res.codex_target_auth_path == joined_path(codex_home, "auth.json"@),
            res.codex_target_models_catalog_path == joined_path(codex_home, "models_catalog.json"@),
            res.max_backup_files == max_backup_files,
    {
        let codex_root = join_path(&config_dir, "codex");
        let backups_dir = join_path(&config_dir, "backups");
        ResolvedPaths {
            config_file_path: join_path(&config_dir, "config.toml"),
            profiles_dir: join_path(&config_dir, "profiles"),
            current_path: join_path(&config_dir, "current"),
            before_path: join_path(&config_dir, "before"),
            codex_current_path: join_path(&codex_root, "current"),
            codex_before_path: join_path(&codex_root, "before"),
            codex_backups_dir: join_path(&backups_dir, "codex"),
            codex_target_config_path: join_path(&codex_home, "config.toml"),
            codex_target_auth_path: join_path(&codex_home, "auth.json"),
            codex_target_models_catalog_path: join_path(&codex_home, "models_catalog.json"),
            codex_profiles_dir: codex_root,
            backups_dir,
            config_dir,
            target_settings_path,
            max_backup_files,
        }
    }
}

/// Why a configured settings path was refused.
#[derive(Debug, Clone, Copy, PartialEq, Eq)]
pub enum UserPathError {
    /// The configured path is empty or only white space.
    Empty,
}

impl UserPathError {
    /// The message for refusing the configured settings path.
    pub fn message(&self) -> (res: String)
        ensures
            res@ == "Configured settings_path cannot be empty"@,
    {
        let mut out: Vec<char> = Vec::new();
        crate::text::push_str(&mut out, "Configured settings_path cannot be empty");
        string_from_chars(out.as_slice())
    }
}

/// What a configured path is relative to.
#[derive(Debug, Clone, Copy, PartialEq, Eq)]
pub enum UserPathBase {
    /// The user's home directory (`~` or `~/...`).
    Home,
    /// The runtime configuration directory (a relative path).
    ConfigDir,
    /// Nothing: the path is absolute and used as it is.
    Absolute,
}

/// How a configured path is read: the base and the part joined to it (empty
/// for `~` itself).
pub open spec fn user_path_plan(raw: Seq<char>, absolute: bool) -> Result<(UserPathBase, Seq<char>), UserPathError> {
    let p = trimmed(raw);
    if p.len() == 0 {
        Err(UserPathError::Empty)
    } else if p == seq!['~'] {
        Ok((UserPathBase::Home, Seq::empty()))
    } else if starts_with(p, seq!['~', '/']) || starts_with(p, seq!['~', '\\']) {
        Ok((UserPathBase::Home, p.skip(2)))
    } else if absolute {
        Ok((UserPathBase::Absolute, p))
    } else {
        Ok((UserPathBase::ConfigDir, p))
    }
}

/// Reads a configured path, with surrounding white space removed: `~` is the
/// home directory, `~/rest` (or `~\rest`) is `rest` under the home directory,
/// an absolute path is used as it is and any other path is relative to the
/// configuration directory. `absolute` says whether the trimmed text is an
/// absolute path on this platform; it matters only when the `~` rules do not
/// apply.
pub fn plan_user_path(raw: &str, absolute: bool) -> (res: Result<(UserPathBase, String), UserPathError>)
    ensures
        match res {
            Err(e) => user_path_plan(raw@, absolute) == Err::<(UserPathBase, Seq<char>), UserPathError>(e),
            Ok((base, rest)) => user_path_plan(raw@, absolute) == Ok::<(UserPathBase, Seq<char>), UserPathError>((base, rest@)),
        },
{
    let p = trim_chars(raw);
    if p.len() == 0 {
        return Err(UserPathError::Empty);
    }
    if p.len() == 1 && p[0] == '~' {
        assert(p@ =~= seq!['~']);
        let empty: Vec<char> = Vec::new();
        return Ok((UserPathBase::Home, string_from_chars(empty.as_slice())));
    }
    if p.len() >= 2 && p[0] == '~' && (p[1] == '/' || p[1] == '\\') {
        assert(p@.take(2) =~= seq!['~', p@[1]]);
        let rest = copy_range(p.as_slice(), 2, p.len());
        assert(rest@ =~= p@.skip(2));
        return Ok((UserPathBase::Home, string_from_chars(rest.as_slice())));
    }
    proof {
        if p@ == seq!['~'] {
            assert(p@.len() == 1 && p@[0] == '~');
        }
        if starts_with(p@, seq!['~', '/']) {
            assert(p@.take(2)[0] == '~' && p@.take(2)[1] == '/');
        }
        if starts_with(p@, seq!['~', '\\']) {
            assert(p@.take(2)[0] == '~' && p@.take(2)[1] == '\\');
        }
    }
    let text = string_from_chars(p.as_slice());
    if absolute {
        Ok((UserPathBase::Absolute, text))
    } else {
        Ok((UserPathBase::ConfigDir, text))
    }
}

/// The path a configured settings path resolves to: `~` is the home
/// directory, `~/rest` (or `~\rest`) is `rest` joined to the home directory,
/// an absolute path is the path it names, and any other path is joined to
/// the configuration directory. Refused when the text is empty once trimmed.
pub open spec fn resolved_user_path(
    raw: Seq<char>,
    config_dir: std::path::PathBuf,
    home_dir: std::path::PathBuf,
) -> Result<std::path::PathBuf, UserPathError> {
    let p = trimmed(raw);
    match user_path_plan(raw, is_absolute_path(p)) {
        Err(e) => Err(e),
        Ok((UserPathBase::Home, rest)) => if p == seq!['~'] {
            Ok(home_dir)
        } else {
            Ok(joined_path(home_dir, rest))
        },
        Ok((UserPathBase::Absolute, path)) => Ok(path_named(path)),
        Ok((UserPathBase::ConfigDir, path)) => Ok(joined_path(config_dir, path)),
    }
}

/// Resolves the settings path named in `config.toml` (see
/// [`plan_user_path`] and [`resolved_user_path`]).
pub fn resolve_user_path(raw: &str, config_dir: &std::path::PathBuf, home_dir: &std::path::PathBuf) -> (res: Result<std::path::PathBuf, UserPathError>)
    ensures
        res == resolved_user_path(raw@, *config_dir, *home_dir),
        res is Err <==> trimmed(raw@).len() == 0,
{
    let p = trim_chars(raw);
    let text = string_from_chars(p.as_slice());
    let absolute = path_is_absolute(text.as_str());
    match plan_user_path(raw, absolute) {
        Err(e) => Err(e),
        Ok((UserPathBase::Home, rest)) => {
            if p.len() == 1 {
                assert(trimmed(raw@) =~= seq!['~']);
                Ok(home_dir.clone())
            } else {
                assert(trimmed(raw@) != seq!['~']);
                Ok(join_path(home_dir, rest.as_str()))
            }
        },
        Ok((UserPathBase::Absolute, path)) => Ok(path_from_str(path.as_str())),
        Ok((UserPathBase::ConfigDir, path)) => Ok(join_path(config_dir, path.as_str())),
    }
}

} // verus!

//! Decisions of the Codex preset switch: which files a preset needs, what is
//! synced back to the current preset, what happens to the model catalog.
//!
//! A Codex preset is a directory `<name>/` holding `config.toml` and
//! `auth.json`, and optionally `models_catalog.json`.

use vstd::prelude::*;
use crate::profile::{
    before_record_action, profile_name_verdict, validate_profile_name, BeforeRecordAction,
    ProfileNameError,
};
use crate::text::{trimmed, trim_chars, chars_equal, push_str, string_from_chars};

verus! {

/// One Codex preset: its name (the directory name) and its `config.toml`.
#[derive(Debug, Clone, PartialEq, Eq)]
pub struct CodexProfileEntry {
    /// Preset name (directory name).
    pub name: String,
    /// The preset's `config.toml`.
    pub path: std::path::PathBuf,
}

/// What the file system holds at a path.
#[derive(Debug, Clone, Copy, PartialEq, Eq, Structural)]
pub enum EntryKind {
    /// Nothing.
    Missing,
    /// A regular file.
    File,
    /// Something else, such as a directory.
    Other,
}

/// Whether a JSON document parses, as `serde_json::from_slice::<Value>`
/// decides it.
pub uninterp spec fn parses_as_json(bytes: Seq<u8>) -> bool;

/// Calls `serde_json::from_slice::<serde_json::Value>` and reports whether it
/// succeeded, that is whether `bytes` hold one JSON document (surrounding
/// white space allowed).
#[verifier::external_body]
pub(crate) fn is_valid_json(bytes: &[u8]) -> (res: bool)
    ensures
        res == parses_as_json(bytes@),
{
    serde_json::from_slice::<serde_json::Value>(bytes).is_ok()
}

/// Why a Codex preset cannot be used.
#[derive(Debug, Clone, Copy, PartialEq, Eq)]
pub enum CodexUseError {
    /// The preset name is not a valid profile name.
    InvalidName(ProfileNameError),
    /// The preset has no `config.toml` file.
    ConfigNotFound,
    /// The preset has no `auth.json` file.
    AuthNotFound,
    /// The preset's `models_catalog.json` exists but is not a file.
    CatalogNotFile,
}

/// The message shown when preset `name` cannot be used for `e`; `path` is
/// the file that is missing or wrong.
pub open spec fn codex_use_message(e: CodexUseError, name: Seq<char>, path: Seq<char>) -> Seq<char> {
    match e {
        CodexUseError::InvalidName(n) => crate::profile::profile_name_message(n, name),
        CodexUseError::ConfigNotFound => "Codex profile config not found: "@ + path,
        CodexUseError::AuthNotFound => "Codex profile auth not found: "@ + path,
        CodexUseError::CatalogNotFile => "Codex profile model catalog is not a file: "@ + path,
    }
}

impl CodexUseError {
    /// The message for refusing preset `name`; `path` is shown for a missing
    /// or wrong file.
    pub fn message(&self, name: &str, path: &str) -> (res: String)
        ensures
            res@ == codex_use_message(*self, name@, path@),
    {
        match self {
            CodexUseError::InvalidName(n) => n.message(name),
            _ => {
                let mut out: Vec<char> = Vec::new();
                match self {
                    CodexUseError::ConfigNotFound => push_str(&mut out, "Codex profile config not found: "),
                    CodexUseError::AuthNotFound => push_str(&mut out, "Codex profile auth not found: "),
                    _ => push_str(&mut out, "Codex profile model catalog is not a file: "),
                }
                push_str(&mut out, path);
                string_from_chars(out.as_slice())
            },
        }
    }
}

/// The verdict on using preset `name`, given what its files are; `Ok` says
/// whether the preset brings a model catalog.
pub open spec fn codex_use_verdict(name: Seq<char>, config: EntryKind, auth: EntryKind, catalog: EntryKind) -> Result<bool, CodexUseError> {
    match profile_name_verdict(name) {
        Err(e) => Err(CodexUseError::InvalidName(e)),
        Ok(_) => if config != EntryKind::File {
            Err(CodexUseError::ConfigNotFound)
        } else if auth != EntryKind::File {
            Err(CodexUseError::AuthNotFound)
        } else if catalog == EntryKind::Other {
            Err(CodexUseError::CatalogNotFile)
        } else {
            Ok(catalog == EntryKind::File)
        },
    }
}

/// Checks that the preset `name` can be switched to: a valid name, a
/// `config.toml` file, an `auth.json` file, and a `models_catalog.json` that
/// is either missing or a file. On success, says whether the preset brings a
/// model catalog.
pub fn use_codex_profile(name: &str, config: EntryKind, auth: EntryKind, catalog: EntryKind) -> (res: Result<bool, CodexUseError>)
    ensures
        res == codex_use_verdict(name@, config, auth, catalog),
{
    match validate_profile_name(name) {
        Err(e) => Err(CodexUseError::InvalidName(e)),
        Ok(()) => {
            if config != EntryKind::File {
                Err(CodexUseError::ConfigNotFound)
            } else if auth != EntryKind::File {
                Err(CodexUseError::AuthNotFound)
            } else {
                match optional_models_catalog_path(catalog) {
                    Err(_) => Err(CodexUseError::CatalogNotFile),
                    Ok(present) => Ok(present),
                }
            }
        },
    }
}

/// The optional model catalog of a preset: refused when something other
/// than a file is there; otherwise whether there is one.
pub fn optional_models_catalog_path(catalog: EntryKind) -> (res: Result<bool, CodexUseError>)
    ensures
        res == match catalog {
            EntryKind::Other => Err(CodexUseError::CatalogNotFile),
            EntryKind::File => Ok(true),
            EntryKind::Missing => Ok(false),
        },
{
    match catalog {
        EntryKind::Other => Err(CodexUseError::CatalogNotFile),
        EntryKind::File => Ok(true),
        EntryKind::Missing => Ok(false),
    }
}

/// Why a target path cannot receive a file.
#[derive(Debug, Clone, Copy, PartialEq, Eq)]
pub enum SlotError {
    /// Something other than a regular file is at the target path.
    NotAFile,
}

/// A target path can be written when nothing is there or a file is there.
pub fn ensure_target_file_slot(entry: EntryKind) -> (res: Result<(), SlotError>)
    ensures
        res is Err <==> entry == EntryKind::Other,
{
    if entry == EntryKind::Other {
        Err(SlotError::NotAFile)
    } else {
        Ok(())
    }
}

/// The current preset record names a preset only when it holds a valid
/// profile name.
pub fn read_existing_codex_current_name(recorded: Option<String>) -> (res: Option<String>)
    ensures
        match recorded {
            Some(n) => if profile_name_verdict(n@) is Ok {
                res == Some(n)
            } else {
                res is None
            },
            None => res is None,
        },
{
    match recorded {
        Some(n) => match validate_profile_name(n.as_str()) {
            Ok(()) => Some(n),
            Err(_) => None,
        },
        None => None,
    }
}

/// The preset to remember as "before" a switch: the recorded current preset,
/// provided both active files are present, the record holds a valid name and
/// that preset still has both its files.
pub fn current_codex_profile_name_for_history(target_config_present: bool, target_auth_present: bool, recorded: Option<String>, recorded_files_exist: bool) -> (res: Option<String>)
    ensures
        res == if target_config_present && target_auth_present && recorded_files_exist
            && recorded is Some && profile_name_verdict(recorded->0@) is Ok {
            recorded
        } else {
            None::<String>
        },
{
    if !target_config_present || !target_auth_present {
        return None;
    }
    match recorded {
        Some(n) => match validate_profile_name(n.as_str()) {
            Ok(()) => if recorded_files_exist {
                Some(n)
            } else {
                None
            },
            Err(_) => None,
        },
        None => None,
    }
}

/// Which file of a preset is compared with its active copy.
#[derive(Debug, Clone, Copy, PartialEq, Eq)]
pub enum CodexSyncKind {
    Config,
    Auth,
    ModelsCatalog,
}

impl CodexSyncKind {
    /// Whether files of this kind must be JSON.
    pub open spec fn is_json(self) -> bool {
        self != CodexSyncKind::Config
    }

    /// The file name of this kind of preset file.
    pub fn file_name(&self) -> (res: &'static str)
        ensures
            res@ == match *self {
                CodexSyncKind::Config => "config.toml"@,
                CodexSyncKind::Auth => "auth.json"@,
                CodexSyncKind::ModelsCatalog => "models_catalog.json"@,
            },
    {
        match self {
            CodexSyncKind::Config => "config.toml",
            CodexSyncKind::Auth => "auth.json",
            CodexSyncKind::ModelsCatalog => "models_catalog.json",
        }
    }
}

/// Why a file could not be compared for syncing back.
#[derive(Debug, Clone, Copy, PartialEq, Eq)]
pub enum SyncError {
    /// The active copy of a JSON file is not valid JSON.
    InvalidTargetJson,
    /// The preset's copy of a JSON file is not valid JSON.
    InvalidProfileJson,
}

/// The verdict on syncing one active file back to its preset: nothing when
/// the active file is missing or equal byte for byte to the preset's; the
/// active content when it differs; refused when a JSON file (auth or model
/// catalog) does not parse, the active copy being checked first.
pub open spec fn pending_sync_verdict(target: Option<Seq<u8>>, profile: Seq<u8>, kind: CodexSyncKind) -> Result<Option<Seq<u8>>, SyncError> {
    match target {
        None => Ok(None),
        Some(t) => if kind.is_json() && !parses_as_json(t) {
            Err(SyncError::InvalidTargetJson)
        } else if kind.is_json() && !parses_as_json(profile) {
            Err(SyncError::InvalidProfileJson)
        } else if t == profile {
            Ok(None)
        } else {
            Ok(Some(t))
        },
    }
}

fn bytes_equal(a: &[u8], b: &[u8]) -> (res: bool)
    ensures
        res == (a@ == b@),
{
    if a.len() != b.len() {
        return false;
    }
    let mut i: usize = 0;
    while i < a.len()
        invariant
            a@.len() == b@.len(),
            i <= a@.len(),
            forall|j: int| 0 <= j < i ==> a@[j] == b@[j],
        decreases a@.len() - i,
    {
        if a[i] != b[i] {
            return false;
        }
        i = i + 1;
    }
    assert(a@ =~= b@);
    true
}

/// Compares an active file (`None` when it is missing) with the preset's
/// copy and returns the content to write back into the preset, if any.
pub fn pending_sync_file(target: Option<&[u8]>, profile: &[u8], kind: CodexSyncKind) -> (res: Result<Option<Vec<u8>>, SyncError>)
    ensures
        match res {
            Ok(Some(v)) => pending_sync_verdict(
                match target {
                    Some(t) => Some(t@),
                    None => None,
                },
                profile@,
                kind,
            ) == Ok::<Option<Seq<u8>>, SyncError>(Some(v@)),
            Ok(None) => pending_sync_verdict(
                match target {
                    Some(t) => Some(t@),
                    None => None,
                },
                profile@,
                kind,
            ) == Ok::<Option<Seq<u8>>, SyncError>(None),
            Err(e) => pending_sync_verdict(
                match target {
                    Some(t) => Some(t@),
                    None => None,
                },
                profile@,
                kind,
            ) == Err::<Option<Seq<u8>>, SyncError>(e),
        },
{
    let t = match target {
        None => {
            return Ok(None);
        },
        Some(t) => t,
    };
    let json = match kind {
        CodexSyncKind::Config => false,
        _ => true,
    };
    if json && !is_valid_json(t) {
        return Err(SyncError::InvalidTargetJson);
    }
    if json && !is_valid_json(profile) {
        return Err(SyncError::InvalidProfileJson);
    }
    if bytes_equal(t, profile) {
        return Ok(None);
    }
    let mut out: Vec<u8> = Vec::new();
    let mut i: usize = 0;
    while i < t.len()
        invariant
            i <= t@.len(),
            out@ == t@.take(i as int),
        decreases t@.len() - i,
    {
        out.push(t[i]);
        assert(t@.take(i + 1) =~= t@.take(i as int).push(t@[i as int]));
        i = i + 1;
    }
    assert(t@.take(t@.len() as int) =~= t@);
    Ok(Some(out))
}

/// The active `auth.json`, when present, must be valid JSON before a switch.
pub fn validate_target_auth_json(target_auth: Option<&[u8]>) -> (res: bool)
    ensures
        res == match target_auth {
            None => true,
            Some(b) => parses_as_json(b@),
        },
{
    match target_auth {
        None => true,
        Some(b) => is_valid_json(b),
    }
}

/// What the switch does with the active model catalog.
#[derive(Debug, Clone, Copy, PartialEq, Eq)]
pub enum CatalogAction {
    /// Write the preset's catalog.
    Write,
    /// The preset has none: remove the stale active catalog.
    RemoveStale,
    /// Neither has one: nothing to do.
    Nothing,
}

/// The preset's catalog replaces the active one; without one in the preset
/// an active catalog is removed.
pub fn catalog_action(profile_has_catalog: bool, target_catalog_present: bool) -> (res: CatalogAction)
    ensures
        res == if profile_has_catalog {
            CatalogAction::Write
        } else if target_catalog_present {
            CatalogAction::RemoveStale
        } else {
            CatalogAction::Nothing
        },
{
    if profile_has_catalog {
        CatalogAction::Write
    } else if target_catalog_present {
        CatalogAction::RemoveStale
    } else {
        CatalogAction::Nothing
    }
}

/// Why a Codex preset's files were refused.
#[derive(Debug, Clone, Copy, PartialEq, Eq)]
pub enum CodexPresetError {
    /// The preset's `auth.json` is not one JSON document.
    InvalidAuth,
    /// The preset's `models_catalog.json` is not one JSON document.
    InvalidCatalog,
}

/// The verdict on a preset's JSON files, `auth.json` checked first.
pub open spec fn codex_preset_verdict(auth: Seq<u8>, catalog: Option<Seq<u8>>) -> Result<(), CodexPresetError> {
    if !parses_as_json(auth) {
        Err(CodexPresetError::InvalidAuth)
    } else if catalog is Some && !parses_as_json(catalog->0) {
        Err(CodexPresetError::InvalidCatalog)
    } else {
        Ok(())
    }
}

/// The bytes held by an optional slice.
pub open spec fn bytes_view(b: Option<&[u8]>) -> Option<Seq<u8>> {
    match b {
        Some(x) => Some(x@),
        None => None,
    }
}

/// A preset can be switched to only when its `auth.json` and, if it has
/// one, its `models_catalog.json` are JSON documents.
pub fn check_codex_preset(auth: &[u8], catalog: Option<&[u8]>) -> (res: Result<(), CodexPresetError>)
    ensures
        res == codex_preset_verdict(auth@, bytes_view(catalog)),
        res is Ok <==> parses_as_json(auth@) && (catalog is Some ==> parses_as_json(catalog->0@)),
{
    if !is_valid_json(auth) {
        return Err(CodexPresetError::InvalidAuth);
    }
    match catalog {
        Some(c) => if is_valid_json(c) {
            Ok(())
        } else {
            Err(CodexPresetError::InvalidCatalog)
        },
        None => Ok(()),
    }
}

/// Why a Codex switch was refused before anything was changed.
#[derive(Debug, Clone, Copy, PartialEq, Eq)]
pub enum CodexSwitchError {
    /// Something other than a file is at the active `config.toml` path.
    ConfigSlotNotFile,
    /// Something other than a file is at the active `auth.json` path.
    AuthSlotNotFile,
    /// Something other than a file is at the active `models_catalog.json` path.
    CatalogSlotNotFile,
    /// The active `auth.json` is not one JSON document.
    InvalidTargetAuth,
    /// The preset's files are not valid.
    InvalidPreset(CodexPresetError),
}

/// The first reason, in the order the checks are made, to refuse a switch:
/// the three active paths must hold a file or nothing, the active
/// `auth.json` (when there is one) must be JSON, and so must the preset's
/// JSON files.
pub open spec fn codex_switch_refusal(
    target_config: EntryKind,
    target_auth: EntryKind,
    target_catalog: EntryKind,
    active_auth: Option<Seq<u8>>,
    preset_auth: Seq<u8>,
    preset_catalog: Option<Seq<u8>>,
) -> Option<CodexSwitchError> {
    if target_config == EntryKind::Other {
        Some(CodexSwitchError::ConfigSlotNotFile)
    } else if target_auth == EntryKind::Other {
        Some(CodexSwitchError::AuthSlotNotFile)
    } else if target_catalog == EntryKind::Other {
        Some(CodexSwitchError::CatalogSlotNotFile)
    } else if active_auth is Some && !parses_as_json(active_auth->0) {
        Some(CodexSwitchError::InvalidTargetAuth)
    } else {
        match codex_preset_verdict(preset_auth, preset_catalog) {
            Err(e) => Some(CodexSwitchError::InvalidPreset(e)),
            Ok(_) => None,
        }
    }
}

/// What a Codex switch does once every check has passed.
#[derive(Debug, PartialEq, Eq)]
pub struct CodexSwitchPlan {
    /// Back up the active `config.toml` before it is overwritten.
    pub backup_config: bool,
    /// Back up the active `auth.json` before it is overwritten.
    pub backup_auth: bool,
    /// Back up the active `models_catalog.json` before it is overwritten or removed.
    pub backup_catalog: bool,
    /// What happens to the active model catalog.
    pub catalog: CatalogAction,
    /// What happens to the previous-preset record.
    pub before: BeforeRecordAction,
}

/// Decides a switch to preset `name`. `target_*` say what is at the three
/// active paths, `active_auth` is the active `auth.json` (when it is a file),
/// `preset_auth` and `preset_catalog` the preset's JSON files, and `previous`
/// the preset active before the switch. A refusal comes before any action;
/// otherwise every active file that exists is backed up (the config and the
/// auth file are always overwritten, the catalog is overwritten or removed),
/// the catalog is written when the preset has one and removed otherwise, and
/// the previous-preset record follows [`before_record_action`].
pub fn plan_codex_switch(
    target_config: EntryKind,
    target_auth: EntryKind,
    target_catalog: EntryKind,
    active_auth: Option<&[u8]>,
    preset_auth: &[u8],
    preset_catalog: Option<&[u8]>,
    previous: Option<&String>,
    name: &str,
) -> (res: Result<CodexSwitchPlan, CodexSwitchError>)
    ensures
        match res {
            Err(e) => codex_switch_refusal(
                target_config,
                target_auth,
                target_catalog,
                bytes_view(active_auth),
                preset_auth@,
                bytes_view(preset_catalog),
            ) == Some(e),
            Ok(plan) => {
                &&& codex_switch_refusal(
                    target_config,
                    target_auth,
                    target_catalog,
                    bytes_view(active_auth),
                    preset_auth@,
                    bytes_view(preset_catalog),
                ) is None
                &&& plan.backup_config == (target_config == EntryKind::File)
                &&& plan.backup_auth == (target_auth == EntryKind::File)
                &&& plan.backup_catalog == (target_catalog == EntryKind::File)
                &&& plan.catalog == if preset_catalog is Some {
                    CatalogAction::Write
                } else if target_catalog == EntryKind::File {
                    CatalogAction::RemoveStale
                } else {
                    CatalogAction::Nothing
                }
                &&& match previous {
                    Some(p) => if p@ != name@ {
                        plan.before matches BeforeRecordAction::Write(w) && w@ == p@
                    } else {
                        plan.before == BeforeRecordAction::Keep
                    },
                    None => plan.before == BeforeRecordAction::Clear,
                }
            },
        },
{
    if ensure_target_file_slot(target_config).is_err() {
        return Err(CodexSwitchError::ConfigSlotNotFile);
    }
    if ensure_target_file_slot(target_auth).is_err() {
        return Err(CodexSwitchError::AuthSlotNotFile);
    }
    if ensure_target_file_slot(target_catalog).is_err() {
        return Err(CodexSwitchError::CatalogSlotNotFile);
    }
    if !validate_target_auth_json(active_auth) {
        return Err(CodexSwitchError::InvalidTargetAuth);
    }
    match check_codex_preset(preset_auth, preset_catalog) {
        Err(e) => Err(CodexSwitchError::InvalidPreset(e)),
        Ok(()) => {
            let catalog_present = target_catalog == EntryKind::File;
            Ok(CodexSwitchPlan {
                backup_config: target_config == EntryKind::File,
                backup_auth: target_auth == EntryKind::File,
                backup_catalog: catalog_present,
                catalog: catalog_action(preset_catalog.is_some(), catalog_present),
                before: before_record_action(previous, name),
            })
        },
    }
}

/// One step of saving the active files back into the current preset.
#[derive(Debug, Clone, Copy, PartialEq, Eq)]
pub enum SyncStep {
    /// Write the active file back into the preset without asking.
    WriteNow(CodexSyncKind),
    /// Ask first; write the active file back only after a yes.
    AskThenWrite(CodexSyncKind),
}

/// The sync-back steps, in order: a changed `auth.json` is saved back
/// without asking (login refreshes land there), then a changed
/// `config.toml` and a changed model catalog are each saved back only after
/// a yes.
pub open spec fn sync_back_steps(auth_changed: bool, config_changed: bool, catalog_changed: bool) -> Seq<SyncStep> {
    (if auth_changed {
        seq![SyncStep::WriteNow(CodexSyncKind::Auth)]
    } else {
        Seq::empty()
    }) + (if config_changed {
        seq![SyncStep::AskThenWrite(CodexSyncKind::Config)]
    } else {
        Seq::empty()
    }) + (if catalog_changed {
        seq![SyncStep::AskThenWrite(CodexSyncKind::ModelsCatalog)]
    } else {
        Seq::empty()
    })
}

/// Each changed file gets its own sync-back step, whatever the others did:
/// a changed `auth.json` is written back at once (and first), a changed
/// `config.toml` and a changed model catalog are each offered with a
/// question; nothing else is planned, and every step appears once.
pub proof fn lemma_sync_back_step_per_changed_file(auth_changed: bool, config_changed: bool, catalog_changed: bool)
    ensures
        sync_back_steps(auth_changed, config_changed, catalog_changed).contains(
            SyncStep::WriteNow(CodexSyncKind::Auth),
        ) <==> auth_changed,
        sync_back_steps(auth_changed, config_changed, catalog_changed).contains(
            SyncStep::AskThenWrite(CodexSyncKind::Config),
        ) <==> config_changed,
        sync_back_steps(auth_changed, config_changed, catalog_changed).contains(
            SyncStep::AskThenWrite(CodexSyncKind::ModelsCatalog),
        ) <==> catalog_changed,
        sync_back_steps(auth_changed, config_changed, catalog_changed).len() == (if auth_changed {
            1int
        } else {
            0int
        }) + (if config_changed {
            1int
        } else {
            0int
        }) + (if catalog_changed {
            1int
        } else {
            0int
        }),
        auth_changed ==> sync_back_steps(auth_changed, config_changed, catalog_changed)[0]
            == SyncStep::WriteNow(CodexSyncKind::Auth),
{
    let a = SyncStep::WriteNow(CodexSyncKind::Auth);
    let c = SyncStep::AskThenWrite(CodexSyncKind::Config);
    let k = SyncStep::AskThenWrite(CodexSyncKind::ModelsCatalog);
    let steps = sync_back_steps(auth_changed, config_changed, catalog_changed);
    let sa: Seq<SyncStep> = if auth_changed { seq![a] } else { Seq::empty() };
    let sc: Seq<SyncStep> = if config_changed { seq![c] } else { Seq::empty() };
    let sk: Seq<SyncStep> = if catalog_changed { seq![k] } else { Seq::empty() };
    assert(steps == sa + sc + sk);
    assert forall|x: SyncStep| steps.contains(x) <==> (sa.contains(x) || sc.contains(x) || sk.contains(x)) by {
        if steps.contains(x) {
            let j = choose|j: int| 0 <= j < steps.len() && steps[j] == x;
            if j < sa.len() {
                assert(sa[j] == x);
            } else if j < sa.len() + sc.len() {
                assert(sc[j - sa.len()] == x);
            } else {
                assert(sk[j - sa.len() - sc.len()] == x);
            }
        }
        if sa.contains(x) {
            let j = choose|j: int| 0 <= j < sa.len() && sa[j] == x;
            assert(steps[j] == x);
        }
        if sc.contains(x) {
            let j = choose|j: int| 0 <= j < sc.len() && sc[j] == x;
            assert(steps[sa.len() + j] == x);
        }
        if sk.contains(x) {
            let j = choose|j: int| 0 <= j < sk.len() && sk[j] == x;
            assert(steps[sa.len() + sc.len() + j] == x);
        }
    }
    if auth_changed {
        assert(sa.contains(a));
        assert(steps[0] == sa[0]);
    }
    if config_changed {
        assert(sc.contains(c));
    }
    if catalog_changed {
        assert(sk.contains(k));
    }
    assert(!sa.contains(c) && !sa.contains(k)) by {
        if sa.contains(c) || sa.contains(k) {
            assert(sa[0] == a);
        }
    }
    assert(!sc.contains(a) && !sc.contains(k)) by {
        if sc.contains(a) || sc.contains(k) {
            assert(sc[0] == c);
        }
    }
    assert(!sk.contains(a) && !sk.contains(c)) by {
        if sk.contains(a) || sk.contains(c) {
            assert(sk[0] == k);
        }
    }
}

/// Plans the sync-back of the current preset from which of its active files
/// differ from the preset's copies (see [`pending_sync_file`]).
pub fn sync_back_plan(auth_changed: bool, config_changed: bool, catalog_changed: bool) -> (res: Vec<SyncStep>)
    ensures
        res@ == sync_back_steps(auth_changed, config_changed, catalog_changed),
{
    let mut steps: Vec<SyncStep> = Vec::new();
    if auth_changed {
        steps.push(SyncStep::WriteNow(CodexSyncKind::Auth));
    }
    if config_changed {
        steps.push(SyncStep::AskThenWrite(CodexSyncKind::Config));
    }
    if catalog_changed {
        steps.push(SyncStep::AskThenWrite(CodexSyncKind::ModelsCatalog));
    }
    assert(steps@ =~= sync_back_steps(auth_changed, config_changed, catalog_changed));
    steps
}

/// A preset can be used exactly when its name is a valid profile name, its
/// `config.toml` and `auth.json` are files and its `models_catalog.json` is
/// a file or missing; the success tells whether the catalog is there.
pub proof fn lemma_codex_use_rules(name: Seq<char>, config: EntryKind, auth: EntryKind, catalog: EntryKind)
    ensures
        codex_use_verdict(name, config, auth, catalog) is Ok <==> (profile_name_verdict(name) is Ok
            && config == EntryKind::File && auth == EntryKind::File && catalog != EntryKind::Other),
        codex_use_verdict(name, config, auth, catalog) is Ok ==> codex_use_verdict(
            name,
            config,
            auth,
            catalog,
        )->Ok_0 == (catalog == EntryKind::File),
{
}

/// A Codex switch goes ahead exactly when none of the three active paths
/// holds something other than a file, the active `auth.json` (if there is
/// one) is JSON, the preset's `auth.json` is JSON, and the preset's catalog
/// (if it has one) is JSON.
pub proof fn lemma_codex_switch_refusal_rules(
    target_config: EntryKind,
    target_auth: EntryKind,
    target_catalog: EntryKind,
    active_auth: Option<Seq<u8>>,
    preset_auth: Seq<u8>,
    preset_catalog: Option<Seq<u8>>,
)
    ensures
        codex_switch_refusal(
            target_config,
            target_auth,
            target_catalog,
            active_auth,
            preset_auth,
            preset_catalog,
        ) is None <==> (target_config != EntryKind::Other && target_auth != EntryKind::Other
            && target_catalog != EntryKind::Other && (active_auth is Some ==> parses_as_json(
            active_auth->0,
        )) && parses_as_json(preset_auth) && (preset_catalog is Some ==> parses_as_json(
            preset_catalog->0,
        ))),
{
}

/// Syncing back takes the active file's content, and only when it differs
/// from the preset's: nothing is pending when the active file is missing or
/// equal to the preset's copy; otherwise, unless a JSON file fails to parse,
/// the active content is what is written back.
pub proof fn lemma_pending_sync_rules(target: Option<Seq<u8>>, profile: Seq<u8>, kind: CodexSyncKind)
    ensures
        target is None ==> pending_sync_verdict(target, profile, kind) == Ok::<
            Option<Seq<u8>>,
            SyncError,
        >(None),
        pending_sync_verdict(target, profile, kind) is Err ==> target is Some && kind
            != CodexSyncKind::Config,
        (target is Some && (kind == CodexSyncKind::Config || (parses_as_json(target->0)
            && parses_as_json(profile)))) ==> pending_sync_verdict(target, profile, kind)
            == Ok::<Option<Seq<u8>>, SyncError>(
            if target->0 == profile {
                None
            } else {
                target
            },
        ),
{
}

/// An answer to a `[y/N]` question accepts when, trimmed, it is `y` or `yes`
/// in any letter case.
pub open spec fn accepts_answer(answer: Seq<char>) -> bool {
    let t = trimmed(answer);
    (t.len() == 1 && (t[0] == 'y' || t[0] == 'Y')) || (t.len() == 3 && (t[0] == 'y' || t[0]
        == 'Y') && (t[1] == 'e' || t[1] == 'E') && (t[2] == 's' || t[2] == 'S'))
}

/// Whether the user's answer to a `[y/N]` question is yes.
pub fn sync_answer_accepts(answer: &str) -> (res: bool)
    ensures
        res == accepts_answer(answer@),
{
    let t = trim_chars(answer);
    if t.len() == 1 {
        t[0] == 'y' || t[0] == 'Y'
    } else if t.len() == 3 {
        (t[0] == 'y' || t[0] == 'Y') && (t[1] == 'e' || t[1] == 'E') && (t[2] == 's' || t[2]
            == 'S')
    } else {
        false
    }
}

} // verus!

//! The command line: what each command asks for. Parsing of the argument
//! list is done by the binary.

use vstd::prelude::*;

verus! {

/// `cc-switch` commands.
#[derive(Debug)]
pub struct Cli {
    pub command: Commands,
}

/// `cx-switch` commands.
#[derive(Debug)]
pub struct CodexCli {
    pub command: CodexCommands,
}

/// Settings-profile commands.
#[derive(Debug)]
pub enum Commands {
    /// List all profiles, marking the active one with `*`.
    List,
    /// Show which profile the target settings file holds.
    Current,
    /// Switch to the named profile (backing up the target first).
    Use { name: String },
    /// Switch to the next profile in name order (backing up the target first).
    Next,
    /// Switch to the profile that was active before the last switch.
    Before,
    /// Codex preset commands.
    Cx { command: CodexCommands },
    /// Check runtime directories, paths and JSON validity.
    Doctor,
}

/// Codex preset commands.
#[derive(Debug)]
pub enum CodexCommands {
    /// List all Codex presets.
    List,
    /// Show the current Codex preset.
    Current,
    /// Switch to the named Codex preset (config, auth and optional model catalog).
    Use { name: String },
    /// Switch to the next Codex preset in name order.
    Next,
    /// Switch to the Codex preset that was active before the last switch.
    Before,
}

} // verus!

# cc_switch

A switcher for assistant settings profiles (JSON) and Codex presets
(`config.toml`, `auth.json`, optional `models_catalog.json`), with its rules
verified by Verus.

- `src/` is the verified library: profile names and rotation, the current and
  previous-selection records, canonical JSON (and the proofs that equal
  canonical text means equal content), backup names, their order and pruning,
  the Codex switch and sync-back plans, the doctor report, and path resolution.
- `app/` is the command-line program around it: argument parsing, file-system
  access, prompts and printing. It gathers plain values, calls the library and
  carries out the plans the library returns.
- `tests/` runs the library on concrete values.

# dotcfg

Flexible config management for Rust applications: a config file per app under
`~/.appname/` or `~/.config/appname/`, in TOML, JSON or YAML, read and written
whole or one key at a time (`username`, `user.username`), with opt-in
environment-variable overrides for per-key reads.

## Layout

- `src/` — the verified library (Verus):
  - `config.rs` — the `DotCfg` handle and its builders, config file and
    directory names, environment variable names and the override decision,
    and the per-key operations on a config file's text (`get_in`,
    `get_node_in`, `set_in`, `set_node_in`);
  - `tree.rs` — the config document as a tree of values, key splitting,
    per-key reads (`get_node`, `get_value`) and writes (`set_node`,
    `set_value`), with the laws that a read gives back what a write wrote,
    that a write leaves every other key alone and that the last write wins;
  - `format.rs` — which documents each format can write, and parsing config
    file text into a document and writing a document back as text, through
    `toml`, `serde_json` and `serde_yaml_ng`;
  - `env.rs` — reading environment overrides as typed values (integers,
    floats, booleans, characters, comma-separated sequences, ...);
  - `parse.rs`, `text.rs` — integer and float syntax, comma splitting,
    whitespace trimming, ASCII case mapping and decimal rendering;
  - `error.rs` — the error type and its messages.
- `app/` — the file-system and environment side: resolving the config
  directory (`home`, `etcetera`), reading the environment and reading and
  writing files around the library's per-key operations, whole-file
  `load`/`save`, and typed `get_as`/`set_val` through serde on the caller's
  type (carried through the format's text, which the library parses and
  writes), and an error type implementing `std::error::Error` (`thiserror`).
- `tests/` — tests of the library.

//! # dotcfg
//!
//! Flexible config management for Rust applications.
//!
//! - Choose between `~/.toolname/` or `~/.config/toolname/`
//! - TOML, JSON or YAML format
//! - Load, save, get, set — full or per-key
//! - Flat (`username`) and nested (`user.username`) key support
//! - Opt-in environment variable overrides via `with_env_prefix`
//!
//! This crate holds the verified core: the handle and its settings
//! ([`DotCfg`]), the config document and its per-key reads and writes
//! ([`tree`]), the parsing and writing of config file text ([`format`]), and
//! the reading of environment overrides ([`env`]).

pub mod config;
pub mod env;
pub mod error;
pub mod format;
pub mod parse;
pub mod text;
pub mod tree;

pub use config::{DirStrategy, DotCfg, EnvRead, Format};
pub use error::DotCfgError;

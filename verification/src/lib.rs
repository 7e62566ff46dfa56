//! Interactive fuzzy selection for a small memo-management CLI.
//!
//! The heart of the crate is the tiered fuzzy matcher ([`matcher::Matcher`])
//! and the selection session state machine ([`session::SessionState`]).
//! Around them sit the configuration loader, path helpers, the memo template
//! renderer and the CLI command parser.  Terminal I/O, process spawning and
//! file access live outside this crate; everything here is pure logic with
//! verified contracts.

pub mod command;
pub mod commands;
pub mod config;
pub mod decimal;
pub mod error;
pub mod expand;
pub mod external;
pub mod matcher;
pub mod path_utils;
pub mod ranking;
pub mod render;
pub mod session;
pub mod strutil;
pub mod template;

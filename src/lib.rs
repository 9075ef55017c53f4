//! Inspection of named filesystem paths: loading a name-to-path table from
//! JSON, shell-style expansion of each path, and flagging of expanded paths
//! that leave the Nix store.

pub mod classify;
pub mod expand;
pub mod config;
pub mod error;
pub mod report;

//! Verified core logic of the AI workstation manager.

pub mod error;
pub mod text;
pub mod compat;
pub mod config;
pub mod states;
pub mod family;
pub mod origin;
pub mod tokens;
pub mod order;
pub mod arith;
pub mod cleanup;
pub mod db;
pub mod winpath;
pub mod download;

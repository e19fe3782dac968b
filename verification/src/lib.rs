//! Access management for SSH public keys: which users and user groups may log
//! in to which hosts, and how each host's `authorized_keys` file is brought in
//! line with that model.
//!
//! The crate holds the decisions; reading files, talking to hosts and asking
//! the operator are left to the program that uses it.

pub mod text;
pub mod listing;
pub mod database;
pub mod command;
pub mod subcommand_host;
pub mod subcommand_user;
pub mod subcommand_group;
pub mod ssh_config;
pub mod cli_flow;
pub mod resolver;
pub mod compiler;
pub mod diff;
pub mod subcommand_sync;
pub mod guarantees;

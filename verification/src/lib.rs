//! Constellation build system: the verified core of manifest handling,
//! version synchronisation, identity checks and display planning.
pub mod cli;
pub mod config;
pub mod display;
pub mod error;
pub mod git;
pub mod gpg;
pub mod install;
pub mod runner;
pub mod status;
pub mod tally;
pub mod text;
pub mod verify;
pub mod version;

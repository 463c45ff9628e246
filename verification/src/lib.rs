//! GitPersona: a safety-first manager for local Git and GitHub identities.
//!
//! The library holds the decisions: profile validation, remote parsing, the
//! repository-local binding transaction and its exact restoration, identity
//! checks, directory fragments and hook management. Running `git`, `gh` and
//! `ssh`, reading files and prompting stay with the caller, which hands the
//! library plain values and carries out the operations it returns.

pub mod error;
pub mod text;
pub mod matching;
pub mod config;
pub mod profiles;
pub mod remote;
pub mod binding;
pub mod process;
pub mod ssh;
pub mod check;
pub mod github;
pub mod git;
pub mod directory;
pub mod hooks;
pub mod cli;
pub mod clone_repo;
pub mod api;
pub mod service;
pub mod repository;
pub mod desktop;

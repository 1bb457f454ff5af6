//! Core logic of a project-scaffolding tool: templates are directory trees
//! whose names and text contents carry `{{variable}}` placeholder tokens and
//! whose manifests declare typed variables and conditional inclusion rules.
//! This crate holds the token grammar, the substitution engine, the
//! conditional-exclusion evaluator, the registry merge rules, and the
//! tree-rendering decisions, each specified by contracts. The surrounding
//! command-line program contributes only input and output: every decision it
//! takes is a call into this crate.

pub mod assignment;
pub mod bytes;
pub mod cli;
pub mod cond;
pub mod config;
pub mod manifest;
pub mod registry;
pub mod remote;
pub mod render;
pub mod sample;
pub mod subst;
pub mod subst_laws;
pub mod validate;

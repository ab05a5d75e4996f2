//! Hermes: installs curated skills, agents and commands into a project-local
//! `.opencode/` workspace. This crate holds the verified decision logic.
pub mod text;
pub mod frontmatter;
pub mod models;
pub mod fs_ops;
pub mod sorting;
pub mod tree;
pub mod tui;
pub mod discovery;
pub mod skills;
pub mod agents;
pub mod commands;
pub mod cli;
pub mod install;
pub mod catalog;
pub mod hashing;
pub mod manifest;
pub mod sync;
pub mod remove;
pub mod configure;
pub mod doctor;
pub mod listing;
pub mod staging;

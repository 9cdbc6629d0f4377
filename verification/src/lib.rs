//! Decisions of a language server that helps to keep the dependencies of a
//! `package.json` up to date: what a document declares, what the npm registry
//! and the OSV database say about it, and what the editor is told.

pub mod audit;
pub mod backend;
pub mod document;
pub mod install;
pub mod jobs;
pub mod json;
pub mod lsp;
pub mod registry;
pub mod semver;
pub mod settings;
pub mod store;
pub mod survey;
pub mod text;
pub mod views;

//! Consolidates dependency declarations repeated across the members of a
//! multi-crate workspace into the root's `[workspace.dependencies]` table.
//!
//! The library holds the decision logic: which dependencies qualify, how the
//! root manifest gains shared entries, and how each member entry becomes a
//! `workspace = true` delegation, all stated over a view of the manifest tree.

pub mod inventory;
pub mod analyzer;
pub mod document;
pub mod error;
pub mod root;
pub mod member;
pub mod engine;
pub mod laws;

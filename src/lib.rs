//! Structural fingerprints of source trees: extraction of declaration names,
//! named snapshots of those fingerprints, and reconciliation of a current tree
//! against a stored snapshot.
pub mod error;
pub mod generator;
pub mod pattern;
pub mod scanner;
pub mod syntax;
pub mod text;
pub mod validator;

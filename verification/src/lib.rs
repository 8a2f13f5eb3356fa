//! A tag-tree-to-command-tree mirroring and dispatch engine.
//!
//! Resources (file paths, URLs) are organized in a named, hierarchical tag
//! tree. The tree is projected into a surface of invocable commands, incoming
//! invocations are resolved back to the tag they name, and local mutations
//! (add / remove / update) are guarded by naming invariants: no duplicate
//! names among siblings, and no collision with a reserved management word.

pub mod action;
pub mod error;
pub mod laws;
pub mod mutate;
pub mod options;
pub mod parser;
pub mod project;
pub mod reserved;
pub mod resolve;
pub mod serial;
pub mod session;
pub mod strutil;
pub mod tag;
pub mod validate;

pub use tag::Tag;

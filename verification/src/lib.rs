//! Enrichment of query-execution profile trees.
//!
//! A profile is a tree of operator nodes, each carrying a free-text
//! annotation (`extra_info`) whose grammar depends on the node's declared
//! kind (`name`).  This crate parses those annotations into a typed
//! operator model and writes the result onto each node, visiting every
//! node of the tree exactly once.  Reading the profile from disk and
//! deserializing the raw tree shape are left to the caller.

pub mod enrich;
pub mod model;
pub mod parse;
pub mod text;

pub use enrich::parse_tree_extra_info;
pub use model::{Attribute, Condition, GrammarError, Join, JoinType, Node, Op, Project, Scan};

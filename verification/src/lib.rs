//! Static dependency graph of a CommonJS module.
//!
//! Starting from an entry file, every file reachable through top-level
//! `const x = require("./y")` declarations is discovered exactly once and
//! given an identifier in order of first discovery.
//!
//! The library never touches the file system. A [`traversal::Traversal`]
//! says which path it needs next and is told what was found there; reading
//! files and canonicalizing paths is left to the caller.
//!
//! * [`specifier`] turns a specifier and a base directory into a path.
//! * [`syntax`] holds the shape of a parsed module and finds its references.
//! * [`parser`] obtains that shape from source text.
//! * [`module`] is one discovered module.
//! * [`registry`] is the set of discovered modules.
//! * [`traversal`] is the depth-first walk that fills the registry.
//! * [`file_tree`] states what the walk computes over a fixed tree of files.

pub mod specifier;
pub mod syntax;
pub mod parser;
pub mod module;
pub mod registry;
pub mod traversal;
pub mod file_tree;

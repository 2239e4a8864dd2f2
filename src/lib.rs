//! Go-to-definition support for Starlark build files: label resolution,
//! per-file indexing of declarations and call sites, a cache of indexed
//! documents and a resolver that chases re-exports across files.

pub mod syntax;
pub mod index;
pub mod indexer;
pub mod paths;
pub mod bazel;
pub mod documents;
pub mod symbol;

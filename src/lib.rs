//! Bundles a module tree and an entry-point file into one self-contained
//! source text: file-bound submodules are inlined as nested blocks, test-only
//! blocks are pruned, crate-rooted paths are requalified through a wrapper
//! module, and the result can be collapsed to a single line.

pub mod text;
pub mod rules;
pub mod prune;
pub mod inline;
pub mod bundler;

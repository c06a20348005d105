//! Keeps one generated ignore-list file in sync with a set of named templates.
//!
//! The file's first line records the active templates (`# a b c`); the rest is the
//! deduplicated pattern lines of those templates, in first-seen order. The library
//! decides what the file becomes; reading and writing it, and fetching template
//! content, is left to the caller through [`engine::Engine`] and [`store::WriteState`].
pub mod text;
pub mod header;
pub mod normalize;
pub mod engine;
pub mod store;
pub mod laws;
pub mod cli;

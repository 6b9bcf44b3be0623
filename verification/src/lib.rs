//! Directive expansion for an mdBook preprocessor that embeds runnable Rust
//! examples and styled note blocks into book chapters.

pub mod error;
pub mod mode;
pub mod text;
pub mod directive;
pub mod note;
pub mod artifact;
pub mod render;
pub mod expand;
pub mod path;
pub mod collect;
pub mod manifest;
pub mod hash;
pub mod preprocessor;
pub mod refresh;

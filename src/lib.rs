//! Module-graph rewriting for ES modules: specifier resolution, import
//! rewriting, server-only export stripping and export-name extraction.
pub mod ast;
pub mod css;
pub mod exports;
pub mod resolve_fold;
pub mod rewrite;
pub mod resolver;
pub mod syntax;
pub mod text;
pub mod transform;
pub mod urls;

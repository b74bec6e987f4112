//! Structural index of source repositories: the entity model, per-language
//! extraction from syntax trees, line counting, filters and rendering.
pub mod cache;
pub mod gitignore;
pub mod json;
pub mod lang;
pub mod mcp;
pub mod model;
pub mod paths;
pub mod scan;
pub mod state;
pub mod text;
pub mod walker;

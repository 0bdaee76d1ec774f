//! A small query engine: loads delimited text into a column table and
//! answers `load(...)` / `select().cols(...)` commands against it.

pub mod loader;
pub mod models;
pub mod pattern;
pub mod projection;
pub mod query;
pub mod text;

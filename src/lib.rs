//! Query live cluster resources as tables: the resource addressing grammar,
//! resource-type matching, catalog assembly, and the rules that turn listed
//! objects into rows for a columnar query engine.

pub mod text;
pub mod descriptor;
pub mod url;
pub mod discover;
pub mod provider;
pub mod config;

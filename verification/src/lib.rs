//! Self-loading compressed addons.

pub mod addon;
pub mod apply;
pub mod apply_laws;
pub mod arguments;
pub mod backend;
pub mod bytes;
pub mod cache;
pub mod compress;
pub mod files;
pub mod inject;
pub mod interface_laws;
pub mod outcome;
pub mod platform;
pub mod producer;
pub mod resolve;
pub mod section;
pub mod section_laws;
pub mod synthetic;
pub mod text;

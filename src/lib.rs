//! Finds build-artifact directories of recognisable projects ("purge
//! targets"), decides which of them to report, and keeps track of their removal.
//!
//! The walker itself reads the file system elsewhere; for each directory it
//! hands the children to [`walk::decide_children`], which says which to skip,
//! which to enter and which to report under which [`Rule`].
pub mod config;
pub mod error;
pub mod item;
pub mod list;
pub mod matcher;
pub mod pattern;
pub mod rule;
pub mod scan;
pub mod size;
pub mod text;
pub mod walk;

pub use config::{compare, extract_order, Config};
pub use error::ConfigError;
pub use item::{human_readable_folder_size, Age, Message, PathItem, PathState};
pub use list::ItemList;
pub use matcher::{Checker, Match};
pub use rule::Rule;
pub use scan::ScanSession;
pub use size::parse_size;
pub use walk::{decide_children, Decision, Entry};

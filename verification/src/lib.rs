//! Verified core of a local research assistant for Obsidian-style Markdown vaults.
pub mod ask;
pub mod laws;
pub mod maintenance;
pub mod server;
pub mod settings;
pub mod sorting;
pub mod text;
pub mod tools;
pub mod vault;

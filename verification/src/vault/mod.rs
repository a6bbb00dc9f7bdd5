//! Vault model: notes, links, indexes and the write policy.
pub mod assets;
pub mod confirmation;
pub mod frontmatter;
pub mod graph;
pub mod index_docs;
pub mod paths;
pub mod policy;
pub mod scanner;
pub mod wikilinks;

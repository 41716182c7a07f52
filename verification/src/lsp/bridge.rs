//! The bridge to downstream language servers.

pub mod pool;
pub mod protocol;
pub mod text_document;

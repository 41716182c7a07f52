//! Core of a language-server bridge: one editor-facing server multiplexes
//! requests across downstream language servers, one per language embedded in
//! a host document.
//!
//! Everything here is sequential and deterministic. Callers that share a
//! structure between tasks guard it with one lock per structure; each
//! operation below is then one atomic step of that structure.

pub mod lsp;

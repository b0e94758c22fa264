//! A compiler for a small markup dialect: documents are lexed into primitive
//! tokens, normalized, projected to page tokens and assembled into documents
//! that a site can render newest first.

pub mod content_compiler;
pub mod content_monitor;
pub mod error;
pub mod lexer;
pub mod links;
pub mod normalizer;
pub mod projector;
pub mod site;
pub mod site_cache;
pub mod string_map;
pub mod text;
pub mod tokens;

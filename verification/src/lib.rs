//! A small content-management core: a verified full-text search engine built
//! on key-value/set index primitives, together with the plain utilities that
//! surround it (size parsing, filename handling, optional-field values, and
//! configuration data).

pub mod auth;
pub mod config;
pub mod engine;
pub mod errors;
pub mod extract;
pub mod files;
pub mod html;
pub mod laws;
pub mod maybe;
pub mod model;
pub mod record;
pub mod score;
pub mod search;
pub mod store;
pub mod text;
pub mod tokenizer;
pub mod upload;
pub mod util;

pub use text::is_chinese_character;

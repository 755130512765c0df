//! Infers a structured property schema for game-entity classes from two
//! evidence sources: static pattern matches over engine source text, and a
//! corpus of entity instances decoded from compiled map files. The core is
//! the type-narrowing cascade that picks the tightest semantic type
//! explaining the observed string values of each property, and the merge
//! step that synthesizes one deterministic schema per class.

pub mod aggregate;
pub mod cascade;
pub mod parse;
pub mod pipeline;
pub mod schema;
pub mod sdk_data;
pub mod sdk_parser;
pub mod strutil;
pub mod types;

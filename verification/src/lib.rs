//! A pull parser for bracket-tagged markup (`[tag]`, `[/tag]`, `[tag/]`), with
//! a rule stack that can suspend tag interpretation mid-stream and an HTML
//! serializer driven by a registry of tag writers.
//!
//! Everything is specified over the UTF-8 bytes of the input: a token's span
//! is a byte range of the document, and the parser's cursor a byte offset.

pub mod config;
pub mod html;
pub mod parser;
pub mod rules;
pub mod scan;
pub mod text;
pub mod token;
pub mod tracker;

pub use config::{ParserConfig, ParserFeature};
pub use parser::{BBParser, ParserView};
pub use token::{BBTag, KindView, TagView, Token, TokenKind, TokenView};

//! A verified XML 1.0 pull parser.
pub mod chars;
pub mod cow;
pub mod text;
pub mod de;
pub mod dom;
pub mod dtd;
pub mod encoding;
pub mod events;
pub mod messages;
pub mod parser;
pub mod pull;
pub mod reader;
pub mod shufti;
pub mod simple;
pub mod namespace;

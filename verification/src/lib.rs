//! Hex dumps that can be read back: bytes are laid out as offset, grouped
//! octet tokens and a text panel, and the same layout is parsed into
//! positioned byte writes.

pub mod classify;
pub mod codec;
pub mod config;
pub mod error;
pub mod formatter;
pub mod generate;
pub mod layout;
pub mod numeric;
pub mod paint;
pub mod parser;
pub mod roundtrip;
pub mod sink;
pub mod source;
pub mod text;

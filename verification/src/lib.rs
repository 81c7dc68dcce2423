//! Decoding of HTML character references, the escape sequences a tokenizer
//! meets after an ampersand: numeric references such as `&#65;` and `&#x41;`,
//! and named references matched against a supplied entity table.
//!
//! The decoder works on a [`tokenizer::Tokenizer`], which owns a positioned
//! character stream, an append-only consume buffer with truncate-to-watermark
//! rollback, and a list of recorded (never fatal) parse errors. Every public
//! operation carries a contract that pins the final stream position, the
//! buffer contents and the recorded errors down as a function of the input
//! that was still unread when the call began.

pub mod decoder;
pub mod entities;
pub mod errors;
pub mod laws;
pub mod named;
pub mod numeric;
pub mod replacements;
pub mod reserved;
pub mod stream;
pub mod tokenizer;

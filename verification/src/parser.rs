//! Reading novels: text decoding and chapter detection.
pub mod chapter;
pub mod encoding;

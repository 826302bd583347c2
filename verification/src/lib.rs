//! Parse NUL-delimited `NAME=VALUE` records from a raw byte buffer, filter
//! them by name against a compiled pattern set, optionally sort them, and
//! render each surviving record as a sequence of styled output tokens.

pub mod bytes;
pub mod decode;
pub mod format;
pub mod laws;
pub mod matching;
pub mod pipeline;
pub mod sort;
pub mod split;

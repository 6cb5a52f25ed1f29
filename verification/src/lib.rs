//! Verified core of `pb`, a clipboard utility with Chinese conversion, log
//! sanitization and lyric file workflows.
pub mod cli;
pub mod convert;
pub mod preview;
pub mod sanitize;
pub mod select;
pub mod text;

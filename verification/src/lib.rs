//! Turning the column-aligned listing that `winget` prints into typed package
//! records, and sealing such records into an encrypted container.

pub mod chars;
pub mod search;
pub mod lines;
pub mod words;
pub mod package;
pub mod columns;
pub mod rows;
pub mod fallback;
pub mod parser;
pub mod codec;
pub mod retry;
pub mod command;

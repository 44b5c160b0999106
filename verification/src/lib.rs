//! Decoder for the binary index database that the mandoc indexer writes.
//!
//! The whole file is one byte buffer. Every integer in it is a big-endian
//! 32-bit number, and most of them are offsets of other places in the same
//! buffer. Text is NUL-terminated UTF-8 and is handed out as borrowed string
//! slices of the buffer.

pub mod error;
pub mod utils;
pub mod pages;
pub mod macros;
pub mod database;
pub mod laws;

pub use database::Database;
pub use error::ParseError;
pub use macros::Macros;
pub use macros::Table;
pub use macros::Value;
pub use pages::Name;
pub use pages::Page;
pub use pages::PageFormat;
pub use pages::Pages;
pub use utils::parse_list;
pub use utils::parse_num;
pub use utils::parse_str;

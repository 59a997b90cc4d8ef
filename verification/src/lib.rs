//! A small persistent memo store: short text notes kept in a local
//! SQLite database, with add, list, delete and keyword search.
pub mod db;
pub mod errors;
pub mod store;
pub mod text;
pub mod timestamp;

pub use errors::MemoError;
pub use store::{Memo, MemoStore};
pub use timestamp::Timestamp;

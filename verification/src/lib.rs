//! A locate alternative with incremental search: the verified core of the
//! file index, its queries, and the logic of the terminal interface.

mod error;
pub mod mode;
pub mod text;
pub mod query;
pub mod database;
pub mod tui;
pub mod config;
pub mod matcher;

pub use error::Error;

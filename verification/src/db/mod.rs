//! The records the library works on: what the database stores, as plain
//! values, and the small rules that shape them before they are stored.

pub mod models;
pub mod records;
pub mod stories;
pub mod downloads;
pub mod rows;

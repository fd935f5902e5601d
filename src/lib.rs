//! Birthday bookkeeping for a chat guild: calendar arithmetic on birthdays,
//! the birthday store, and the announcement engine that posts one greeting
//! per guild and keeps a per-year "announced" flag.
pub mod date;
pub mod text;
pub mod models;
pub mod store;
pub mod format;
pub mod announce;
pub mod color;
pub mod pages;

//! Verified core of a caching proxy for the 1Password command line tool.
pub mod command;
pub mod config;
pub mod delegate;
pub mod template;
pub mod text;
pub mod time;
pub mod storage;
pub mod store;
pub mod cache;

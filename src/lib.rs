//! Incremental fetch-and-deliver engine that relays new mailbox messages
//! to a notification gateway, with a durable checkpoint of progress.
pub mod checkpoint;
pub mod message;
pub mod format;
pub mod engine;
pub mod config;

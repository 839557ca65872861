//! Verified core of the Starling roost server: name validation, the key
//! layout of the sled message store, bounded history backfill, channel
//! management, console and command-line parsing, and the setup wizard.

pub mod backend;
pub mod bytes_order;
pub mod channels;
pub mod cli;
pub mod codec;
pub mod console;
pub mod error;
pub mod event;
pub mod history;
pub mod history_keys;
pub mod identity;
pub mod keys;
pub mod laws;
pub mod lifecycle;
pub mod message;
pub mod moderation;
pub mod naming;
pub mod paths;
pub mod replay;
pub mod setup;
pub mod store;
pub mod sync;
pub mod text;
pub mod ui;

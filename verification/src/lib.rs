//! Smirk: an in-memory, type-tagged key-value store.
//!
//! Values are stored under string keys with a declared scalar or byte kind,
//! an optional time-to-live, and are discoverable through glob, regex or
//! prefix-trie key search.  Every operation of the storage engine carries a
//! contract describing exactly what it returns and how it changes the store.

pub mod bignum;
pub mod clock;
pub mod command;
pub mod command_error;
pub mod dispatch;
pub mod key_search;
pub mod laws;
pub mod numtext;
pub mod record;
pub mod smirk_map;
pub mod smirk_messages;
pub mod smirk_search_mode;
pub mod strutil;
pub mod trie;
pub mod value;

pub use command::Command;
pub use command_error::CommandError;
pub use dispatch::{FloatRequest, Response};
pub use record::Record;
pub use smirk_map::SmirkMap;
pub use smirk_messages::SmirkMessages;
pub use smirk_search_mode::SmirkSearchMode;
pub use trie::Trie;
pub use value::{Kind, Value};

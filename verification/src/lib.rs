//! A chat-log archive: daily channel files of raw protocol lines, per-user
//! indexes of sixteen-byte records that point into them, and the reading,
//! writing and rebuilding of both.

pub mod archive;
pub mod clock;
pub mod decimal;
pub mod frame;
pub mod index;
pub mod indexer;
pub mod lines;
pub mod message;
pub mod paths;
pub mod reader;
pub mod record;
pub mod reindexer;
pub mod responders;
pub mod schema;
pub mod soundness;
pub mod store;
pub mod text;
pub mod users;

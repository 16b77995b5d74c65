//! An in-process key-value store with three kinds of values (strings, sets of
//! strings and string-to-string hashes), typed access and a bound on the
//! number of keys.
pub mod assoc;
pub mod cli;
pub mod command;
pub mod error;
pub mod laws;
pub mod members;
pub mod model;
pub mod store;
pub mod text;

pub use cli::DEFAULT_DB_KEY_SIZE;
pub use error::{DBError, DBOk, DBResult};
pub use store::KVDB;

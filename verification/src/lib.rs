//! A log-structured key-value store: the record and frame codecs, the
//! replay and compaction of the operation log, the storage engine over a
//! log image, and the decisions of the server and client around it.

pub mod client;
pub mod command;
pub mod compaction;
pub mod engines;
pub mod error;
pub mod line;
pub mod log;
pub mod number;
pub mod protocol;
pub mod server;
pub mod text;

pub use engines::{KvStore, KvsEngine};
pub use error::{Error, ErrorKind, KvsError, KvsErrorKind, Result};

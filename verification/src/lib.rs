//! A log-structured key/value store engine.
//!
//! The engine keeps an in-memory index from keys to positions in an
//! append-only command log that is split into numbered term files. This
//! crate holds the engine's state and every decision it takes; reading and
//! writing the files themselves is left to the caller, which reports what it
//! appended and carries out what the engine asks for.

pub mod command;
pub mod compaction;
pub mod error;
pub mod history;
pub mod index;
pub mod log;
pub mod protocol;
pub mod reader;
pub mod server;
pub mod store;
pub mod terms;

pub use command::{Command, LogRecord, Pos, TermLog};
pub use compaction::{Compaction, CopyStep};
pub use error::KvsError;
pub use index::KeyIndex;
pub use protocol::{
    ack_response, ack_result, get_output, get_response, get_result, remove_output, serve_request,
    GetResponse, KvsEngine, RemoveResponse, Request, Response, SetResponse,
};
pub use reader::{KvsReader, ReadPlan};
pub use server::{
    accept_action, get_engine, parse_engine, AcceptAction, AcceptEvent, Engine, ACCEPT_POLL_MILLIS,
};
pub use store::{load, KvStore, COMPACTION_THRESHOLD};
pub use terms::{log_path, parse_term, sorted_terms, stale_terms};

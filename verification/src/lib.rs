//! An append-only log of signals and the replay of a project's state from it.
//!
//! Every action on a project is recorded as one signal, one line of the log. The
//! state of the project is never stored: it is what the replay of the log gives.
//!
//! - [`signals`]: the signal, its tags, and the log's text format
//! - [`state`]: the replay of a log into the project's state
//! - [`stats`]: the statistics per command over the replayed executions
//! - [`undo`]: which signal the next undo takes back
//! - [`replay_laws`], [`log_laws`]: what holds of every replay and of every log
//! - [`json`], [`payloads`]: the payloads of the signals
//! - [`gemfile`], [`config`], [`runner`], [`display`], [`cli`]: what the commands
//!   around the log compute
//! - [`text`]: helpers on strings
//! - [`bridge`]: the calls into other crates, which are taken on trust

pub mod text;
pub mod json;
pub mod bridge;
pub mod signals;
pub mod state;
pub mod stats;
pub mod replay_laws;
pub mod log_laws;
pub mod undo;
pub mod gemfile;
pub mod config;
pub mod runner;
pub mod cli;
pub mod payloads;
pub mod display;

//! A download manager's engine: bounded concurrency, a first-in first-out
//! waiting queue, cancellation, progress reporting and restart of unfinished
//! work, with every rule stated as a contract and proved.
//!
//! - `status`, `record`: the states of a download, its record and the
//!   reports on its progress.
//! - `manager`: the limit, the registry of running downloads and the queue.
//! - `scheduler`: when a download runs and when it waits.
//! - `resume`: taking up unfinished work after a restart.
//! - `transfer`: one transfer, step by step.
//! - `laws`: what holds of the engine over time.
//! - `filename`: how a download gets its file name.
//! - `settings`, `api`, `startup`: settings, requests and start-up checks.
//! - `text`: operations on text; `outside`: the calls into other crates.

pub mod text;
pub mod outside;
pub mod status;
pub mod filename;
pub mod record;
pub mod manager;
pub mod transfer;
pub mod scheduler;
pub mod resume;
pub mod laws;
pub mod settings;
pub mod api;
pub mod startup;

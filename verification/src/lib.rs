//! Verified core of the agent runtime: terminal output sanitizing, snapshot
//! exclusion rules, job bookkeeping, output windows and the small text formats
//! that the runtime reads and writes.

pub mod text;
pub mod jobmode;
pub mod sanitize;
pub mod gitignore;
pub mod snapshot;
pub mod runner;
pub mod errors;
pub mod timestamps;
pub mod jobs;
pub mod output;
pub mod types;
pub mod duration;
pub mod service;
pub mod tmux;
pub mod agentcli;
pub mod landlock;
pub mod restore;
pub mod gate;
pub mod api;
pub mod archive;

//! The values the job service's API hands out, and the job mode a request
//! asks for.

use vstd::prelude::*;
use crate::jobmode::{Mode, mode_of_name, invalid_mode_message, parse};

verus! {

pub struct TerminalSize {
    pub cols: i32,
    pub rows: i32,
}

pub struct JobResult {
    pub job_id: String,
    pub done: bool,
    pub status: String,
    pub exit_code: Option<i32>,
    pub output_path: String,
    pub output: String,
    pub offset: i64,
    pub truncated: bool,
}

pub struct JobStatusView {
    pub job_id: String,
    pub status: String,
    pub done: bool,
    pub exit_code: Option<i32>,
    pub created_at: String,
    pub started_at: Option<String>,
    pub ended_at: Option<String>,
    pub offset: i64,
}

pub struct JobInfo {
    pub job_id: String,
    pub status: String,
    pub created_at: String,
    pub started_at: Option<String>,
    pub ended_at: Option<String>,
}

pub struct ListJobsResponse {
    pub jobs: Vec<JobInfo>,
}

pub struct DeleteJobResponse {
    pub job_id: String,
    pub deleted: bool,
}

pub struct HealthResponse {
    pub status: String,
}

pub struct ErrorDetail {
    pub code: String,
    pub message: String,
}

pub struct ErrorResponse {
    pub error: ErrorDetail,
}

pub struct RestoreResponse {
    pub entries: i32,
    pub bytes_written: i64,
}

/// The mode a request names; no mode at all is the default one.
pub fn resolved_mode(raw: Option<&str>) -> (r: Result<Mode, String>)
    ensures
        ({
            let name = match raw {
                Some(s) => s@,
                None => ""@,
            };
            match r {
                Ok(m) => mode_of_name(name) == Some(m),
                Err(e) => mode_of_name(name) is None && e@ == invalid_mode_message(name),
            }
        }),
{
    match raw {
        Some(s) => parse(s),
        None => parse(""),
    }
}

} // verus!

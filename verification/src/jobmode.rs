//! The two ways a job can run: in a pseudo-terminal, or with plain pipes.

use vstd::prelude::*;
use crate::text::{concat_str, debug_quote, debug_quoted, str_eq};

verus! {

/// How a job's process is attached to its output.
#[derive(Debug, Clone, Copy, PartialEq, Eq, Structural)]
pub enum Mode {
    Pty,
    Stdio,
}

/// The name by which a mode is written down.
pub open spec fn mode_name(m: Mode) -> Seq<char> {
    match m {
        Mode::Pty => "pty"@,
        Mode::Stdio => "stdio"@,
    }
}

/// The mode that a name selects: the empty name selects the default, `pty`.
pub open spec fn mode_of_name(raw: Seq<char>) -> Option<Mode> {
    if raw.len() == 0 || raw == "pty"@ {
        Some(Mode::Pty)
    } else if raw == "stdio"@ {
        Some(Mode::Stdio)
    } else {
        None
    }
}

/// The message with which an unknown mode name is refused.
pub open spec fn invalid_mode_message(raw: Seq<char>) -> Seq<char> {
    "invalid job mode "@ + debug_quoted(raw)
}

impl Mode {
    pub fn as_str(self) -> (s: &'static str)
        ensures
            s@ == mode_name(self),
    {
        match self {
            Mode::Pty => "pty",
            Mode::Stdio => "stdio",
        }
    }

    /// The default mode.
    pub fn default_mode() -> (m: Mode)
        ensures
            m == Mode::Pty,
    {
        Mode::Pty
    }
}

/// Reads a job mode name.
pub fn parse(raw: &str) -> (r: Result<Mode, String>)
    ensures
        match r {
            Ok(m) => mode_of_name(raw@) == Some(m),
            Err(e) => mode_of_name(raw@) is None && e@ == invalid_mode_message(raw@),
        },
{
    if raw.is_empty() {
        return Ok(Mode::Pty);
    }
    if str_eq(raw, "pty") {
        Ok(Mode::Pty)
    } else if str_eq(raw, "stdio") {
        Ok(Mode::Stdio)
    } else {
        let q = debug_quote(raw);
        Err(concat_str("invalid job mode ", q.as_str()))
    }
}


/// A mode's name reads back as the same mode.
pub proof fn law_mode_name_round_trip(m: Mode)
    ensures
        mode_of_name(mode_name(m)) == Some(m),
{
    reveal_strlit("pty");
    reveal_strlit("stdio");
    assert("pty"@.len() == 3);
    assert("stdio"@.len() == 5);
}

} // verus!


//! The error that the job service answers with: an HTTP status, a machine
//! readable code and a message.

use vstd::prelude::*;
use crate::text::{ascii_chars, decimal, lemma_decimal_ascii, ascii_string, concat_str, str_eq, push_decimal};

verus! {

#[derive(Debug)]
pub struct ServerError {
    pub status_code: u16,
    pub code: String,
    pub message: String,
}

/// The code of the error that says a job id is unknown.
pub const JOB_NOT_FOUND_CODE: &'static str = "job_not_found";

/// What the `Display` form of an error reads: `[status] code: message`.
pub open spec fn error_text(status: u16, code: Seq<char>, message: Seq<char>) -> Seq<char> {
    seq!['['] + ascii_chars(decimal(status as nat)) + seq![']', ' '] + code + seq![':', ' '] + message
}

impl ServerError {
    pub fn new(status_code: u16, code: &str, message: &str) -> (e: ServerError)
        ensures
            e.status_code == status_code,
            e.code@ == code@,
            e.message@ == message@,
    {
        ServerError { status_code, code: code.to_string(), message: message.to_string() }
    }

    /// The answer for a job id that the database does not hold.
    pub fn job_not_found() -> (e: ServerError)
        ensures
            e.status_code == 404,
            e.code@ == JOB_NOT_FOUND_CODE@,
            e.message@ == "Unknown job id"@,
    {
        ServerError::new(404, JOB_NOT_FOUND_CODE, "Unknown job id")
    }

    pub fn is_not_found(&self) -> (r: bool)
        ensures
            r == (self.code@ == JOB_NOT_FOUND_CODE@),
    {
        str_eq(self.code.as_str(), JOB_NOT_FOUND_CODE)
    }

    /// The error as text, `[status] code: message`.
    pub fn to_text(&self) -> (s: String)
        ensures
            s@ == error_text(self.status_code, self.code@, self.message@),
    {
        let mut digits: Vec<u8> = Vec::new();
        push_decimal(&mut digits, self.status_code as u64);
        assert(digits@ =~= decimal(self.status_code as nat));
        proof {
            lemma_decimal_ascii(self.status_code as nat);
        }
        let num = ascii_string(digits);
        let a = concat_str("[", num.as_str());
        let b = concat_str(a.as_str(), "] ");
        let c = concat_str(b.as_str(), self.code.as_str());
        let d = concat_str(c.as_str(), ": ");
        let r = concat_str(d.as_str(), self.message.as_str());
        proof {
            reveal_strlit("[");
            reveal_strlit("] ");
            reveal_strlit(": ");
            assert(r@ =~= error_text(self.status_code, self.code@, self.message@));
        }
        r
    }
}

impl Clone for ServerError {
    fn clone(&self) -> (r: Self)
        ensures
            r.status_code == self.status_code,
            r.code@ == self.code@,
            r.message@ == self.message@,
    {
        ServerError { status_code: self.status_code, code: self.code.clone(), message: self.message.clone() }
    }
}

} // verus!

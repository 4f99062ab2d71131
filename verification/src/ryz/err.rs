//! Structured errors: every failure surfaces as a `{code, msg}` value that
//! the caller can inspect, never as a process abort.

use vstd::prelude::*;
use crate::ryz::res::Res;

verus! {

/// A recoverable error with a machine-readable code and a human-readable
/// message.
#[derive(Debug)]
pub struct Error {
    pub code: String,
    pub msg: String,
}

impl Default for Error {
    /// The default error carries the generic code `err` and an empty message.
    fn default() -> (r: Self)
        ensures
            r.code@ == "err"@,
            r.msg@ == ""@,
    {
        Error { code: "err".to_owned(), msg: "".to_owned() }
    }
}

impl Error {
    pub fn new(code: &str, msg: &str) -> (r: Self)
        ensures
            r.code@ == code@,
            r.msg@ == msg@,
    {
        Error { code: code.to_owned(), msg: msg.to_owned() }
    }

    pub fn new_code(code: &str) -> (r: Self)
        ensures
            r.code@ == code@,
            r.msg@ == ""@,
    {
        Error { code: code.to_owned(), msg: "".to_owned() }
    }

    pub fn new_msg(msg: &str) -> (r: Self)
        ensures
            r.code@ == "err"@,
            r.msg@ == msg@,
    {
        Error { code: "err".to_owned(), msg: msg.to_owned() }
    }
}

/// An `Err` result with the default code and an empty message.
pub fn make_default<T>() -> (r: Res<T>)
    ensures
        r matches Err(e) && e.code@ == "err"@ && e.msg@ == ""@,
{
    Err(Error::default())
}

/// An `Err` result with the given code and an empty message.
pub fn make_code<T>(code: &str) -> (r: Res<T>)
    ensures
        r matches Err(e) && e.code@ == code@ && e.msg@ == ""@,
{
    Err(Error::new_code(code))
}

/// An `Err` result with the default code and the given message.
pub fn make_msg<T>(msg: &str) -> (r: Res<T>)
    ensures
        r matches Err(e) && e.code@ == "err"@ && e.msg@ == msg@,
{
    Err(Error::new_msg(msg))
}

/// An `Err` result with the given code and message.
pub fn make<T>(code: &str, msg: &str) -> (r: Res<T>)
    ensures
        r matches Err(e) && e.code@ == code@ && e.msg@ == msg@,
{
    Err(Error::new(code, msg))
}

} // verus!

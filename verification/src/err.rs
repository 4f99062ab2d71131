use vstd::prelude::*;

verus! {

/// The error payload handed to callers at the service boundary: an error
/// code and a message.
#[derive(Debug)]
pub struct ErrResp {
    pub errcode: String,
    pub msg: String,
}

impl ErrResp {
    pub fn new(errcode: String, msg: String) -> (r: Self)
        ensures
            r.errcode@ == errcode@,
            r.msg@ == msg@,
    {
        Self { errcode, msg }
    }
}

} // verus!

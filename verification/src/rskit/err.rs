use vstd::prelude::*;

verus! {

/// An error value with a machine-readable code and a human-readable message.
#[derive(Debug)]
pub struct ErrData {
    pub errcode: String,
    pub msg: String,
}

impl ErrData {
    pub fn new(errcode: &str, msg: &str) -> (r: Self)
        ensures
            r.errcode@ == errcode@,
            r.msg@ == msg@,
    {
        Self { errcode: errcode.to_owned(), msg: msg.to_owned() }
    }
}

/// An `Err` result carrying an [`ErrData`] with the given code and message.
pub fn err<T>(errcode: &str, msg: &str) -> (r: Result<T, ErrData>)
    ensures
        r matches Err(e) && e.errcode@ == errcode@ && e.msg@ == msg@,
{
    Err(ErrData::new(errcode, msg))
}

} // verus!

use vstd::prelude::*;
use crate::ryz::err::Error;

verus! {

/// The result type used throughout the library: success, or a structured
/// [`Error`].
pub type Res<T> = Result<T, Error>;

} // verus!

use vstd::prelude::*;
use crate::ryz::res::Res;

verus! {

/// An enum with a canonical string form for each variant.
///
/// `str_spec` gives the string of a variant and `of_str_spec` the variant of
/// a string, so that implementations can state `to_str` / `from_str` exactly.
pub trait StrEnum: Sized {
    spec fn str_spec(&self) -> Seq<char>;

    spec fn of_str_spec(s: Seq<char>) -> Option<Self>;

    fn to_str(&self) -> (r: &str)
        ensures
            r@ == self.str_spec(),
    ;

    fn from_str(s: &str) -> (r: Res<Self>)
        ensures
            match Self::of_str_spec(s@) {
                Some(v) => r matches Ok(got) && got == v,
                None => r is Err,
            },
    ;
}

} // verus!

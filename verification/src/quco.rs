//! Queries and collections: the typed search form used by the read paths,
//! and the conversion from stored rows to boundary messages.

use vstd::prelude::*;

verus! {

/// A stored row that converts to a boundary message of type `T`.
///
/// `msg_wf` says when a row is well-formed enough to convert; `msg_spec`
/// gives the message it converts to.
pub trait Collection<T>: Sized {
    spec fn msg_wf(&self) -> bool;

    spec fn msg_spec(&self) -> T;

    fn to_msg(&self) -> (r: T)
        requires
            self.msg_wf(),
        ensures
            r == self.msg_spec(),
    ;
}

/// A search on the id column: either one id or a set of ids.
pub enum IdSel {
    One(i32),
    Within(Vec<i32>),
}

/// A typed user search: each present field narrows the result set.
pub struct Query {
    pub id: Option<IdSel>,
    pub username: Option<String>,
    pub firstname: Option<String>,
}

impl Query {
    /// The empty search, matching every row.
    pub fn new() -> (r: Self)
        ensures
            r.id is None,
            r.username is None,
            r.firstname is None,
    {
        Query { id: None, username: None, firstname: None }
    }
}

} // verus!

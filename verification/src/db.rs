//! The datastore: users, change records, delivery links and domains, with
//! the invariants the rest of the library relies on.

use vstd::prelude::*;
use crate::domain::{DomainM, DomainTable};
use crate::ryz::err::Error;
use crate::ryz::res::Res;
use crate::user::{archived_name, archived_prefix, is_archived_name, UserRowM, UserTable};
use crate::user_change::{is_valid_action, ChangeRowM, UserChangeTable};
use crate::Apprc;

verus! {

pub type Id = i32;

pub type Sid = String;

/// A pending-delivery marker: the domain has not yet acknowledged the
/// change record.
#[derive(Clone, Copy)]
pub struct LinkTable {
    pub domain_id: Id,
    pub user_change_id: Id,
}

/// The model of a pending-delivery marker.
pub struct LinkM {
    pub domain_id: int,
    pub user_change_id: int,
}

impl View for LinkTable {
    type V = LinkM;

    open spec fn view(&self) -> LinkM {
        LinkM { domain_id: self.domain_id as int, user_change_id: self.user_change_id as int }
    }
}

impl DeepView for LinkTable {
    type V = LinkM;

    open spec fn deep_view(&self) -> LinkM {
        self.view()
    }
}

/// The model of the whole store.
pub struct ConM {
    pub users: Seq<UserRowM>,
    pub changes: Seq<ChangeRowM>,
    pub links: Seq<LinkM>,
    pub domains: Seq<DomainM>,
    pub next_user_id: int,
    pub next_change_id: int,
    pub next_domain_id: int,
}

/// The store connection: the four tables and the id counters.
pub struct Con {
    pub users: Vec<UserTable>,
    pub changes: Vec<UserChangeTable>,
    pub links: Vec<LinkTable>,
    pub domains: Vec<DomainTable>,
    pub next_user_id: Id,
    pub next_change_id: Id,
    pub next_domain_id: Id,
}

impl View for Con {
    type V = ConM;

    open spec fn view(&self) -> ConM {
        ConM {
            users: self.users.deep_view(),
            changes: self.changes.deep_view(),
            links: self.links.deep_view(),
            domains: self.domains.deep_view(),
            next_user_id: self.next_user_id as int,
            next_change_id: self.next_change_id as int,
            next_domain_id: self.next_domain_id as int,
        }
    }
}

// ---------------------------------------------------------------------------
// Invariants
// ---------------------------------------------------------------------------

/// User rows: ids are positive, below the counter and unique; usernames are
/// unique; no stored username is the archived spelling of another stored
/// username; archived spellings are never nested.
pub open spec fn users_wf(s: ConM) -> bool {
    &&& forall|i: int|
        0 <= i < s.users.len() ==> 1 <= (#[trigger] s.users[i]).id < s.next_user_id
    &&& forall|i: int, j: int|
        #![trigger s.users[i], s.users[j]]
        0 <= i < j < s.users.len() ==> s.users[i].id != s.users[j].id
    &&& forall|i: int, j: int|
        #![trigger s.users[i], s.users[j]]
        0 <= i < j < s.users.len() ==> s.users[i].username != s.users[j].username
    &&& forall|i: int, j: int|
        #![trigger s.users[i], s.users[j]]
        0 <= i < s.users.len() && 0 <= j < s.users.len() ==> s.users[i].username != archived_name(
            s.users[j].username,
        )
    &&& forall|i: int|
        0 <= i < s.users.len() && is_archived_name((#[trigger] s.users[i]).username)
            ==> !is_archived_name(s.users[i].username.skip(archived_prefix().len() as int))
}

/// Change rows: ids are positive, below the counter and strictly increasing
/// in storage order; creation times never decrease in storage order; every
/// stored action string is canonical.
pub open spec fn changes_wf(s: ConM) -> bool {
    &&& forall|i: int|
        0 <= i < s.changes.len() ==> 1 <= (#[trigger] s.changes[i]).id < s.next_change_id
    &&& forall|i: int, j: int|
        #![trigger s.changes[i], s.changes[j]]
        0 <= i < j < s.changes.len() ==> s.changes[i].id < s.changes[j].id
    &&& forall|i: int, j: int|
        #![trigger s.changes[i], s.changes[j]]
        0 <= i < j < s.changes.len() ==> s.changes[i].created <= s.changes[j].created
    &&& forall|i: int|
        0 <= i < s.changes.len() ==> is_valid_action((#[trigger] s.changes[i]).action)
    &&& forall|i: int| 0 <= i < s.changes.len() ==> (#[trigger] s.changes[i]).created >= 0
}

/// Delivery links: no duplicates, and both ends reference ids below the
/// counters.
pub open spec fn links_wf(s: ConM) -> bool {
    &&& forall|i: int, j: int|
        #![trigger s.links[i], s.links[j]]
        0 <= i < j < s.links.len() ==> s.links[i] != s.links[j]
    &&& forall|i: int|
        0 <= i < s.links.len() ==> 1 <= (#[trigger] s.links[i]).domain_id < s.next_domain_id
    &&& forall|i: int|
        0 <= i < s.links.len() ==> 1 <= (#[trigger] s.links[i]).user_change_id
            < s.next_change_id
}

/// Domains: ids are positive, below the counter and unique; keys are
/// unique.
pub open spec fn domains_wf(s: ConM) -> bool {
    &&& forall|i: int|
        0 <= i < s.domains.len() ==> 1 <= (#[trigger] s.domains[i]).id < s.next_domain_id
    &&& forall|i: int, j: int|
        #![trigger s.domains[i], s.domains[j]]
        0 <= i < j < s.domains.len() ==> s.domains[i].id != s.domains[j].id
    &&& forall|i: int, j: int|
        #![trigger s.domains[i], s.domains[j]]
        0 <= i < j < s.domains.len() ==> s.domains[i].key != s.domains[j].key
}

/// The store's full invariant: every operation requires it and preserves
/// it.
pub open spec fn wf(s: ConM) -> bool {
    &&& users_wf(s)
    &&& changes_wf(s)
    &&& links_wf(s)
    &&& domains_wf(s)
    &&& 1 <= s.next_user_id <= i32::MAX
    &&& 1 <= s.next_change_id <= i32::MAX
    &&& 1 <= s.next_domain_id <= i32::MAX
}

/// A fresh, empty store.
pub open spec fn empty_store() -> ConM {
    ConM {
        users: Seq::empty(),
        changes: Seq::empty(),
        links: Seq::empty(),
        domains: Seq::empty(),
        next_user_id: 1,
        next_change_id: 1,
        next_domain_id: 1,
    }
}

/// Opens a fresh, empty store.
pub fn con() -> (r: Res<Con>)
    ensures
        r matches Ok(c) && c@ == empty_store() && wf(c@),
{
    let c = Con {
        users: Vec::new(),
        changes: Vec::new(),
        links: Vec::new(),
        domains: Vec::new(),
        next_user_id: 1,
        next_change_id: 1,
        next_domain_id: 1,
    };
    proof {
        assert(c@.users =~= empty_store().users);
        assert(c@.changes =~= empty_store().changes);
        assert(c@.links =~= empty_store().links);
        assert(c@.domains =~= empty_store().domains);
        assert(c@ == empty_store());
    }
    Ok(c)
}

/// Clears users, changes and links and restarts their id counters, when the
/// configuration allows cleaning; domains are kept. Otherwise a no-op.
pub fn truncate_tables_if_allowed(apprc: &Apprc, con: &mut Con)
    ensures
        !apprc.sql.is_cleaning_allowed ==> final(con)@ == old(con)@,
        apprc.sql.is_cleaning_allowed ==> final(con)@ == (ConM {
            users: Seq::empty(),
            changes: Seq::empty(),
            links: Seq::empty(),
            domains: old(con)@.domains,
            next_user_id: 1,
            next_change_id: 1,
            next_domain_id: old(con)@.next_domain_id,
        }),
        wf(old(con)@) ==> wf(final(con)@),
{
    if !apprc.sql.is_cleaning_allowed {
        return ;
    }
    con.users.clear();
    con.changes.clear();
    con.links.clear();
    con.next_user_id = 1;
    con.next_change_id = 1;
    proof {
        assert(con@.users =~= Seq::<UserRowM>::empty());
        assert(con@.changes =~= Seq::<ChangeRowM>::empty());
        assert(con@.links =~= Seq::<LinkM>::empty());
    }
}

} // verus!

//! The append-only ledger of user lifecycle events.
//!
//! Appending a change also fans it out: one pending-delivery link is written
//! for every currently registered domain, atomically with the record. The
//! records themselves are never mutated or deleted; they are the audit
//! trail, independent of delivery state.

use vstd::prelude::*;
use crate::db::{Con, ConM, Id, LinkM, LinkTable};
use crate::quco::Collection;
use crate::ryz::enm::StrEnum;
use crate::ryz::err::{make, make_default, Error};
use crate::ryz::res::Res;
use crate::ryz::time::{utc, Time};

verus! {

/// What happened to the user: created or removed.
#[derive(Clone, Copy, PartialEq, Eq, Structural, Debug)]
pub enum ChangeAction {
    New,
    Del,
}

impl StrEnum for ChangeAction {
    open spec fn str_spec(&self) -> Seq<char> {
        match self {
            ChangeAction::New => "new"@,
            ChangeAction::Del => "del"@,
        }
    }

    open spec fn of_str_spec(s: Seq<char>) -> Option<Self> {
        if s == "new"@ {
            Some(ChangeAction::New)
        } else if s == "del"@ {
            Some(ChangeAction::Del)
        } else {
            None
        }
    }

    fn to_str(&self) -> (r: &str) {
        match self {
            ChangeAction::New => "new",
            ChangeAction::Del => "del",
        }
    }

    fn from_str(s: &str) -> (r: Res<Self>) {
        let owned: String = s.to_owned();
        if owned == "new".to_owned() {
            Ok(ChangeAction::New)
        } else if owned == "del".to_owned() {
            Ok(ChangeAction::Del)
        } else {
            make_default()
        }
    }
}

/// A stored action string is one of the two canonical spellings.
pub open spec fn is_valid_action(s: Seq<char>) -> bool {
    s == "new"@ || s == "del"@
}

/// The model of a stored change row.
pub struct ChangeRowM {
    pub id: int,
    pub created: int,
    pub action: Seq<char>,
    pub user_id: int,
}

/// The model of a change message.
pub struct ChangeM {
    pub id: int,
    pub created: int,
    pub action: ChangeAction,
    pub user_id: int,
}

/// A change record as stored: the action is kept as its string spelling.
pub struct UserChangeTable {
    pub id: Id,
    pub created: Time,
    pub action: String,
    pub user_id: Id,
}

impl View for UserChangeTable {
    type V = ChangeRowM;

    open spec fn view(&self) -> ChangeRowM {
        ChangeRowM {
            id: self.id as int,
            created: self.created as int,
            action: self.action@,
            user_id: self.user_id as int,
        }
    }
}

impl DeepView for UserChangeTable {
    type V = ChangeRowM;

    open spec fn deep_view(&self) -> ChangeRowM {
        self.view()
    }
}

/// A change record as handed to callers.
#[derive(Debug)]
pub struct UserChange {
    pub id: Id,
    pub created: Time,
    pub action: ChangeAction,
    pub user_id: Id,
}

impl View for UserChange {
    type V = ChangeM;

    open spec fn view(&self) -> ChangeM {
        ChangeM {
            id: self.id as int,
            created: self.created as int,
            action: self.action,
            user_id: self.user_id as int,
        }
    }
}

impl DeepView for UserChange {
    type V = ChangeM;

    open spec fn deep_view(&self) -> ChangeM {
        self.view()
    }
}

/// The message a stored change row converts to.
pub open spec fn change_msg_of(c: ChangeRowM) -> ChangeM {
    ChangeM {
        id: c.id,
        created: c.created,
        action: if c.action == "new"@ {
            ChangeAction::New
        } else {
            ChangeAction::Del
        },
        user_id: c.user_id,
    }
}

impl Collection<UserChange> for UserChangeTable {
    open spec fn msg_wf(&self) -> bool {
        is_valid_action(self@.action)
    }

    open spec fn msg_spec(&self) -> UserChange {
        UserChange {
            id: self.id,
            created: self.created,
            action: if self@.action == "new"@ {
                ChangeAction::New
            } else {
                ChangeAction::Del
            },
            user_id: self.user_id,
        }
    }

    fn to_msg(&self) -> (r: UserChange) {
        let action = match ChangeAction::from_str(self.action.as_str()) {
            Ok(a) => a,
            Err(_) => unreached(),
        };
        UserChange { id: self.id, created: self.created, action, user_id: self.user_id }
    }
}

/// A request to append one change to the ledger.
pub struct NewUserChange {
    pub user_id: Id,
    pub action: ChangeAction,
}

} // verus!

verus! {

// ---------------------------------------------------------------------------
// Append with fan-out
// ---------------------------------------------------------------------------

/// The pending-delivery link fanned out to a domain for a change record.
pub open spec fn link_for(cid: int, d: crate::domain::DomainM) -> LinkM {
    LinkM { domain_id: d.id, user_change_id: cid }
}

/// The links fanned out for a new change record: exactly one per domain
/// registered at append time, in registry order.
pub open spec fn fanout_links(domains: Seq<crate::domain::DomainM>, cid: int) -> Seq<LinkM> {
    domains.map_values(|d: crate::domain::DomainM| link_for(cid, d))
}

/// The creation time actually recorded: the ledger's clock never runs
/// backwards, so a time before the newest record is clamped up to it.
pub open spec fn effective_created(s: ConM, now: int) -> int {
    if s.changes.len() > 0 && s.changes.last().created > now {
        s.changes.last().created
    } else {
        now
    }
}

/// The store after appending one change: the record is pushed with the next
/// id, and one link per registered domain is added; nothing else moves.
pub open spec fn append_model(s: ConM, action: ChangeAction, user_id: int, created: int) -> ConM {
    let cid = s.next_change_id;
    ConM {
        users: s.users,
        changes: s.changes.push(
            ChangeRowM { id: cid, created, action: action.str_spec(), user_id },
        ),
        links: s.links + fanout_links(s.domains, cid),
        domains: s.domains,
        next_user_id: s.next_user_id,
        next_change_id: cid + 1,
        next_domain_id: s.next_domain_id,
    }
}

/// Appends one change, recorded at `created` (clamped so ledger time never
/// decreases), and fans it out to every registered domain, atomically.
/// Fails only when the id space is exhausted, leaving the store untouched.
pub fn new_at(data: &NewUserChange, created: Time, con: &mut Con) -> (r: Res<UserChange>)
    requires
        crate::db::wf(old(con)@),
    ensures
        crate::db::wf(final(con)@),
        old(con)@.next_change_id == i32::MAX ==> (r matches Err(e) && e.code@ == "storage_err"@)
            && final(con)@ == old(con)@,
        old(con)@.next_change_id < i32::MAX ==> (r matches Ok(ch) && ch@ == (ChangeM {
            id: old(con)@.next_change_id,
            created: effective_created(old(con)@, created as int),
            action: data.action,
            user_id: data.user_id as int,
        }) && final(con)@ == append_model(
            old(con)@,
            data.action,
            data.user_id as int,
            effective_created(old(con)@, created as int),
        )),
{
    if con.next_change_id == i32::MAX {
        return make("storage_err", "change id space exhausted");
    }
    let ghost pre: ConM = con@;
    let cid = con.next_change_id;
    let mut eff = created;
    let clen = con.changes.len();
    if clen > 0 {
        let last_created = con.changes[clen - 1].created;
        if last_created > created {
            eff = last_created;
        }
    }
    proof {
        assert(eff as int == effective_created(pre, created as int));
    }
    let row = UserChangeTable {
        id: cid,
        created: eff,
        action: data.action.to_str().to_owned(),
        user_id: data.user_id,
    };
    con.changes.push(row);
    con.next_change_id = cid + 1;
    proof {
        assert(con@.changes =~= pre.changes.push(
            ChangeRowM {
                id: cid as int,
                created: eff as int,
                action: data.action.str_spec(),
                user_id: data.user_id as int,
            },
        ));
        assert(con@.users =~= pre.users);
        assert(con@.domains =~= pre.domains);
        assert(con@.links =~= pre.links);
    }
    let ghost mid: ConM = con@;
    let mut i: usize = 0;
    while i < con.domains.len()
        invariant
            i <= con.domains.len(),
            con@.users == mid.users,
            con@.changes == mid.changes,
            con@.domains == mid.domains,
            con@.next_user_id == mid.next_user_id,
            con@.next_change_id == mid.next_change_id,
            con@.next_domain_id == mid.next_domain_id,
            con@.links == mid.links + fanout_links(mid.domains.take(i as int), cid as int),
        decreases con.domains.len() - i,
    {
        let l = LinkTable { domain_id: con.domains[i].id, user_change_id: cid };
        con.links.push(l);
        proof {
            assert(mid.domains.take(i + 1) =~= mid.domains.take(i as int).push(
                mid.domains[i as int],
            ));
            assert(fanout_links(mid.domains.take(i + 1), cid as int) =~= fanout_links(
                mid.domains.take(i as int),
                cid as int,
            ).push(link_for(cid as int, mid.domains[i as int])));
            assert(l@ == link_for(cid as int, mid.domains[i as int]));
            assert(con@.links =~= (mid.links + fanout_links(mid.domains.take(i as int), cid as int))
                .push(l@));
            assert(con@.links =~= mid.links + fanout_links(mid.domains.take(i + 1), cid as int));
        }
        i = i + 1;
    }
    proof {
        assert(mid.domains.take(mid.domains.len() as int) =~= mid.domains);
        assert(con@ == append_model(pre, data.action, data.user_id as int, eff as int));
        let post = con@;
        // The pushed record keeps change rows strictly increasing in id and
        // non-decreasing in created.
        assert(crate::db::changes_wf(post)) by {
            assert(forall|k: int|
                0 <= k < pre.changes.len() ==> (#[trigger] pre.changes[k]).created
                    <= eff as int);
            assert(forall|k: int|
                0 <= k < post.changes.len() - 1 ==> post.changes[k] == #[trigger] pre.changes[k]);
        }
        // Old links reference older change ids; new links go to distinct
        // domains.
        assert(crate::db::links_wf(post)) by {
            assert(forall|k: int|
                0 <= k < pre.links.len() ==> post.links[k] == #[trigger] pre.links[k]);
            assert(forall|k: int|
                0 <= k < pre.domains.len() ==> post.links[pre.links.len() + k] == link_for(
                    cid as int,
                    #[trigger] pre.domains[k],
                ));
        }
        assert(crate::db::users_wf(post)) by {
            assert(forall|k: int|
                0 <= k < post.users.len() ==> post.users[k] == #[trigger] pre.users[k]);
        }
        assert(crate::db::domains_wf(post)) by {
            assert(forall|k: int|
                0 <= k < post.domains.len() ==> post.domains[k] == #[trigger] pre.domains[k]);
        }
    }
    Ok(UserChange { id: cid, created: eff, action: data.action, user_id: data.user_id })
}

/// Appends one change recorded at the current clock time, with fan-out.
pub fn new(data: &NewUserChange, con: &mut Con) -> (r: Res<UserChange>)
    requires
        crate::db::wf(old(con)@),
    ensures
        crate::db::wf(final(con)@),
        old(con)@.next_change_id == i32::MAX ==> (r matches Err(e) && e.code@ == "storage_err"@)
            && final(con)@ == old(con)@,
        old(con)@.next_change_id < i32::MAX ==> (exists|eff: int|
            {
                &&& 0 <= eff <= u64::MAX
                &&& old(con)@.changes.len() > 0 ==> eff >= old(con)@.changes.last().created
                &&& r matches Ok(ch) && ch@ == (ChangeM {
                    id: old(con)@.next_change_id,
                    created: eff,
                    action: data.action,
                    user_id: data.user_id as int,
                })
                &&& final(con)@ == append_model(old(con)@, data.action, data.user_id as int, eff)
            }),
{
    let now = utc();
    let r = new_at(data, now, con);
    proof {
        if old(con)@.next_change_id < i32::MAX {
            let eff = effective_created(old(con)@, now as int);
            assert(old(con)@.changes.len() > 0 ==> eff >= old(con)@.changes.last().created);
        }
    }
    r
}

// ---------------------------------------------------------------------------
// Reading the log
// ---------------------------------------------------------------------------

/// The messages of the change rows recorded at or after `from`, in storage
/// order.
pub open spec fn changes_from(s: Seq<ChangeRowM>, from: int) -> Seq<ChangeM>
    decreases s.len(),
{
    if s.len() == 0 {
        Seq::empty()
    } else if s.last().created >= from {
        changes_from(s.drop_last(), from).push(change_msg_of(s.last()))
    } else {
        changes_from(s.drop_last(), from)
    }
}

/// All changes recorded at or after `from`, in ledger order.
pub fn get_many(from: Time, con: &Con) -> (r: Res<Vec<UserChange>>)
    requires
        crate::db::wf(con@),
    ensures
        r matches Ok(v) && v.deep_view() == changes_from(con@.changes, from as int),
{
    let mut out: Vec<UserChange> = Vec::new();
    let mut i: usize = 0;
    while i < con.changes.len()
        invariant
            crate::db::wf(con@),
            i <= con.changes.len(),
            out.deep_view() == changes_from(con@.changes.take(i as int), from as int),
        decreases con.changes.len() - i,
    {
        proof {
            assert(con@.changes.take(i + 1).drop_last() =~= con@.changes.take(i as int));
            assert(con@.changes.take(i + 1).last() == con@.changes[i as int]);
        }
        if con.changes[i].created >= from {
            let msg = con.changes[i].to_msg();
            out.push(msg);
            proof {
                assert(msg@ == change_msg_of(con@.changes[i as int]));
                assert(out.deep_view() =~= changes_from(con@.changes.take(i + 1), from as int));
            }
        } else {
            proof {
                assert(out.deep_view() =~= changes_from(con@.changes.take(i + 1), from as int));
            }
        }
        i = i + 1;
    }
    proof {
        assert(con@.changes.take(con@.changes.len() as int) =~= con@.changes);
    }
    Ok(out)
}

} // verus!

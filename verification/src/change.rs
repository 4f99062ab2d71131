//! The per-tenant delivery surface of the change ledger.

use vstd::prelude::*;
use crate::db::{Con, ConM, Id, LinkM, LinkTable};
use crate::domain::{find_domain, find_domain_idx, lemma_find_domain_props};
use crate::quco::Collection;
use crate::ryz::enm::StrEnum;
use crate::ryz::err::{make, Error};
use crate::ryz::res::Res;
use crate::user::find_username;
use crate::user_change::{
    self, append_model, change_msg_of, fanout_links, link_for, ChangeAction, ChangeM, ChangeRowM,
    NewUserChange, UserChange,
};

verus! {

/// A request to append a change, naming the subject by id or by username.
pub struct CreateUserChange {
    pub user_id: Option<crate::db::Id>,
    pub username: Option<String>,
    pub action: String,
}

} // verus!

verus! {

/// Whether a pending-delivery link exists for the domain and change ids.
pub open spec fn has_link(links: Seq<LinkM>, did: int, cid: int) -> bool {
    exists|k: int|
        0 <= k < links.len() && links[k] == (LinkM { domain_id: did, user_change_id: cid })
}

/// The messages of the change rows still pending for a domain, in ledger
/// order.
pub open spec fn pending_msgs(changes: Seq<ChangeRowM>, links: Seq<LinkM>, did: int) -> Seq<
    ChangeM,
>
    decreases changes.len(),
{
    if changes.len() == 0 {
        Seq::empty()
    } else if has_link(links, did, changes.last().id) {
        pending_msgs(changes.drop_last(), links, did).push(change_msg_of(changes.last()))
    } else {
        pending_msgs(changes.drop_last(), links, did)
    }
}

/// The links left after a domain acknowledges everything it had pending.
pub open spec fn links_without(links: Seq<LinkM>, did: int) -> Seq<LinkM>
    decreases links.len(),
{
    if links.len() == 0 {
        Seq::empty()
    } else if links.last().domain_id == did {
        links_without(links.drop_last(), did)
    } else {
        links_without(links.drop_last(), did).push(links.last())
    }
}

/// Pending messages inherit the ledger's order: ids strictly increase and
/// creation times never decrease along the result.
proof fn lemma_pending_props(changes: Seq<ChangeRowM>, links: Seq<LinkM>, did: int)
    requires
        forall|i: int, j: int|
            #![trigger changes[i], changes[j]]
            0 <= i < j < changes.len() ==> changes[i].id < changes[j].id,
        forall|i: int, j: int|
            #![trigger changes[i], changes[j]]
            0 <= i < j < changes.len() ==> changes[i].created <= changes[j].created,
    ensures
        ({
            let p = pending_msgs(changes, links, did);
            &&& forall|a: int, b: int|
                #![trigger p[a], p[b]]
                0 <= a < b < p.len() ==> p[a].id < p[b].id && p[a].created <= p[b].created
            &&& changes.len() > 0 ==> forall|a: int|
                0 <= a < p.len() ==> (#[trigger] p[a]).id <= changes.last().id && p[a].created
                    <= changes.last().created
        }),
    decreases changes.len(),
{
    if changes.len() > 0 {
        let head = changes.drop_last();
        assert(forall|k: int| 0 <= k < head.len() ==> head[k] == #[trigger] changes[k]);
        lemma_pending_props(head, links, did);
        let p0 = pending_msgs(head, links, did);
        let p = pending_msgs(changes, links, did);
        if head.len() > 0 {
            assert(head.last() == changes[changes.len() - 2]);
            assert(changes[changes.len() - 2].id < changes.last().id);
            assert(changes[changes.len() - 2].created <= changes.last().created);
        }
        if has_link(links, did, changes.last().id) {
            assert(p == p0.push(change_msg_of(changes.last())));
            assert(forall|a: int| 0 <= a < p0.len() ==> p[a] == #[trigger] p0[a]);
            assert(p[p.len() - 1] == change_msg_of(changes.last()));
        } else {
            assert(p == p0);
        }
    }
}

/// Acknowledging removes every link of the domain and never invents
/// links.
proof fn lemma_links_without_no_did(links: Seq<LinkM>, did: int)
    ensures
        forall|k: int|
            0 <= k < links_without(links, did).len() ==> (#[trigger] links_without(
                links,
                did,
            )[k]).domain_id != did,
    decreases links.len(),
{
    if links.len() > 0 {
        lemma_links_without_no_did(links.drop_last(), did);
        let c0 = links_without(links.drop_last(), did);
        let c = links_without(links, did);
        if links.last().domain_id != did {
            assert(forall|k: int| 0 <= k < c0.len() ==> c[k] == #[trigger] c0[k]);
            assert(c[c.len() - 1] == links.last());
        }
    }
}

/// What acknowledging keeps comes from the links that were there, without
/// duplicates.
proof fn lemma_links_without_subset(links: Seq<LinkM>, did: int)
    requires
        forall|i: int, j: int|
            #![trigger links[i], links[j]]
            0 <= i < j < links.len() ==> links[i] != links[j],
    ensures
        forall|k: int|
            0 <= k < links_without(links, did).len() ==> exists|j: int|
                0 <= j < links.len() && #[trigger] links_without(links, did)[k] == links[j],
        forall|i: int, j: int|
            #![trigger links_without(links, did)[i], links_without(links, did)[j]]
            0 <= i < j < links_without(links, did).len() ==> links_without(links, did)[i]
                != links_without(links, did)[j],
    decreases links.len(),
{
    if links.len() > 0 {
        let head = links.drop_last();
        assert(forall|k: int| 0 <= k < head.len() ==> head[k] == #[trigger] links[k]);
        lemma_links_without_subset(head, did);
        let c0 = links_without(head, did);
        let c = links_without(links, did);
        if links.last().domain_id != did {
            assert(forall|k: int| 0 <= k < c0.len() ==> c[k] == #[trigger] c0[k]);
            assert(c[c.len() - 1] == links.last());
            assert(forall|k: int|
                0 <= k < c0.len() ==> #[trigger] c0[k] != links.last()) by {
                assert(forall|k: int|
                    0 <= k < c0.len() ==> exists|j: int| 0 <= j < head.len() && #[trigger] c0[k]
                        == head[j]);
            }
        }
    }
}

/// With every link of the domain gone, nothing is pending for it.
proof fn lemma_pending_empty(changes: Seq<ChangeRowM>, links: Seq<LinkM>, did: int)
    requires
        forall|k: int| 0 <= k < links.len() ==> (#[trigger] links[k]).domain_id != did,
    ensures
        pending_msgs(changes, links, did) == Seq::<ChangeM>::empty(),
    decreases changes.len(),
{
    if changes.len() > 0 {
        lemma_pending_empty(changes.drop_last(), links, did);
        assert(!has_link(links, did, changes.last().id));
    }
}

fn has_link_exec(links: &Vec<LinkTable>, did: Id, cid: Id) -> (r: bool)
    ensures
        r == has_link(links.deep_view(), did as int, cid as int),
{
    let n = links.len();
    let mut i: usize = 0;
    while i < n
        invariant
            i <= n,
            n == links.len(),
            forall|k: int|
                0 <= k < i ==> links.deep_view()[k] != (LinkM {
                    domain_id: did as int,
                    user_change_id: cid as int,
                }),
        decreases n - i,
    {
        if links[i].domain_id == did && links[i].user_change_id == cid {
            assert(links.deep_view()[i as int] == (LinkM {
                domain_id: did as int,
                user_change_id: cid as int,
            }));
            return true;
        }
        i = i + 1;
    }
    false
}

/// Whether this call acknowledges: absent means yes.
pub open spec fn unlink_requested(unlink: Option<bool>) -> bool {
    match unlink {
        Some(v) => v,
        None => true,
    }
}

/// The store after a fetch: with acknowledgment, the domain's links are
/// gone; without, nothing moves. Records are never deleted either way.
pub open spec fn fetch_model(s: ConM, did: int, ack: bool) -> ConM {
    if ack {
        ConM {
            users: s.users,
            changes: s.changes,
            links: links_without(s.links, did),
            domains: s.domains,
            next_user_id: s.next_user_id,
            next_change_id: s.next_change_id,
            next_domain_id: s.next_domain_id,
        }
    } else {
        s
    }
}

/// Fetches every change still pending for the domain, oldest first, and —
/// unless `unlink` is `Some(false)` — deletes the returned delivery links
/// in the same step, so that a second fetch returns nothing. An unknown
/// key has nothing pending and acknowledges nothing. The records
/// themselves are never deleted.
pub fn get_changes(domain_key: &String, unlink: Option<bool>, con: &mut Con) -> (r: Res<Vec<
    UserChange,
>>)
    requires
        crate::db::wf(old(con)@),
    ensures
        crate::db::wf(final(con)@),
        ({
            let sel = find_domain(old(con)@.domains, domain_key@);
            match sel {
                None => r matches Ok(v) && v@.len() == 0 && final(con)@ == old(con)@,
                Some(dix) => {
                    let did = old(con)@.domains[dix].id;
                    &&& r matches Ok(v) && v.deep_view() == pending_msgs(
                        old(con)@.changes,
                        old(con)@.links,
                        did,
                    )
                    &&& final(con)@ == fetch_model(old(con)@, did, unlink_requested(unlink))
                    &&& unlink_requested(unlink) ==> pending_msgs(
                        final(con)@.changes,
                        final(con)@.links,
                        did,
                    ) == Seq::<ChangeM>::empty()
                },
            }
        }),
        r matches Ok(v) ==> forall|a: int, b: int|
            #![trigger v.deep_view()[a], v.deep_view()[b]]
            0 <= a < b < v.deep_view().len() ==> v.deep_view()[a].id < v.deep_view()[b].id
                && v.deep_view()[a].created <= v.deep_view()[b].created,
{
    proof {
        lemma_find_domain_props(con@.domains, domain_key@, 0);
    }
    let dix = match find_domain_idx(con, domain_key) {
        Some(p) => p,
        None => {
            let out: Vec<UserChange> = Vec::new();
            return Ok(out);
        },
    };
    let did = con.domains[dix].id;
    let ghost pre: ConM = con@;
    proof {
        lemma_pending_props(pre.changes, pre.links, did as int);
    }
    let mut out: Vec<UserChange> = Vec::new();
    let n = con.changes.len();
    let mut i: usize = 0;
    while i < n
        invariant
            i <= n,
            n == con.changes.len(),
            crate::db::wf(con@),
            con@ == pre,
            did as int == pre.domains[find_domain(pre.domains, domain_key@)->0].id,
            out.deep_view() == pending_msgs(pre.changes.take(i as int), pre.links, did as int),
        decreases n - i,
    {
        proof {
            assert(pre.changes.take(i + 1).drop_last() =~= pre.changes.take(i as int));
            assert(pre.changes.take(i + 1).last() == pre.changes[i as int]);
        }
        if has_link_exec(&con.links, did, con.changes[i].id) {
            let msg = con.changes[i].to_msg();
            out.push(msg);
            proof {
                assert(msg@ == change_msg_of(pre.changes[i as int]));
                assert(out.deep_view() =~= pending_msgs(
                    pre.changes.take(i + 1),
                    pre.links,
                    did as int,
                ));
            }
        } else {
            proof {
                assert(out.deep_view() =~= pending_msgs(
                    pre.changes.take(i + 1),
                    pre.links,
                    did as int,
                ));
            }
        }
        i = i + 1;
    }
    proof {
        assert(pre.changes.take(n as int) =~= pre.changes);
    }
    let do_unlink = match unlink {
        Some(v) => v,
        None => true,
    };
    if do_unlink {
        let mut kept: Vec<LinkTable> = Vec::new();
        let m = con.links.len();
        let mut j: usize = 0;
        while j < m
            invariant
                j <= m,
                m == con.links.len(),
                con@ == pre,
                kept.deep_view() == links_without(pre.links.take(j as int), did as int),
                did as int == pre.domains[find_domain(pre.domains, domain_key@)->0].id,
            decreases m - j,
        {
            proof {
                assert(pre.links.take(j + 1).drop_last() =~= pre.links.take(j as int));
                assert(pre.links.take(j + 1).last() == pre.links[j as int]);
            }
            if con.links[j].domain_id != did {
                let l = con.links[j];
                kept.push(l);
                proof {
                    assert(kept.deep_view() =~= links_without(
                        pre.links.take(j + 1),
                        did as int,
                    ));
                }
            } else {
                proof {
                    assert(kept.deep_view() =~= links_without(
                        pre.links.take(j + 1),
                        did as int,
                    ));
                }
            }
            j = j + 1;
        }
        proof {
            assert(pre.links.take(m as int) =~= pre.links);
        }
        con.links = kept;
        proof {
            lemma_links_without_no_did(pre.links, did as int);
            lemma_links_without_subset(pre.links, did as int);
            let post = con@;
            assert(post.changes == pre.changes);
            assert(post.users == pre.users);
            assert(post.domains == pre.domains);
            assert(post.links == links_without(pre.links, did as int));
            lemma_pending_empty(post.changes, post.links, did as int);
            assert(crate::db::links_wf(post)) by {
                assert(forall|k: int|
                    0 <= k < post.links.len() ==> 1 <= (#[trigger] post.links[k]).domain_id
                        < post.next_domain_id && 1 <= post.links[k].user_change_id
                        < post.next_change_id) by {
                    assert(forall|k: int|
                        0 <= k < post.links.len() ==> exists|x: int|
                            0 <= x < pre.links.len() && #[trigger] post.links[k]
                                == pre.links[x]);
                }
            }
            assert(crate::db::users_wf(post)) by {
                assert(forall|k: int|
                    0 <= k < post.users.len() ==> post.users[k] == #[trigger] pre.users[k]);
            }
            assert(crate::db::changes_wf(post)) by {
                assert(forall|k: int|
                    0 <= k < post.changes.len() ==> post.changes[k] == #[trigger] pre.changes[k]);
            }
            assert(crate::db::domains_wf(post)) by {
                assert(forall|k: int|
                    0 <= k < post.domains.len() ==> post.domains[k] == #[trigger] pre.domains[k]);
            }
        }
    }
    Ok(out)
}

/// Appends one change named by user id or username, with fan-out: the
/// subject named by username must exist; the action string must be one of
/// the canonical spellings.
#[verifier::rlimit(50)]
pub fn create(data: &CreateUserChange, con: &mut Con) -> (r: Res<UserChange>)
    requires
        crate::db::wf(old(con)@),
    ensures
        crate::db::wf(final(con)@),
        data.user_id is None && data.username is None ==> (r matches Err(e) && e.code@
            == "val_err"@) && final(con)@ == old(con)@,
        (data.user_id is Some || data.username is Some) && <ChangeAction as StrEnum>::of_str_spec(
            data.action@,
        ) is None ==> (r matches Err(e) && e.code@ == "val_err"@) && final(con)@ == old(con)@,
        (data.user_id is Some || data.username is Some) && <ChangeAction as StrEnum>::of_str_spec(
            data.action@,
        ) is Some && resolve_subject(old(con)@, data) is None ==> (r matches Err(e) && e.code@
            == "not_found_err"@) && final(con)@ == old(con)@,
        (data.user_id is Some || data.username is Some) && <ChangeAction as StrEnum>::of_str_spec(
            data.action@,
        ) is Some && resolve_subject(old(con)@, data) is Some && old(con)@.next_change_id
            == i32::MAX ==> (r matches Err(e) && e.code@ == "storage_err"@) && final(con)@ == old(
            con,
        )@,
        (data.user_id is Some || data.username is Some) && <ChangeAction as StrEnum>::of_str_spec(
            data.action@,
        ) is Some && resolve_subject(old(con)@, data) is Some && old(con)@.next_change_id
            < i32::MAX ==> (exists|eff: int|
            {
                &&& 0 <= eff <= u64::MAX
                &&& old(con)@.changes.len() > 0 ==> eff >= old(con)@.changes.last().created
                &&& r matches Ok(ch) && ch@ == (ChangeM {
                    id: old(con)@.next_change_id,
                    created: eff,
                    action: <ChangeAction as StrEnum>::of_str_spec(data.action@)->0,
                    user_id: resolve_subject(old(con)@, data)->0,
                })
                &&& final(con)@ == append_model(
                    old(con)@,
                    <ChangeAction as StrEnum>::of_str_spec(data.action@)->0,
                    resolve_subject(old(con)@, data)->0,
                    eff,
                )
            }),
{
    if data.username.is_none() && data.user_id.is_none() {
        return make("val_err", "specify either username or user_id");
    }
    let action = match ChangeAction::from_str(data.action.as_str()) {
        Ok(a) => a,
        Err(_) => {
            return make("val_err", "unknown action");
        },
    };
    proof {
        assert(<ChangeAction as StrEnum>::of_str_spec(data.action@) == Some(action));
    }
    let uid: Id = match &data.username {
        Some(name) => {
            proof {
                crate::user::lemma_find_username_props(con@.users, name@, 0);
            }
            match crate::user::find_username_idx(con, name) {
                Some(ix) => {
                    let u = con.users[ix].id;
                    proof {
                        assert(con@.users[ix as int].id == u as int);
                        assert(resolve_subject(con@, data) == Some(u as int));
                    }
                    u
                },
                None => {
                    return make("not_found_err", "no user with that username");
                },
            }
        },
        None => match data.user_id {
            Some(id) => id,
            None => unreached(),
        },
    };
    proof {
        assert(resolve_subject(con@, data) == Some(uid as int));
    }
    let data2 = NewUserChange { user_id: uid, action };
    let r = user_change::new(&data2, con);
    proof {
        if old(con)@.next_change_id < i32::MAX {
            let effw = choose|eff: int|
                {
                    &&& 0 <= eff <= u64::MAX
                    &&& old(con)@.changes.len() > 0 ==> eff >= old(con)@.changes.last().created
                    &&& r matches Ok(ch) && ch@ == (ChangeM {
                        id: old(con)@.next_change_id,
                        created: eff,
                        action: data2.action,
                        user_id: data2.user_id as int,
                    })
                    &&& con@ == append_model(old(con)@, data2.action, data2.user_id as int, eff)
                };
            assert({
                &&& 0 <= effw <= u64::MAX
                &&& old(con)@.changes.len() > 0 ==> effw >= old(con)@.changes.last().created
                &&& r matches Ok(ch) && ch@ == (ChangeM {
                    id: old(con)@.next_change_id,
                    created: effw,
                    action: <ChangeAction as StrEnum>::of_str_spec(data.action@)->0,
                    user_id: resolve_subject(old(con)@, data)->0,
                })
                &&& con@ == append_model(
                    old(con)@,
                    <ChangeAction as StrEnum>::of_str_spec(data.action@)->0,
                    resolve_subject(old(con)@, data)->0,
                    effw,
                )
            });
        }
    }
    r
}

/// The subject a create request names: the id given directly, or the id of
/// the user row holding the given username.
pub open spec fn resolve_subject(s: ConM, data: &CreateUserChange) -> Option<int> {
    match data.username {
        Some(name) => match find_username(s.users, name@) {
            Some(ix) => Some(s.users[ix].id),
            None => None,
        },
        None => match data.user_id {
            Some(id) => Some(id as int),
            None => None,
        },
    }
}

} // verus!

verus! {

/// How many links exist for a domain id and change id.
pub open spec fn link_count(links: Seq<LinkM>, did: int, cid: int) -> int
    decreases links.len(),
{
    if links.len() == 0 {
        0
    } else {
        link_count(links.drop_last(), did, cid) + if links.last() == (LinkM {
            domain_id: did,
            user_change_id: cid,
        }) {
            1int
        } else {
            0int
        }
    }
}

proof fn lemma_count_zero(links: Seq<LinkM>, did: int, cid: int)
    requires
        forall|k: int| 0 <= k < links.len() ==> (#[trigger] links[k]).user_change_id != cid,
    ensures
        link_count(links, did, cid) == 0,
    decreases links.len(),
{
    if links.len() > 0 {
        let head = links.drop_last();
        assert(forall|k: int| 0 <= k < head.len() ==> head[k] == #[trigger] links[k]);
        lemma_count_zero(head, did, cid);
    }
}

proof fn lemma_count_add(a: Seq<LinkM>, b: Seq<LinkM>, did: int, cid: int)
    ensures
        link_count(a + b, did, cid) == link_count(a, did, cid) + link_count(b, did, cid),
    decreases b.len(),
{
    if b.len() == 0 {
        assert(a + b =~= a);
    } else {
        lemma_count_add(a, b.drop_last(), did, cid);
        assert((a + b).drop_last() =~= a + b.drop_last());
        assert((a + b).last() == b.last());
    }
}

proof fn lemma_fanout_count(domains: Seq<crate::domain::DomainM>, cid: int, did: int)
    requires
        forall|i: int, j: int|
            #![trigger domains[i], domains[j]]
            0 <= i < j < domains.len() ==> domains[i].id != domains[j].id,
    ensures
        link_count(fanout_links(domains, cid), did, cid) == if exists|d: int|
            0 <= d < domains.len() && (#[trigger] domains[d]).id == did {
            1int
        } else {
            0int
        },
    decreases domains.len(),
{
    if domains.len() > 0 {
        let head = domains.drop_last();
        assert(forall|k: int| 0 <= k < head.len() ==> head[k] == #[trigger] domains[k]);
        lemma_fanout_count(head, cid, did);
        let f = fanout_links(domains, cid);
        let fh = fanout_links(head, cid);
        assert(f.drop_last() =~= fh);
        assert(f.last() == link_for(cid, domains.last()));
        if domains.last().id == did {
            assert(forall|d: int|
                0 <= d < head.len() ==> (#[trigger] head[d]).id != did);
            assert(link_count(fh, did, cid) == 0);
            assert(exists|d: int|
                0 <= d < domains.len() && (#[trigger] domains[d]).id == did) by {
                assert(domains[domains.len() - 1].id == did);
            }
        } else {
            if exists|d: int| 0 <= d < head.len() && (#[trigger] head[d]).id == did {
                let d = choose|d: int| 0 <= d < head.len() && (#[trigger] head[d]).id == did;
                assert(domains[d].id == did);
            }
            if exists|d: int| 0 <= d < domains.len() && (#[trigger] domains[d]).id == did {
                let d = choose|d: int|
                    0 <= d < domains.len() && (#[trigger] domains[d]).id == did;
                assert(head[d] == domains[d]);
            }
        }
    }
}

/// Fan-out completeness: appending a change writes exactly one delivery
/// link for every domain registered at append time, and none for any
/// other domain id. A domain registered later never receives a link to an
/// earlier record: there is no backfill.
pub proof fn lemma_fanout_complete(pre: ConM, action: ChangeAction, user_id: int, eff: int)
    requires
        crate::db::wf(pre),
    ensures
        forall|d: int|
            0 <= d < pre.domains.len() ==> link_count(
                append_model(pre, action, user_id, eff).links,
                (#[trigger] pre.domains[d]).id,
                pre.next_change_id,
            ) == 1,
        forall|did: int|
            #![trigger link_count(append_model(pre, action, user_id, eff).links, did, pre.next_change_id)]
            !(exists|d: int| 0 <= d < pre.domains.len() && (#[trigger] pre.domains[d]).id == did)
                ==> link_count(
                append_model(pre, action, user_id, eff).links,
                did,
                pre.next_change_id,
            ) == 0,
{
    let cid = pre.next_change_id;
    let post = append_model(pre, action, user_id, eff);
    assert forall|did: int| true implies link_count(post.links, did, cid) == link_count(
        fanout_links(pre.domains, cid),
        did,
        cid,
    ) by {
        lemma_count_add(pre.links, fanout_links(pre.domains, cid), did, cid);
        lemma_count_zero(pre.links, did, cid);
    }
    assert forall|d: int| 0 <= d < pre.domains.len() implies link_count(
        post.links,
        (#[trigger] pre.domains[d]).id,
        cid,
    ) == 1 by {
        lemma_fanout_count(pre.domains, cid, pre.domains[d].id);
        assert(exists|e: int|
            0 <= e < pre.domains.len() && (#[trigger] pre.domains[e]).id == pre.domains[d].id);
    }
    assert forall|did: int|
        !(exists|d: int|
            0 <= d < pre.domains.len() && (#[trigger] pre.domains[d]).id
                == did) implies link_count(post.links, did, cid) == 0 by {
        lemma_fanout_count(pre.domains, cid, did);
    }
}

/// Ordering: what a tenant has pending is delivered in non-decreasing
/// creation order, ties broken by ascending record id — along the result,
/// record ids strictly increase and creation times never decrease.
pub proof fn lemma_fetch_ordering(s: ConM, did: int)
    requires
        crate::db::wf(s),
    ensures
        forall|a: int, b: int|
            #![trigger pending_msgs(s.changes, s.links, did)[a], pending_msgs(s.changes, s.links, did)[b]]
            0 <= a < b < pending_msgs(s.changes, s.links, did).len() ==> pending_msgs(
                s.changes,
                s.links,
                did,
            )[a].id < pending_msgs(s.changes, s.links, did)[b].id && pending_msgs(
                s.changes,
                s.links,
                did,
            )[a].created <= pending_msgs(s.changes, s.links, did)[b].created,
{
    lemma_pending_props(s.changes, s.links, did);
}

/// Exactly once per fetch: an acknowledging fetch leaves the tenant with
/// an empty pending set, so a second fetch with no intervening append
/// returns nothing. Within one call no record appears twice: record ids
/// strictly increase along the result.
pub proof fn lemma_fetch_exactly_once(pre: ConM, did: int)
    requires
        crate::db::wf(pre),
    ensures
        pending_msgs(
            fetch_model(pre, did, true).changes,
            fetch_model(pre, did, true).links,
            did,
        ) == Seq::<ChangeM>::empty(),
{
    lemma_links_without_no_did(pre.links, did);
    lemma_pending_empty(pre.changes, links_without(pre.links, did), did);
}

} // verus!

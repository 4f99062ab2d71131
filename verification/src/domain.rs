//! The domain registry: the set of known tenants, each with a key and a
//! shared secret, plus the service-wide secret check used at the request
//! boundary.

use vstd::prelude::*;
use crate::db::{Con, ConM, Id};
use crate::ryz::err::{make, make_default, Error};
use crate::ryz::res::Res;
use crate::Apprc;

verus! {

/// The model of a registered domain.
pub struct DomainM {
    pub id: int,
    pub key: Seq<char>,
    pub secret: Seq<char>,
}

/// A registered tenant: an external system that receives user lifecycle
/// events.
pub struct DomainTable {
    pub id: Id,
    pub key: String,
    pub secret: String,
}

impl View for DomainTable {
    type V = DomainM;

    open spec fn view(&self) -> DomainM {
        DomainM { id: self.id as int, key: self.key@, secret: self.secret@ }
    }
}

impl DeepView for DomainTable {
    type V = DomainM;

    open spec fn deep_view(&self) -> DomainM {
        self.view()
    }
}

/// The boundary configuration: the secret that tenant-scoped requests must
/// present.
pub struct DomainCfg {
    pub secret: String,
}

/// Checks a presented secret against the configured one: `Ok` exactly on a
/// character-for-character match.
pub fn verify_secret(secret: &String, apprc: &Apprc) -> (r: Res<()>)
    ensures
        secret@ == apprc.domain.secret@ <==> r is Ok,
{
    if *secret == apprc.domain.secret {
        Ok(())
    } else {
        make_default()
    }
}

} // verus!

verus! {

// ---------------------------------------------------------------------------
// The registry
// ---------------------------------------------------------------------------

/// The least index at or after `from` whose domain has this key.
pub open spec fn find_domain_from(domains: Seq<DomainM>, key: Seq<char>, from: int) -> Option<int>
    decreases domains.len() - from when 0 <= from
{
    if from >= domains.len() {
        None
    } else if domains[from].key == key {
        Some(from)
    } else {
        find_domain_from(domains, key, from + 1)
    }
}

/// The index of the domain with this key.
pub open spec fn find_domain(domains: Seq<DomainM>, key: Seq<char>) -> Option<int> {
    find_domain_from(domains, key, 0)
}

pub proof fn lemma_find_domain_props(domains: Seq<DomainM>, key: Seq<char>, from: int)
    requires
        0 <= from,
    ensures
        find_domain_from(domains, key, from) matches Some(p) ==> from <= p < domains.len()
            && domains[p].key == key,
        find_domain_from(domains, key, from) is None ==> forall|j: int|
            from <= j < domains.len() ==> (#[trigger] domains[j]).key != key,
    decreases domains.len() - from,
{
    if from < domains.len() && domains[from].key != key {
        lemma_find_domain_props(domains, key, from + 1);
    }
}

pub fn find_domain_idx(con: &Con, key: &String) -> (r: Option<usize>)
    ensures
        match find_domain(con@.domains, key@) {
            Some(p) => r matches Some(q) && q as int == p,
            None => r is None,
        },
{
    let n = con.domains.len();
    let mut i: usize = 0;
    while i < n
        invariant
            i <= n,
            n == con.domains.len(),
            find_domain(con@.domains, key@) == find_domain_from(con@.domains, key@, i as int),
        decreases n - i,
    {
        if con.domains[i].key == *key {
            return Some(i);
        }
        i = i + 1;
    }
    None
}

/// The store after registering a new domain.
pub open spec fn register_model(s: ConM, key: Seq<char>, secret: Seq<char>) -> ConM {
    ConM {
        users: s.users,
        changes: s.changes,
        links: s.links,
        domains: s.domains.push(DomainM { id: s.next_domain_id, key, secret }),
        next_user_id: s.next_user_id,
        next_change_id: s.next_change_id,
        next_domain_id: s.next_domain_id + 1,
    }
}

/// Registers a tenant: inserts the key and secret when the key is new; an
/// already-present key is left untouched, not an error. Registration never
/// touches existing delivery links: a domain registered after a change was
/// appended receives no backfill.
pub fn register(key: &String, secret: &String, con: &mut Con) -> (r: Res<()>)
    requires
        crate::db::wf(old(con)@),
    ensures
        crate::db::wf(final(con)@),
        find_domain(old(con)@.domains, key@) is Some ==> r is Ok && final(con)@ == old(con)@,
        find_domain(old(con)@.domains, key@) is None && old(con)@.next_domain_id < i32::MAX ==> r
            is Ok && final(con)@ == register_model(old(con)@, key@, secret@),
        find_domain(old(con)@.domains, key@) is None && old(con)@.next_domain_id == i32::MAX ==> (
        r matches Err(e) && e.code@ == "storage_err"@) && final(con)@ == old(con)@,
{
    proof {
        lemma_find_domain_props(old(con)@.domains, key@, 0);
    }
    match find_domain_idx(con, key) {
        Some(_) => Ok(()),
        None => {
            if con.next_domain_id == i32::MAX {
                return make("storage_err", "domain id space exhausted");
            }
            let d = DomainTable {
                id: con.next_domain_id,
                key: key.clone(),
                secret: secret.clone(),
            };
            let ghost pre: ConM = con@;
            con.domains.push(d);
            con.next_domain_id = con.next_domain_id + 1;
            proof {
                assert(con@.domains =~= pre.domains.push(
                    DomainM { id: pre.next_domain_id, key: key@, secret: secret@ },
                ));
                assert(con@.users =~= pre.users);
                assert(con@.changes =~= pre.changes);
                assert(con@.links =~= pre.links);
                assert(con@ == register_model(pre, key@, secret@));
                let post = con@;
                assert(crate::db::domains_wf(post)) by {
                    assert(forall|k: int|
                        0 <= k < pre.domains.len() ==> post.domains[k] == #[trigger] pre.domains[k]);
                }
                assert(crate::db::users_wf(post)) by {
                    assert(forall|k: int|
                        0 <= k < post.users.len() ==> post.users[k] == #[trigger] pre.users[k]);
                }
                assert(crate::db::changes_wf(post)) by {
                    assert(forall|k: int|
                        0 <= k < post.changes.len() ==> post.changes[k] == #[trigger] pre.changes[k]);
                }
                assert(crate::db::links_wf(post)) by {
                    assert(forall|k: int|
                        0 <= k < post.links.len() ==> post.links[k] == #[trigger] pre.links[k]);
                }
            }
            Ok(())
        },
    }
}

} // verus!

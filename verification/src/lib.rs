//! A multi-tenant identity provider core: user lifecycle with an
//! append-only change ledger fanned out to registered domains, and a
//! session-token surface with a single active refresh token per user.

use vstd::prelude::*;

pub mod change;
pub mod db;
pub mod domain;
pub mod err;
pub mod password;
pub mod quco;
pub mod rskit;
pub mod ryz;
pub mod sql;
pub mod token;
pub mod user;
pub mod user_change;

use crate::domain::DomainCfg;
use crate::user::{find_active_by_id, find_username, is_archived_name};

verus! {

/// The datastore part of the configuration.
pub struct SqlCfg {
    pub url: String,
    pub is_cleaning_allowed: bool,
}

/// The whole service configuration, built once at startup and passed by
/// reference into each component.
pub struct Apprc {
    pub sql: SqlCfg,
    pub domain: DomainCfg,
}

/// A registration request.
pub struct Reg {
    pub username: String,
    pub password: String,
    pub firstname: Option<String>,
    pub patronym: Option<String>,
    pub surname: Option<String>,
}

/// A user row ready for insertion: the registration with the password
/// replaced by its digest.
pub struct InsertReg {
    pub username: String,
    pub hpassword: String,
    pub firstname: Option<String>,
    pub patronym: Option<String>,
    pub surname: Option<String>,
}

} // verus!

verus! {

/// Logs a user in: the credentials are checked against the stored digest,
/// a fresh refresh token is issued for `now`, and it replaces the user's
/// stored token — all other sessions of that user are discarded. An
/// unknown username is `not_found_err`; a wrong password is `auth_err`.
pub fn login(username: &String, password: &String, now: ryz::time::Time, con: &mut db::Con) -> (r:
    ryz::res::Res<String>)
    requires
        db::wf(old(con)@),
    ensures
        db::wf(final(con)@),
        is_archived_name(username@) ==> (r matches Err(e) && e.code@ == "val_err"@)
            && final(con)@ == old(con)@,
        !is_archived_name(username@) ==> match find_username(old(con)@.users, username@) {
            None => (r matches Err(e) && e.code@ == "not_found_err"@) && final(con)@
                == old(con)@,
            Some(ix) => {
                if !password::digest_matches(password@, old(con)@.users[ix].hpassword) {
                    (r matches Err(e) && e.code@ == "auth_err"@) && final(con)@ == old(con)@
                } else {
                    (r matches Ok(rt) && rt@ == token::token_chars(
                        old(con)@.users[ix].id,
                        now as int,
                        token::rt_secret_spec(),
                    ) && final(con)@ == user::with_users(
                        old(con)@,
                        user::set_rt_users(old(con)@.users, username@, rt@),
                    ))
                }
            },
        },
{
    proof {
        user::lemma_find_username_props(con@.users, username@, 0);
    }
    let (u, hpassword) = match user::get_by_username(username, con) {
        Ok(p) => p,
        Err(e) => {
            return Err(e);
        },
    };
    if !password::check_password(password, &hpassword) {
        return ryz::err::make("auth_err", "incorrect password");
    }
    proof {
        let ix = find_username(con@.users, username@)->0;
        assert(u.id as int == con@.users[ix].id);
        assert(con@.users[ix].id >= 1);
    }
    let rt = match token::issue_rt(u.id, now) {
        Ok(t) => t,
        Err(_) => unreached(),
    };
    match user::set_rt_for_username(username, &rt, con) {
        Ok(_) => Ok(rt),
        Err(_) => unreached(),
    }
}

/// Issues a short-lived access token for a refresh token: the refresh
/// token must verify cryptographically, its user must still exist, and it
/// must still be the stored one — a token superseded by a newer login is
/// rejected with `auth_err`, which is how a login kicks out other
/// sessions. Access tokens are never stored.
pub fn access(rt: &String, now: ryz::time::Time, con: &db::Con) -> (r: ryz::res::Res<String>)
    requires
        db::wf(con@),
    ensures
        ({
            let payload = token::token_payload_of(rt@);
            match payload {
                None => r is Err,
                Some(p) => {
                    if !token::token_sig_ok(rt@, token::rt_secret_spec()) {
                        r is Err
                    } else if p.created + token::RT_DELTA <= now {
                        (r matches Err(e) && e.code@ == "exp_err"@)
                    } else {
                        match find_active_by_id(con@.users, p.user_id as int) {
                            None => (r matches Err(e) && e.code@ == "not_found_err"@),
                            Some(ix) => {
                                if con@.users[ix].rt != Some(rt@) {
                                    (r matches Err(e) && e.code@ == "auth_err"@)
                                } else {
                                    r matches Ok(at) && at@ == token::token_chars(
                                        p.user_id as int,
                                        now as int,
                                        token::at_secret_spec(),
                                    )
                                }
                            },
                        }
                    }
                },
            }
        }),
{
    let claims = match token::verify_rt(rt, now) {
        Ok(p) => p,
        Err(e) => {
            return Err(e);
        },
    };
    let u = match user::get_by_id(claims.user_id, con) {
        Ok(u) => u,
        Err(e) => {
            return Err(e);
        },
    };
    let stored_ok = match &u.rt {
        Some(s) => *s == *rt,
        None => false,
    };
    if !stored_ok {
        return ryz::err::make("auth_err", "no such refresh token for user");
    }
    proof {
        user::lemma_find_active_by_id_props(con@.users, claims.user_id as int, 0);
        assert(claims.user_id >= 0) by {
            let ix = find_active_by_id(con@.users, claims.user_id as int)->0;
            assert(con@.users[ix].id >= 1);
        }
    }
    match token::issue_at(claims.user_id, now) {
        Ok(t) => Ok(t),
        Err(_) => unreached(),
    }
}

} // verus!

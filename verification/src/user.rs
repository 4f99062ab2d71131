//! The user directory.
//!
//! Users are never hard-deleted: removal rewrites the username into the
//! reserved `archived::` namespace, so the row and its id stay resolvable
//! for the change ledger while every ordinary read path excludes it.
//! Every mutation that changes identity appends a change record, with
//! fan-out, atomically with the mutation.

use vstd::prelude::*;
use crate::db::{Con, ConM, Id};
use crate::password::{digest_matches, hash_password};
use crate::quco::{Collection, IdSel, Query};
use crate::ryz::err::{make, Error};
use crate::ryz::res::Res;
use crate::ryz::time::{utc, Time};
use crate::user_change::{append_model, effective_created, ChangeAction, NewUserChange};
use crate::{InsertReg, Reg};

verus! {

/// The view of an optional string.
pub open spec fn opt_view(o: Option<String>) -> Option<Seq<char>> {
    match o {
        Some(s) => Some(s@),
        None => None,
    }
}

/// Clones an optional string.
pub fn clone_opt_string(o: &Option<String>) -> (r: Option<String>)
    ensures
        r == *o,
{
    match o {
        Some(s) => Some(s.clone()),
        None => None,
    }
}

/// The model of a stored user row.
pub struct UserRowM {
    pub id: int,
    pub hpassword: Seq<char>,
    pub username: Seq<char>,
    pub firstname: Option<Seq<char>>,
    pub patronym: Option<Seq<char>>,
    pub surname: Option<Seq<char>>,
    pub rt: Option<Seq<char>>,
}

/// The model of a user message: the row without its credential digest.
pub struct UserM {
    pub id: int,
    pub username: Seq<char>,
    pub firstname: Option<Seq<char>>,
    pub patronym: Option<Seq<char>>,
    pub surname: Option<Seq<char>>,
    pub rt: Option<Seq<char>>,
}

/// A user row as stored, credential digest included.
pub struct UserTable {
    pub id: Id,
    pub hpassword: String,
    pub username: String,
    pub firstname: Option<String>,
    pub patronym: Option<String>,
    pub surname: Option<String>,
    pub rt: Option<String>,
}

impl View for UserTable {
    type V = UserRowM;

    open spec fn view(&self) -> UserRowM {
        UserRowM {
            id: self.id as int,
            hpassword: self.hpassword@,
            username: self.username@,
            firstname: opt_view(self.firstname),
            patronym: opt_view(self.patronym),
            surname: opt_view(self.surname),
            rt: opt_view(self.rt),
        }
    }
}

impl DeepView for UserTable {
    type V = UserRowM;

    open spec fn deep_view(&self) -> UserRowM {
        self.view()
    }
}

/// A user as handed to callers: no credential digest.
#[derive(Debug)]
pub struct User {
    pub id: Id,
    pub username: String,
    pub firstname: Option<String>,
    pub patronym: Option<String>,
    pub surname: Option<String>,
    pub rt: Option<String>,
}

impl View for User {
    type V = UserM;

    open spec fn view(&self) -> UserM {
        UserM {
            id: self.id as int,
            username: self.username@,
            firstname: opt_view(self.firstname),
            patronym: opt_view(self.patronym),
            surname: opt_view(self.surname),
            rt: opt_view(self.rt),
        }
    }
}

impl DeepView for User {
    type V = UserM;

    open spec fn deep_view(&self) -> UserM {
        self.view()
    }
}

impl PartialEq for User {
    fn eq(&self, other: &Self) -> (r: bool) {
        let names_eq = self.username == other.username;
        let first_eq = opt_string_eq(&self.firstname, &other.firstname);
        let patro_eq = opt_string_eq(&self.patronym, &other.patronym);
        let sur_eq = opt_string_eq(&self.surname, &other.surname);
        let rt_eq = opt_string_eq(&self.rt, &other.rt);
        self.id == other.id && names_eq && first_eq && patro_eq && sur_eq && rt_eq
    }
}

impl vstd::std_specs::cmp::PartialEqSpecImpl for User {
    open spec fn obeys_eq_spec() -> bool {
        true
    }

    open spec fn eq_spec(&self, other: &Self) -> bool {
        self@ == other@
    }
}

/// Whether two optional strings hold the same characters.
pub fn opt_string_eq(a: &Option<String>, b: &Option<String>) -> (r: bool)
    ensures
        r == (opt_view(*a) == opt_view(*b)),
{
    match (a, b) {
        (Some(x), Some(y)) => *x == *y,
        (None, None) => true,
        _ => false,
    }
}

/// The message a stored row converts to: the row without its digest.
pub open spec fn user_msg_of(u: UserRowM) -> UserM {
    UserM {
        id: u.id,
        username: u.username,
        firstname: u.firstname,
        patronym: u.patronym,
        surname: u.surname,
        rt: u.rt,
    }
}

impl Collection<User> for UserTable {
    open spec fn msg_wf(&self) -> bool {
        true
    }

    open spec fn msg_spec(&self) -> User {
        User {
            id: self.id,
            username: self.username,
            firstname: self.firstname,
            patronym: self.patronym,
            surname: self.surname,
            rt: self.rt,
        }
    }

    fn to_msg(&self) -> (r: User) {
        User {
            id: self.id,
            username: self.username.clone(),
            firstname: clone_opt_string(&self.firstname),
            patronym: clone_opt_string(&self.patronym),
            surname: clone_opt_string(&self.surname),
            rt: clone_opt_string(&self.rt),
        }
    }
}

/// A typed search over users.
pub struct GetUsers {
    pub sq: Query,
}

// ---------------------------------------------------------------------------
// The archived namespace
// ---------------------------------------------------------------------------

/// The prefix that moves a username out of the addressable namespace.
pub open spec fn archived_prefix() -> Seq<char> {
    "archived::"@
}

/// The archived spelling of a username.
pub open spec fn archived_name(n: Seq<char>) -> Seq<char> {
    archived_prefix() + n
}

/// Whether a username lies in the archived namespace.
pub open spec fn is_archived_name(n: Seq<char>) -> bool {
    n.len() >= archived_prefix().len() && n.subrange(0, archived_prefix().len() as int)
        == archived_prefix()
}

/// Whether this username starts with the archived prefix.
pub fn check_archived_name(n: &String) -> (r: bool)
    ensures
        r == is_archived_name(n@),
{
    proof {
        reveal_strlit("archived::");
    }
    let len = n.as_str().unicode_len();
    if len < 10 {
        return false;
    }
    let head = n.as_str().substring_char(0, 10);
    let owned: String = head.to_owned();
    owned == "archived::".to_owned()
}

} // verus!

verus! {

// ---------------------------------------------------------------------------
// Row lookups
// ---------------------------------------------------------------------------

/// The least index at or after `from` whose row has this username.
pub open spec fn find_username_from(users: Seq<UserRowM>, name: Seq<char>, from: int) -> Option<
    int,
>
    decreases users.len() - from when 0 <= from
{
    if from >= users.len() {
        None
    } else if users[from].username == name {
        Some(from)
    } else {
        find_username_from(users, name, from + 1)
    }
}

/// The index of the row with this username, archived or not.
pub open spec fn find_username(users: Seq<UserRowM>, name: Seq<char>) -> Option<int> {
    find_username_from(users, name, 0)
}

pub proof fn lemma_find_username_props(users: Seq<UserRowM>, name: Seq<char>, from: int)
    requires
        0 <= from,
    ensures
        find_username_from(users, name, from) matches Some(p) ==> from <= p < users.len()
            && users[p].username == name,
        find_username_from(users, name, from) is None ==> forall|j: int|
            from <= j < users.len() ==> (#[trigger] users[j]).username != name,
    decreases users.len() - from,
{
    if from < users.len() && users[from].username != name {
        lemma_find_username_props(users, name, from + 1);
    }
}

pub fn find_username_idx(con: &Con, name: &String) -> (r: Option<usize>)
    ensures
        match find_username(con@.users, name@) {
            Some(p) => r matches Some(q) && q as int == p,
            None => r is None,
        },
{
    let n = con.users.len();
    let mut i: usize = 0;
    while i < n
        invariant
            i <= n,
            n == con.users.len(),
            find_username(con@.users, name@) == find_username_from(con@.users, name@, i as int),
        decreases n - i,
    {
        if con.users[i].username == *name {
            return Some(i);
        }
        i = i + 1;
    }
    None
}

/// The least index at or after `from` of a non-archived row with this id.
pub open spec fn find_active_by_id_from(users: Seq<UserRowM>, id: int, from: int) -> Option<int>
    decreases users.len() - from when 0 <= from
{
    if from >= users.len() {
        None
    } else if users[from].id == id && !is_archived_name(users[from].username) {
        Some(from)
    } else {
        find_active_by_id_from(users, id, from + 1)
    }
}

/// The index of the non-archived row with this id.
pub open spec fn find_active_by_id(users: Seq<UserRowM>, id: int) -> Option<int> {
    find_active_by_id_from(users, id, 0)
}

pub proof fn lemma_find_active_by_id_props(users: Seq<UserRowM>, id: int, from: int)
    requires
        0 <= from,
    ensures
        find_active_by_id_from(users, id, from) matches Some(p) ==> from <= p < users.len()
            && users[p].id == id && !is_archived_name(users[p].username),
        find_active_by_id_from(users, id, from) is None ==> forall|j: int|
            from <= j < users.len() ==> ((#[trigger] users[j]).id != id || is_archived_name(
                users[j].username,
            )),
    decreases users.len() - from,
{
    if from < users.len() && !(users[from].id == id && !is_archived_name(
        users[from].username,
    )) {
        lemma_find_active_by_id_props(users, id, from + 1);
    }
}

fn find_active_by_id_idx(con: &Con, id: Id) -> (r: Option<usize>)
    ensures
        match find_active_by_id(con@.users, id as int) {
            Some(p) => r matches Some(q) && q as int == p,
            None => r is None,
        },
{
    let n = con.users.len();
    let mut i: usize = 0;
    while i < n
        invariant
            i <= n,
            n == con.users.len(),
            find_active_by_id(con@.users, id as int) == find_active_by_id_from(
                con@.users,
                id as int,
                i as int,
            ),
        decreases n - i,
    {
        if con.users[i].id == id && !check_archived_name(&con.users[i].username) {
            return Some(i);
        }
        i = i + 1;
    }
    None
}

/// The least index at or after `from` of a non-archived row holding this
/// refresh token.
pub open spec fn find_active_by_rt_from(users: Seq<UserRowM>, rt: Seq<char>, from: int) -> Option<
    int,
>
    decreases users.len() - from when 0 <= from
{
    if from >= users.len() {
        None
    } else if users[from].rt == Some(rt) && !is_archived_name(users[from].username) {
        Some(from)
    } else {
        find_active_by_rt_from(users, rt, from + 1)
    }
}

/// The index of the non-archived row holding this refresh token.
pub open spec fn find_active_by_rt(users: Seq<UserRowM>, rt: Seq<char>) -> Option<int> {
    find_active_by_rt_from(users, rt, 0)
}

pub proof fn lemma_find_active_by_rt_props(users: Seq<UserRowM>, rt: Seq<char>, from: int)
    requires
        0 <= from,
    ensures
        find_active_by_rt_from(users, rt, from) matches Some(p) ==> from <= p < users.len()
            && users[p].rt == Some(rt) && !is_archived_name(users[p].username),
        find_active_by_rt_from(users, rt, from) is None ==> forall|j: int|
            from <= j < users.len() ==> ((#[trigger] users[j]).rt != Some(rt)
                || is_archived_name(users[j].username)),
    decreases users.len() - from,
{
    if from < users.len() && !(users[from].rt == Some(rt) && !is_archived_name(
        users[from].username,
    )) {
        lemma_find_active_by_rt_props(users, rt, from + 1);
    }
}

fn rt_matches(row_rt: &Option<String>, rt: &String) -> (r: bool)
    ensures
        r == (opt_view(*row_rt) == Some(rt@)),
{
    match row_rt {
        Some(s) => *s == *rt,
        None => false,
    }
}

fn find_active_by_rt_idx(con: &Con, rt: &String) -> (r: Option<usize>)
    ensures
        match find_active_by_rt(con@.users, rt@) {
            Some(p) => r matches Some(q) && q as int == p,
            None => r is None,
        },
{
    let n = con.users.len();
    let mut i: usize = 0;
    while i < n
        invariant
            i <= n,
            n == con.users.len(),
            find_active_by_rt(con@.users, rt@) == find_active_by_rt_from(
                con@.users,
                rt@,
                i as int,
            ),
        decreases n - i,
    {
        if rt_matches(&con.users[i].rt, rt) && !check_archived_name(&con.users[i].username) {
            return Some(i);
        }
        i = i + 1;
    }
    None
}

} // verus!

verus! {

// ---------------------------------------------------------------------------
// Read paths
// ---------------------------------------------------------------------------

/// The non-archived user with this id; archived users are invisible here.
pub fn get_by_id(id: i32, con: &Con) -> (r: Res<User>)
    ensures
        match find_active_by_id(con@.users, id as int) {
            Some(ix) => r matches Ok(u) && u@ == user_msg_of(con@.users[ix]),
            None => r matches Err(e) && e.code@ == "not_found_err"@,
        },
{
    proof {
        lemma_find_active_by_id_props(con@.users, id as int, 0);
    }
    match find_active_by_id_idx(con, id) {
        Some(ix) => {
            let u = con.users[ix].to_msg();
            proof {
                assert(u@ == user_msg_of(con@.users[ix as int]));
            }
            Ok(u)
        },
        None => make("not_found_err", "no such user"),
    }
}

/// The user with this username, along with the stored credential digest.
/// Archived spellings are not addressable.
pub fn get_by_username(username: &String, con: &Con) -> (r: Res<(User, String)>)
    ensures
        is_archived_name(username@) ==> (r matches Err(e) && e.code@ == "val_err"@),
        !is_archived_name(username@) ==> match find_username(con@.users, username@) {
            Some(ix) => r matches Ok(p) && p.0@ == user_msg_of(con@.users[ix]) && p.1@
                == con@.users[ix].hpassword,
            None => r matches Err(e) && e.code@ == "not_found_err"@,
        },
{
    if check_archived_name(username) {
        return make("val_err", "cannot accept archived usernames");
    }
    proof {
        lemma_find_username_props(con@.users, username@, 0);
    }
    match find_username_idx(con, username) {
        Some(ix) => {
            let u = con.users[ix].to_msg();
            let hp = con.users[ix].hpassword.clone();
            proof {
                assert(u@ == user_msg_of(con@.users[ix as int]));
            }
            Ok((u, hp))
        },
        None => make("not_found_err", "no such user"),
    }
}

/// The non-archived user holding this refresh token, with the stored
/// digest. A token whose user was archived no longer resolves.
pub fn get_by_rt(rt: &String, con: &Con) -> (r: Res<(User, String)>)
    ensures
        match find_active_by_rt(con@.users, rt@) {
            Some(ix) => r matches Ok(p) && p.0@ == user_msg_of(con@.users[ix]) && p.1@
                == con@.users[ix].hpassword,
            None => r matches Err(e) && e.code@ == "not_found_err"@,
        },
{
    proof {
        lemma_find_active_by_rt_props(con@.users, rt@, 0);
    }
    match find_active_by_rt_idx(con, rt) {
        Some(ix) => {
            let u = con.users[ix].to_msg();
            let hp = con.users[ix].hpassword.clone();
            proof {
                assert(u@ == user_msg_of(con@.users[ix as int]));
            }
            Ok((u, hp))
        },
        None => make("not_found_err", "no such refresh token"),
    }
}

/// The ids of the non-archived users, in storage order.
pub open spec fn active_ids(users: Seq<UserRowM>) -> Seq<int>
    decreases users.len(),
{
    if users.len() == 0 {
        Seq::empty()
    } else if !is_archived_name(users.last().username) {
        active_ids(users.drop_last()).push(users.last().id)
    } else {
        active_ids(users.drop_last())
    }
}

/// The ids of every non-archived user, in storage order.
pub fn get_many_as_ids(con: &Con) -> (r: Res<Vec<Id>>)
    ensures
        r matches Ok(v) && v@.map_values(|x: Id| x as int) == active_ids(con@.users),
{
    let mut out: Vec<Id> = Vec::new();
    let n = con.users.len();
    let mut i: usize = 0;
    while i < n
        invariant
            i <= n,
            n == con.users.len(),
            out@.map_values(|x: Id| x as int) == active_ids(con@.users.take(i as int)),
        decreases n - i,
    {
        proof {
            assert(con@.users.take(i + 1).drop_last() =~= con@.users.take(i as int));
            assert(con@.users.take(i + 1).last() == con@.users[i as int]);
        }
        if !check_archived_name(&con.users[i].username) {
            out.push(con.users[i].id);
        }
        proof {
            assert(out@.map_values(|x: Id| x as int) =~= active_ids(con@.users.take(i + 1)));
        }
        i = i + 1;
    }
    proof {
        assert(con@.users.take(n as int) =~= con@.users);
    }
    Ok(out)
}

// ---------------------------------------------------------------------------
// Searching
// ---------------------------------------------------------------------------

/// Whether a row's id passes the id part of a search.
pub open spec fn id_sel_matches(sel: &Option<IdSel>, id: int) -> bool {
    match sel {
        None => true,
        Some(IdSel::One(v)) => id == v as int,
        Some(IdSel::Within(vs)) => exists|k: int| 0 <= k < vs@.len() && vs@[k] as int == id,
    }
}

/// Whether a row passes every present part of a search.
pub open spec fn row_matches(u: UserRowM, sq: &Query) -> bool {
    &&& id_sel_matches(&sq.id, u.id)
    &&& match sq.username {
        Some(n) => u.username == n@,
        None => true,
    }
    &&& match sq.firstname {
        Some(n) => u.firstname == Some(n@),
        None => true,
    }
}

/// The messages of the non-archived rows a search matches, in storage
/// order: removed users are excluded from this read path like every
/// other.
pub open spec fn matching_users(users: Seq<UserRowM>, sq: &Query) -> Seq<UserM>
    decreases users.len(),
{
    if users.len() == 0 {
        Seq::empty()
    } else if row_matches(users.last(), sq) && !is_archived_name(users.last().username) {
        matching_users(users.drop_last(), sq).push(user_msg_of(users.last()))
    } else {
        matching_users(users.drop_last(), sq)
    }
}

fn ids_contain(vs: &Vec<Id>, id: Id) -> (r: bool)
    ensures
        r == (exists|k: int| 0 <= k < vs@.len() && vs@[k] as int == id as int),
{
    let n = vs.len();
    let mut i: usize = 0;
    while i < n
        invariant
            i <= n,
            n == vs.len(),
            forall|k: int| 0 <= k < i ==> vs@[k] as int != id as int,
        decreases n - i,
    {
        if vs[i] == id {
            assert(vs@[i as int] as int == id as int);
            return true;
        }
        i = i + 1;
    }
    false
}

fn row_matches_exec(u: &UserTable, sq: &Query) -> (r: bool)
    ensures
        r == row_matches(u@, sq),
{
    let id_ok = match &sq.id {
        None => true,
        Some(IdSel::One(v)) => u.id == *v,
        Some(IdSel::Within(vs)) => ids_contain(vs, u.id),
    };
    let name_ok = match &sq.username {
        Some(n) => u.username == *n,
        None => true,
    };
    let first_ok = match &sq.firstname {
        Some(n) => match &u.firstname {
            Some(f) => *f == *n,
            None => false,
        },
        None => true,
    };
    id_ok && name_ok && first_ok
}

/// Every non-archived user a search matches, in storage order.
pub fn get_many(sq: Query, con: &Con) -> (r: Res<Vec<User>>)
    ensures
        r matches Ok(v) && v.deep_view() == matching_users(con@.users, &sq),
{
    let mut out: Vec<User> = Vec::new();
    let n = con.users.len();
    let mut i: usize = 0;
    while i < n
        invariant
            i <= n,
            n == con.users.len(),
            out.deep_view() == matching_users(con@.users.take(i as int), &sq),
        decreases n - i,
    {
        proof {
            assert(con@.users.take(i + 1).drop_last() =~= con@.users.take(i as int));
            assert(con@.users.take(i + 1).last() == con@.users[i as int]);
        }
        if row_matches_exec(&con.users[i], &sq) && !check_archived_name(&con.users[i].username) {
            let msg = con.users[i].to_msg();
            out.push(msg);
            proof {
                assert(msg@ == user_msg_of(con@.users[i as int]));
                assert(out.deep_view() =~= matching_users(con@.users.take(i + 1), &sq));
            }
        } else {
            proof {
                assert(out.deep_view() =~= matching_users(con@.users.take(i + 1), &sq));
            }
        }
        i = i + 1;
    }
    proof {
        assert(con@.users.take(n as int) =~= con@.users);
    }
    Ok(out)
}

} // verus!

verus! {

// ---------------------------------------------------------------------------
// Session-token storage
// ---------------------------------------------------------------------------

/// The row with its refresh token replaced.
pub open spec fn with_rt(u: UserRowM, rt: Option<Seq<char>>) -> UserRowM {
    UserRowM {
        id: u.id,
        hpassword: u.hpassword,
        username: u.username,
        firstname: u.firstname,
        patronym: u.patronym,
        surname: u.surname,
        rt,
    }
}

/// The users after binding this refresh token to the named user: any
/// previous token of that user is overwritten; everyone else is untouched.
pub open spec fn set_rt_users(users: Seq<UserRowM>, name: Seq<char>, rt: Seq<char>) -> Seq<
    UserRowM,
> {
    Seq::new(
        users.len(),
        |i: int|
            if users[i].username == name {
                with_rt(users[i], Some(rt))
            } else {
                users[i]
            },
    )
}

/// The users after clearing this refresh token wherever it is stored,
/// archived rows included; clearing an unknown token changes nothing.
pub open spec fn clear_rt_users(users: Seq<UserRowM>, rt: Seq<char>) -> Seq<UserRowM> {
    Seq::new(
        users.len(),
        |i: int|
            if users[i].rt == Some(rt) {
                with_rt(users[i], None)
            } else {
                users[i]
            },
    )
}

/// The store with its users replaced.
pub open spec fn with_users(s: ConM, users: Seq<UserRowM>) -> ConM {
    ConM {
        users,
        changes: s.changes,
        links: s.links,
        domains: s.domains,
        next_user_id: s.next_user_id,
        next_change_id: s.next_change_id,
        next_domain_id: s.next_domain_id,
    }
}

/// Rebuilds a row with a new refresh token.
fn row_with_rt(u: &UserTable, rt: Option<String>) -> (r: UserTable)
    ensures
        r@ == with_rt(u@, opt_view(rt)),
{
    UserTable {
        id: u.id,
        hpassword: u.hpassword.clone(),
        username: u.username.clone(),
        firstname: clone_opt_string(&u.firstname),
        patronym: clone_opt_string(&u.patronym),
        surname: clone_opt_string(&u.surname),
        rt,
    }
}

/// Ends the session bound to this refresh token: the token is cleared
/// wherever it is stored (archived rows included). Idempotent: clearing an
/// unknown or already-cleared token is a no-op, not an error.
pub fn del_rt(rt: &String, con: &mut Con) -> (r: Res<()>)
    requires
        crate::db::wf(old(con)@),
    ensures
        crate::db::wf(final(con)@),
        r is Ok,
        final(con)@ == with_users(old(con)@, clear_rt_users(old(con)@.users, rt@)),
{
    let ghost pre: ConM = con@;
    let n = con.users.len();
    let mut i: usize = 0;
    while i < n
        invariant
            i <= n,
            n == con.users.len(),
            con@.changes == pre.changes,
            con@.links == pre.links,
            con@.domains == pre.domains,
            con@.next_user_id == pre.next_user_id,
            con@.next_change_id == pre.next_change_id,
            con@.next_domain_id == pre.next_domain_id,
            con@.users.len() == pre.users.len(),
            forall|k: int|
                0 <= k < i ==> con@.users[k] == clear_rt_users(pre.users, rt@)[k],
            forall|k: int| i <= k < n ==> con@.users[k] == #[trigger] pre.users[k],
        decreases n - i,
    {
        if rt_matches(&con.users[i].rt, rt) {
            let row = row_with_rt(&con.users[i], None);
            let ghost before = con@.users;
            let ghost rowv = row@;
            con.users[i] = row;
            proof {
                assert(forall|k: int|
                    #![trigger con@.users[k]]
                    0 <= k < n && k != i ==> con@.users[k] == before[k]);
                assert(con@.users[i as int] == rowv);
            }
        }
        proof {
            assert(con@.users[i as int] == clear_rt_users(pre.users, rt@)[i as int]);
        }
        i = i + 1;
    }
    proof {
        assert(con@.users =~= clear_rt_users(pre.users, rt@));
        assert(con@ == with_users(pre, clear_rt_users(pre.users, rt@)));
        let post = con@;
        assert(forall|k: int|
            0 <= k < post.users.len() ==> (#[trigger] post.users[k]).username
                == pre.users[k].username && post.users[k].id == pre.users[k].id);
        assert(crate::db::users_wf(post));
        assert(crate::db::changes_wf(post)) by {
            assert(forall|k: int|
                0 <= k < post.changes.len() ==> post.changes[k] == #[trigger] pre.changes[k]);
        }
        assert(crate::db::links_wf(post)) by {
            assert(forall|k: int|
                0 <= k < post.links.len() ==> post.links[k] == #[trigger] pre.links[k]);
        }
        assert(crate::db::domains_wf(post)) by {
            assert(forall|k: int|
                0 <= k < post.domains.len() ==> post.domains[k] == #[trigger] pre.domains[k]);
        }
    }
    Ok(())
}

/// Starts (or replaces) the session of the named user: the refresh token
/// is stored on that user's row, overwriting any previous one — at most
/// one live refresh token per user. Naming an unknown user changes
/// nothing and is not an error.
pub fn set_rt_for_username(username: &String, rt: &String, con: &mut Con) -> (r: Res<()>)
    requires
        crate::db::wf(old(con)@),
    ensures
        crate::db::wf(final(con)@),
        is_archived_name(username@) ==> (r matches Err(e) && e.code@ == "val_err"@)
            && final(con)@ == old(con)@,
        !is_archived_name(username@) ==> r is Ok && final(con)@ == with_users(
            old(con)@,
            set_rt_users(old(con)@.users, username@, rt@),
        ),
{
    if check_archived_name(username) {
        return make("val_err", "cannot accept archived usernames");
    }
    let ghost pre: ConM = con@;
    let n = con.users.len();
    let mut i: usize = 0;
    while i < n
        invariant
            i <= n,
            n == con.users.len(),
            con@.changes == pre.changes,
            con@.links == pre.links,
            con@.domains == pre.domains,
            con@.next_user_id == pre.next_user_id,
            con@.next_change_id == pre.next_change_id,
            con@.next_domain_id == pre.next_domain_id,
            con@.users.len() == pre.users.len(),
            forall|k: int|
                0 <= k < i ==> con@.users[k] == set_rt_users(pre.users, username@, rt@)[k],
            forall|k: int| i <= k < n ==> con@.users[k] == #[trigger] pre.users[k],
        decreases n - i,
    {
        if con.users[i].username == *username {
            let row = row_with_rt(&con.users[i], Some(rt.clone()));
            let ghost before = con@.users;
            let ghost rowv = row@;
            con.users[i] = row;
            proof {
                assert(forall|k: int|
                    #![trigger con@.users[k]]
                    0 <= k < n && k != i ==> con@.users[k] == before[k]);
                assert(con@.users[i as int] == rowv);
            }
        }
        proof {
            assert(con@.users[i as int] == set_rt_users(pre.users, username@, rt@)[i as int]);
        }
        i = i + 1;
    }
    proof {
        assert(con@.users =~= set_rt_users(pre.users, username@, rt@));
        assert(con@ == with_users(pre, set_rt_users(pre.users, username@, rt@)));
        let post = con@;
        assert(forall|k: int|
            0 <= k < post.users.len() ==> (#[trigger] post.users[k]).username
                == pre.users[k].username && post.users[k].id == pre.users[k].id);
        assert(crate::db::users_wf(post));
        assert(crate::db::changes_wf(post)) by {
            assert(forall|k: int|
                0 <= k < post.changes.len() ==> post.changes[k] == #[trigger] pre.changes[k]);
        }
        assert(crate::db::links_wf(post)) by {
            assert(forall|k: int|
                0 <= k < post.links.len() ==> post.links[k] == #[trigger] pre.links[k]);
        }
        assert(crate::db::domains_wf(post)) by {
            assert(forall|k: int|
                0 <= k < post.domains.len() ==> post.domains[k] == #[trigger] pre.domains[k]);
        }
    }
    Ok(())
}

} // verus!

verus! {

// ---------------------------------------------------------------------------
// The archived namespace: facts
// ---------------------------------------------------------------------------

pub proof fn lemma_archived_facts(n: Seq<char>)
    ensures
        is_archived_name(archived_name(n)),
        archived_name(n).skip(archived_prefix().len() as int) == n,
        archived_name(n).len() == archived_prefix().len() + n.len(),
{
    assert(archived_name(n).subrange(0, archived_prefix().len() as int) =~= archived_prefix());
    assert(archived_name(n).skip(archived_prefix().len() as int) =~= n);
}

pub proof fn lemma_archived_name_injective(a: Seq<char>, b: Seq<char>)
    requires
        archived_name(a) == archived_name(b),
    ensures
        a == b,
{
    lemma_archived_facts(a);
    lemma_archived_facts(b);
}

/// A name outside the archived namespace is never the archived spelling of
/// anything.
pub proof fn lemma_unprefixed_ne_archived(n: Seq<char>, m: Seq<char>)
    requires
        !is_archived_name(n),
    ensures
        n != archived_name(m),
{
    if n == archived_name(m) {
        lemma_archived_facts(m);
    }
}

// ---------------------------------------------------------------------------
// Registration
// ---------------------------------------------------------------------------

/// The row a registration inserts: the next id, the given digest, no
/// session.
pub open spec fn reg_row(s: ConM, reg: &Reg, digest: Seq<char>) -> UserRowM {
    UserRowM {
        id: s.next_user_id,
        hpassword: digest,
        username: reg.username@,
        firstname: opt_view(reg.firstname),
        patronym: opt_view(reg.patronym),
        surname: opt_view(reg.surname),
        rt: None,
    }
}

/// The store with one user row inserted under the next id.
pub open spec fn insert_user_model(s: ConM, row: UserRowM) -> ConM {
    ConM {
        users: s.users.push(row),
        changes: s.changes,
        links: s.links,
        domains: s.domains,
        next_user_id: s.next_user_id + 1,
        next_change_id: s.next_change_id,
        next_domain_id: s.next_domain_id,
    }
}

/// Registers a user whose password is already hashed. The username must be
/// outside the archived namespace and free — a name whose archived
/// spelling is taken is also refused, so archival can never collide.
/// On success the row is inserted and a `Created` change is appended and
/// fanned out, atomically: a user never exists without its audit record.
pub fn new_hashed(reg: &Reg, hpassword: &String, created: Time, con: &mut Con) -> (r: Res<User>)
    requires
        crate::db::wf(old(con)@),
    ensures
        crate::db::wf(final(con)@),
        is_archived_name(reg.username@) ==> (r matches Err(e) && e.code@ == "val_err"@)
            && final(con)@ == old(con)@,
        !is_archived_name(reg.username@) && (find_username(old(con)@.users, reg.username@)
            is Some || find_username(old(con)@.users, archived_name(reg.username@)) is Some)
            ==> (r matches Err(e) && e.code@ == "conflict_err"@) && final(con)@ == old(con)@,
        !is_archived_name(reg.username@) && find_username(old(con)@.users, reg.username@)
            is None && find_username(old(con)@.users, archived_name(reg.username@)) is None && (
        old(con)@.next_user_id == i32::MAX || old(con)@.next_change_id == i32::MAX) ==> (r matches
            Err(e) && e.code@ == "storage_err"@) && final(con)@ == old(con)@,
        !is_archived_name(reg.username@) && find_username(old(con)@.users, reg.username@)
            is None && find_username(old(con)@.users, archived_name(reg.username@)) is None && old(
            con,
        )@.next_user_id < i32::MAX && old(con)@.next_change_id < i32::MAX ==> (r matches Ok(u)
            && u@ == user_msg_of(reg_row(old(con)@, reg, hpassword@)) && final(con)@
            == append_model(
            insert_user_model(old(con)@, reg_row(old(con)@, reg, hpassword@)),
            ChangeAction::New,
            old(con)@.next_user_id,
            effective_created(old(con)@, created as int),
        )),
{
    if check_archived_name(&reg.username) {
        return make("val_err", "cannot accept archived usernames");
    }
    proof {
        lemma_find_username_props(con@.users, reg.username@, 0);
    }
    if find_username_idx(con, &reg.username).is_some() {
        return make("conflict_err", "username already taken");
    }
    let mut archived: String = "archived::".to_owned();
    archived.append(reg.username.as_str());
    proof {
        assert(archived@ == archived_name(reg.username@));
        lemma_find_username_props(con@.users, archived@, 0);
    }
    if find_username_idx(con, &archived).is_some() {
        return make("conflict_err", "username already taken");
    }
    if con.next_user_id == i32::MAX || con.next_change_id == i32::MAX {
        return make("storage_err", "id space exhausted");
    }
    let uid = con.next_user_id;
    let insert = InsertReg {
        username: reg.username.clone(),
        hpassword: hpassword.clone(),
        firstname: clone_opt_string(&reg.firstname),
        patronym: clone_opt_string(&reg.patronym),
        surname: clone_opt_string(&reg.surname),
    };
    let row = UserTable {
        id: uid,
        hpassword: insert.hpassword,
        username: insert.username,
        firstname: insert.firstname,
        patronym: insert.patronym,
        surname: insert.surname,
        rt: None,
    };
    let ghost pre: ConM = con@;
    con.users.push(row);
    con.next_user_id = uid + 1;
    proof {
        assert(con@.users =~= pre.users.push(reg_row(pre, reg, hpassword@)));
        assert(con@.changes =~= pre.changes);
        assert(con@.links =~= pre.links);
        assert(con@.domains =~= pre.domains);
        assert(con@ == insert_user_model(pre, reg_row(pre, reg, hpassword@)));
        let mid = con@;
        assert(crate::db::users_wf(mid)) by {
            assert(forall|k: int|
                0 <= k < pre.users.len() ==> mid.users[k] == #[trigger] pre.users[k]);
            assert(mid.users[mid.users.len() - 1] == reg_row(pre, reg, hpassword@));
            // The new name is neither a stored name nor in the archived
            // namespace, and no stored name is its archived spelling.
            assert(forall|j: int|
                0 <= j < pre.users.len() ==> (#[trigger] pre.users[j]).username
                    != reg.username@);
            assert(forall|j: int|
                0 <= j < pre.users.len() ==> (#[trigger] pre.users[j]).username
                    != archived_name(reg.username@));
            assert(forall|j: int|
                0 <= j < mid.users.len() ==> reg.username@ != archived_name(
                    (#[trigger] mid.users[j]).username,
                )) by {
                assert(forall|j: int|
                    0 <= j < mid.users.len() ==> !is_archived_name(reg.username@)
                        ==> reg.username@ != archived_name((#[trigger] mid.users[j]).username))
                    by {
                    assert forall|j: int| 0 <= j < mid.users.len() implies reg.username@
                        != archived_name((#[trigger] mid.users[j]).username) by {
                        lemma_unprefixed_ne_archived(
                            reg.username@,
                            mid.users[j].username,
                        );
                    }
                }
            }
        }
        assert(crate::db::changes_wf(mid)) by {
            assert(forall|k: int|
                0 <= k < mid.changes.len() ==> mid.changes[k] == #[trigger] pre.changes[k]);
        }
        assert(crate::db::links_wf(mid)) by {
            assert(forall|k: int|
                0 <= k < mid.links.len() ==> mid.links[k] == #[trigger] pre.links[k]);
        }
        assert(crate::db::domains_wf(mid)) by {
            assert(forall|k: int|
                0 <= k < mid.domains.len() ==> mid.domains[k] == #[trigger] pre.domains[k]);
        }
    }
    let ghost mid: ConM = con@;
    let ch = crate::user_change::new_at(
        &NewUserChange { user_id: uid, action: ChangeAction::New },
        created,
        con,
    );
    proof {
        assert(effective_created(mid, created as int) == effective_created(
            pre,
            created as int,
        ));
    }
    match ch {
        Ok(_) => {
            let u = User {
                id: uid,
                username: reg.username.clone(),
                firstname: clone_opt_string(&reg.firstname),
                patronym: clone_opt_string(&reg.patronym),
                surname: clone_opt_string(&reg.surname),
                rt: None,
            };
            proof {
                assert(u@ == user_msg_of(reg_row(pre, reg, hpassword@)));
            }
            Ok(u)
        },
        Err(_) => unreached(),
    }
}

/// Registers a user: the password is hashed by the digest service, then
/// the row and its `Created` change are written atomically. A name in the
/// archived namespace is `val_err`; a taken name (archived spelling
/// included), and nothing else, is `conflict_err`; with a free name and
/// free id space the only failure left is the digest service's own,
/// surfaced as `hash_err` — and then nothing is written.
pub fn new(reg: &Reg, con: &mut Con) -> (r: Res<User>)
    requires
        crate::db::wf(old(con)@),
    ensures
        crate::db::wf(final(con)@),
        r is Err ==> final(con)@ == old(con)@,
        is_archived_name(reg.username@) ==> (r matches Err(e) && e.code@ == "val_err"@),
        !is_archived_name(reg.username@) && (find_username(old(con)@.users, reg.username@)
            is Some || find_username(old(con)@.users, archived_name(reg.username@)) is Some)
            ==> (r matches Err(e) && e.code@ == "conflict_err"@),
        (r matches Err(e) && e.code@ == "conflict_err"@) ==> !is_archived_name(reg.username@)
            && (find_username(old(con)@.users, reg.username@) is Some || find_username(
            old(con)@.users,
            archived_name(reg.username@),
        ) is Some),
        !is_archived_name(reg.username@) && find_username(old(con)@.users, reg.username@)
            is None && find_username(old(con)@.users, archived_name(reg.username@)) is None
            && old(con)@.next_user_id < i32::MAX && old(con)@.next_change_id < i32::MAX ==> (
        r matches Err(e) ==> e.code@ == "hash_err"@),
        r matches Ok(u) ==> exists|digest: Seq<char>, eff: int|
            {
                &&& digest_matches(reg.password@, digest)
                &&& u@ == user_msg_of(reg_row(old(con)@, reg, digest))
                &&& 0 <= eff <= u64::MAX
                &&& final(con)@ == append_model(
                    insert_user_model(old(con)@, reg_row(old(con)@, reg, digest)),
                    ChangeAction::New,
                    old(con)@.next_user_id,
                    eff,
                )
            },
{
    proof {
        reveal_strlit("val_err");
        reveal_strlit("conflict_err");
        reveal_strlit("hash_err");
        reveal_strlit("storage_err");
        assert("val_err"@.len() == 7 && "conflict_err"@.len() == 12 && "hash_err"@.len() == 8
            && "storage_err"@.len() == 11);
        assert("val_err"@ != "conflict_err"@);
        assert("hash_err"@ != "conflict_err"@);
        assert("storage_err"@ != "conflict_err"@);
    }
    if check_archived_name(&reg.username) {
        return make("val_err", "cannot accept archived usernames");
    }
    proof {
        lemma_find_username_props(con@.users, reg.username@, 0);
    }
    if find_username_idx(con, &reg.username).is_some() {
        return make("conflict_err", "username already taken");
    }
    let mut archived: String = "archived::".to_owned();
    archived.append(reg.username.as_str());
    proof {
        assert(archived@ == archived_name(reg.username@));
        lemma_find_username_props(con@.users, archived@, 0);
    }
    if find_username_idx(con, &archived).is_some() {
        return make("conflict_err", "username already taken");
    }
    let hpassword = match hash_password(&reg.password) {
        Ok(h) => h,
        Err(e) => {
            return Err(e);
        },
    };
    let now = utc();
    let r = new_hashed(reg, &hpassword, now, con);
    proof {
        if r is Ok {
            let digest = hpassword@;
            let eff = effective_created(old(con)@, now as int);
            assert({
                &&& digest_matches(reg.password@, digest)
                &&& r->Ok_0@ == user_msg_of(reg_row(old(con)@, reg, digest))
                &&& 0 <= eff <= u64::MAX
                &&& con@ == append_model(
                    insert_user_model(old(con)@, reg_row(old(con)@, reg, digest)),
                    ChangeAction::New,
                    old(con)@.next_user_id,
                    eff,
                )
            });
        }
    }
    r
}

} // verus!

verus! {

// ---------------------------------------------------------------------------
// Removal (archival)
// ---------------------------------------------------------------------------

/// A row with its username moved into the archived namespace; everything
/// else, the id included, is kept so that change records stay resolvable.
pub open spec fn archived_row(u: UserRowM) -> UserRowM {
    UserRowM {
        id: u.id,
        hpassword: u.hpassword,
        username: archived_name(u.username),
        firstname: u.firstname,
        patronym: u.patronym,
        surname: u.surname,
        rt: u.rt,
    }
}

/// The store after archiving the user at `ix`.
pub open spec fn archive_model(s: ConM, ix: int) -> ConM {
    with_users(s, s.users.update(ix, archived_row(s.users[ix])))
}

/// A selector that cannot name exactly one removable user.
pub open spec fn bad_del_selector(sq: &Query) -> bool {
    ||| sq.id is None && sq.username is None
    ||| sq.id matches Some(IdSel::Within(_))
    ||| (sq.username matches Some(n) && is_archived_name(n@))
}

/// The non-archived user a delete selector resolves to: by id, by
/// username, or by both in conjunction.
pub open spec fn del_target(s: ConM, sq: &Query) -> Option<int> {
    match sq.id {
        Some(IdSel::One(v)) => match find_active_by_id(s.users, v as int) {
            Some(ix) => match sq.username {
                Some(n) => if s.users[ix].username == n@ {
                    Some(ix)
                } else {
                    None
                },
                None => Some(ix),
            },
            None => None,
        },
        Some(IdSel::Within(_)) => None,
        None => match sq.username {
            Some(n) => find_username(s.users, n@),
            None => None,
        },
    }
}

/// Removes a user: the row is archived — its username is rewritten into
/// the reserved namespace, its id and fields kept — and a `Removed` change
/// is appended and fanned out, atomically. No change record is ever
/// deleted or mutated by removal.
#[verifier::rlimit(50)]
pub fn del(sq: &Query, con: &mut Con) -> (r: Res<()>)
    requires
        crate::db::wf(old(con)@),
    ensures
        crate::db::wf(final(con)@),
        bad_del_selector(sq) ==> (r matches Err(e) && e.code@ == "val_err"@) && final(con)@
            == old(con)@,
        !bad_del_selector(sq) && del_target(old(con)@, sq) is None ==> (r matches Err(e)
            && e.code@ == "not_found_err"@) && final(con)@ == old(con)@,
        !bad_del_selector(sq) && del_target(old(con)@, sq) is Some && old(con)@.next_change_id
            == i32::MAX ==> (r matches Err(e) && e.code@ == "storage_err"@) && final(con)@ == old(
            con,
        )@,
        !bad_del_selector(sq) && del_target(old(con)@, sq) is Some && old(con)@.next_change_id
            < i32::MAX ==> r is Ok && (exists|eff: int|
            {
                &&& 0 <= eff <= u64::MAX
                &&& final(con)@ == append_model(
                    archive_model(old(con)@, del_target(old(con)@, sq)->0),
                    ChangeAction::Del,
                    old(con)@.users[del_target(old(con)@, sq)->0].id,
                    eff,
                )
            }),
{
    match &sq.id {
        Some(IdSel::Within(_)) => {
            return make("val_err", "id selector must be a single id");
        },
        _ => {},
    }
    match &sq.username {
        Some(n) => {
            if check_archived_name(n) {
                return make("val_err", "cannot accept archived usernames");
            }
        },
        None => {},
    }
    if sq.id.is_none() && sq.username.is_none() {
        return make("val_err", "specify either id or username");
    }
    let ix: usize = match &sq.id {
        Some(IdSel::One(v)) => {
            proof {
                lemma_find_active_by_id_props(con@.users, *v as int, 0);
            }
            match find_active_by_id_idx(con, *v) {
                Some(ix) => match &sq.username {
                    Some(n) => {
                        if con.users[ix].username == *n {
                            ix
                        } else {
                            return make("not_found_err", "no matching user");
                        }
                    },
                    None => ix,
                },
                None => {
                    return make("not_found_err", "no matching user");
                },
            }
        },
        Some(IdSel::Within(_)) => unreached(),
        None => match &sq.username {
            Some(n) => {
                proof {
                    lemma_find_username_props(con@.users, n@, 0);
                }
                match find_username_idx(con, n) {
                    Some(ix) => ix,
                    None => {
                        return make("not_found_err", "no matching user");
                    },
                }
            },
            None => unreached(),
        },
    };
    proof {
        assert(del_target(con@, sq) == Some(ix as int));
        assert(!is_archived_name(con@.users[ix as int].username));
    }
    if con.next_change_id == i32::MAX {
        return make("storage_err", "change id space exhausted");
    }
    let uid = con.users[ix].id;
    let mut an: String = "archived::".to_owned();
    an.append(con.users[ix].username.as_str());
    let row = UserTable {
        id: uid,
        hpassword: con.users[ix].hpassword.clone(),
        username: an,
        firstname: clone_opt_string(&con.users[ix].firstname),
        patronym: clone_opt_string(&con.users[ix].patronym),
        surname: clone_opt_string(&con.users[ix].surname),
        rt: clone_opt_string(&con.users[ix].rt),
    };
    let ghost pre: ConM = con@;
    con.users[ix] = row;
    proof {
        assert(con@.users =~= pre.users.update(ix as int, archived_row(pre.users[ix as int])));
        assert(con@ == archive_model(pre, ix as int));
        let mid = con@;
        let x = pre.users[ix as int].username;
        let a = archived_name(x);
        lemma_archived_facts(x);
        lemma_archived_facts(a);
        assert(crate::db::users_wf(mid)) by {
            assert(forall|k: int|
                0 <= k < mid.users.len() && k != ix ==> mid.users[k] == #[trigger] pre.users[k]);
            assert(mid.users[ix as int] == archived_row(pre.users[ix as int]));
            assert(mid.users[ix as int].username == a);
            // The archived spelling collides with no other stored name.
            assert(forall|j: int|
                0 <= j < pre.users.len() && j != ix ==> (#[trigger] pre.users[j]).username
                    != a);
            // Nor is it the archived spelling of any stored name.
            assert forall|j: int|
                0 <= j < mid.users.len() implies a != archived_name(
                (#[trigger] mid.users[j]).username,
            ) by {
                if j == ix as int {
                    assert(archived_name(a).len() == archived_prefix().len() + a.len());
                } else {
                    if a == archived_name(pre.users[j].username) {
                        lemma_archived_name_injective(x, pre.users[j].username);
                    }
                }
            }
            // And no stored name is the archived spelling of it: that name
            // would nest the prefix, which the invariant rules out.
            assert forall|j: int|
                0 <= j < mid.users.len() implies (#[trigger] mid.users[j]).username
                != archived_name(a) by {
                if j == ix as int {
                    assert(archived_name(a).len() == archived_prefix().len() + a.len());
                } else {
                    if pre.users[j].username == archived_name(a) {
                        assert(is_archived_name(pre.users[j].username));
                        assert(pre.users[j].username.skip(archived_prefix().len() as int)
                            == a);
                    }
                }
            }
            assert(a.skip(archived_prefix().len() as int) == x);
        }
        assert(crate::db::changes_wf(mid)) by {
            assert(forall|k: int|
                0 <= k < mid.changes.len() ==> mid.changes[k] == #[trigger] pre.changes[k]);
        }
        assert(crate::db::links_wf(mid)) by {
            assert(forall|k: int|
                0 <= k < mid.links.len() ==> mid.links[k] == #[trigger] pre.links[k]);
        }
        assert(crate::db::domains_wf(mid)) by {
            assert(forall|k: int|
                0 <= k < mid.domains.len() ==> mid.domains[k] == #[trigger] pre.domains[k]);
        }
    }
    let data = NewUserChange { user_id: uid, action: ChangeAction::Del };
    let ch = crate::user_change::new(&data, con);
    proof {
        let effw = choose|eff: int|
            {
                &&& 0 <= eff <= u64::MAX
                &&& archive_model(pre, ix as int).changes.len() > 0 ==> eff >= archive_model(
                    pre,
                    ix as int,
                ).changes.last().created
                &&& ch matches Ok(c) && c@ == (crate::user_change::ChangeM {
                    id: archive_model(pre, ix as int).next_change_id,
                    created: eff,
                    action: data.action,
                    user_id: data.user_id as int,
                })
                &&& con@ == append_model(
                    archive_model(pre, ix as int),
                    data.action,
                    data.user_id as int,
                    eff,
                )
            };
        assert({
            &&& 0 <= effw <= u64::MAX
            &&& con@ == append_model(
                archive_model(pre, del_target(pre, sq)->0),
                ChangeAction::Del,
                pre.users[del_target(pre, sq)->0].id,
                effw,
            )
        });
    }
    match ch {
        Ok(_) => Ok(()),
        Err(_) => unreached(),
    }
}

} // verus!

verus! {

/// Audit durability: removing a user deletes or mutates no existing
/// change record — the log only grows, by one `Removed` record that still
/// references the removed user's id — while `get_by_id` on that id now
/// fails, because the row is archived and ids are unique.
pub proof fn lemma_audit_durability(pre: ConM, ix: int, eff: int)
    requires
        crate::db::wf(pre),
        0 <= ix < pre.users.len(),
        !is_archived_name(pre.users[ix].username),
    ensures
        ({
            let post = append_model(
                archive_model(pre, ix),
                ChangeAction::Del,
                pre.users[ix].id,
                eff,
            );
            &&& post.changes.len() == pre.changes.len() + 1
            &&& forall|k: int|
                0 <= k < pre.changes.len() ==> post.changes[k] == #[trigger] pre.changes[k]
            &&& post.changes.last().user_id == pre.users[ix].id
            &&& find_active_by_id(post.users, pre.users[ix].id) is None
        }),
{
    let post = append_model(archive_model(pre, ix), ChangeAction::Del, pre.users[ix].id, eff);
    let uid = pre.users[ix].id;
    assert(forall|k: int|
        0 <= k < pre.changes.len() ==> post.changes[k] == #[trigger] pre.changes[k]);
    lemma_archived_facts(pre.users[ix].username);
    lemma_find_active_by_id_props(post.users, uid, 0);
    match find_active_by_id(post.users, uid) {
        Some(p) => {
            assert(post.users[p].id == uid && !is_archived_name(post.users[p].username));
            assert(p != ix) by {
                assert(post.users[ix] == archived_row(pre.users[ix]));
            }
            assert(post.users[p] == pre.users[p]);
            assert(pre.users[p].id == pre.users[ix].id);
            assert(false);
        },
        None => {},
    }
}

/// Session single-activity: starting a session twice in succession leaves
/// only the second refresh token resolvable. Both tokens are fresh (not
/// stored for anyone beforehand) and distinct; afterwards the first token
/// resolves to nobody and the second resolves to the user it was bound
/// to.
pub proof fn lemma_session_single_activity(
    s0: ConM,
    uname: Seq<char>,
    rt1: Seq<char>,
    rt2: Seq<char>,
)
    requires
        crate::db::wf(s0),
        rt1 != rt2,
        !is_archived_name(uname),
        forall|k: int| 0 <= k < s0.users.len() ==> (#[trigger] s0.users[k]).rt != Some(rt1),
        forall|k: int| 0 <= k < s0.users.len() ==> (#[trigger] s0.users[k]).rt != Some(rt2),
    ensures
        ({
            let s1 = with_users(s0, set_rt_users(s0.users, uname, rt1));
            let s2 = with_users(s1, set_rt_users(s1.users, uname, rt2));
            &&& find_active_by_rt(s2.users, rt1) is None
            &&& find_username(s0.users, uname) matches Some(ix) ==> find_active_by_rt(
                s2.users,
                rt2,
            ) == Some(ix) && s2.users[ix].username == uname && s2.users[ix].id
                == s0.users[ix].id
        }),
{
    let s1 = with_users(s0, set_rt_users(s0.users, uname, rt1));
    let s2 = with_users(s1, set_rt_users(s1.users, uname, rt2));
    assert(s2.users.len() == s0.users.len());
    assert(forall|k: int|
        0 <= k < s2.users.len() ==> (#[trigger] s2.users[k]) == (if s0.users[k].username
            == uname {
            with_rt(s0.users[k], Some(rt2))
        } else {
            s0.users[k]
        }));
    lemma_find_active_by_rt_props(s2.users, rt1, 0);
    match find_active_by_rt(s2.users, rt1) {
        Some(p) => {
            assert(s2.users[p].rt == Some(rt1));
            assert(false);
        },
        None => {},
    }
    lemma_find_username_props(s0.users, uname, 0);
    match find_username(s0.users, uname) {
        None => {},
        Some(ix) => {
        assert(s2.users[ix].rt == Some(rt2));
        assert(!is_archived_name(s2.users[ix].username));
        // No row before `ix` holds the second token: the only holders are
        // rows named `uname`, and usernames are unique.
        assert(forall|k: int|
            0 <= k < ix ==> (#[trigger] s2.users[k]).rt != Some(rt2)) by {
            assert(forall|k: int|
                0 <= k < ix ==> (#[trigger] s0.users[k]).username != uname);
        }
            lemma_find_active_by_rt_first(s2.users, rt2, ix);
        },
    }
}

/// A finder lands on `k` when `k` qualifies and nothing before it does.
proof fn lemma_find_active_by_rt_first(users: Seq<UserRowM>, rt: Seq<char>, k: int)
    requires
        0 <= k < users.len(),
        users[k].rt == Some(rt),
        !is_archived_name(users[k].username),
        forall|j: int| 0 <= j < k ==> (#[trigger] users[j]).rt != Some(rt),
    ensures
        find_active_by_rt(users, rt) == Some(k),
{
    lemma_find_active_by_rt_at(users, rt, 0, k);
}

proof fn lemma_find_active_by_rt_at(users: Seq<UserRowM>, rt: Seq<char>, from: int, k: int)
    requires
        0 <= from <= k < users.len(),
        users[k].rt == Some(rt),
        !is_archived_name(users[k].username),
        forall|j: int| from <= j < k ==> (#[trigger] users[j]).rt != Some(rt),
    ensures
        find_active_by_rt_from(users, rt, from) == Some(k),
    decreases k - from,
{
    if from < k {
        lemma_find_active_by_rt_at(users, rt, from + 1, k);
    }
}

} // verus!

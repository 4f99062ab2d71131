use corund_lib::change::{self, CreateUserChange};
use corund_lib::db;
use corund_lib::domain;
use corund_lib::user;
use corund_lib::user_change::{self, ChangeAction, NewUserChange};
use corund_lib::Reg;

fn reg(username: &str, password: &str) -> Reg {
    Reg {
        username: username.to_string(),
        password: password.to_string(),
        firstname: None,
        patronym: None,
        surname: None,
    }
}

#[test]
fn created_removed_delivered_in_order() {
    let con = &mut db::con().unwrap();
    domain::register(&"tenantA".to_string(), &"backtomegaton".to_string(), con).unwrap();

    let alice = user::new(&reg("alice", "1234"), con).unwrap();
    let sq = corund_lib::quco::Query {
        id: None,
        username: Some("alice".to_string()),
        firstname: None,
    };
    user::del(&sq, con).unwrap();

    let changes = change::get_changes(&"tenantA".to_string(), None, con).unwrap();
    assert_eq!(changes.len(), 2);
    assert!(changes[0].action == ChangeAction::New);
    assert_eq!(changes[0].user_id, alice.id);
    assert!(changes[1].action == ChangeAction::Del);
    assert_eq!(changes[1].user_id, alice.id);

    let again = change::get_changes(&"tenantA".to_string(), None, con).unwrap();
    assert!(again.is_empty());
}

#[test]
fn fetch_without_ack_keeps_pending() {
    let con = &mut db::con().unwrap();
    domain::register(&"tenantA".to_string(), &"backtomegaton".to_string(), con).unwrap();
    user::new(&reg("alice", "1234"), con).unwrap();

    let first = change::get_changes(&"tenantA".to_string(), Some(false), con).unwrap();
    assert_eq!(first.len(), 1);
    let second = change::get_changes(&"tenantA".to_string(), None, con).unwrap();
    assert_eq!(second.len(), 1);
    let third = change::get_changes(&"tenantA".to_string(), None, con).unwrap();
    assert!(third.is_empty());
}

#[test]
fn no_backfill_for_late_domains() {
    let con = &mut db::con().unwrap();
    user::new(&reg("early", "1234"), con).unwrap();

    domain::register(&"late".to_string(), &"backtomegaton".to_string(), con).unwrap();
    let none = change::get_changes(&"late".to_string(), None, con).unwrap();
    assert!(none.is_empty(), "domains registered later get no backfill");

    let bob = user::new(&reg("bob", "1234"), con).unwrap();
    let only_new = change::get_changes(&"late".to_string(), None, con).unwrap();
    assert_eq!(only_new.len(), 1);
    assert_eq!(only_new[0].user_id, bob.id);
}

#[test]
fn fanout_reaches_every_registered_domain() {
    let con = &mut db::con().unwrap();
    domain::register(&"a".to_string(), &"backtomegaton".to_string(), con).unwrap();
    domain::register(&"b".to_string(), &"backtomegaton".to_string(), con).unwrap();
    let u = user::new(&reg("alice", "1234"), con).unwrap();

    let for_a = change::get_changes(&"a".to_string(), None, con).unwrap();
    assert_eq!(for_a.len(), 1);
    assert_eq!(for_a[0].user_id, u.id);
    let for_b = change::get_changes(&"b".to_string(), None, con).unwrap();
    assert_eq!(for_b.len(), 1);
    assert_eq!(for_b[0].user_id, u.id);
}

#[test]
fn fetches_by_different_tenants_are_independent() {
    let con = &mut db::con().unwrap();
    domain::register(&"a".to_string(), &"backtomegaton".to_string(), con).unwrap();
    domain::register(&"b".to_string(), &"backtomegaton".to_string(), con).unwrap();
    user::new(&reg("alice", "1234"), con).unwrap();

    // Tenant a acknowledging its link leaves b's pending set untouched.
    assert_eq!(change::get_changes(&"a".to_string(), None, con).unwrap().len(), 1);
    assert_eq!(change::get_changes(&"b".to_string(), None, con).unwrap().len(), 1);
}

#[test]
fn register_is_idempotent() {
    let con = &mut db::con().unwrap();
    domain::register(&"a".to_string(), &"first".to_string(), con).unwrap();
    domain::register(&"a".to_string(), &"second".to_string(), con).unwrap();
    user::new(&reg("alice", "1234"), con).unwrap();

    // Only one domain exists for the key: one pending record, not two.
    let changes = change::get_changes(&"a".to_string(), None, con).unwrap();
    assert_eq!(changes.len(), 1);
    assert!(change::get_changes(&"a".to_string(), None, con)
        .unwrap()
        .is_empty());
}

#[test]
fn ordering_ties_broken_by_id() {
    let con = &mut db::con().unwrap();
    domain::register(&"a".to_string(), &"backtomegaton".to_string(), con).unwrap();

    // Two records at the same instant, a third with an older clock reading:
    // ledger time never runs backwards, so it is clamped up.
    user_change::new_at(&NewUserChange { user_id: 7, action: ChangeAction::New }, 100, con)
        .unwrap();
    user_change::new_at(&NewUserChange { user_id: 8, action: ChangeAction::New }, 100, con)
        .unwrap();
    user_change::new_at(&NewUserChange { user_id: 9, action: ChangeAction::Del }, 50, con)
        .unwrap();

    let changes = change::get_changes(&"a".to_string(), None, con).unwrap();
    assert_eq!(changes.len(), 3);
    assert_eq!(changes[0].id, 1);
    assert_eq!(changes[1].id, 2);
    assert_eq!(changes[2].id, 3);
    assert!(changes[0].created <= changes[1].created);
    assert!(changes[1].created <= changes[2].created);
    assert_eq!(changes[2].created, 100);
}

#[test]
fn get_many_filters_by_time() {
    let con = &mut db::con().unwrap();
    user_change::new_at(&NewUserChange { user_id: 1, action: ChangeAction::New }, 100, con)
        .unwrap();
    user_change::new_at(&NewUserChange { user_id: 2, action: ChangeAction::New }, 200, con)
        .unwrap();

    let all = user_change::get_many(0, con).unwrap();
    assert_eq!(all.len(), 2);
    let late = user_change::get_many(150, con).unwrap();
    assert_eq!(late.len(), 1);
    assert_eq!(late[0].user_id, 2);
    let none = user_change::get_many(300, con).unwrap();
    assert!(none.is_empty());
}

#[test]
fn create_resolves_username() {
    let con = &mut db::con().unwrap();
    domain::register(&"a".to_string(), &"backtomegaton".to_string(), con).unwrap();
    let u = user::new(&reg("hello", "1234"), con).unwrap();

    let ch = change::create(
        &CreateUserChange {
            user_id: None,
            username: Some("hello".to_string()),
            action: "del".to_string(),
        },
        con,
    )
    .unwrap();
    assert_eq!(ch.user_id, u.id);
    assert!(ch.action == ChangeAction::Del);
}

#[test]
fn create_rejects_bad_requests() {
    let con = &mut db::con().unwrap();

    let e = change::create(
        &CreateUserChange { user_id: None, username: None, action: "new".to_string() },
        con,
    )
    .unwrap_err();
    assert_eq!(e.code, "val_err");

    let e = change::create(
        &CreateUserChange {
            user_id: Some(1),
            username: None,
            action: "explode".to_string(),
        },
        con,
    )
    .unwrap_err();
    assert_eq!(e.code, "val_err");

    let e = change::create(
        &CreateUserChange {
            user_id: None,
            username: Some("absent".to_string()),
            action: "new".to_string(),
        },
        con,
    )
    .unwrap_err();
    assert_eq!(e.code, "not_found_err");
}

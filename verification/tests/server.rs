use corund_lib::db;
use corund_lib::quco::{IdSel, Query};
use corund_lib::ryz::time::utc;
use corund_lib::user;
use corund_lib::user_change::{self, ChangeAction};
use corund_lib::Reg;

fn reg(username: &str, password: &str) -> Reg {
    Reg {
        username: username.to_string(),
        password: password.to_string(),
        firstname: None,
        patronym: None,
        surname: None,
    }
}

#[test]
fn reg_std_ok() {
    let con = &mut db::con().unwrap();
    let user = user::new(&reg("hello", "1234"), con).unwrap();

    assert_eq!(user.id, 1);
    assert_eq!(user.username, "hello");
    assert_eq!(user.firstname, None);
    assert_eq!(user.patronym, None);
    assert_eq!(user.surname, None);
    assert_eq!(user.rt, None);
}

#[test]
fn dereg_std_ok() {
    let test_start_time = utc();
    let con = &mut db::con().unwrap();
    let user = user::new(&reg("hello", "1234"), con).unwrap();

    let sq = Query {
        id: None,
        username: Some("hello".to_string()),
        firstname: None,
    };
    user::del(&sq, con).unwrap();

    assert!(
        user::get_many_as_ids(con).unwrap().len() == 0,
        "must be no users"
    );

    let changes = user_change::get_many(test_start_time, con).unwrap();
    assert!(changes.len() == 2, "must retain new and del user changes");
    assert!(changes[0].user_id == user.id);
    assert!(changes[0].action == ChangeAction::New);
    assert!(changes[1].user_id == user.id);
    assert!(changes[1].action == ChangeAction::Del);
}

#[test]
fn get_user_changes_std_ok() {
    let test_start_time = utc();
    let con = &mut db::con().unwrap();
    let user1 = user::new(&reg("hello", "1234"), con).unwrap();
    let user2 = user::new(&reg("world", "1234"), con).unwrap();
    let sq = Query {
        id: None,
        username: Some("world".to_string()),
        firstname: None,
    };
    user::del(&sq, con).unwrap();

    let changes = user_change::get_many(test_start_time, con).unwrap();
    assert!(changes.len() == 3);
    assert!(changes[0].user_id == user1.id);
    assert!(changes[0].action == ChangeAction::New);
    assert!(changes[1].user_id == user2.id);
    assert!(changes[1].action == ChangeAction::New);
    assert!(changes[2].user_id == user2.id);
    assert!(changes[2].action == ChangeAction::Del);
}

#[test]
fn get_users_direct_id_ok() {
    let con = &mut db::con().unwrap();
    let user1 = user::new(&reg("hello", "1234"), con).unwrap();
    user::new(&reg("world", "1234"), con).unwrap();

    let sq = Query {
        id: Some(IdSel::One(1)),
        username: None,
        firstname: None,
    };
    let users = user::get_many(sq, con).unwrap();
    assert!(users.len() == 1);
    assert!(users[0] == user1);
}

#[test]
fn get_users_in_id_ok() {
    let con = &mut db::con().unwrap();
    let user1 = user::new(&reg("hello", "1234"), con).unwrap();
    let user2 = user::new(&reg("world", "1234"), con).unwrap();

    let sq = Query {
        id: Some(IdSel::Within(vec![1, 2])),
        username: None,
        firstname: None,
    };
    let users = user::get_many(sq, con).unwrap();
    assert!(users.len() == 2);
    assert!(users[0] == user1);
    assert!(users[1] == user2);
}

#[test]
fn get_users_by_username_and_firstname() {
    let con = &mut db::con().unwrap();
    let mut r = reg("hello", "1234");
    r.firstname = Some("Augustus".to_string());
    user::new(&r, con).unwrap();
    user::new(&reg("world", "1234"), con).unwrap();

    let sq = Query {
        id: None,
        username: Some("world".to_string()),
        firstname: None,
    };
    let users = user::get_many(sq, con).unwrap();
    assert!(users.len() == 1);
    assert_eq!(users[0].username, "world");

    let sq = Query {
        id: None,
        username: None,
        firstname: Some("Augustus".to_string()),
    };
    let users = user::get_many(sq, con).unwrap();
    assert!(users.len() == 1);
    assert_eq!(users[0].username, "hello");

    let sq = Query {
        id: Some(IdSel::One(2)),
        username: Some("hello".to_string()),
        firstname: None,
    };
    let users = user::get_many(sq, con).unwrap();
    assert!(users.len() == 0);
}

#[test]
fn reg_conflict_and_archived_names() {
    let con = &mut db::con().unwrap();
    user::new(&reg("hello", "1234"), con).unwrap();

    let e = user::new(&reg("hello", "1234"), con).unwrap_err();
    assert_eq!(e.code, "conflict_err");

    let e = user::new(&reg("archived::x", "1234"), con).unwrap_err();
    assert_eq!(e.code, "val_err");

    // Removing a user archives its name; re-registering the same name is
    // refused to keep the namespace partition clean.
    let sq = Query {
        id: None,
        username: Some("hello".to_string()),
        firstname: None,
    };
    user::del(&sq, con).unwrap();
    let e = user::new(&reg("hello", "1234"), con).unwrap_err();
    assert_eq!(e.code, "conflict_err");
}

#[test]
fn del_selector_errors() {
    let con = &mut db::con().unwrap();
    user::new(&reg("hello", "1234"), con).unwrap();

    let sq = Query {
        id: None,
        username: None,
        firstname: None,
    };
    let e = user::del(&sq, con).unwrap_err();
    assert_eq!(e.code, "val_err");

    let sq = Query {
        id: Some(IdSel::Within(vec![1])),
        username: None,
        firstname: None,
    };
    let e = user::del(&sq, con).unwrap_err();
    assert_eq!(e.code, "val_err");

    let sq = Query {
        id: None,
        username: Some("absent".to_string()),
        firstname: None,
    };
    let e = user::del(&sq, con).unwrap_err();
    assert_eq!(e.code, "not_found_err");

    // A selector whose id and username name different users resolves to
    // nobody.
    user::new(&reg("world", "1234"), con).unwrap();
    let sq = Query {
        id: Some(IdSel::One(1)),
        username: Some("world".to_string()),
        firstname: None,
    };
    let e = user::del(&sq, con).unwrap_err();
    assert_eq!(e.code, "not_found_err");

    // By id alone it works.
    let sq = Query {
        id: Some(IdSel::One(1)),
        username: None,
        firstname: None,
    };
    user::del(&sq, con).unwrap();
    assert_eq!(user::get_many_as_ids(con).unwrap(), vec![2]);
}

#[test]
fn get_users_exclude_archived() {
    let con = &mut db::con().unwrap();
    let user1 = user::new(&reg("hello", "1234"), con).unwrap();
    user::new(&reg("world", "1234"), con).unwrap();
    let sq = Query {
        id: None,
        username: Some("world".to_string()),
        firstname: None,
    };
    user::del(&sq, con).unwrap();

    // Removed users are excluded from the search path too: neither their
    // id, nor their archived name, nor an empty search reaches them.
    let sq = Query {
        id: Some(IdSel::One(2)),
        username: None,
        firstname: None,
    };
    assert!(user::get_many(sq, con).unwrap().is_empty());
    let sq = Query {
        id: None,
        username: Some("archived::world".to_string()),
        firstname: None,
    };
    assert!(user::get_many(sq, con).unwrap().is_empty());
    let sq = Query {
        id: None,
        username: None,
        firstname: None,
    };
    let all = user::get_many(sq, con).unwrap();
    assert!(all.len() == 1);
    assert!(all[0] == user1);
}

#[test]
fn audit_survives_removal() {
    let con = &mut db::con().unwrap();
    let user = user::new(&reg("hello", "1234"), con).unwrap();
    let sq = Query {
        id: None,
        username: Some("hello".to_string()),
        firstname: None,
    };
    user::del(&sq, con).unwrap();

    // The removed user no longer resolves...
    let e = user::get_by_id(user.id, con).unwrap_err();
    assert_eq!(e.code, "not_found_err");

    // ...but every change record referencing its id is still there.
    let changes = user_change::get_many(0, con).unwrap();
    assert_eq!(changes.len(), 2);
    assert!(changes.iter().all(|c| c.user_id == user.id));
}

use corund_lib::db::{con, truncate_tables_if_allowed};
use corund_lib::domain::{register, verify_secret, DomainCfg};
use corund_lib::err::ErrResp;
use corund_lib::rskit::err::{err, ErrData};
use corund_lib::ryz::enm::StrEnum;
use corund_lib::ryz::err::{make, make_code, make_default, make_msg, Error};
use corund_lib::ryz::time::{delta, utc};
use corund_lib::sql::build_where_in;
use corund_lib::user;
use corund_lib::user_change::ChangeAction;
use corund_lib::{Apprc, Reg, SqlCfg};

fn apprc(secret: &str, cleaning: bool) -> Apprc {
    Apprc {
        sql: SqlCfg {
            url: "mem://".to_string(),
            is_cleaning_allowed: cleaning,
        },
        domain: DomainCfg {
            secret: secret.to_string(),
        },
    }
}

fn reg(username: &str, password: &str) -> Reg {
    Reg {
        username: username.to_string(),
        password: password.to_string(),
        firstname: None,
        patronym: None,
        surname: None,
    }
}

#[test]
fn build_where_in_joins_with_commas() {
    let items = vec!["1".to_string(), "2".to_string(), "3".to_string()];
    assert_eq!(build_where_in("id", &items).unwrap(), "id IN (1, 2, 3)");
    assert_eq!(
        build_where_in("user_change.id", &["7".to_string()]).unwrap(),
        "user_change.id IN (7)"
    );
    let empty: Vec<String> = vec![];
    assert_eq!(build_where_in("id", &empty).unwrap(), "id IN ()");
}

#[test]
fn change_action_string_forms() {
    assert_eq!(ChangeAction::New.to_str(), "new");
    assert_eq!(ChangeAction::Del.to_str(), "del");
    assert!(ChangeAction::from_str("new").unwrap() == ChangeAction::New);
    assert!(ChangeAction::from_str("del").unwrap() == ChangeAction::Del);
    let e = ChangeAction::from_str("explode").unwrap_err();
    assert_eq!(e.code, "err");
}

#[test]
fn error_constructors() {
    let e = Error::new("code_a", "message");
    assert_eq!(e.code, "code_a");
    assert_eq!(e.msg, "message");
    let e = Error::new_code("code_b");
    assert_eq!(e.code, "code_b");
    assert_eq!(e.msg, "");
    let e = Error::new_msg("just a message");
    assert_eq!(e.code, "err");
    assert_eq!(e.msg, "just a message");
    let e: Error = Default::default();
    assert_eq!(e.code, "err");
    assert_eq!(e.msg, "");

    assert_eq!(make_default::<()>().unwrap_err().code, "err");
    assert_eq!(make_code::<()>("x").unwrap_err().code, "x");
    assert_eq!(make_msg::<()>("m").unwrap_err().msg, "m");
    let e = make::<()>("c", "m").unwrap_err();
    assert_eq!(e.code, "c");
    assert_eq!(e.msg, "m");
}

#[test]
fn err_data_and_resp() {
    let e = ErrData::new("code", "msg");
    assert_eq!(e.errcode, "code");
    assert_eq!(e.msg, "msg");
    let e = err::<()>("code2", "msg2").unwrap_err();
    assert_eq!(e.errcode, "code2");
    assert_eq!(e.msg, "msg2");
    let e = ErrResp::new("code3".to_string(), "msg3".to_string());
    assert_eq!(e.errcode, "code3");
    assert_eq!(e.msg, "msg3");
}

#[test]
fn verify_secret_exact_match() {
    let rc = apprc("backtomegaton", false);
    assert!(verify_secret(&"backtomegaton".to_string(), &rc).is_ok());
    assert!(verify_secret(&"nope".to_string(), &rc).is_err());
    assert!(verify_secret(&"".to_string(), &rc).is_err());
}

#[test]
fn truncate_respects_configuration() {
    let con = &mut con().unwrap();
    register(&"a".to_string(), &"backtomegaton".to_string(), con).unwrap();
    user::new(&reg("hello", "1234"), con).unwrap();

    truncate_tables_if_allowed(&apprc("s", false), con);
    assert_eq!(user::get_many_as_ids(con).unwrap(), vec![1]);

    truncate_tables_if_allowed(&apprc("s", true), con);
    assert!(user::get_many_as_ids(con).unwrap().is_empty());

    // Ids restart; domains survive the cleaning.
    let u = user::new(&reg("hello", "1234"), con).unwrap();
    assert_eq!(u.id, 1);
    let changes =
        corund_lib::change::get_changes(&"a".to_string(), None, con).unwrap();
    assert_eq!(changes.len(), 1);
}

#[test]
fn time_delta_saturates() {
    let now = utc();
    let d = delta(10);
    assert!(d >= now + 10);
    assert_eq!(delta(u64::MAX), u64::MAX);
}

#[test]
fn archived_usernames_not_addressable() {
    let con = &mut con().unwrap();
    user::new(&reg("hello", "1234"), con).unwrap();
    let sq = corund_lib::quco::Query {
        id: None,
        username: Some("hello".to_string()),
        firstname: None,
    };
    user::del(&sq, con).unwrap();

    let e = user::get_by_username(&"hello".to_string(), con).unwrap_err();
    assert_eq!(e.code, "not_found_err");
    let e = user::get_by_username(&"archived::hello".to_string(), con).unwrap_err();
    assert_eq!(e.code, "val_err");
    let e = user::del(
        &corund_lib::quco::Query {
            id: None,
            username: Some("archived::hello".to_string()),
            firstname: None,
        },
        con,
    )
    .unwrap_err();
    assert_eq!(e.code, "val_err");
}

#[test]
fn set_rt_for_unknown_user_is_noop() {
    let con = &mut con().unwrap();
    user::new(&reg("hello", "1234"), con).unwrap();
    user::set_rt_for_username(&"absent".to_string(), &"tok".to_string(), con).unwrap();
    assert_eq!(user::get_by_id(1, con).unwrap().rt, None);
}

use corund_lib::db;
use corund_lib::quco::Query;
use corund_lib::ryz::time::utc;
use corund_lib::token;
use corund_lib::user;
use corund_lib::{access, login, Reg};

fn reg(username: &str, password: &str) -> Reg {
    Reg {
        username: username.to_string(),
        password: password.to_string(),
        firstname: None,
        patronym: None,
        surname: None,
    }
}

#[test]
fn login_std_ok() {
    let con = &mut db::con().unwrap();
    user::new(&reg("hello", "1234"), con).unwrap();

    let rt = login(
        &"hello".to_string(),
        &"1234".to_string(),
        utc(),
        con,
    )
    .unwrap();

    let user = user::get_by_id(1, con).unwrap();
    assert!(user.rt == Some(rt));
}

#[test]
fn login_rejects_bad_credentials() {
    let con = &mut db::con().unwrap();
    user::new(&reg("hello", "1234"), con).unwrap();

    let e = login(&"absent".to_string(), &"1234".to_string(), utc(), con).unwrap_err();
    assert_eq!(e.code, "not_found_err");
    let e = login(&"hello".to_string(), &"wrong".to_string(), utc(), con).unwrap_err();
    assert_eq!(e.code, "auth_err");
    let user = user::get_by_id(1, con).unwrap();
    assert!(user.rt == None);
}

#[test]
fn logout_std_ok() {
    let con = &mut db::con().unwrap();
    user::new(&reg("hello", "1234"), con).unwrap();

    let rt = login(&"hello".to_string(), &"1234".to_string(), utc(), con).unwrap();
    user::del_rt(&rt, con).unwrap();

    let user = user::get_by_id(1, con).unwrap();
    assert!(user.rt == None);

    // Ending an already-ended session is a no-op, not an error.
    user::del_rt(&rt, con).unwrap();
}

#[test]
fn access_std_ok() {
    let con = &mut db::con().unwrap();
    user::new(&reg("hello", "1234"), con).unwrap();

    let now = utc();
    let rt = login(&"hello".to_string(), &"1234".to_string(), now, con).unwrap();
    let at = access(&rt, now, con).unwrap();

    let payload = token::verify_token(&at, b"helloworld", 60 * 60, now).unwrap();
    assert!(payload.user_id == 1);
}

#[test]
fn access_rejects_superseded_token() {
    let con = &mut db::con().unwrap();
    user::new(&reg("hello", "1234"), con).unwrap();

    // Two logins at distinct times: the first refresh token is kicked out.
    let t1 = utc();
    let rt1 = login(&"hello".to_string(), &"1234".to_string(), t1, con).unwrap();
    let t2 = t1 + 1;
    let rt2 = login(&"hello".to_string(), &"1234".to_string(), t2, con).unwrap();
    assert!(rt1 != rt2);

    let e = access(&rt1, t2, con).unwrap_err();
    assert_eq!(e.code, "auth_err");
    assert!(access(&rt2, t2, con).is_ok());
}

#[test]
fn current_std_ok() {
    let con = &mut db::con().unwrap();
    let actual_user = user::new(&reg("hello", "1234"), con).unwrap();

    let rt = login(&"hello".to_string(), &"1234".to_string(), utc(), con).unwrap();
    let (user, _hpassword) = user::get_by_rt(&rt, con).unwrap();

    assert_eq!(user.id, actual_user.id);
    assert_eq!(user.username, actual_user.username);
    assert_eq!(user.firstname, actual_user.firstname);
    assert_eq!(user.patronym, actual_user.patronym);
    assert_eq!(user.surname, actual_user.surname);
    assert_eq!(user.rt, Some(rt));
    assert_eq!(actual_user.rt, None)
}

#[test]
fn session_single_activity() {
    let con = &mut db::con().unwrap();
    user::new(&reg("hello", "1234"), con).unwrap();

    let rt1 = token::issue_rt(1, 1000).unwrap();
    user::set_rt_for_username(&"hello".to_string(), &rt1, con).unwrap();
    let rt2 = token::issue_rt(1, 2000).unwrap();
    user::set_rt_for_username(&"hello".to_string(), &rt2, con).unwrap();
    assert!(rt1 != rt2);

    // Only the second token resolves; the first fails.
    let e = user::get_by_rt(&rt1, con).unwrap_err();
    assert_eq!(e.code, "not_found_err");
    let (user, _) = user::get_by_rt(&rt2, con).unwrap();
    assert_eq!(user.id, 1);
}

#[test]
fn removed_user_token_stops_resolving() {
    let con = &mut db::con().unwrap();
    user::new(&reg("hello", "1234"), con).unwrap();
    let rt = login(&"hello".to_string(), &"1234".to_string(), utc(), con).unwrap();

    let sq = Query {
        id: None,
        username: Some("hello".to_string()),
        firstname: None,
    };
    user::del(&sq, con).unwrap();

    let e = user::get_by_rt(&rt, con).unwrap_err();
    assert_eq!(e.code, "not_found_err");
}

#[test]
fn password_digest_roundtrip() {
    let password = "1234".to_string();
    let digest = corund_lib::password::hash_password(&password).unwrap();
    assert!(corund_lib::password::check_password(&password, &digest));
    assert!(!corund_lib::password::check_password(&"wrong".to_string(), &digest));
    assert!(!corund_lib::password::check_password(
        &password,
        &"not a digest".to_string()
    ));
}

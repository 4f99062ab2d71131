use corund_lib::token::{
    create_at, create_rt, create_token, verify_rt, verify_token, Expire, UserTokenPayload,
    RT_DELTA,
};

#[test]
fn token_ttl_window() {
    // Only the issuance time is embedded; the lifetime is supplied at
    // verification: valid one second before the cutoff, expired after it.
    let t0: u64 = 1_000;
    let ttl: u64 = 50;
    let payload = UserTokenPayload { user_id: 7, created: t0 };
    let token = create_token(&payload, b"class-secret").unwrap();

    let ok = verify_token(&token, b"class-secret", ttl, t0 + ttl - 1).unwrap();
    assert_eq!(ok.user_id, 7);
    assert_eq!(ok.created, t0);

    let e = verify_token(&token, b"class-secret", ttl, t0 + ttl + 1).unwrap_err();
    assert_eq!(e.code, "exp_err");
    let e = verify_token(&token, b"class-secret", ttl, t0 + ttl).unwrap_err();
    assert_eq!(e.code, "exp_err");
}

#[test]
fn token_shape_and_roundtrip() {
    let payload = UserTokenPayload { user_id: 42, created: 123456 };
    let token = create_token(&payload, b"k").unwrap();
    assert!(token.starts_with("42.123456."));
    // The signature is 32 bytes of lowercase hex.
    assert_eq!(token.len(), "42.123456.".len() + 64);

    let back = verify_token(&token, b"k", 10, 123460).unwrap();
    assert_eq!(back.user_id, 42);
    assert_eq!(back.created, 123456);
}

#[test]
fn token_bad_signature_rejected() {
    let payload = UserTokenPayload { user_id: 1, created: 100 };
    let token = create_token(&payload, b"right").unwrap();

    let e = verify_token(&token, b"wrong", 1000, 100).unwrap_err();
    assert_eq!(e.code, "auth_err");

    let mut tampered = token.clone();
    tampered.pop();
    tampered.push('0');
    // Either the digit changed, or the tampering put back the same digit;
    // only test the changed case.
    if tampered != token {
        let e = verify_token(&tampered, b"right", 1000, 100).unwrap_err();
        assert_eq!(e.code, "auth_err");
    }
}

#[test]
fn token_malformed_rejected() {
    for bad in [
        "",
        "abc",
        "1.2",
        "..",
        "x.2.ffff",
        "1.y.ffff",
        "9999999999999999999999.2.ffff",
    ] {
        let e = verify_token(&bad.to_string(), b"k", 1000, 100).unwrap_err();
        assert_eq!(e.code, "auth_err", "{bad:?} must be rejected");
    }
}

#[test]
fn refresh_and_access_classes_are_distinct() {
    let rt = create_rt(1).unwrap();
    let at = create_at(1).unwrap();

    // The refresh token verifies under the refresh class...
    let now = corund_lib::ryz::time::utc();
    assert!(verify_rt(&rt, now).is_ok());
    // ...but an access token does not: the classes sign with different
    // secrets, so one cannot forge the other.
    assert!(verify_rt(&at, now).is_err());
}

#[test]
fn negative_user_id_has_no_token() {
    let e = create_rt(-5).unwrap_err();
    assert_eq!(e.code, "val_err");
    let e = create_at(-5).unwrap_err();
    assert_eq!(e.code, "val_err");
}

#[test]
fn check_exp_boundaries() {
    let payload = UserTokenPayload { user_id: 1, created: 100 };
    assert_eq!(payload.get_created().unwrap(), 100);

    let exp = payload.check_exp(10, 50).unwrap();
    assert_eq!(exp, 110);
    let exp = payload.check_exp(10, 109).unwrap();
    assert_eq!(exp, 110);
    let e = payload.check_exp(10, 110).unwrap_err();
    assert_eq!(e.code, "exp_err");
    assert_eq!(e.msg, "expired token");

    // The returned expiry saturates instead of wrapping.
    let exp = payload.check_exp(u64::MAX, 50).unwrap();
    assert_eq!(exp, u64::MAX);
}

#[test]
fn rt_delta_is_one_year() {
    assert_eq!(RT_DELTA, 60 * 60 * 24 * 365);
    let payload = UserTokenPayload { user_id: 3, created: 1_000 };
    let token = create_token(&payload, b"weloveauth").unwrap();
    assert!(verify_rt(&token, 1_000 + RT_DELTA - 1).is_ok());
    assert_eq!(verify_rt(&token, 1_000 + RT_DELTA).unwrap_err().code, "exp_err");
}

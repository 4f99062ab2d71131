//! Session tokens: a signed payload `{user_id, created}`.
//!
//! A token is the string `<user_id>.<created>.<signature>`, where the two
//! numbers are decimal and the signature is the lowercase hex of an
//! HMAC-SHA256 over the `<user_id>.<created>` prefix. Only the issuance
//! time is embedded; the validity window is computed at verification time
//! from a caller-supplied lifetime, so the policy can change without
//! reissuing outstanding tokens.

use vstd::prelude::*;
use crate::ryz::err::{make, Error};
use crate::ryz::res::Res;
use crate::ryz::time::Time;

verus! {

// ---------------------------------------------------------------------------
// Decimal digits
// ---------------------------------------------------------------------------

/// The decimal digit character for a value below ten.
pub open spec fn dec_digit(d: int) -> char {
    if d == 0 {
        '0'
    } else if d == 1 {
        '1'
    } else if d == 2 {
        '2'
    } else if d == 3 {
        '3'
    } else if d == 4 {
        '4'
    } else if d == 5 {
        '5'
    } else if d == 6 {
        '6'
    } else if d == 7 {
        '7'
    } else if d == 8 {
        '8'
    } else {
        '9'
    }
}

pub open spec fn is_dec_digit(c: char) -> bool {
    c == '0' || c == '1' || c == '2' || c == '3' || c == '4' || c == '5' || c == '6' || c == '7'
        || c == '8' || c == '9'
}

/// The value of a decimal digit character.
pub open spec fn dec_val(c: char) -> int {
    if c == '0' {
        0
    } else if c == '1' {
        1
    } else if c == '2' {
        2
    } else if c == '3' {
        3
    } else if c == '4' {
        4
    } else if c == '5' {
        5
    } else if c == '6' {
        6
    } else if c == '7' {
        7
    } else if c == '8' {
        8
    } else {
        9
    }
}

/// The canonical decimal spelling of a non-negative number: no sign, no
/// leading zeros (except for the number zero itself).
pub open spec fn dec_of(n: int) -> Seq<char>
    recommends
        n >= 0,
    decreases n,
{
    if n < 10 {
        seq![dec_digit(n)]
    } else {
        dec_of(n / 10).push(dec_digit(n % 10))
    }
}

/// The number spelled by a sequence of decimal digit characters.
pub open spec fn dec_value(s: Seq<char>) -> int
    decreases s.len(),
{
    if s.len() == 0 {
        0
    } else {
        dec_value(s.drop_last()) * 10 + dec_val(s.last())
    }
}

pub open spec fn all_dec_digits(s: Seq<char>) -> bool {
    forall|i: int| 0 <= i < s.len() ==> is_dec_digit(#[trigger] s[i])
}

/// The number a string of characters parses to: defined when the string is
/// non-empty and all digits.
pub open spec fn parse_dec(s: Seq<char>) -> Option<int> {
    if s.len() > 0 && all_dec_digits(s) {
        Some(dec_value(s))
    } else {
        None
    }
}

/// The decimal spelling of a number consists of digits and parses back to it.
pub proof fn lemma_dec_of_parses(n: int)
    requires
        n >= 0,
    ensures
        dec_of(n).len() >= 1,
        all_dec_digits(dec_of(n)),
        parse_dec(dec_of(n)) == Some(n),
    decreases n,
{
    if n < 10 {
        assert(dec_value(dec_of(n)) == dec_value(Seq::<char>::empty()) * 10 + dec_val(
            dec_digit(n),
        )) by {
            assert(dec_of(n).drop_last() =~= Seq::<char>::empty());
        }
    } else {
        lemma_dec_of_parses(n / 10);
        let s = dec_of(n);
        assert(s.drop_last() =~= dec_of(n / 10));
        assert(s.last() == dec_digit(n % 10));
        assert(dec_val(dec_digit(n % 10)) == n % 10);
        assert(dec_value(s) == (n / 10) * 10 + n % 10);
        assert((n / 10) * 10 + n % 10 == n) by (nonlinear_arith);
        assert(forall|i: int|
            0 <= i < s.len() ==> is_dec_digit(#[trigger] s[i])) by {
            assert(forall|i: int|
                0 <= i < s.len() - 1 ==> s[i] == #[trigger] dec_of(n / 10)[i]);
        }
    }
}

/// Appends the decimal spelling of `n` to `out`.
pub fn push_dec(n: u64, out: &mut String)
    ensures
        final(out)@ == old(out)@ + dec_of(n as int),
    decreases n,
{
    if n >= 10 {
        push_dec(n / 10, out);
    }
    let d = n % 10;
    let digit: &str = if d == 0 {
        "0"
    } else if d == 1 {
        "1"
    } else if d == 2 {
        "2"
    } else if d == 3 {
        "3"
    } else if d == 4 {
        "4"
    } else if d == 5 {
        "5"
    } else if d == 6 {
        "6"
    } else if d == 7 {
        "7"
    } else if d == 8 {
        "8"
    } else {
        "9"
    };
    proof {
        reveal_strlit("0");
        reveal_strlit("1");
        reveal_strlit("2");
        reveal_strlit("3");
        reveal_strlit("4");
        reveal_strlit("5");
        reveal_strlit("6");
        reveal_strlit("7");
        reveal_strlit("8");
        reveal_strlit("9");
        assert(digit@ =~= seq![dec_digit(n as int % 10)]);
    }
    out.append(digit);
    proof {
        if n < 10 {
            assert(dec_of(n as int) =~= seq![dec_digit(n as int)]);
            assert(final(out)@ =~= old(out)@ + dec_of(n as int));
        } else {
            assert(dec_of(n as int) =~= dec_of(n as int / 10).push(dec_digit(n as int % 10)));
            assert(final(out)@ =~= old(out)@ + dec_of(n as int));
        }
    }
}

// ---------------------------------------------------------------------------
// Lowercase hex
// ---------------------------------------------------------------------------

/// The lowercase hex digit character for a value below sixteen.
pub open spec fn hex_digit(d: int) -> char {
    if d < 10 {
        dec_digit(d)
    } else if d == 10 {
        'a'
    } else if d == 11 {
        'b'
    } else if d == 12 {
        'c'
    } else if d == 13 {
        'd'
    } else if d == 14 {
        'e'
    } else {
        'f'
    }
}

/// The lowercase hex spelling of a byte string: two digits per byte.
pub open spec fn hex_of(bytes: Seq<u8>) -> Seq<char>
    decreases bytes.len(),
{
    if bytes.len() == 0 {
        Seq::empty()
    } else {
        hex_of(bytes.drop_last()) + seq![
            hex_digit(bytes.last() as int / 16),
            hex_digit(bytes.last() as int % 16),
        ]
    }
}

fn hex_digit_str(d: u8) -> (r: &'static str)
    requires
        d < 16,
    ensures
        r@ == seq![hex_digit(d as int)],
{
    let r: &'static str = if d == 0 {
        "0"
    } else if d == 1 {
        "1"
    } else if d == 2 {
        "2"
    } else if d == 3 {
        "3"
    } else if d == 4 {
        "4"
    } else if d == 5 {
        "5"
    } else if d == 6 {
        "6"
    } else if d == 7 {
        "7"
    } else if d == 8 {
        "8"
    } else if d == 9 {
        "9"
    } else if d == 10 {
        "a"
    } else if d == 11 {
        "b"
    } else if d == 12 {
        "c"
    } else if d == 13 {
        "d"
    } else if d == 14 {
        "e"
    } else {
        "f"
    };
    proof {
        reveal_strlit("0");
        reveal_strlit("1");
        reveal_strlit("2");
        reveal_strlit("3");
        reveal_strlit("4");
        reveal_strlit("5");
        reveal_strlit("6");
        reveal_strlit("7");
        reveal_strlit("8");
        reveal_strlit("9");
        reveal_strlit("a");
        reveal_strlit("b");
        reveal_strlit("c");
        reveal_strlit("d");
        reveal_strlit("e");
        reveal_strlit("f");
        assert(r@ =~= seq![hex_digit(d as int)]);
    }
    r
}

/// The lowercase hex spelling of a byte string.
pub fn hex_of_bytes(bytes: &Vec<u8>) -> (r: String)
    ensures
        r@ == hex_of(bytes@),
{
    let mut out = String::new();
    let mut i: usize = 0;
    while i < bytes.len()
        invariant
            i <= bytes.len(),
            out@ == hex_of(bytes@.take(i as int)),
        decreases bytes.len() - i,
    {
        let b = bytes[i];
        out.append(hex_digit_str(b / 16));
        out.append(hex_digit_str(b % 16));
        proof {
            let t = bytes@.take(i + 1);
            assert(t.drop_last() =~= bytes@.take(i as int));
            assert(t.last() == bytes@[i as int]);
            assert(out@ =~= hex_of(bytes@.take(i + 1)));
        }
        i = i + 1;
    }
    proof {
        assert(bytes@.take(bytes@.len() as int) =~= bytes@);
    }
    out
}

} // verus!

use hmac::Mac;

verus! {

// ---------------------------------------------------------------------------
// Token structure
// ---------------------------------------------------------------------------

/// The payload carried by a session token.
#[derive(Debug)]
pub struct UserTokenPayload {
    pub user_id: i32,
    /// When the token was created.
    ///
    /// Only the creation time is embedded, not an expiry, so the receiver
    /// interprets it against a lifetime policy of its own choosing.
    pub created: Time,
}

/// The tag that HMAC-SHA256 computes for a key and a message: a function of
/// the two alone.
pub uninterp spec fn mac_of(secret: Seq<u8>, msg: Seq<char>) -> Seq<u8>;

/// Relies on hmac's `Hmac<Sha256>` (with sha2): the tag depends on the key
/// and the message alone and is 32 bytes long; `new_from_slice` accepts a
/// key of any length.
#[verifier::external_body]
fn hmac_sha256(secret: &[u8], msg: &str) -> (r: Vec<u8>)
    ensures
        r@ == mac_of(secret@, msg@),
        r@.len() == 32,
{
    let mut mac = <hmac::Hmac<sha2::Sha256> as Mac>::new_from_slice(secret).unwrap();
    mac.update(msg.as_bytes());
    mac.finalize().into_bytes().to_vec()
}

/// The part of a token that is signed: `<user_id>.<created>` in decimal.
pub open spec fn payload_chars(user_id: int, created: int) -> Seq<char> {
    dec_of(user_id) + "."@ + dec_of(created)
}

/// The full token for a payload and a signing secret:
/// `<user_id>.<created>.<signature>`.
pub open spec fn token_chars(user_id: int, created: int, secret: Seq<u8>) -> Seq<char> {
    payload_chars(user_id, created) + "."@ + hex_of(
        mac_of(secret, payload_chars(user_id, created)),
    )
}

/// The least index at or after `from` holding `c`.
pub open spec fn find_char(s: Seq<char>, c: char, from: int) -> Option<int>
    decreases s.len() - from when 0 <= from
{
    if from >= s.len() {
        None
    } else if s[from] == c {
        Some(from)
    } else {
        find_char(s, c, from + 1)
    }
}

proof fn lemma_find_char_props(s: Seq<char>, c: char, from: int)
    requires
        0 <= from,
    ensures
        find_char(s, c, from) matches Some(p) ==> from <= p < s.len() && s[p] == c && (forall|j:
            int|
            from <= j < p ==> s[j] != c),
        find_char(s, c, from) is None ==> forall|j: int| from <= j < s.len() ==> s[j] != c,
    decreases s.len() - from,
{
    if from < s.len() && s[from] != c {
        lemma_find_char_props(s, c, from + 1);
    }
}

proof fn lemma_find_char_at(s: Seq<char>, c: char, from: int, k: int)
    requires
        0 <= from <= k < s.len(),
        s[k] == c,
        forall|j: int| from <= j < k ==> s[j] != c,
    ensures
        find_char(s, c, from) == Some(k),
    decreases k - from,
{
    if from < k {
        lemma_find_char_at(s, c, from + 1, k);
    }
}

/// The three dot-separated fields of a token: user id, creation time,
/// signature, split at the first two dots.
pub open spec fn token_fields(s: Seq<char>) -> Option<(Seq<char>, Seq<char>, Seq<char>)> {
    match find_char(s, '.', 0) {
        None => None,
        Some(p1) => match find_char(s, '.', p1 + 1) {
            None => None,
            Some(p2) => Some(
                (
                    s.subrange(0, p1),
                    s.subrange(p1 + 1, p2),
                    s.subrange(p2 + 1, s.len() as int),
                ),
            ),
        },
    }
}

/// The payload a token spells, when its first two fields are well-formed
/// numbers in range; nothing is said about the signature here.
pub open spec fn token_payload_of(s: Seq<char>) -> Option<UserTokenPayload> {
    match token_fields(s) {
        None => None,
        Some((us, cs, sig)) => match (parse_dec(us), parse_dec(cs)) {
            (Some(u), Some(c)) => if u <= i32::MAX && c <= u64::MAX {
                Some(UserTokenPayload { user_id: u as i32, created: c as u64 })
            } else {
                None
            },
            _ => None,
        },
    }
}

/// Whether a token's signature field is the HMAC of its payload part under
/// the given secret.
pub open spec fn token_sig_ok(s: Seq<char>, secret: Seq<u8>) -> bool {
    match token_fields(s) {
        None => false,
        Some((us, cs, sig)) => sig == hex_of(mac_of(secret, us + "."@ + cs)),
    }
}

/// The least index at or after `from` holding a dot.
fn find_dot(s: &str, from: usize) -> (r: Option<usize>)
    requires
        from <= s@.len(),
    ensures
        match find_char(s@, '.', from as int) {
            Some(p) => r matches Some(q) && q as int == p,
            None => r is None,
        },
{
    let n = s.unicode_len();
    let mut i: usize = from;
    while i < n
        invariant
            from <= i <= n,
            n == s@.len(),
            find_char(s@, '.', from as int) == find_char(s@, '.', i as int),
        decreases n - i,
    {
        if s.get_char(i) == '.' {
            return Some(i);
        }
        i = i + 1;
    }
    None
}

proof fn lemma_dec_value_nonneg(s: Seq<char>)
    requires
        all_dec_digits(s),
    ensures
        dec_value(s) >= 0,
    decreases s.len(),
{
    if s.len() > 0 {
        assert(all_dec_digits(s.drop_last())) by {
            assert(forall|i: int|
                0 <= i < s.len() - 1 ==> s.drop_last()[i] == #[trigger] s[i]);
        }
        lemma_dec_value_nonneg(s.drop_last());
    }
}

proof fn lemma_dec_value_take_grows(s: Seq<char>, i: int)
    requires
        all_dec_digits(s),
        0 <= i <= s.len(),
    ensures
        dec_value(s) >= dec_value(s.take(i)),
    decreases s.len() - i,
{
    if i < s.len() {
        lemma_dec_value_take_grows(s, i + 1);
        let t = s.take(i + 1);
        assert(t.drop_last() =~= s.take(i));
        assert(all_dec_digits(s.take(i))) by {
            assert(forall|j: int|
                0 <= j < i ==> s.take(i)[j] == #[trigger] s[j]);
        }
        lemma_dec_value_nonneg(s.take(i));
        assert(dec_value(t) == dec_value(s.take(i)) * 10 + dec_val(t.last()));
        assert(dec_value(s.take(i)) * 10 >= dec_value(s.take(i))) by (nonlinear_arith)
            requires
                dec_value(s.take(i)) >= 0,
        ;
    } else {
        assert(s.take(i) =~= s);
    }
}

/// Parses a string of decimal digits into a number, rejecting the empty
/// string, non-digit characters and values over `u64::MAX`.
fn parse_u64_digits(s: &str) -> (r: Option<u64>)
    ensures
        match parse_dec(s@) {
            Some(v) => if v <= u64::MAX {
                r matches Some(got) && got as int == v
            } else {
                r is None
            },
            None => r is None,
        },
{
    let n = s.unicode_len();
    if n == 0 {
        return None;
    }
    let mut acc: u64 = 0;
    let mut i: usize = 0;
    while i < n
        invariant
            0 <= i <= n,
            n == s@.len(),
            n > 0,
            all_dec_digits(s@.take(i as int)),
            acc as int == dec_value(s@.take(i as int)),
        decreases n - i,
    {
        let c = s.get_char(i);
        let d: u64 = match c {
            '0' => 0,
            '1' => 1,
            '2' => 2,
            '3' => 3,
            '4' => 4,
            '5' => 5,
            '6' => 6,
            '7' => 7,
            '8' => 8,
            '9' => 9,
            _ => {
                proof {
                    assert(!is_dec_digit(s@[i as int]));
                    assert(!all_dec_digits(s@));
                }
                return None;
            },
        };
        proof {
            assert(is_dec_digit(s@[i as int]));
            assert(dec_val(s@[i as int]) == d as int);
            assert(s@.take(i + 1).drop_last() =~= s@.take(i as int));
            assert(forall|j: int|
                0 <= j < i + 1 ==> s@.take(i + 1)[j] == #[trigger] s@[j]);
        }
        if acc > (u64::MAX - d) / 10 {
            proof {
                assert(acc as int * 10 + d as int > u64::MAX as int) by (nonlinear_arith)
                    requires
                        acc as int > (u64::MAX as int - d as int) / 10,
                        0 <= d as int <= 9,
                ;
                assert(dec_value(s@.take(i + 1)) > u64::MAX as int);
                if all_dec_digits(s@) {
                    lemma_dec_value_take_grows(s@, i + 1);
                    assert(s@.take(n as int) =~= s@);
                    assert(dec_value(s@) > u64::MAX as int);
                }
            }
            return None;
        }
        proof {
            assert(acc as int * 10 + d as int <= u64::MAX as int) by (nonlinear_arith)
                requires
                    acc as int <= (u64::MAX as int - d as int) / 10,
                    0 <= d as int <= 9,
            ;
        }
        acc = acc * 10 + d;
        i = i + 1;
    }
    proof {
        assert(s@.take(n as int) =~= s@);
    }
    Some(acc)
}

} // verus!

verus! {

// ---------------------------------------------------------------------------
// Expiry
// ---------------------------------------------------------------------------

/// A value with an embedded creation time whose expiry is judged against a
/// caller-supplied lifetime.
pub trait Expire: Sized {
    spec fn created_spec(&self) -> Time;

    fn get_created(&self) -> (r: Res<Time>)
        ensures
            r matches Ok(t) && t == self.created_spec(),
    ;

    /// Checks whether, for the given lifetime, the value has expired at
    /// `now`: expired exactly when `created + delta <= now`. On success the
    /// expiry time is returned, saturated to the largest representable time.
    fn check_exp(&self, delta: Time, now: Time) -> (r: Res<Time>)
        ensures
            self.created_spec() + delta <= now ==> (r matches Err(e) && e.code@ == "exp_err"@
                && e.msg@ == "expired token"@),
            self.created_spec() + delta > now ==> (r matches Ok(exp) && exp as int
                == if self.created_spec() + delta <= u64::MAX {
                self.created_spec() + delta
            } else {
                u64::MAX as int
            }),
    ;
}

impl Expire for UserTokenPayload {
    open spec fn created_spec(&self) -> Time {
        self.created
    }

    fn get_created(&self) -> (r: Res<Time>) {
        Ok(self.created)
    }

    fn check_exp(&self, delta: Time, now: Time) -> (r: Res<Time>) {
        if now >= self.created && now - self.created >= delta {
            return make("exp_err", "expired token");
        }
        if self.created <= u64::MAX - delta {
            Ok(self.created + delta)
        } else {
            Ok(u64::MAX)
        }
    }
}

// ---------------------------------------------------------------------------
// Creation and verification
// ---------------------------------------------------------------------------

/// Signs the payload with the secret, producing
/// `<user_id>.<created>.<signature>`. A negative user id has no spelling in
/// this format and is rejected.
pub fn create_token(payload: &UserTokenPayload, secret: &[u8]) -> (r: Res<String>)
    ensures
        payload.user_id >= 0 ==> (r matches Ok(t) && t@ == token_chars(
            payload.user_id as int,
            payload.created as int,
            secret@,
        )),
        payload.user_id < 0 ==> (r matches Err(e) && e.code@ == "val_err"@),
{
    if payload.user_id < 0 {
        return make("val_err", "negative user id");
    }
    let mut s = String::new();
    push_dec(payload.user_id as u64, &mut s);
    s.append(".");
    push_dec(payload.created, &mut s);
    let mac = hmac_sha256(secret, s.as_str());
    let sig = hex_of_bytes(&mac);
    let mut t = s;
    t.append(".");
    t.append(sig.as_str());
    proof {
        assert(t@ =~= token_chars(payload.user_id as int, payload.created as int, secret@));
    }
    Ok(t)
}

/// Checks the token's shape, its signature under the secret, and its age at
/// `now` against the lifetime `delta`. A malformed token or a wrong
/// signature is `auth_err`; a correctly signed but stale token is `exp_err`.
pub fn verify_token(token: &String, secret: &[u8], delta: Time, now: Time) -> (r: Res<
    UserTokenPayload,
>)
    ensures
        match token_payload_of(token@) {
            None => r matches Err(e) && e.code@ == "auth_err"@,
            Some(p) => if !token_sig_ok(token@, secret@) {
                r matches Err(e) && e.code@ == "auth_err"@
            } else if p.created + delta <= now {
                r matches Err(e) && e.code@ == "exp_err"@
            } else {
                r matches Ok(q) && q == p
            },
        },
{
    proof {
        lemma_find_char_props(token@, '.', 0);
    }
    let n = token.as_str().unicode_len();
    let p1 = match find_dot(token.as_str(), 0) {
        Some(p) => p,
        None => {
            return make("auth_err", "invalid token");
        },
    };
    proof {
        lemma_find_char_props(token@, '.', p1 + 1);
    }
    let p2 = match find_dot(token.as_str(), p1 + 1) {
        Some(p) => p,
        None => {
            return make("auth_err", "invalid token");
        },
    };
    let us = token.as_str().substring_char(0, p1);
    let cs = token.as_str().substring_char(p1 + 1, p2);
    let sig = token.as_str().substring_char(p2 + 1, n);
    let uid = match parse_u64_digits(us) {
        Some(v) => v,
        None => {
            return make("auth_err", "invalid token");
        },
    };
    if uid > i32::MAX as u64 {
        return make("auth_err", "invalid token");
    }
    let created = match parse_u64_digits(cs) {
        Some(v) => v,
        None => {
            return make("auth_err", "invalid token");
        },
    };
    let payload_part = token.as_str().substring_char(0, p2);
    proof {
        reveal_strlit(".");
        assert(payload_part@ =~= us@ + "."@ + cs@);
    }
    let mac = hmac_sha256(secret, payload_part);
    let hs = hex_of_bytes(&mac);
    let sig_owned = String::from_str(sig);
    if !(sig_owned == hs) {
        return make("auth_err", "invalid token");
    }
    let payload = UserTokenPayload { user_id: uid as i32, created };
    match payload.check_exp(delta, now) {
        Ok(_) => Ok(payload),
        Err(e) => Err(e),
    }
}

// ---------------------------------------------------------------------------
// Refresh and access classes
// ---------------------------------------------------------------------------

/// The signing secret of the refresh-token class.
pub open spec fn rt_secret_spec() -> Seq<u8> {
    seq![119u8, 101u8, 108u8, 111u8, 118u8, 101u8, 97u8, 117u8, 116u8, 104u8]
}

/// The signing secret of the access-token class: distinct from the refresh
/// class so that compromise of one cannot forge the other.
pub open spec fn at_secret_spec() -> Seq<u8> {
    seq![104u8, 101u8, 108u8, 108u8, 111u8, 119u8, 111u8, 114u8, 108u8, 100u8]
}

pub fn rt_secret() -> (r: Vec<u8>)
    ensures
        r@ == rt_secret_spec(),
{
    let r: Vec<u8> = vec![119u8, 101u8, 108u8, 111u8, 118u8, 101u8, 97u8, 117u8, 116u8, 104u8];
    proof {
        assert(r@ =~= rt_secret_spec());
    }
    r
}

pub fn at_secret() -> (r: Vec<u8>)
    ensures
        r@ == at_secret_spec(),
{
    let r: Vec<u8> = vec![104u8, 101u8, 108u8, 108u8, 111u8, 119u8, 111u8, 114u8, 108u8, 100u8];
    proof {
        assert(r@ =~= at_secret_spec());
    }
    r
}

/// The lifetime applied to refresh tokens at verification: one year in
/// seconds.
pub const RT_DELTA: u64 = 60 * 60 * 24 * 365;

/// A refresh token for the user, created at `now`.
pub fn issue_rt(user_id: i32, now: Time) -> (r: Res<String>)
    ensures
        user_id >= 0 ==> (r matches Ok(t) && t@ == token_chars(
            user_id as int,
            now as int,
            rt_secret_spec(),
        )),
        user_id < 0 ==> (r matches Err(e) && e.code@ == "val_err"@),
{
    let payload = UserTokenPayload { user_id, created: now };
    let secret = rt_secret();
    create_token(&payload, secret.as_slice())
}

/// An access token for the user, created at `now`.
pub fn issue_at(user_id: i32, now: Time) -> (r: Res<String>)
    ensures
        user_id >= 0 ==> (r matches Ok(t) && t@ == token_chars(
            user_id as int,
            now as int,
            at_secret_spec(),
        )),
        user_id < 0 ==> (r matches Err(e) && e.code@ == "val_err"@),
{
    let payload = UserTokenPayload { user_id, created: now };
    let secret = at_secret();
    create_token(&payload, secret.as_slice())
}

/// A refresh token for the user, created at the current clock time.
pub fn create_rt(user_id: i32) -> (r: Res<String>)
    ensures
        user_id >= 0 ==> (r matches Ok(t) && exists|created: int|
            0 <= created <= u64::MAX && t@ == token_chars(
                user_id as int,
                created,
                rt_secret_spec(),
            )),
        user_id < 0 ==> (r matches Err(e) && e.code@ == "val_err"@),
{
    let now = crate::ryz::time::utc();
    issue_rt(user_id, now)
}

/// An access token for the user, created at the current clock time.
pub fn create_at(user_id: i32) -> (r: Res<String>)
    ensures
        user_id >= 0 ==> (r matches Ok(t) && exists|created: int|
            0 <= created <= u64::MAX && t@ == token_chars(
                user_id as int,
                created,
                at_secret_spec(),
            )),
        user_id < 0 ==> (r matches Err(e) && e.code@ == "val_err"@),
{
    let now = crate::ryz::time::utc();
    issue_at(user_id, now)
}

/// Verifies a refresh token at `now` under the refresh-class secret and
/// lifetime.
pub fn verify_rt(rt: &String, now: Time) -> (r: Res<UserTokenPayload>)
    ensures
        match token_payload_of(rt@) {
            None => r matches Err(e) && e.code@ == "auth_err"@,
            Some(p) => if !token_sig_ok(rt@, rt_secret_spec()) {
                r matches Err(e) && e.code@ == "auth_err"@
            } else if p.created + RT_DELTA <= now {
                r matches Err(e) && e.code@ == "exp_err"@
            } else {
                r matches Ok(q) && q == p
            },
        },
{
    let secret = rt_secret();
    verify_token(rt, secret.as_slice(), RT_DELTA, now)
}

} // verus!

verus! {

proof fn lemma_hex_digits_not_dot(bytes: Seq<u8>)
    ensures
        forall|i: int| 0 <= i < hex_of(bytes).len() ==> #[trigger] hex_of(bytes)[i] != '.',
    decreases bytes.len(),
{
    if bytes.len() > 0 {
        lemma_hex_digits_not_dot(bytes.drop_last());
        let h = hex_of(bytes);
        let hd = hex_of(bytes.drop_last());
        assert(h.len() == hd.len() + 2);
        assert(forall|i: int| 0 <= i < hd.len() ==> h[i] == #[trigger] hd[i]);
        assert(h[h.len() - 2] == hex_digit(bytes.last() as int / 16));
        assert(h[h.len() - 1] == hex_digit(bytes.last() as int % 16));
        assert(hex_digit(bytes.last() as int / 16) != '.');
        assert(hex_digit(bytes.last() as int % 16) != '.');
    }
}

/// A token issued for `(user_id, created)` under a secret parses back to
/// exactly that payload, and its signature checks under the same secret.
pub proof fn lemma_token_roundtrip(user_id: int, created: int, secret: Seq<u8>)
    requires
        0 <= user_id <= i32::MAX,
        0 <= created <= u64::MAX,
    ensures
        token_payload_of(token_chars(user_id, created, secret)) == Some(
            UserTokenPayload { user_id: user_id as i32, created: created as u64 },
        ),
        token_sig_ok(token_chars(user_id, created, secret), secret),
{
    reveal_strlit(".");
    let us = dec_of(user_id);
    let cs = dec_of(created);
    let pay = payload_chars(user_id, created);
    let sig = hex_of(mac_of(secret, pay));
    let t = token_chars(user_id, created, secret);
    lemma_dec_of_parses(user_id);
    lemma_dec_of_parses(created);
    lemma_hex_digits_not_dot(mac_of(secret, pay));
    let p1 = us.len() as int;
    let p2 = p1 + 1 + cs.len() as int;
    assert(t.len() == us.len() + 1 + cs.len() + 1 + sig.len());
    assert(forall|j: int| 0 <= j < p1 ==> t[j] == us[j]);
    assert(t[p1] == '.');
    assert(forall|j: int| p1 + 1 <= j < p2 ==> t[j] == cs[j - p1 - 1]);
    assert(t[p2] == '.');
    assert(forall|j: int| p2 + 1 <= j < t.len() ==> t[j] == sig[j - p2 - 1]);
    assert(forall|j: int| 0 <= j < p1 ==> t[j] != '.') by {
        assert(forall|j: int| 0 <= j < p1 ==> is_dec_digit(#[trigger] us[j]));
    }
    assert(forall|j: int| p1 + 1 <= j < p2 ==> t[j] != '.') by {
        assert(forall|j: int| 0 <= j < cs.len() ==> is_dec_digit(#[trigger] cs[j]));
    }
    lemma_find_char_at(t, '.', 0, p1);
    lemma_find_char_at(t, '.', p1 + 1, p2);
    assert(t.subrange(0, p1) =~= us);
    assert(t.subrange(p1 + 1, p2) =~= cs);
    assert(t.subrange(p2 + 1, t.len() as int) =~= sig);
    assert(token_fields(t) == Some((us, cs, sig)));
    assert(us + "."@ + cs =~= pay);
}

/// Token lifetime is independent of issuance: a token issued at `t0`
/// carries only `t0`, still verifies one second before `t0 + ttl`, and is
/// expired from `t0 + ttl` on, for a lifetime supplied only at
/// verification time.
pub proof fn lemma_token_ttl_window(user_id: int, t0: int, secret: Seq<u8>, ttl: int)
    requires
        0 <= user_id <= i32::MAX,
        0 <= t0 <= u64::MAX,
        ttl >= 1,
    ensures
        token_payload_of(token_chars(user_id, t0, secret)) matches Some(p) && p.user_id
            == user_id && p.created == t0 && !(p.created + ttl <= t0 + ttl - 1) && p.created
            + ttl <= t0 + ttl + 1,
        token_sig_ok(token_chars(user_id, t0, secret), secret),
{
    lemma_token_roundtrip(user_id, t0, secret);
}

} // verus!

//! Identity: user creation, login, and `Authorization` header checks.

use vstd::prelude::*;

use crate::bytes::{bytes_eq, find_byte, find_byte_at, subvec};
use crate::codec::{enc_user, encode_user, parse_user, parse_user_record};
use crate::ids::fresh_uuid;
use crate::records::{cancelled_monotone, lemma_monotone_insert_other,
    lemma_monotone_refl, published_monotone, username_taken};
use crate::store::{db_map, db_order, is_user_key, lemma_key_namespace, make_user_key,
    store_cas, store_flush, store_scan, user_key, CasOutcome};
use crate::types::{BrokerError, Claims, Config, Login, Token, User, UserForm, UserV,
    JWT};

verus! {

// ---------------------------------------------------------------------
// trusted items: bcrypt, jsonwebtoken, base64
// ---------------------------------------------------------------------

/// Whether `bcrypt::verify` accepts this password against this stored
/// hash: a function of the two byte strings alone.
pub uninterp spec fn bcrypt_check(password: Seq<u8>, hash: Seq<u8>) -> bool;

/// Relies on bcrypt::hash with the crate's default cost: a fresh salted
/// hash of the password. The salt is random, so only this is stated:
/// bcrypt::verify accepts the password against the returned hash.
#[verifier::external_body]
fn bcrypt_hash(password: &Vec<u8>) -> (r: Option<Vec<u8>>)
    ensures
        r matches Some(h) ==> bcrypt_check(password@, h@),
{
    match bcrypt::hash(password.as_slice(), bcrypt::DEFAULT_COST) {
        Ok(h) => Some(h.into_bytes()),
        Err(_) => None,
    }
}

/// Relies on bcrypt::verify: whether the password matches the stored
/// hash, deterministically in the two inputs; a malformed hash (or one
/// that is not UTF-8) is rejected.
#[verifier::external_body]
fn bcrypt_verify(password: &Vec<u8>, hash: &Vec<u8>) -> (r: bool)
    ensures
        r == bcrypt_check(password@, hash@),
{
    match std::str::from_utf8(hash.as_slice()) {
        Ok(h) => bcrypt::verify(password.as_slice(), h).unwrap_or(false),
        Err(_) => false,
    }
}

/// The compact token jsonwebtoken::encode produces for the claims
/// `{sub, company: "", exp}` signed HS256 with `secret`: deterministic
/// in the three inputs.
pub uninterp spec fn jwt_encode_of(sub: Seq<u8>, exp: u64, secret: Seq<u8>) -> Seq<u8>;

/// The claims a token's payload part carries, independent of any key or
/// clock: what jsonwebtoken's decoding reads out of the token text alone.
pub uninterp spec fn jwt_payload_of(token: Seq<u8>) -> Option<(Seq<u8>, u64)>;

/// Relies on jsonwebtoken::encode (HS256, default header): the token is a
/// deterministic function of subject, expiry and secret, and decoding it
/// yields the same subject and expiry back.
#[verifier::external_body]
fn jwt_encode(sub: &Vec<u8>, exp: u64, secret: &Vec<u8>) -> (r: Option<Vec<u8>>)
    ensures
        r matches Some(t) ==> t@ == jwt_encode_of(sub@, exp, secret@)
            && jwt_payload_of(t@) == Some((sub@, exp)),
{
    let sub_s = match std::str::from_utf8(sub.as_slice()) {
        Ok(s) => s.to_string(),
        Err(_) => return None,
    };
    let mut claims = serde_json::Map::new();
    claims.insert("sub".to_string(), serde_json::Value::String(sub_s));
    claims.insert("company".to_string(), serde_json::Value::String(String::new()));
    claims.insert("exp".to_string(), serde_json::Value::from(exp));
    let key = jsonwebtoken::EncodingKey::from_secret(secret.as_slice());
    match jsonwebtoken::encode(
        &jsonwebtoken::Header::default(), &serde_json::Value::Object(claims), &key) {
        Ok(t) => Some(t.into_bytes()),
        Err(_) => None,
    }
}

/// Relies on jsonwebtoken::decode (HS256, default validation): on success
/// the returned subject and expiry are the token's own payload. Success
/// further requires the signature to verify under `secret` and the expiry
/// to lie in the future, which depends on the clock; so nothing is
/// promised about when this succeeds.
#[verifier::external_body]
fn jwt_decode(token: &Vec<u8>, secret: &Vec<u8>) -> (r: Option<(Vec<u8>, u64)>)
    ensures
        r matches Some(c) ==> jwt_payload_of(token@) == Some((c.0@, c.1)),
{
    let tok = std::str::from_utf8(token.as_slice()).ok()?;
    let key = jsonwebtoken::DecodingKey::from_secret(secret.as_slice());
    let data = jsonwebtoken::decode::<serde_json::Value>(
        tok, &key, &jsonwebtoken::Validation::default()).ok()?.claims;
    let sub = data.get("sub")?.as_str()?.to_string();
    let exp = data.get("exp")?.as_u64()?;
    Some((sub.into_bytes(), exp))
}

/// What base64::decode yields on this input: the standard-alphabet
/// decoding, a function of the input alone; `None` on invalid input.
pub uninterp spec fn base64_decode_of(s: Seq<u8>) -> Option<Seq<u8>>;

/// Relies on base64::decode with the standard alphabet.
#[verifier::external_body]
fn base64_decode(s: &Vec<u8>) -> (r: Option<Vec<u8>>)
    ensures
        r matches Some(v) ==> base64_decode_of(s@) == Some(v@),
        r is None ==> base64_decode_of(s@) is None,
{
    match base64::decode(s.as_slice()) {
        Ok(v) => Some(v),
        Err(_) => None,
    }
}

// ---------------------------------------------------------------------
// user lookup by username
// ---------------------------------------------------------------------

/// The first stored user record in scan order whose username matches.
pub open spec fn find_user(rows: Seq<(Seq<u8>, Seq<u8>)>, name: Seq<u8>) -> Option<UserV>
    decreases rows.len(),
{
    if rows.len() == 0 {
        None
    } else if is_user_key(rows[0].0) && (match parse_user(rows[0].1) {
        Some(u) => u.username == name,
        None => false,
    }) {
        parse_user(rows[0].1)
    } else {
        find_user(rows.skip(1), name)
    }
}

/// Scans the store for the first user carrying `name`.
pub fn find_user_by_name(db: &sled::Db, name: &Vec<u8>) -> (r: Result<
    Option<User>,
    BrokerError,
>)
    ensures
        match r {
            Ok(Some(u)) => find_user(db_order(*db), name@) == Some(u@)
                && username_taken(db_map(*db), name@),
            Ok(None) => find_user(db_order(*db), name@) is None
                && !username_taken(db_map(*db), name@),
            Err(BrokerError::Storage) => true,
            Err(_) => false,
        },
{
    let (rows, ok) = store_scan(db);
    if !ok {
        return Err(BrokerError::Storage);
    }
    let ghost f = |p: (Vec<u8>, Vec<u8>)| (p.0@, p.1@);
    let ghost order = db_order(*db);
    let mut i: usize = 0;
    proof {
        assert(order.skip(0) =~= order);
    }
    while i < rows.len()
        invariant
            i <= rows@.len(),
            order == db_order(*db),
            rows@.map_values(f) == order,
            find_user(order, name@) == find_user(order.skip(i as int), name@),
            forall|j: int| 0 <= j < i ==> !(is_user_key((#[trigger] rows@[j]).0@)
                && (match parse_user(rows@[j].1@) {
                    Some(u) => u.username == name@,
                    None => false,
                })),
            forall|j: int| 0 <= j < rows@.len() ==>
                #[trigger] db_map(*db).contains_key(rows@[j].0@)
                && db_map(*db)[rows@[j].0@] == rows@[j].1@,
            forall|k: Seq<u8>| #[trigger] db_map(*db).contains_key(k) ==>
                exists|j: int| 0 <= j < rows@.len() && #[trigger] rows@[j].0@ == k,
            f == (|p: (Vec<u8>, Vec<u8>)| (p.0@, p.1@)),
        decreases rows@.len() - i,
    {
        proof {
            assert(order[i as int] == f(rows@[i as int]));
            assert(order.skip(i as int)[0] == order[i as int]);
        }
        if crate::store::check_user_key(&rows[i].0) {
            match parse_user_record(&rows[i].1) {
                Some(u) => {
                    if bytes_eq(&u.username, name) {
                        proof {
                            assert(find_user(order.skip(i as int), name@)
                                == parse_user(rows@[i as int].1@));
                            assert(db_map(*db).contains_key(rows@[i as int].0@));
                            assert(username_taken(db_map(*db), name@));
                        }
                        return Ok(Some(u));
                    }
                }
                None => {}
            }
        }
        proof {
            assert(order.skip(i as int).skip(1) =~= order.skip(i as int + 1));
            assert(find_user(order.skip(i as int), name@)
                == find_user(order.skip(i as int + 1), name@));
        }
        i = i + 1;
    }
    proof {
        assert(order.skip(rows@.len() as int) =~= Seq::<(Seq<u8>, Seq<u8>)>::empty());
        assert(find_user(order, name@) is None);
        if username_taken(db_map(*db), name@) {
            let k = choose|k: Seq<u8>| #[trigger] db_map(*db).contains_key(k)
                && is_user_key(k) && (match parse_user(db_map(*db)[k]) {
                    Some(u) => u.username == name@,
                    None => false,
                });
            let j = choose|j: int| 0 <= j < rows@.len() && #[trigger] rows@[j].0@ == k;
            assert(rows@[j].1@ == db_map(*db)[k]);
            assert(false);
        }
    }
    Ok(None)
}

// ---------------------------------------------------------------------
// user creation
// ---------------------------------------------------------------------

/// Enrolls a user: fails exactly when the username is already stored
/// (or the store or hasher fault); otherwise persists a fresh record
/// with a salted adaptive password hash and returns the new id.
pub fn user_create(db: &mut sled::Db, form: &UserForm) -> (r: Result<Vec<u8>, BrokerError>)
    ensures
        published_monotone(db_map(*old(db)), db_map(*final(db))),
        cancelled_monotone(db_map(*old(db)), db_map(*final(db))),
        crate::records::users_preserved(db_map(*old(db)), db_map(*final(db))),
        match r {
            Ok(id) => {
                &&& !username_taken(db_map(*old(db)), form.username@)
                &&& id@.len() == 36
                &&& !db_map(*old(db)).contains_key(user_key(id@))
                &&& exists|h: Seq<u8>| {
                    let u = UserV {
                        id: id@,
                        username: form.username@,
                        password: h,
                        collection_id: form.collection_id@,
                        tenant_id: form.tenant_id@,
                    };
                    #[trigger] bcrypt_check(form.password@, h)
                        && db_map(*final(db)) == db_map(*old(db)).insert(
                            user_key(id@), enc_user(u))
                        && parse_user(enc_user(u)) == Some(u)
                }
                &&& username_taken(db_map(*final(db)), form.username@)
            },
            Err(err) => {
                &&& db_map(*final(db)) == db_map(*old(db))
                &&& match err {
                    BrokerError::UsernameTaken =>
                        username_taken(db_map(*old(db)), form.username@),
                    BrokerError::Storage => true,
                    _ => false,
                }
            },
        },
{
    proof {
        lemma_monotone_refl(db_map(*db));
    }
    match find_user_by_name(db, &form.username) {
        Ok(Some(_)) => {
            return Err(BrokerError::UsernameTaken);
        }
        Ok(None) => {}
        Err(_) => {
            return Err(BrokerError::Storage);
        }
    }
    let hashed = match bcrypt_hash(&form.password) {
        Some(h) => h,
        None => {
            return Err(BrokerError::Storage);
        }
    };
    let id = fresh_uuid();
    let new_user = User {
        id,
        username: form.username.clone(),
        password: hashed,
        collection_id: form.collection_id.clone(),
        tenant_id: form.tenant_id.clone(),
    };
    let text = encode_user(&new_user);
    // The canonical encoding must read back as the record it encodes;
    // check rather than assume.
    match parse_user_record(&text) {
        Some(chk) => {
            if !crate::types::user_eq(&chk, &new_user) {
                return Err(BrokerError::Storage);
            }
        }
        None => {
            return Err(BrokerError::Storage);
        }
    }
    let ukey = make_user_key(&new_user.id);
    match store_cas(db, &ukey, None, &text) {
        CasOutcome::Done => {
            let _ = store_flush(db);
            proof {
                let m0 = db_map(*old(db));
                let m1 = db_map(*final(db));
                lemma_key_namespace(new_user.id@);
                lemma_monotone_insert_other(m0, ukey@, text@);
                crate::records::lemma_users_preserved_insert(m0, ukey@, text@);
                assert(m1.contains_key(user_key(new_user.id@)));
                assert(m1[user_key(new_user.id@)] == enc_user(new_user@));
                assert(username_taken(m1, form.username@));
                assert(bcrypt_check(form.password@, new_user.password@));
            }
            Ok(new_user.id)
        }
        CasOutcome::Mismatch => Err(BrokerError::Storage),
        CasOutcome::Fault => Err(BrokerError::Storage),
    }
}

// ---------------------------------------------------------------------
// login
// ---------------------------------------------------------------------

/// Verifies a username/password pair and issues a signed bearer token
/// whose subject is the user's id and whose expiry is `now` plus the
/// configured lifetime. Fails with `AuthFailed` on any credential
/// mismatch, never saying which half failed.
pub fn login(db: &sled::Db, login_form: &Login, config: &Config, now: i64) -> (r: Result<
    Token,
    BrokerError,
>)
    requires
        0 <= now,
        0 <= config.expiry,
        now + config.expiry <= i64::MAX,
    ensures
        match r {
            Ok(t) => match find_user(db_order(*db), login_form.username@) {
                Some(u) => {
                    &&& bcrypt_check(login_form.password@, u.password)
                    &&& t.jwt@ == jwt_encode_of(
                        u.id, (now + config.expiry) as u64, config.secret@)
                    &&& jwt_payload_of(t.jwt@) == Some((
                        u.id, (now + config.expiry) as u64))
                },
                None => false,
            },
            Err(BrokerError::AuthFailed) => match find_user(
                db_order(*db), login_form.username@) {
                Some(u) => !bcrypt_check(login_form.password@, u.password),
                None => true,
            },
            Err(BrokerError::TokenInvalid) => match find_user(
                db_order(*db), login_form.username@) {
                Some(u) => bcrypt_check(login_form.password@, u.password),
                None => false,
            },
            Err(BrokerError::Storage) => true,
            Err(_) => false,
        },
{
    let user = match find_user_by_name(db, &login_form.username) {
        Ok(Some(u)) => u,
        Ok(None) => {
            return Err(BrokerError::AuthFailed);
        }
        Err(_) => {
            return Err(BrokerError::Storage);
        }
    };
    if !bcrypt_verify(&login_form.password, &user.password) {
        return Err(BrokerError::AuthFailed);
    }
    let exp: u64 = (now + config.expiry) as u64;
    match jwt_encode(&user.id, exp, &config.secret) {
        Some(t) => Ok(Token { jwt: t }),
        None => Err(BrokerError::TokenInvalid),
    }
}

// ---------------------------------------------------------------------
// Authorization header verification
// ---------------------------------------------------------------------

/// `Bearer`
pub open spec fn bearer_word() -> Seq<u8> {
    seq![66u8, 101, 97, 114, 101, 114]
}

/// `Basic`
pub open spec fn basic_word() -> Seq<u8> {
    seq![66u8, 97, 115, 105, 99]
}

/// The header's first space-separated word.
pub open spec fn word1(s: Seq<u8>) -> Seq<u8> {
    s.subrange(0, find_byte(s, 0, 32))
}

/// The header's second space-separated word (empty if there is none).
pub open spec fn word2(s: Seq<u8>) -> Seq<u8> {
    let w1 = find_byte(s, 0, 32);
    if w1 < s.len() {
        s.subrange(w1 + 1, find_byte(s, w1 + 1, 32))
    } else {
        Seq::empty()
    }
}

/// The basic-credential check succeeds for this header with this subject:
/// the second word decodes from base64, splits once on `:`, the username
/// has a stored record, and bcrypt accepts the password against its hash.
pub open spec fn basic_auth_ok(
    rows: Seq<(Seq<u8>, Seq<u8>)>,
    header: Seq<u8>,
    sub: Seq<u8>,
) -> bool {
    match base64_decode_of(word2(header)) {
        Some(cred) => {
            let c = find_byte(cred, 0, 58);
            c < cred.len() && (match find_user(rows, cred.subrange(0, c)) {
                Some(u) => bcrypt_check(cred.subrange(c + 1, cred.len() as int), u.password)
                    && sub == u.id,
                None => false,
            })
        },
        None => false,
    }
}

/// Checks an `Authorization` header: `Bearer <token>` against the shared
/// secret, or `Basic <base64(username:password)>` against the stored
/// users. Anything else is unauthenticated; a denied check carries empty
/// claims.
pub fn jwt_verify(db: &sled::Db, config: &Config, header: &Vec<u8>) -> (r: JWT)
    ensures
        r.check ==> {
            ||| (word1(header@) == bearer_word() && jwt_payload_of(word2(header@))
                    == Some((r.claims.sub@, r.claims.exp)))
            ||| (word1(header@) == basic_word()
                    && basic_auth_ok(db_order(*db), header@, r.claims.sub@))
        },
        !r.check ==> r.claims.sub@ == Seq::<u8>::empty() && r.claims.exp == 0,
        r.claims.company@ == Seq::<u8>::empty(),
{
    let w1 = find_byte_at(header, 0, 32);
    if w1 == header.len() {
        return JWT {
            check: false,
            claims: Claims { sub: Vec::new(), company: Vec::new(), exp: 0 },
        };
    }
    let auth_type = subvec(header, 0, w1);
    let w2 = find_byte_at(header, w1 + 1, 32);
    let token = subvec(header, w1 + 1, w2);
    let bearer: [u8; 6] = [66, 101, 97, 114, 101, 114];
    let basic: [u8; 5] = [66, 97, 115, 105, 99];
    proof {
        assert(bearer@ =~= bearer_word());
        assert(basic@ =~= basic_word());
    }
    let mut kind: u8 = 0;
    if auth_type.len() == 6 {
        let mut same = true;
        let mut k: usize = 0;
        while k < 6
            invariant
                k <= 6,
                auth_type@.len() == 6,
                bearer@.len() == 6,
                same == (forall|j: int| 0 <= j < k ==> auth_type@[j] == bearer@[j]),
            decreases 6 - k,
        {
            if auth_type[k] != bearer[k] {
                same = false;
            }
            k = k + 1;
        }
        if same {
            proof {
                assert(auth_type@ =~= bearer_word());
            }
            kind = 1;
        }
    } else if auth_type.len() == 5 {
        let mut same = true;
        let mut k: usize = 0;
        while k < 5
            invariant
                k <= 5,
                auth_type@.len() == 5,
                basic@.len() == 5,
                same == (forall|j: int| 0 <= j < k ==> auth_type@[j] == basic@[j]),
            decreases 5 - k,
        {
            if auth_type[k] != basic[k] {
                same = false;
            }
            k = k + 1;
        }
        if same {
            proof {
                assert(auth_type@ =~= basic_word());
            }
            kind = 2;
        }
    }
    if kind == 1 {
        // Bearer
        match jwt_decode(&token, &config.secret) {
            Some((sub, exp)) => {
                return JWT {
                    check: true,
                    claims: Claims { sub, company: Vec::new(), exp },
                };
            }
            None => {
                return JWT {
                    check: false,
                    claims: Claims { sub: Vec::new(), company: Vec::new(), exp: 0 },
                };
            }
        }
    }
    if kind == 2 {
        // Basic
        let cred = match base64_decode(&token) {
            Some(c) => c,
            None => {
                return JWT {
                    check: false,
                    claims: Claims { sub: Vec::new(), company: Vec::new(), exp: 0 },
                };
            }
        };
        let colon = find_byte_at(&cred, 0, 58);
        if colon == cred.len() {
            return JWT {
                check: false,
                claims: Claims { sub: Vec::new(), company: Vec::new(), exp: 0 },
            };
        }
        let username = subvec(&cred, 0, colon);
        let password = subvec(&cred, colon + 1, cred.len());
        let user = match find_user_by_name(db, &username) {
            Ok(Some(u)) => u,
            Ok(None) => {
                return JWT {
                    check: false,
                    claims: Claims { sub: Vec::new(), company: Vec::new(), exp: 0 },
                };
            }
            Err(_) => {
                return JWT {
                    check: false,
                    claims: Claims { sub: Vec::new(), company: Vec::new(), exp: 0 },
                };
            }
        };
        if bcrypt_verify(&password, &user.password) {
            return JWT {
                check: true,
                claims: Claims { sub: user.id, company: Vec::new(), exp: 0 },
            };
        }
        return JWT {
            check: false,
            claims: Claims { sub: Vec::new(), company: Vec::new(), exp: 0 },
        };
    }
    JWT {
        check: false,
        claims: Claims { sub: Vec::new(), company: Vec::new(), exp: 0 },
    }
}

} // verus!

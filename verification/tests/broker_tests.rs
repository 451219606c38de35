use broker::codec::{encode_event, encode_user, parse_event_record, parse_user_record};
use broker::events::{cancel, insert};
use broker::identity::{jwt_verify, login, user_create};
use broker::projection::{collection, get_events, user_collection};
use broker::scheduler::scheduler_tick;
use broker::session::event_stream;
use broker::types::{BrokerError, Config, Event, EventData, EventForm, Login, UserForm};

fn tmp_db() -> sled::Db {
    sled::Config::new().temporary(true).open().unwrap()
}

fn b(s: &str) -> Vec<u8> {
    s.as_bytes().to_vec()
}

fn cfg() -> Config {
    Config {
        port: 8080,
        expiry: 3600,
        origin: b("http://localhost:3000"),
        secret: b("secret"),
        save_path: b("./tmp/broker_data"),
        connection: b("http"),
        cert_path: b("./broker.pem"),
        key_path: b("./broker.rsa"),
    }
}

const TA: &str = "e69d88c2-135e-4280-9cd8-d4a5edd8642a";
const C1: &str = "3ca76743-8d99-4d3f-b85c-633ea456f90c";
const C2: &str = "3ca76743-8d99-4d3f-b85c-633ea456f90d";

fn form(name: &str, pw: &str, coll: &str, tenant: &str) -> UserForm {
    UserForm {
        username: b(name),
        password: b(pw),
        collection_id: b(coll),
        tenant_id: b(tenant),
    }
}

fn event_form(name: &str, tenant: &str, coll: &str, ts: i64, data: EventData) -> EventForm {
    EventForm {
        collection_id: b(coll),
        tenant_id: b(tenant),
        event: b(name),
        timestamp: ts,
        data,
    }
}

fn contains_sub(hay: &[u8], needle: &[u8]) -> bool {
    hay.windows(needle.len()).any(|w| w == needle)
}

fn expect_err<T>(r: Result<T, BrokerError>) -> BrokerError {
    match r {
        Err(e) => e,
        Ok(_) => panic!("expected an error"),
    }
}

#[test]
fn unique_usernames() {
    let mut db = tmp_db();
    let id1 = user_create(&mut db, &form("rust22", "rust", C1, TA)).unwrap();
    assert_eq!(id1.len(), 36);
    let id2 = user_create(&mut db, &form("rust23", "rust", C2, TA)).unwrap();
    assert_ne!(id1, id2);
    let again = user_create(&mut db, &form("rust22", "other", C1, TA));
    assert_eq!(expect_err(again), BrokerError::UsernameTaken);
}

#[test]
fn login_and_bearer_verify() {
    let mut db = tmp_db();
    let id = user_create(&mut db, &form("rust22", "rust", C1, TA)).unwrap();
    let token = login(
        &db,
        &Login { username: b("rust22"), password: b("rust") },
        &cfg(),
        4078667309,
    )
    .unwrap();
    let mut header = b("Bearer ");
    header.extend_from_slice(&token.jwt);
    let jwt = jwt_verify(&db, &cfg(), &header);
    assert!(jwt.check);
    assert_eq!(jwt.claims.sub, id);

    let bad = jwt_verify(&db, &cfg(), &b("foo"));
    assert!(!bad.check);
    let bad2 = jwt_verify(&db, &cfg(), &b("Bearer 1234"));
    assert!(!bad2.check);
}

#[test]
fn login_rejects_wrong_password() {
    let mut db = tmp_db();
    let _ = user_create(&mut db, &form("rust22", "rust", C1, TA)).unwrap();
    let r = login(
        &db,
        &Login { username: b("rust22"), password: b("wrong") },
        &cfg(),
        1578667309,
    );
    assert_eq!(expect_err(r), BrokerError::AuthFailed);
    let r2 = login(
        &db,
        &Login { username: b("nobody"), password: b("rust") },
        &cfg(),
        1578667309,
    );
    assert_eq!(expect_err(r2), BrokerError::AuthFailed);
}

#[test]
fn basic_auth_verify() {
    let mut db = tmp_db();
    let id = user_create(&mut db, &form("rust22", "rust", C1, TA)).unwrap();
    let encoded = base64::encode("rust22:rust");
    let mut header = b("Basic ");
    header.extend_from_slice(encoded.as_bytes());
    let jwt = jwt_verify(&db, &cfg(), &header);
    assert!(jwt.check);
    assert_eq!(jwt.claims.sub, id);

    let bad = base64::encode("rust22:wrong");
    let mut header2 = b("Basic ");
    header2.extend_from_slice(bad.as_bytes());
    assert!(!jwt_verify(&db, &cfg(), &header2).check);
}

#[test]
fn insert_checks_tenant() {
    let mut db = tmp_db();
    let id = user_create(&mut db, &form("rust22", "rust", C1, TA)).unwrap();
    let ok = insert(
        &mut db,
        &id,
        event_form("test", TA, C1, 1578667309, EventData::Scalar(b("\"{}\""))),
    )
    .unwrap();
    assert!(!ok.published);
    assert!(!ok.cancelled);

    let wrong = insert(
        &mut db,
        &id,
        event_form("test", C2, C1, 1578667309, EventData::Scalar(b("\"{}\""))),
    );
    assert_eq!(expect_err(wrong), BrokerError::TenantMismatch);

    let unknown = insert(
        &mut db,
        &b("no-such-user"),
        event_form("test", TA, C1, 1578667309, EventData::Scalar(b("\"{}\""))),
    );
    assert_eq!(expect_err(unknown), BrokerError::UnknownUser);
}

#[test]
fn scheduler_publishes_due_events_only() {
    let mut db = tmp_db();
    let id = user_create(&mut db, &form("rust22", "rust", C1, TA)).unwrap();
    let past = insert(
        &mut db,
        &id,
        event_form("test", TA, C1, 1578667309, EventData::Scalar(b("\"{}\""))),
    )
    .unwrap();
    let future = insert(
        &mut db,
        &id,
        event_form("user", TA, C2, i64::MAX - 10, EventData::Scalar(b("\"{}\""))),
    )
    .unwrap();
    let now = 1578667309 + 1000;
    let outcome = scheduler_tick(&mut db, now);
    assert!(outcome.clean);
    assert_eq!(outcome.published.len(), 1);
    assert_eq!(outcome.published[0].id, past.id);
    assert!(outcome.published[0].published);
    assert!(!outcome.published[0].cancelled);

    // C1 now shows the published event; C2 is still unpublished.
    let c1 = collection(&db, &b(C1), &id).unwrap();
    assert_eq!(c1.events.len(), 1);
    assert!(c1.events[0].published);
    let c2 = collection(&db, &b(C2), &id).unwrap();
    assert_eq!(c2.events.len(), 1);
    assert!(!c2.events[0].published);

    // A second pass finds nothing due: publication happens once.
    let outcome2 = scheduler_tick(&mut db, now);
    assert!(outcome2.clean);
    assert_eq!(outcome2.published.len(), 0);
    let _ = future;
}

#[test]
fn cancel_is_terminal_and_tenant_checked() {
    let mut db = tmp_db();
    let id = user_create(&mut db, &form("rust22", "rust", C1, TA)).unwrap();
    let ev = insert(
        &mut db,
        &id,
        event_form("user", TA, C2, i64::MAX - 10, EventData::Scalar(b("\"{}\""))),
    )
    .unwrap();
    let cancelled = cancel(&mut db, &id, &ev.id).unwrap();
    assert!(cancelled.cancelled);

    // The scheduler never publishes a cancelled event.
    let outcome = scheduler_tick(&mut db, i64::MAX - 1);
    assert!(outcome.clean);
    assert_eq!(outcome.published.len(), 0);
    let c2 = collection(&db, &b(C2), &id).unwrap();
    assert!(!c2.events[0].published);
    assert!(c2.events[0].cancelled);

    // Cancelling twice stays cancelled.
    let again = cancel(&mut db, &id, &ev.id).unwrap();
    assert!(again.cancelled);

    // A user of another tenant gets the event back unchanged.
    let other = user_create(&mut db, &form("other", "pw", C1, C2)).unwrap();
    let ev2 = insert(
        &mut db,
        &id,
        event_form("user", TA, C2, i64::MAX - 10, EventData::Scalar(b("\"{}\""))),
    )
    .unwrap();
    let untouched = cancel(&mut db, &other, &ev2.id).unwrap();
    assert!(!untouched.cancelled);

    let missing = cancel(&mut db, &id, &b("no-such-event"));
    assert_eq!(expect_err(missing), BrokerError::NotFound);
}

#[test]
fn user_collection_views() {
    let mut db = tmp_db();
    let id = user_create(&mut db, &form("rust22", "rust", C1, TA)).unwrap();
    let _e1 = insert(
        &mut db,
        &id,
        event_form("b", TA, C1, 200, EventData::Scalar(b("\"{}\""))),
    )
    .unwrap();
    let _e2 = insert(
        &mut db,
        &id,
        event_form("a", TA, C1, 100, EventData::Scalar(b("\"{}\""))),
    )
    .unwrap();
    let uc = user_collection(&db, &id).unwrap();
    assert_eq!(uc.info.len(), 2);
    assert_eq!(uc.events.len(), 2);
    // sorted ascending by timestamp
    assert_eq!(uc.info[0].timestamp, 100);
    assert_eq!(uc.info[1].timestamp, 200);
    assert_eq!(uc.events[0].event, b("a"));

    let unknown = user_collection(&db, &b("nobody"));
    assert_eq!(expect_err(unknown), BrokerError::UnknownUser);
}

#[test]
fn snapshot_idempotent_and_tenant_bound() {
    let mut db = tmp_db();
    let id = user_create(&mut db, &form("rust22", "rust", C1, TA)).unwrap();
    let _ = insert(
        &mut db,
        &id,
        event_form(
            "test",
            TA,
            C1,
            1578667309,
            EventData::Object(vec![(b("temp_high"), b("20"))]),
        ),
    )
    .unwrap();
    let a = get_events(&db, &b(TA)).unwrap();
    let bb = get_events(&db, &b(TA)).unwrap();
    assert_eq!(a.len(), 1);
    assert_eq!(a.len(), bb.len());
    for i in 0..a.len() {
        assert_eq!(a[i].event, bb[i].event);
        assert_eq!(a[i].data, bb[i].data);
        assert_eq!(a[i].tenant_id, b(TA));
        assert_eq!(a[i].retry, 5000);
        assert_eq!(a[i].id.len(), 36);
    }
    // Another tenant sees nothing of this one.
    let other = get_events(&db, &b(C2)).unwrap();
    assert_eq!(other.len(), 0);

    // The object's key becomes a column with a sentence-case title.
    assert!(contains_sub(&a[0].data, b"{\"field\":\"temp_high\",\"title\":\"Temp high\"}"));
    assert!(contains_sub(&a[0].data, b"\"temp_high\":20"));
    assert!(contains_sub(&a[0].data, b"\"timestamp\":\"1578667309\""));
}

#[test]
fn snapshot_scalar_data_has_no_rows() {
    let mut db = tmp_db();
    let id = user_create(&mut db, &form("rust22", "rust", C1, TA)).unwrap();
    let _ = insert(
        &mut db,
        &id,
        event_form("test", TA, C1, 1578667309, EventData::Scalar(b("\"{}\""))),
    )
    .unwrap();
    let frames = get_events(&db, &b(TA)).unwrap();
    assert_eq!(frames.len(), 1);
    assert_eq!(frames[0].event, b("test"));
    // A scalar data value contributes neither rows nor columns.
    let expected = b"{\"events\":[],\"columns\":[\
{\"field\":\"timestamp\",\"title\":\"Timestamp\"},\
{\"field\":\"collection_id\",\"title\":\"collection_id\"}],\"rows\":[]}";
    assert_eq!(frames[0].data, expected.to_vec());
}

#[test]
fn session_frames() {
    let mut db = tmp_db();
    let id = user_create(&mut db, &form("rust22", "rust", C1, TA)).unwrap();
    let ev = insert(
        &mut db,
        &id,
        event_form("test", TA, C1, 100, EventData::Object(vec![(b("k"), b("1"))])),
    )
    .unwrap();

    // denied
    let denied = event_stream(&db, false, &b(TA), None).unwrap();
    assert_eq!(denied.len(), 1);
    assert_eq!(denied[0].event, b("internal_status"));
    assert_eq!(denied[0].data, b("{\"error\":\"denied\"}"));
    assert_eq!(denied[0].tenant_id, b(TA));

    // keepalive without a nudge
    let idle = event_stream(&db, true, &b(TA), None).unwrap();
    assert_eq!(idle.len(), 1);
    assert_eq!(idle[0].data, b("{\"status\":\"polling\"}"));

    // a nudge of the session's tenant re-projects the snapshot
    let frames = event_stream(&db, true, &b(TA), Some(&ev)).unwrap();
    assert_eq!(frames.len(), 1);
    assert_eq!(frames[0].event, b("test"));
    for f in &frames {
        assert_eq!(f.tenant_id, b(TA));
    }

    // a nudge of another tenant only keeps the stream alive
    let mut foreign = ev;
    foreign.tenant_id = b(C2);
    let still = event_stream(&db, true, &b(TA), Some(&foreign)).unwrap();
    assert_eq!(still.len(), 1);
    assert_eq!(still[0].data, b("{\"status\":\"polling\"}"));
}

#[test]
fn record_codec_round_trip() {
    let ev = Event {
        id: b("0f0f0f0f-0000-4000-8000-000000000001"),
        user_id: b("0f0f0f0f-0000-4000-8000-000000000002"),
        collection_id: b(C1),
        tenant_id: b(TA),
        event: b("na\"me\\x"),
        timestamp: -42,
        published: true,
        cancelled: false,
        data: EventData::Object(vec![(b("a\"b"), b("\"x\\\"y\"")), (b("n"), b("7"))]),
    };
    let text = encode_event(&ev);
    let back = parse_event_record(&text).unwrap();
    assert_eq!(back.id, ev.id);
    assert_eq!(back.event, ev.event);
    assert_eq!(back.timestamp, -42);
    assert!(back.published);
    assert!(!back.cancelled);
    match (&back.data, &ev.data) {
        (EventData::Object(x), EventData::Object(y)) => assert_eq!(x, y),
        _ => panic!("data shape changed"),
    }

    let u = broker::types::User {
        id: b("0f0f0f0f-0000-4000-8000-000000000003"),
        username: b("rust22"),
        password: b("$2b$12$abcdefghijk"),
        collection_id: b(C1),
        tenant_id: b(TA),
    };
    let ut = encode_user(&u);
    let ub = parse_user_record(&ut).unwrap();
    assert_eq!(ub.username, u.username);
    assert_eq!(ub.password, u.password);
    assert_eq!(ub.tenant_id, u.tenant_id);
}

#[test]
fn stored_state_survives_reopen_of_handle() {
    // The store keeps records durable across handles within a process:
    // writes are visible to a reader of the same tree.
    let mut db = tmp_db();
    let id = user_create(&mut db, &form("rust22", "rust", C1, TA)).unwrap();
    let ev = insert(
        &mut db,
        &id,
        event_form("test", TA, C1, 1, EventData::Scalar(b("\"{}\""))),
    )
    .unwrap();
    let c = collection(&db, &b(C1), &id).unwrap();
    assert_eq!(c.events.len(), 1);
    assert_eq!(c.events[0].id, ev.id);
}

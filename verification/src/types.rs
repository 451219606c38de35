//! The broker's data model: users, events, forms, frames and configuration.
//!
//! All text is carried as bytes (`Vec<u8>`); identifiers are hyphenated
//! UUID strings in byte form. Each exec type has a ghost view used by the
//! contracts.

use vstd::prelude::*;

verus! {

/// Ghost view of a stored user record.
#[verifier::ext_equal]
pub struct UserV {
    pub id: Seq<u8>,
    pub username: Seq<u8>,
    pub password: Seq<u8>,
    pub collection_id: Seq<u8>,
    pub tenant_id: Seq<u8>,
}

/// Ghost view of an event's free-form data value.
#[verifier::ext_equal]
pub enum DataV {
    /// A JSON object: the top-level keys with the raw JSON text of each value.
    Object(Seq<(Seq<u8>, Seq<u8>)>),
    /// Any non-object JSON value, as raw JSON text.
    Scalar(Seq<u8>),
}

/// Ghost view of an event record.
#[verifier::ext_equal]
pub struct EventV {
    pub id: Seq<u8>,
    pub user_id: Seq<u8>,
    pub collection_id: Seq<u8>,
    pub tenant_id: Seq<u8>,
    pub event: Seq<u8>,
    pub timestamp: i64,
    pub published: bool,
    pub cancelled: bool,
    pub data: DataV,
}

/// A user identity: unique `username`, an adaptive salted password hash,
/// and the collection and tenant the user belongs to.
pub struct User {
    pub id: Vec<u8>,
    pub username: Vec<u8>,
    pub password: Vec<u8>,
    pub collection_id: Vec<u8>,
    pub tenant_id: Vec<u8>,
}

impl View for User {
    type V = UserV;

    open spec fn view(&self) -> UserV {
        UserV {
            id: self.id@,
            username: self.username@,
            password: self.password@,
            collection_id: self.collection_id@,
            tenant_id: self.tenant_id@,
        }
    }
}

/// An event's free-form data value.
#[derive(Clone)]
pub enum EventData {
    /// A JSON object: its top-level keys with the raw JSON text of each value.
    Object(Vec<(Vec<u8>, Vec<u8>)>),
    /// Any non-object JSON value, as raw JSON text.
    Scalar(Vec<u8>),
}

impl View for EventData {
    type V = DataV;

    open spec fn view(&self) -> DataV {
        match self {
            EventData::Object(ps) => DataV::Object(
                ps@.map_values(|p: (Vec<u8>, Vec<u8>)| (p.0@, p.1@)),
            ),
            EventData::Scalar(s) => DataV::Scalar(s@),
        }
    }
}

/// A scheduled, named datum awaiting publication at a wall-clock timestamp.
#[derive(Clone)]
pub struct Event {
    pub id: Vec<u8>,
    pub user_id: Vec<u8>,
    pub collection_id: Vec<u8>,
    pub tenant_id: Vec<u8>,
    pub event: Vec<u8>,
    pub timestamp: i64,
    pub published: bool,
    pub cancelled: bool,
    pub data: EventData,
}

impl View for Event {
    type V = EventV;

    open spec fn view(&self) -> EventV {
        EventV {
            id: self.id@,
            user_id: self.user_id@,
            collection_id: self.collection_id@,
            tenant_id: self.tenant_id@,
            event: self.event@,
            timestamp: self.timestamp,
            published: self.published,
            cancelled: self.cancelled,
            data: self.data@,
        }
    }
}

/// Signup form.
pub struct UserForm {
    pub username: Vec<u8>,
    pub password: Vec<u8>,
    pub collection_id: Vec<u8>,
    pub tenant_id: Vec<u8>,
}

/// Login form.
pub struct Login {
    pub username: Vec<u8>,
    pub password: Vec<u8>,
}

/// Event submission form.
pub struct EventForm {
    pub collection_id: Vec<u8>,
    pub tenant_id: Vec<u8>,
    pub event: Vec<u8>,
    pub timestamp: i64,
    pub data: EventData,
}

/// A signed bearer token.
pub struct Token {
    pub jwt: Vec<u8>,
}

/// Claims carried by a bearer token. `company` is always empty and kept
/// for wire compatibility only.
pub struct Claims {
    pub sub: Vec<u8>,
    pub company: Vec<u8>,
    pub exp: u64,
}

/// Outcome of an `Authorization` header check.
pub struct JWT {
    pub check: bool,
    pub claims: Claims,
}

/// A server-push frame: `event` names the channel, `data` is JSON text,
/// `retry` is the reconnect hint in milliseconds.
pub struct SSE {
    pub event: Vec<u8>,
    pub data: Vec<u8>,
    pub id: Vec<u8>,
    pub retry: u64,
    pub tenant_id: Vec<u8>,
}

/// One event wrapped for a reply body.
pub struct Record {
    pub event: Event,
}

/// The per-user projection: `info` lists the user's collection,
/// `events` the user's own submissions, both sorted by timestamp ascending.
pub struct UserCollection {
    pub info: Vec<Event>,
    pub events: Vec<Event>,
}

/// The per-collection projection, sorted by timestamp ascending.
pub struct Collection {
    pub events: Vec<Event>,
}

/// Full broker configuration.
pub struct Config {
    pub port: u16,
    pub expiry: i64,
    pub origin: Vec<u8>,
    pub secret: Vec<u8>,
    pub save_path: Vec<u8>,
    pub connection: Vec<u8>,
    pub cert_path: Vec<u8>,
    pub key_path: Vec<u8>,
}

/// The environment-sourced part of the configuration.
pub struct Cfg {
    pub save_path: Vec<u8>,
}

/// Everything that can go wrong in the broker core.
#[derive(Debug, PartialEq, Eq, Structural, Clone, Copy)]
pub enum BrokerError {
    /// Signup with a username that is already stored.
    UsernameTaken,
    /// A credential check failed; never says which half.
    AuthFailed,
    /// The acting subject has no stored user record.
    UnknownUser,
    /// A write addressed to a tenant other than the acting user's.
    TenantMismatch,
    /// The addressed record does not exist.
    NotFound,
    /// A bearer token could not be issued.
    TokenInvalid,
    /// The store or one of its dependencies reported a fault.
    Storage,
}

/// An event is due for publication: not yet published, not cancelled,
/// and its scheduled time has arrived.
pub open spec fn eligible(e: EventV, now: i64) -> bool {
    !e.published && !e.cancelled && e.timestamp <= now
}

/// The same event with `published` set.
pub open spec fn with_published(e: EventV) -> EventV {
    EventV { published: true, ..e }
}

/// The same event with `cancelled` set.
pub open spec fn with_cancelled(e: EventV) -> EventV {
    EventV { cancelled: true, ..e }
}

/// Decides equality of two data values.
#[verifier::loop_isolation(false)]
pub fn data_eq(a: &EventData, b: &EventData) -> (r: bool)
    ensures
        r == (a@ == b@),
{
    match (a, b) {
        (EventData::Scalar(x), EventData::Scalar(y)) => crate::bytes::bytes_eq(x, y),
        (EventData::Object(xs), EventData::Object(ys)) => {
            let ghost f = |p: (Vec<u8>, Vec<u8>)| (p.0@, p.1@);
            if xs.len() != ys.len() {
                proof {
                    assert(xs@.map_values(f).len() == xs@.len());
                    assert(ys@.map_values(f).len() == ys@.len());
                }
                return false;
            }
            let mut i: usize = 0;
            while i < xs.len()
                invariant
                    i <= xs@.len(),
                    xs@.len() == ys@.len(),
                    forall|j: int| 0 <= j < i ==> (#[trigger] xs@[j]).0@ == ys@[j].0@
                        && xs@[j].1@ == ys@[j].1@,
                decreases xs@.len() - i,
            {
                if !crate::bytes::bytes_eq(&xs[i].0, &ys[i].0)
                    || !crate::bytes::bytes_eq(&xs[i].1, &ys[i].1) {
                    proof {
                        assert(xs@.map_values(f)[i as int] == f(xs@[i as int]));
                        assert(ys@.map_values(f)[i as int] == f(ys@[i as int]));
                        assert(xs@.map_values(f) != ys@.map_values(f));
                    }
                    return false;
                }
                i = i + 1;
            }
            proof {
                assert forall|j: int| 0 <= j < xs@.len() implies
                    xs@.map_values(f)[j] == ys@.map_values(f)[j] by {
                    assert(xs@.map_values(f)[j] == f(xs@[j]));
                    assert(ys@.map_values(f)[j] == f(ys@[j]));
                }
                assert(xs@.map_values(f) =~~= ys@.map_values(f));
            }
            true
        }
        (EventData::Scalar(_), EventData::Object(_)) => false,
        (EventData::Object(_), EventData::Scalar(_)) => false,
    }
}

/// Decides equality of two events.
pub fn event_eq(a: &Event, b: &Event) -> (r: bool)
    ensures
        r == (a@ == b@),
{
    let r = crate::bytes::bytes_eq(&a.id, &b.id)
        && crate::bytes::bytes_eq(&a.user_id, &b.user_id)
        && crate::bytes::bytes_eq(&a.collection_id, &b.collection_id)
        && crate::bytes::bytes_eq(&a.tenant_id, &b.tenant_id)
        && crate::bytes::bytes_eq(&a.event, &b.event)
        && a.timestamp == b.timestamp
        && a.published == b.published
        && a.cancelled == b.cancelled
        && data_eq(&a.data, &b.data);
    proof {
        if r {
            assert(a@ =~~= b@);
        }
    }
    r
}

/// Decides equality of two user records.
pub fn user_eq(a: &User, b: &User) -> (r: bool)
    ensures
        r == (a@ == b@),
{
    let r = crate::bytes::bytes_eq(&a.id, &b.id)
        && crate::bytes::bytes_eq(&a.username, &b.username)
        && crate::bytes::bytes_eq(&a.password, &b.password)
        && crate::bytes::bytes_eq(&a.collection_id, &b.collection_id)
        && crate::bytes::bytes_eq(&a.tenant_id, &b.tenant_id);
    proof {
        if r {
            assert(a@ =~~= b@);
        }
    }
    r
}

/// Copies an event data value.
pub fn clone_data(d: &EventData) -> (r: EventData)
    ensures
        r@ == d@,
{
    match d {
        EventData::Scalar(s) => EventData::Scalar(s.clone()),
        EventData::Object(ps) => {
            let mut out: Vec<(Vec<u8>, Vec<u8>)> = Vec::new();
            let mut i: usize = 0;
            while i < ps.len()
                invariant
                    i <= ps.len(),
                    out@.len() == i,
                    forall|j: int| 0 <= j < i ==> (#[trigger] out@[j]).0@ == ps@[j].0@
                        && out@[j].1@ == ps@[j].1@,
                decreases ps.len() - i,
            {
                let pair = (ps[i].0.clone(), ps[i].1.clone());
                proof {
                    assert(pair.0@ == ps@[i as int].0@);
                    assert(pair.1@ == ps@[i as int].1@);
                }
                out.push(pair);
                i = i + 1;
            }
            proof {
                let f = |p: (Vec<u8>, Vec<u8>)| (p.0@, p.1@);
                assert forall|j: int| 0 <= j < ps@.len() implies
                    out@.map_values(f)[j] == ps@.map_values(f)[j] by {
                    assert(out@.map_values(f)[j] == f(out@[j]));
                    assert(ps@.map_values(f)[j] == f(ps@[j]));
                }
                assert(out@.map_values(f) =~~= ps@.map_values(f));
            }
            EventData::Object(out)
        }
    }
}

/// Copies an event.
pub fn clone_event(e: &Event) -> (r: Event)
    ensures
        r@ == e@,
{
    Event {
        id: e.id.clone(),
        user_id: e.user_id.clone(),
        collection_id: e.collection_id.clone(),
        tenant_id: e.tenant_id.clone(),
        event: e.event.clone(),
        timestamp: e.timestamp,
        published: e.published,
        cancelled: e.cancelled,
        data: clone_data(&e.data),
    }
}

} // verus!

//! Record-level views of the store's contents, and the monotonicity
//! predicates the broker's mutations preserve.

use vstd::prelude::*;

use crate::codec::{parse_event, parse_user};
use crate::store::{event_key, is_event_key, is_user_key, user_key};
use crate::types::{EventV, UserV};

verus! {

/// The user record stored for `subject`, if present and well formed.
pub open spec fn acting_user(m: Map<Seq<u8>, Seq<u8>>, subject: Seq<u8>) -> Option<UserV> {
    if m.contains_key(user_key(subject)) {
        parse_user(m[user_key(subject)])
    } else {
        None
    }
}

/// The event record stored under `id`, if present and well formed.
pub open spec fn stored_event(m: Map<Seq<u8>, Seq<u8>>, id: Seq<u8>) -> Option<EventV> {
    if m.contains_key(event_key(id)) {
        parse_event(m[event_key(id)])
    } else {
        None
    }
}

/// The stored bytes are an event record with `published` set.
pub open spec fn rec_published(v: Seq<u8>) -> bool {
    match parse_event(v) {
        Some(e) => e.published,
        None => false,
    }
}

/// The stored bytes are an event record with `cancelled` set.
pub open spec fn rec_cancelled(v: Seq<u8>) -> bool {
    match parse_event(v) {
        Some(e) => e.cancelled,
        None => false,
    }
}

/// No event record loses its `published` flag between the two states,
/// and no event record disappears.
pub open spec fn published_monotone(m0: Map<Seq<u8>, Seq<u8>>, m1: Map<Seq<u8>, Seq<u8>>) -> bool {
    forall|k: Seq<u8>| #[trigger] m0.contains_key(k) && is_event_key(k) && rec_published(m0[k])
        ==> m1.contains_key(k) && rec_published(m1[k])
}

/// No event record loses its `cancelled` flag between the two states,
/// and no event record disappears.
pub open spec fn cancelled_monotone(m0: Map<Seq<u8>, Seq<u8>>, m1: Map<Seq<u8>, Seq<u8>>) -> bool {
    forall|k: Seq<u8>| #[trigger] m0.contains_key(k) && is_event_key(k) && rec_cancelled(m0[k])
        ==> m1.contains_key(k) && rec_cancelled(m1[k])
}

/// Some stored user record carries this username.
pub open spec fn username_taken(m: Map<Seq<u8>, Seq<u8>>, name: Seq<u8>) -> bool {
    exists|k: Seq<u8>| #[trigger] m.contains_key(k) && is_user_key(k)
        && (match parse_user(m[k]) {
            Some(u) => u.username == name,
            None => false,
        })
}

/// No stored user record is changed or dropped between the two states.
pub open spec fn users_preserved(m0: Map<Seq<u8>, Seq<u8>>, m1: Map<Seq<u8>, Seq<u8>>) -> bool {
    forall|k: Seq<u8>| #[trigger] m0.contains_key(k) && is_user_key(k)
        ==> m1.contains_key(k) && m1[k] == m0[k]
}

/// A username, once stored, stays stored while user records are preserved.
pub proof fn lemma_username_stays_taken(
    m0: Map<Seq<u8>, Seq<u8>>,
    m1: Map<Seq<u8>, Seq<u8>>,
    name: Seq<u8>,
)
    requires
        username_taken(m0, name),
        users_preserved(m0, m1),
    ensures
        username_taken(m1, name),
{
    let k = choose|k: Seq<u8>| #[trigger] m0.contains_key(k) && is_user_key(k)
        && (match parse_user(m0[k]) {
            Some(u) => u.username == name,
            None => false,
        });
    assert(m1.contains_key(k) && m1[k] == m0[k]);
}

/// Writing a key that is no stored user record preserves every user.
pub proof fn lemma_users_preserved_insert(
    m: Map<Seq<u8>, Seq<u8>>,
    k0: Seq<u8>,
    v0: Seq<u8>,
)
    requires
        !is_user_key(k0) || !m.contains_key(k0),
    ensures
        users_preserved(m, m.insert(k0, v0)),
{
    let m1 = m.insert(k0, v0);
    assert forall|k: Seq<u8>| #[trigger] m.contains_key(k) && is_user_key(k)
        implies m1.contains_key(k) && m1[k] == m[k] by {
        assert(k != k0);
    }
}

/// Both monotonicity predicates are reflexive.
pub proof fn lemma_monotone_refl(m: Map<Seq<u8>, Seq<u8>>)
    ensures
        published_monotone(m, m),
        cancelled_monotone(m, m),
        users_preserved(m, m),
{
}

/// Both monotonicity predicates compose: what two steps each preserve,
/// their succession preserves.
pub proof fn lemma_monotone_trans(
    m0: Map<Seq<u8>, Seq<u8>>,
    m1: Map<Seq<u8>, Seq<u8>>,
    m2: Map<Seq<u8>, Seq<u8>>,
)
    requires
        published_monotone(m0, m1),
        published_monotone(m1, m2),
        cancelled_monotone(m0, m1),
        cancelled_monotone(m1, m2),
    ensures
        published_monotone(m0, m2),
        cancelled_monotone(m0, m2),
{
}

/// Writing a key that is no stored event record — a user key, or a key
/// absent so far — touches no stored event, so both flags are preserved.
pub proof fn lemma_monotone_insert_other(
    m: Map<Seq<u8>, Seq<u8>>,
    k0: Seq<u8>,
    v0: Seq<u8>,
)
    requires
        !is_event_key(k0) || !m.contains_key(k0),
    ensures
        published_monotone(m, m.insert(k0, v0)),
        cancelled_monotone(m, m.insert(k0, v0)),
{
    let m1 = m.insert(k0, v0);
    assert forall|k: Seq<u8>| #[trigger] m.contains_key(k) && is_event_key(k)
        && rec_published(m[k]) implies m1.contains_key(k) && rec_published(m1[k]) by {
        assert(k != k0);
    }
    assert forall|k: Seq<u8>| #[trigger] m.contains_key(k) && is_event_key(k)
        && rec_cancelled(m[k]) implies m1.contains_key(k) && rec_cancelled(m1[k]) by {
        assert(k != k0);
    }
}

/// Replacing one event record with one whose `published` and `cancelled`
/// flags do not fall preserves both flags store-wide.
pub proof fn lemma_monotone_update_event(
    m: Map<Seq<u8>, Seq<u8>>,
    k0: Seq<u8>,
    v0: Seq<u8>,
    e0: EventV,
    e1: EventV,
)
    requires
        m.contains_key(k0),
        parse_event(m[k0]) == Some(e0),
        parse_event(v0) == Some(e1),
        e0.published ==> e1.published,
        e0.cancelled ==> e1.cancelled,
    ensures
        published_monotone(m, m.insert(k0, v0)),
        cancelled_monotone(m, m.insert(k0, v0)),
{
    let m1 = m.insert(k0, v0);
    assert forall|k: Seq<u8>| #[trigger] m.contains_key(k) && is_event_key(k)
        && rec_published(m[k]) implies m1.contains_key(k) && rec_published(m1[k]) by {
        if k == k0 {
            assert(rec_published(m1[k0]) == e1.published);
        }
    }
    assert forall|k: Seq<u8>| #[trigger] m.contains_key(k) && is_event_key(k)
        && rec_cancelled(m[k]) implies m1.contains_key(k) && rec_cancelled(m1[k]) by {
        if k == k0 {
            assert(rec_cancelled(m1[k0]) == e1.cancelled);
        }
    }
}

} // verus!

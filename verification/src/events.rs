//! Event ingress and cancellation.

use vstd::prelude::*;

use crate::codec::{enc_event, encode_event, parse_event, parse_event_record,
    parse_user_record};
use crate::ids::fresh_uuid;
use crate::records::{acting_user, cancelled_monotone, lemma_monotone_insert_other,
    lemma_monotone_update_event, published_monotone, stored_event, users_preserved};
use crate::store::{db_map, event_key, make_event_key, make_user_key, store_cas,
    store_flush, store_get, user_key, CasOutcome, GetOutcome};
use crate::types::{with_cancelled, BrokerError, Event, EventForm, EventV, User};

verus! {

/// Loads and parses the acting user's record.
pub fn load_user(db: &sled::Db, subject_id: &Vec<u8>) -> (r: Result<User, BrokerError>)
    ensures
        match r {
            Ok(u) => acting_user(db_map(*db), subject_id@) == Some(u@),
            Err(BrokerError::UnknownUser) => acting_user(db_map(*db), subject_id@) is None,
            Err(BrokerError::Storage) => true,
            Err(_) => false,
        },
{
    let ukey = make_user_key(subject_id);
    match store_get(db, &ukey) {
        GetOutcome::Found(v) => match parse_user_record(&v) {
            Some(u) => Ok(u),
            None => Err(BrokerError::UnknownUser),
        },
        GetOutcome::Absent => Err(BrokerError::UnknownUser),
        GetOutcome::Fault => Err(BrokerError::Storage),
    }
}

/// Validates and persists a submitted event under the caller's tenant.
///
/// The new record is keyed `_v_<fresh id>`, written compare-and-swap from
/// absent, and flushed. Past-dated timestamps are legal; the record starts
/// with `published == false` and `cancelled == false`.
pub fn insert(db: &mut sled::Db, subject_id: &Vec<u8>, form: EventForm) -> (r: Result<
    Event,
    BrokerError,
>)
    ensures
        published_monotone(db_map(*old(db)), db_map(*final(db))),
        cancelled_monotone(db_map(*old(db)), db_map(*final(db))),
        users_preserved(db_map(*old(db)), db_map(*final(db))),
        match r {
            Ok(e) => {
                &&& match acting_user(db_map(*old(db)), subject_id@) {
                    Some(u) => u.tenant_id == form.tenant_id@ && e@.user_id == u.id,
                    None => false,
                }
                &&& e@.collection_id == form.collection_id@
                &&& e@.tenant_id == form.tenant_id@
                &&& e@.event == form.event@
                &&& e@.timestamp == form.timestamp
                &&& !e@.published
                &&& !e@.cancelled
                &&& e@.data == form.data@
                &&& e@.id.len() == 36
                &&& !db_map(*old(db)).contains_key(event_key(e@.id))
                &&& db_map(*final(db)) == db_map(*old(db)).insert(
                    event_key(e@.id), enc_event(e@))
                &&& parse_event(enc_event(e@)) == Some(e@)
            },
            Err(err) => {
                &&& db_map(*final(db)) == db_map(*old(db))
                &&& match err {
                    BrokerError::UnknownUser =>
                        acting_user(db_map(*old(db)), subject_id@) is None,
                    BrokerError::TenantMismatch =>
                        match acting_user(db_map(*old(db)), subject_id@) {
                            Some(u) => u.tenant_id != form.tenant_id@,
                            None => false,
                        },
                    BrokerError::Storage => true,
                    _ => false,
                }
            },
        },
{
    let user = match load_user(db, subject_id) {
        Ok(u) => u,
        Err(e) => {
            proof {
                crate::records::lemma_monotone_refl(db_map(*db));
            }
            return Err(e);
        }
    };
    if !crate::bytes::bytes_eq(&user.tenant_id, &form.tenant_id) {
        proof {
            crate::records::lemma_monotone_refl(db_map(*db));
        }
        return Err(BrokerError::TenantMismatch);
    }
    let id = fresh_uuid();
    let ev = Event {
        id,
        user_id: user.id,
        collection_id: form.collection_id,
        tenant_id: form.tenant_id,
        event: form.event,
        timestamp: form.timestamp,
        published: false,
        cancelled: false,
        data: form.data,
    };
    let text = encode_event(&ev);
    // The canonical encoding must read back as the record it encodes;
    // check rather than assume.
    match parse_event_record(&text) {
        Some(chk) => {
            if !crate::types::event_eq(&chk, &ev) {
                proof {
                    crate::records::lemma_monotone_refl(db_map(*db));
                }
                return Err(BrokerError::Storage);
            }
        }
        None => {
            proof {
                crate::records::lemma_monotone_refl(db_map(*db));
            }
            return Err(BrokerError::Storage);
        }
    }
    let vkey = make_event_key(&ev.id);
    match store_cas(db, &vkey, None, &text) {
        CasOutcome::Done => {
            let _ = store_flush(db);
            proof {
                lemma_monotone_insert_other(db_map(*old(db)), vkey@, text@);
                crate::store::lemma_key_namespace(ev.id@);
                crate::records::lemma_users_preserved_insert(
                    db_map(*old(db)), vkey@, text@);
            }
            Ok(ev)
        }
        CasOutcome::Mismatch => {
            proof {
                crate::records::lemma_monotone_refl(db_map(*db));
            }
            Err(BrokerError::Storage)
        }
        CasOutcome::Fault => {
            proof {
                crate::records::lemma_monotone_refl(db_map(*db));
            }
            Err(BrokerError::Storage)
        }
    }
}

/// Sets a stored event's `cancelled` flag, under the tenant check: an
/// event of another tenant is returned unchanged and nothing is written.
pub fn cancel(db: &mut sled::Db, subject_id: &Vec<u8>, event_id: &Vec<u8>) -> (r: Result<
    Event,
    BrokerError,
>)
    ensures
        published_monotone(db_map(*old(db)), db_map(*final(db))),
        cancelled_monotone(db_map(*old(db)), db_map(*final(db))),
        users_preserved(db_map(*old(db)), db_map(*final(db))),
        match r {
            Ok(e) => match (
                acting_user(db_map(*old(db)), subject_id@),
                stored_event(db_map(*old(db)), event_id@),
            ) {
                (Some(u), Some(e0)) => if e0.tenant_id == u.tenant_id {
                    &&& e@ == with_cancelled(e0)
                    &&& db_map(*final(db)) == db_map(*old(db)).insert(
                        event_key(event_id@), enc_event(with_cancelled(e0)))
                    &&& parse_event(enc_event(with_cancelled(e0)))
                        == Some(with_cancelled(e0))
                } else {
                    &&& e@ == e0
                    &&& db_map(*final(db)) == db_map(*old(db))
                },
                _ => false,
            },
            Err(err) => {
                &&& db_map(*final(db)) == db_map(*old(db))
                &&& match err {
                    BrokerError::UnknownUser =>
                        acting_user(db_map(*old(db)), subject_id@) is None,
                    BrokerError::NotFound =>
                        stored_event(db_map(*old(db)), event_id@) is None,
                    BrokerError::Storage => true,
                    _ => false,
                }
            },
        },
{
    let user = match load_user(db, subject_id) {
        Ok(u) => u,
        Err(e) => {
            proof {
                crate::records::lemma_monotone_refl(db_map(*db));
            }
            return Err(e);
        }
    };
    let vkey = make_event_key(event_id);
    let stored = match store_get(db, &vkey) {
        GetOutcome::Found(v) => v,
        GetOutcome::Absent => {
            proof {
                crate::records::lemma_monotone_refl(db_map(*db));
            }
            return Err(BrokerError::NotFound);
        }
        GetOutcome::Fault => {
            proof {
                crate::records::lemma_monotone_refl(db_map(*db));
            }
            return Err(BrokerError::Storage);
        }
    };
    let ev = match parse_event_record(&stored) {
        Some(e) => e,
        None => {
            proof {
                crate::records::lemma_monotone_refl(db_map(*db));
            }
            return Err(BrokerError::NotFound);
        }
    };
    if !crate::bytes::bytes_eq(&ev.tenant_id, &user.tenant_id) {
        proof {
            crate::records::lemma_monotone_refl(db_map(*db));
        }
        return Ok(ev);
    }
    let mut cancelled_ev = ev;
    cancelled_ev.cancelled = true;
    proof {
        assert(cancelled_ev@ =~~= with_cancelled(
            stored_event(db_map(*db), event_id@).unwrap()));
    }
    let text = encode_event(&cancelled_ev);
    // The canonical encoding must read back as the record it encodes;
    // check rather than assume.
    match parse_event_record(&text) {
        Some(chk) => {
            if !crate::types::event_eq(&chk, &cancelled_ev) {
                proof {
                    crate::records::lemma_monotone_refl(db_map(*db));
                }
                return Err(BrokerError::Storage);
            }
        }
        None => {
            proof {
                crate::records::lemma_monotone_refl(db_map(*db));
            }
            return Err(BrokerError::Storage);
        }
    }
    match store_cas(db, &vkey, Some(&stored), &text) {
        CasOutcome::Done => {
            let _ = store_flush(db);
            proof {
                let m0 = db_map(*old(db));
                lemma_monotone_update_event(
                    m0, vkey@, text@,
                    stored_event(m0, event_id@).unwrap(),
                    with_cancelled(stored_event(m0, event_id@).unwrap()),
                );
                crate::store::lemma_key_namespace(event_id@);
                crate::records::lemma_users_preserved_insert(m0, vkey@, text@);
            }
            Ok(cancelled_ev)
        }
        CasOutcome::Mismatch => {
            // The expectation is exactly what the point read returned, and
            // nothing wrote in between: this branch cannot be reached.
            proof {
                assert(false);
            }
            Err(BrokerError::Storage)
        }
        CasOutcome::Fault => {
            proof {
                crate::records::lemma_monotone_refl(db_map(*db));
            }
            Err(BrokerError::Storage)
        }
    }
}

} // verus!

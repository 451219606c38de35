//! The scheduler: one pass that publishes every due event.

use vstd::prelude::*;

use crate::bytes::lex_le;
use crate::codec::{enc_event, encode_event, parse_event, parse_event_record};
use crate::records::{cancelled_monotone, published_monotone, users_preserved};
use crate::store::{db_map, db_order, is_event_key, store_cas, store_flush, store_scan,
    CasOutcome};
use crate::types::{eligible, with_published, Event, EventV};

verus! {

/// The stored bytes parse to an event that is due at `now`.
pub open spec fn due_record(v: Seq<u8>, now: i64) -> bool {
    match parse_event(v) {
        Some(e) => eligible(e, now),
        None => false,
    }
}

/// What one scheduler pass did: the events it published, in scan order,
/// and whether the pass saw the whole store and wrote every due record.
pub struct TickOutcome {
    pub published: Vec<Event>,
    pub clean: bool,
}

/// One scheduler pass over the store at wall-clock time `now`.
///
/// Scans every record; each stored event that is due — not yet published,
/// not cancelled, timestamp arrived — is rewritten compare-and-swap with
/// `published` set, flushed, and collected for broadcast. Records are
/// published at most once: an already-published or cancelled record is
/// never touched. A store fault clears `clean`, skips the record and
/// never unsettles the rest.
#[verifier::rlimit(30)]
pub fn scheduler_tick(db: &mut sled::Db, now: i64) -> (r: TickOutcome)
    ensures
        published_monotone(db_map(*old(db)), db_map(*final(db))),
        cancelled_monotone(db_map(*old(db)), db_map(*final(db))),
        users_preserved(db_map(*old(db)), db_map(*final(db))),
        // Every key is kept; it changes only by the due-publication step.
        forall|k: Seq<u8>| #[trigger] db_map(*old(db)).contains_key(k) ==>
            db_map(*final(db)).contains_key(k)
            && (db_map(*final(db))[k] == db_map(*old(db))[k]
                || (is_event_key(k) && (match parse_event(db_map(*old(db))[k]) {
                    Some(e) => eligible(e, now)
                        && db_map(*final(db))[k] == enc_event(with_published(e))
                        && parse_event(db_map(*final(db))[k]) == Some(with_published(e)),
                    None => false,
                }))),
        forall|k: Seq<u8>| !db_map(*old(db)).contains_key(k) ==>
            !(#[trigger] db_map(*final(db)).contains_key(k)),
        // Whatever is broadcast came from a due record and is published,
        // not cancelled.
        forall|i: int| 0 <= i < r.published@.len() ==> {
            let e = (#[trigger] r.published@[i])@;
            &&& e.published
            &&& !e.cancelled
            &&& exists|k: Seq<u8>| #[trigger] db_map(*old(db)).contains_key(k)
                && is_event_key(k)
                && (match parse_event(db_map(*old(db))[k]) {
                    Some(e0) => eligible(e0, now) && e == with_published(e0),
                    None => false,
                })
        },
        // A clean pass published every due record, and nothing else is due.
        r.clean ==> forall|k: Seq<u8>| #[trigger] db_map(*old(db)).contains_key(k)
            && is_event_key(k) && due_record(db_map(*old(db))[k], now)
            ==> (match parse_event(db_map(*old(db))[k]) {
                Some(e) => db_map(*final(db))[k] == enc_event(with_published(e)),
                None => false,
            }),
{
    let ghost m0 = db_map(*db);
    let (rows, ok) = store_scan(db);
    if !ok {
        return TickOutcome { published: Vec::new(), clean: false };
    }
    let mut published: Vec<Event> = Vec::new();
    let mut clean = true;
    let mut i: usize = 0;
    while i < rows.len()
        invariant
            i <= rows@.len(),
            m0 == db_map(*old(db)),
            // scan facts over the initial state
            forall|j: int| 0 <= j < rows@.len() ==>
                #[trigger] m0.contains_key(rows@[j].0@) && m0[rows@[j].0@] == rows@[j].1@,
            forall|k: Seq<u8>| #[trigger] m0.contains_key(k) ==>
                exists|j: int| 0 <= j < rows@.len() && #[trigger] rows@[j].0@ == k,
            forall|a: int, b: int| #![trigger rows@[a], rows@[b]] 0 <= a < b < rows@.len()
                ==> lex_le(rows@[a].0@, rows@[b].0@) && rows@[a].0@ != rows@[b].0@,
            // unprocessed rows are untouched
            forall|j: int| i <= j < rows@.len() ==>
                db_map(*db).contains_key((#[trigger] rows@[j]).0@)
                && db_map(*db)[rows@[j].0@] == rows@[j].1@,
            // every key kept, changed only by due publication
            forall|k: Seq<u8>| #[trigger] m0.contains_key(k) ==>
                db_map(*db).contains_key(k)
                && (db_map(*db)[k] == m0[k]
                    || (is_event_key(k) && (match parse_event(m0[k]) {
                        Some(e) => eligible(e, now)
                            && db_map(*db)[k] == enc_event(with_published(e))
                            && parse_event(db_map(*db)[k]) == Some(with_published(e)),
                        None => false,
                    }))),
            forall|k: Seq<u8>| !m0.contains_key(k) ==>
                !(#[trigger] db_map(*db).contains_key(k)),
            // broadcast soundness
            forall|b: int| 0 <= b < published@.len() ==> {
                let e = (#[trigger] published@[b])@;
                &&& e.published
                &&& !e.cancelled
                &&& exists|k: Seq<u8>| #[trigger] m0.contains_key(k) && is_event_key(k)
                    && (match parse_event(m0[k]) {
                        Some(e0) => eligible(e0, now) && e == with_published(e0),
                        None => false,
                    })
            },
            // completeness over the processed prefix
            clean ==> forall|j: int| 0 <= j < i ==>
                (is_event_key((#[trigger] rows@[j]).0@) && due_record(rows@[j].1@, now))
                ==> (match parse_event(rows@[j].1@) {
                    Some(e) => db_map(*db)[rows@[j].0@] == enc_event(with_published(e)),
                    None => false,
                }),
        decreases rows@.len() - i,
    {
        let ghost ki = rows@[i as int].0@;
        let ghost vi = rows@[i as int].1@;
        let is_evt = crate::store::check_event_key(&rows[i].0);
        if is_evt {
            match parse_event_record(&rows[i].1) {
                Some(e) => {
                    proof {
                        assert(parse_event(vi) == Some(e@));
                    }
                    if !e.published && !e.cancelled && e.timestamp <= now {
                        proof {
                            assert(eligible(e@, now));
                            assert(due_record(vi, now));
                        }
                        let mut pe = e;
                        pe.published = true;
                        proof {
                            assert(pe@ =~~= with_published(
                                parse_event(rows@[i as int].1@).unwrap()));
                        }
                        let text = encode_event(&pe);
                        // The encoding must read back as what it encodes;
                        // check rather than assume.
                        let good = match parse_event_record(&text) {
                            Some(chk) => crate::types::event_eq(&chk, &pe),
                            None => false,
                        };
                        if good {
                            let ghost before = db_map(*db);
                            match store_cas(db, &rows[i].0, Some(&rows[i].1), &text) {
                                CasOutcome::Done => {
                                    let _ = store_flush(db);
                                    let ghost cur = db_map(*db);
                                    proof {
                                        assert(cur == before.insert(ki, text@));
                                        assert(m0[ki] == vi);
                                        assert(parse_event(text@) == Some(pe@));
                                        assert(text@ == enc_event(with_published(e@)));
                                        assert forall|j: int| i + 1 <= j < rows@.len()
                                            implies cur.contains_key(
                                                (#[trigger] rows@[j]).0@)
                                            && cur[rows@[j].0@] == rows@[j].1@ by {
                                            assert(rows@[i as int] == rows@[i as int]);
                                            assert(rows@[j].0@ != ki);
                                        }
                                        assert forall|k: Seq<u8>|
                                            #[trigger] m0.contains_key(k)
                                            implies cur.contains_key(k)
                                            && (cur[k] == m0[k]
                                                || (is_event_key(k)
                                                    && (match parse_event(m0[k]) {
                                                    Some(e2) => eligible(e2, now)
                                                        && cur[k] == enc_event(
                                                            with_published(e2))
                                                        && parse_event(cur[k])
                                                            == Some(with_published(e2)),
                                                    None => false,
                                                }))) by {
                                            if k == ki {
                                                assert(parse_event(m0[k]) == Some(e@));
                                            }
                                        }
                                    }
                                    published.push(pe);
                                    proof {
                                        assert(published@.last()@ == with_published(e@));
                                    }
                                }
                                CasOutcome::Mismatch => {
                                    // The expectation is the scanned value and
                                    // nothing else wrote: unreachable.
                                    proof {
                                        assert(false);
                                    }
                                }
                                CasOutcome::Fault => {
                                    clean = false;
                                }
                            }
                        } else {
                            clean = false;
                        }
                    } else {
                        proof {
                            assert(!eligible(e@, now));
                            assert(!due_record(vi, now));
                        }
                    }
                }
                None => {
                    proof {
                        assert(!due_record(vi, now));
                    }
                }
            }
        }
        i = i + 1;
    }
    proof {
        let m1 = db_map(*db);
        assert forall|k: Seq<u8>| #[trigger] m0.contains_key(k) && is_event_key(k)
            && crate::records::rec_published(m0[k])
            implies m1.contains_key(k) && crate::records::rec_published(m1[k]) by {
            assert(m0.contains_key(k));
        }
        assert forall|k: Seq<u8>| #[trigger] m0.contains_key(k) && is_event_key(k)
            && crate::records::rec_cancelled(m0[k])
            implies m1.contains_key(k) && crate::records::rec_cancelled(m1[k]) by {
            assert(m0.contains_key(k));
        }
        assert forall|k: Seq<u8>| #[trigger] m0.contains_key(k) && crate::store::is_user_key(k)
            implies m1.contains_key(k) && m1[k] == m0[k] by {
            if m1[k] != m0[k] {
                crate::store::lemma_key_namespace(crate::store::key_id(k));
                assert(is_event_key(k));
                assert(k.subrange(0, 3)[1] == 117u8);
                assert(k.subrange(0, 3)[1] == 118u8);
            }
        }
        if clean {
            assert forall|k: Seq<u8>| #[trigger] m0.contains_key(k) && is_event_key(k)
                && due_record(m0[k], now)
                implies (match parse_event(m0[k]) {
                    Some(e) => m1[k] == enc_event(with_published(e)),
                    None => false,
                }) by {
                let j = choose|j: int| 0 <= j < rows@.len() && #[trigger] rows@[j].0@ == k;
                assert(rows@[j].1@ == m0[k]);
            }
        }
    }
    TickOutcome { published, clean }
}

} // verus!

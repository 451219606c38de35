//! The projection layer: per-user and per-collection event views, and the
//! deterministic per-tenant tabular snapshot behind the push channel.

use vstd::prelude::*;

use crate::codec::{parse_event, parse_event_record};
use crate::records::acting_user;
use crate::store::{db_map, db_order, is_event_key};
use crate::types::{BrokerError, Collection, Event, EventV, UserCollection, SSE};

verus! {

/// The ghost views of a vector of events.
pub open spec fn views_of(s: Seq<Event>) -> Seq<EventV> {
    s.map_values(|e: Event| e@)
}

/// The ghost views of a vector of byte strings.
pub open spec fn texts_of(s: Seq<Vec<u8>>) -> Seq<Seq<u8>> {
    s.map_values(|v: Vec<u8>| v@)
}

pub proof fn lemma_views_push(s: Seq<Event>, e: Event)
    ensures
        views_of(s.push(e)) == views_of(s).push(e@),
{
    assert(views_of(s.push(e)) =~~= views_of(s).push(e@));
}

pub proof fn lemma_views_drop_last(s: Seq<Event>)
    requires
        s.len() > 0,
    ensures
        views_of(s.drop_last()) == views_of(s).drop_last(),
        views_of(s).last() == s.last()@,
{
    assert(views_of(s.drop_last()) =~~= views_of(s).drop_last());
}

pub proof fn lemma_texts_push(s: Seq<Vec<u8>>, v: Vec<u8>)
    ensures
        texts_of(s.push(v)) == texts_of(s).push(v@),
{
    assert(texts_of(s.push(v)) =~~= texts_of(s).push(v@));
}

// ---------------------------------------------------------------------
// spec: the event list a scan yields
// ---------------------------------------------------------------------

/// Every stored record in the event namespace that parses, in scan order.
/// Records that fail to parse are skipped, never trusted.
pub open spec fn scanned_events(rows: Seq<(Seq<u8>, Seq<u8>)>) -> Seq<EventV>
    decreases rows.len(),
{
    if rows.len() == 0 {
        Seq::empty()
    } else {
        let rest = scanned_events(rows.drop_last());
        let p = rows.last();
        if is_event_key(p.0) {
            match parse_event(p.1) {
                Some(e) => rest.push(e),
                None => rest,
            }
        } else {
            rest
        }
    }
}

// ---------------------------------------------------------------------
// spec: filters
// ---------------------------------------------------------------------

/// The events of this tenant that are not cancelled, order kept.
pub open spec fn filter_tenant_live(s: Seq<EventV>, tenant: Seq<u8>) -> Seq<EventV>
    decreases s.len(),
{
    if s.len() == 0 {
        Seq::empty()
    } else {
        let rest = filter_tenant_live(s.drop_last(), tenant);
        if s.last().tenant_id == tenant && !s.last().cancelled {
            rest.push(s.last())
        } else {
            rest
        }
    }
}

/// The events of one collection, order kept.
pub open spec fn filter_collection(s: Seq<EventV>, coll: Seq<u8>) -> Seq<EventV>
    decreases s.len(),
{
    if s.len() == 0 {
        Seq::empty()
    } else {
        let rest = filter_collection(s.drop_last(), coll);
        if s.last().collection_id == coll {
            rest.push(s.last())
        } else {
            rest
        }
    }
}

/// The events of one collection within one tenant, order kept.
pub open spec fn filter_collection_tenant(
    s: Seq<EventV>,
    coll: Seq<u8>,
    tenant: Seq<u8>,
) -> Seq<EventV>
    decreases s.len(),
{
    if s.len() == 0 {
        Seq::empty()
    } else {
        let rest = filter_collection_tenant(s.drop_last(), coll, tenant);
        if s.last().collection_id == coll && s.last().tenant_id == tenant {
            rest.push(s.last())
        } else {
            rest
        }
    }
}

/// The events one user submitted, order kept.
pub open spec fn filter_user(s: Seq<EventV>, uid: Seq<u8>) -> Seq<EventV>
    decreases s.len(),
{
    if s.len() == 0 {
        Seq::empty()
    } else {
        let rest = filter_user(s.drop_last(), uid);
        if s.last().user_id == uid {
            rest.push(s.last())
        } else {
            rest
        }
    }
}

/// The events carrying one event name, order kept.
pub open spec fn filter_name(s: Seq<EventV>, name: Seq<u8>) -> Seq<EventV>
    decreases s.len(),
{
    if s.len() == 0 {
        Seq::empty()
    } else {
        let rest = filter_name(s.drop_last(), name);
        if s.last().event == name {
            rest.push(s.last())
        } else {
            rest
        }
    }
}

/// The events whose data value is a JSON object, order kept.
pub open spec fn filter_objects(s: Seq<EventV>) -> Seq<EventV>
    decreases s.len(),
{
    if s.len() == 0 {
        Seq::empty()
    } else {
        let rest = filter_objects(s.drop_last());
        if s.last().data is Object {
            rest.push(s.last())
        } else {
            rest
        }
    }
}

// ---------------------------------------------------------------------
// spec: stable insertion sort by timestamp, ascending
// ---------------------------------------------------------------------

/// Inserts `e` behind every element whose timestamp is not larger:
/// equal timestamps keep their first-come order.
pub open spec fn insert_by_ts(s: Seq<EventV>, e: EventV) -> Seq<EventV>
    decreases s.len(),
{
    if s.len() == 0 {
        seq![e]
    } else if s.last().timestamp <= e.timestamp {
        s.push(e)
    } else {
        insert_by_ts(s.drop_last(), e).push(s.last())
    }
}

/// Stable insertion sort by timestamp, ascending.
pub open spec fn sort_by_ts(s: Seq<EventV>) -> Seq<EventV>
    decreases s.len(),
{
    if s.len() == 0 {
        Seq::empty()
    } else {
        insert_by_ts(sort_by_ts(s.drop_last()), s.last())
    }
}

// ---------------------------------------------------------------------
// exec: the same, mirrored
// ---------------------------------------------------------------------

/// Collects every parsed event record out of a scan.
pub fn collect_events(rows: &Vec<(Vec<u8>, Vec<u8>)>) -> (r: Vec<Event>)
    ensures
        views_of(r@) == scanned_events(
            rows@.map_values(|p: (Vec<u8>, Vec<u8>)| (p.0@, p.1@))),
{
    let ghost f = |p: (Vec<u8>, Vec<u8>)| (p.0@, p.1@);
    let mut out: Vec<Event> = Vec::new();
    let mut i: usize = 0;
    proof {
        assert(rows@.subrange(0, 0).map_values(f) =~= Seq::<(Seq<u8>, Seq<u8>)>::empty());
        assert(views_of(out@) =~= scanned_events(rows@.subrange(0, 0).map_values(f)));
    }
    while i < rows.len()
        invariant
            i <= rows@.len(),
            views_of(out@) == scanned_events(rows@.subrange(0, i as int).map_values(f)),
            f == (|p: (Vec<u8>, Vec<u8>)| (p.0@, p.1@)),
        decreases rows@.len() - i,
    {
        let ghost prev = rows@.subrange(0, i as int).map_values(f);
        let ghost cur = rows@.subrange(0, i as int + 1).map_values(f);
        proof {
            assert(rows@.subrange(0, i as int + 1).drop_last() =~= rows@.subrange(0, i as int));
            assert(cur.drop_last() =~~= prev);
            assert(cur.last() == f(rows@[i as int]));
        }
        if crate::store::check_event_key(&rows[i].0) {
            match parse_event_record(&rows[i].1) {
                Some(e) => {
                    let ghost before = out@;
                    out.push(e);
                    proof {
                        lemma_views_push(before, out@.last());
                        assert(views_of(out@) =~= scanned_events(cur));
                    }
                }
                None => {
                    proof {
                        assert(scanned_events(cur) == scanned_events(prev));
                    }
                }
            }
        } else {
            proof {
                assert(scanned_events(cur) == scanned_events(prev));
            }
        }
        i = i + 1;
    }
    proof {
        assert(rows@.subrange(0, rows@.len() as int) =~= rows@);
    }
    out
}

/// Mirrors `filter_tenant_live`.
pub fn filter_tenant_live_exec(s: &Vec<Event>, tenant: &Vec<u8>) -> (r: Vec<Event>)
    ensures
        views_of(r@) == filter_tenant_live(views_of(s@), tenant@),
{
    let mut out: Vec<Event> = Vec::new();
    let mut i: usize = 0;
    proof {
        assert(views_of(s@.subrange(0, 0)) =~~= Seq::<EventV>::empty());
        assert(views_of(out@) =~= filter_tenant_live(views_of(s@.subrange(0, 0)), tenant@));
    }
    while i < s.len()
        invariant
            i <= s@.len(),
            views_of(out@) == filter_tenant_live(views_of(s@.subrange(0, i as int)), tenant@),
        decreases s@.len() - i,
    {
        proof {
            assert(s@.subrange(0, i as int + 1).drop_last() =~= s@.subrange(0, i as int));
            lemma_views_drop_last(s@.subrange(0, i as int + 1));
            assert(s@.subrange(0, i as int + 1).last() == s@[i as int]);
        }
        if crate::bytes::bytes_eq(&s[i].tenant_id, tenant) && !s[i].cancelled {
            let ghost before = out@;
            let e = crate::types::clone_event(&s[i]);
            out.push(e);
            proof {
                lemma_views_push(before, out@.last());
            }
        }
        i = i + 1;
    }
    proof {
        assert(s@.subrange(0, s@.len() as int) =~= s@);
    }
    out
}

/// Mirrors `filter_collection`.
pub fn filter_collection_exec(s: &Vec<Event>, coll: &Vec<u8>) -> (r: Vec<Event>)
    ensures
        views_of(r@) == filter_collection(views_of(s@), coll@),
{
    let mut out: Vec<Event> = Vec::new();
    let mut i: usize = 0;
    proof {
        assert(views_of(s@.subrange(0, 0)) =~~= Seq::<EventV>::empty());
        assert(views_of(out@) =~= filter_collection(views_of(s@.subrange(0, 0)), coll@));
    }
    while i < s.len()
        invariant
            i <= s@.len(),
            views_of(out@) == filter_collection(views_of(s@.subrange(0, i as int)), coll@),
        decreases s@.len() - i,
    {
        proof {
            assert(s@.subrange(0, i as int + 1).drop_last() =~= s@.subrange(0, i as int));
            lemma_views_drop_last(s@.subrange(0, i as int + 1));
            assert(s@.subrange(0, i as int + 1).last() == s@[i as int]);
        }
        if crate::bytes::bytes_eq(&s[i].collection_id, coll) {
            let ghost before = out@;
            let e = crate::types::clone_event(&s[i]);
            out.push(e);
            proof {
                lemma_views_push(before, out@.last());
            }
        }
        i = i + 1;
    }
    proof {
        assert(s@.subrange(0, s@.len() as int) =~= s@);
    }
    out
}

/// Mirrors `filter_collection_tenant`.
pub fn filter_collection_tenant_exec(s: &Vec<Event>, coll: &Vec<u8>, tenant: &Vec<u8>) -> (r:
    Vec<Event>)
    ensures
        views_of(r@) == filter_collection_tenant(views_of(s@), coll@, tenant@),
{
    let mut out: Vec<Event> = Vec::new();
    let mut i: usize = 0;
    proof {
        assert(views_of(s@.subrange(0, 0)) =~~= Seq::<EventV>::empty());
        assert(views_of(out@) =~= filter_collection_tenant(
            views_of(s@.subrange(0, 0)), coll@, tenant@));
    }
    while i < s.len()
        invariant
            i <= s@.len(),
            views_of(out@) == filter_collection_tenant(
                views_of(s@.subrange(0, i as int)), coll@, tenant@),
        decreases s@.len() - i,
    {
        proof {
            assert(s@.subrange(0, i as int + 1).drop_last() =~= s@.subrange(0, i as int));
            lemma_views_drop_last(s@.subrange(0, i as int + 1));
            assert(s@.subrange(0, i as int + 1).last() == s@[i as int]);
        }
        if crate::bytes::bytes_eq(&s[i].collection_id, coll)
            && crate::bytes::bytes_eq(&s[i].tenant_id, tenant) {
            let ghost before = out@;
            let e = crate::types::clone_event(&s[i]);
            out.push(e);
            proof {
                lemma_views_push(before, out@.last());
            }
        }
        i = i + 1;
    }
    proof {
        assert(s@.subrange(0, s@.len() as int) =~= s@);
    }
    out
}

/// Mirrors `filter_user`.
pub fn filter_user_exec(s: &Vec<Event>, uid: &Vec<u8>) -> (r: Vec<Event>)
    ensures
        views_of(r@) == filter_user(views_of(s@), uid@),
{
    let mut out: Vec<Event> = Vec::new();
    let mut i: usize = 0;
    proof {
        assert(views_of(s@.subrange(0, 0)) =~~= Seq::<EventV>::empty());
        assert(views_of(out@) =~= filter_user(views_of(s@.subrange(0, 0)), uid@));
    }
    while i < s.len()
        invariant
            i <= s@.len(),
            views_of(out@) == filter_user(views_of(s@.subrange(0, i as int)), uid@),
        decreases s@.len() - i,
    {
        proof {
            assert(s@.subrange(0, i as int + 1).drop_last() =~= s@.subrange(0, i as int));
            lemma_views_drop_last(s@.subrange(0, i as int + 1));
            assert(s@.subrange(0, i as int + 1).last() == s@[i as int]);
        }
        if crate::bytes::bytes_eq(&s[i].user_id, uid) {
            let ghost before = out@;
            let e = crate::types::clone_event(&s[i]);
            out.push(e);
            proof {
                lemma_views_push(before, out@.last());
            }
        }
        i = i + 1;
    }
    proof {
        assert(s@.subrange(0, s@.len() as int) =~= s@);
    }
    out
}

/// Mirrors `filter_name`.
pub fn filter_name_exec(s: &Vec<Event>, name: &Vec<u8>) -> (r: Vec<Event>)
    ensures
        views_of(r@) == filter_name(views_of(s@), name@),
{
    let mut out: Vec<Event> = Vec::new();
    let mut i: usize = 0;
    proof {
        assert(views_of(s@.subrange(0, 0)) =~~= Seq::<EventV>::empty());
        assert(views_of(out@) =~= filter_name(views_of(s@.subrange(0, 0)), name@));
    }
    while i < s.len()
        invariant
            i <= s@.len(),
            views_of(out@) == filter_name(views_of(s@.subrange(0, i as int)), name@),
        decreases s@.len() - i,
    {
        proof {
            assert(s@.subrange(0, i as int + 1).drop_last() =~= s@.subrange(0, i as int));
            lemma_views_drop_last(s@.subrange(0, i as int + 1));
            assert(s@.subrange(0, i as int + 1).last() == s@[i as int]);
        }
        if crate::bytes::bytes_eq(&s[i].event, name) {
            let ghost before = out@;
            let e = crate::types::clone_event(&s[i]);
            out.push(e);
            proof {
                lemma_views_push(before, out@.last());
            }
        }
        i = i + 1;
    }
    proof {
        assert(s@.subrange(0, s@.len() as int) =~= s@);
    }
    out
}

/// Mirrors `filter_objects`.
pub fn filter_objects_exec(s: &Vec<Event>) -> (r: Vec<Event>)
    ensures
        views_of(r@) == filter_objects(views_of(s@)),
{
    let mut out: Vec<Event> = Vec::new();
    let mut i: usize = 0;
    proof {
        assert(views_of(s@.subrange(0, 0)) =~~= Seq::<EventV>::empty());
        assert(views_of(out@) =~= filter_objects(views_of(s@.subrange(0, 0))));
    }
    while i < s.len()
        invariant
            i <= s@.len(),
            views_of(out@) == filter_objects(views_of(s@.subrange(0, i as int))),
        decreases s@.len() - i,
    {
        proof {
            assert(s@.subrange(0, i as int + 1).drop_last() =~= s@.subrange(0, i as int));
            lemma_views_drop_last(s@.subrange(0, i as int + 1));
            assert(s@.subrange(0, i as int + 1).last() == s@[i as int]);
        }
        let keep = match &s[i].data {
            crate::types::EventData::Object(_) => true,
            crate::types::EventData::Scalar(_) => false,
        };
        if keep {
            let ghost before = out@;
            let e = crate::types::clone_event(&s[i]);
            out.push(e);
            proof {
                lemma_views_push(before, out@.last());
            }
        }
        i = i + 1;
    }
    proof {
        assert(s@.subrange(0, s@.len() as int) =~= s@);
    }
    out
}

/// Mirrors `insert_by_ts`.
fn insert_by_ts_exec(s: Vec<Event>, e: Event) -> (r: Vec<Event>)
    ensures
        views_of(r@) == insert_by_ts(views_of(s@), e@),
    decreases s@.len(),
{
    if s.len() == 0 {
        let mut out: Vec<Event> = Vec::new();
        let ghost before = out@;
        out.push(e);
        proof {
            lemma_views_push(before, out@.last());
            assert(views_of(out@) =~= insert_by_ts(views_of(s@), e@));
        }
        out
    } else {
        proof {
            lemma_views_drop_last(s@);
        }
        if s[s.len() - 1].timestamp <= e.timestamp {
            let mut s = s;
            let ghost before = s@;
            s.push(e);
            proof {
                lemma_views_push(before, s@.last());
            }
            s
        } else {
            let mut s = s;
            let last = s.pop().unwrap();
            let mut r = insert_by_ts_exec(s, e);
            let ghost before = r@;
            r.push(last);
            proof {
                lemma_views_push(before, r@.last());
            }
            r
        }
    }
}

/// Mirrors `sort_by_ts`.
pub fn sort_by_ts_exec(s: Vec<Event>) -> (r: Vec<Event>)
    ensures
        views_of(r@) == sort_by_ts(views_of(s@)),
    decreases s@.len(),
{
    if s.len() == 0 {
        proof {
            assert(views_of(s@) =~= Seq::<EventV>::empty());
        }
        s
    } else {
        proof {
            lemma_views_drop_last(s@);
        }
        let mut s = s;
        let last = s.pop().unwrap();
        let sorted = sort_by_ts_exec(s);
        insert_by_ts_exec(sorted, last)
    }
}

// ---------------------------------------------------------------------
// per-user and per-collection views
// ---------------------------------------------------------------------

/// Reads every stored event, as one list in scan order.
fn scan_events(db: &sled::Db) -> (r: Result<Vec<Event>, BrokerError>)
    ensures
        match r {
            Ok(evs) => views_of(evs@) == scanned_events(db_order(*db)),
            Err(BrokerError::Storage) => true,
            Err(_) => false,
        },
{
    let (rows, ok) = crate::store::store_scan(db);
    if !ok {
        return Err(BrokerError::Storage);
    }
    Ok(collect_events(&rows))
}

/// The per-user view: `info` holds every event of the user's collection,
/// `events` every event the user submitted, both sorted by timestamp
/// ascending.
pub fn user_collection(db: &sled::Db, subject_id: &Vec<u8>) -> (r: Result<
    UserCollection,
    BrokerError,
>)
    ensures
        match r {
            Ok(uc) => match acting_user(db_map(*db), subject_id@) {
                Some(u) => {
                    &&& views_of(uc.info@) == sort_by_ts(filter_collection(
                        scanned_events(db_order(*db)), u.collection_id))
                    &&& views_of(uc.events@) == sort_by_ts(filter_user(
                        scanned_events(db_order(*db)), u.id))
                },
                None => false,
            },
            Err(BrokerError::UnknownUser) => acting_user(db_map(*db), subject_id@) is None,
            Err(BrokerError::Storage) => true,
            Err(_) => false,
        },
{
    let user = match crate::events::load_user(db, subject_id) {
        Ok(u) => u,
        Err(e) => {
            return Err(e);
        }
    };
    let all = match scan_events(db) {
        Ok(evs) => evs,
        Err(e) => {
            return Err(e);
        }
    };
    let info = sort_by_ts_exec(filter_collection_exec(&all, &user.collection_id));
    let owned = sort_by_ts_exec(filter_user_exec(&all, &user.id));
    Ok(UserCollection { info, events: owned })
}

/// The per-collection view: every event of the collection within the
/// acting user's tenant, sorted by timestamp ascending.
pub fn collection(db: &sled::Db, collection_id: &Vec<u8>, subject_id: &Vec<u8>) -> (r: Result<
    Collection,
    BrokerError,
>)
    ensures
        match r {
            Ok(c) => match acting_user(db_map(*db), subject_id@) {
                Some(u) => views_of(c.events@) == sort_by_ts(filter_collection_tenant(
                    scanned_events(db_order(*db)), collection_id@, u.tenant_id)),
                None => false,
            },
            Err(BrokerError::UnknownUser) => acting_user(db_map(*db), subject_id@) is None,
            Err(BrokerError::Storage) => true,
            Err(_) => false,
        },
{
    let user = match crate::events::load_user(db, subject_id) {
        Ok(u) => u,
        Err(e) => {
            return Err(e);
        }
    };
    let all = match scan_events(db) {
        Ok(evs) => evs,
        Err(e) => {
            return Err(e);
        }
    };
    let events = sort_by_ts_exec(filter_collection_tenant_exec(
        &all, collection_id, &user.tenant_id));
    Ok(Collection { events })
}

// ---------------------------------------------------------------------
// the tenant tabular snapshot
// ---------------------------------------------------------------------

/// What Inflector's to_sentence_case yields for this key text: a
/// deterministic function of the bytes alone.
pub uninterp spec fn sentence_case_of(s: Seq<u8>) -> Seq<u8>;

/// Relies on Inflector::to_sentence_case for column titles; a key that is
/// not UTF-8 is returned unchanged.
#[verifier::external_body]
fn sentence_case(k: &Vec<u8>) -> (r: Vec<u8>)
    ensures
        r@ == sentence_case_of(k@),
{
    match std::str::from_utf8(k.as_slice()) {
        Ok(s) => inflector::Inflector::to_sentence_case(&s.to_string()).into_bytes(),
        Err(_) => k.clone(),
    }
}

/// `{"events":`
pub open spec fn lit_events() -> Seq<u8> {
    seq![123u8, 34, 101, 118, 101, 110, 116, 115, 34, 58]
}

/// `,"columns":`
pub open spec fn lit_columns() -> Seq<u8> {
    seq![44u8, 34, 99, 111, 108, 117, 109, 110, 115, 34, 58]
}

/// `,"rows":`
pub open spec fn lit_rows() -> Seq<u8> {
    seq![44u8, 34, 114, 111, 119, 115, 34, 58]
}

/// `{"field":`
pub open spec fn lit_field() -> Seq<u8> {
    seq![123u8, 34, 102, 105, 101, 108, 100, 34, 58]
}

/// `,"title":`
pub open spec fn lit_title() -> Seq<u8> {
    seq![44u8, 34, 116, 105, 116, 108, 101, 34, 58]
}

/// `timestamp`
pub open spec fn ts_key() -> Seq<u8> {
    seq![116u8, 105, 109, 101, 115, 116, 97, 109, 112]
}

/// `Timestamp`
pub open spec fn ts_title() -> Seq<u8> {
    seq![84u8, 105, 109, 101, 115, 116, 97, 109, 112]
}

/// `collection_id`
pub open spec fn coll_key() -> Seq<u8> {
    seq![99u8, 111, 108, 108, 101, 99, 116, 105, 111, 110, 95, 105, 100]
}

/// One rendered column descriptor: `{"field":<key>,"title":<title>}`.
pub open spec fn col_pair_text(field: Seq<u8>, title: Seq<u8>) -> Seq<u8> {
    lit_field() + crate::codec::quoted(field) + lit_title() + crate::codec::quoted(title)
        + seq![125u8]
}

/// The rendered column for a data key, its title in sentence case.
pub open spec fn col_text(k: Seq<u8>) -> Seq<u8> {
    col_pair_text(k, sentence_case_of(k))
}

/// Comma-joins pre-rendered texts.
pub open spec fn join_comma(items: Seq<Seq<u8>>) -> Seq<u8>
    decreases items.len(),
{
    if items.len() == 0 {
        Seq::empty()
    } else if items.len() == 1 {
        items[0]
    } else {
        join_comma(items.drop_last()) + seq![44u8] + items.last()
    }
}

/// A rendered JSON array of pre-rendered texts.
pub open spec fn arr_text(items: Seq<Seq<u8>>) -> Seq<u8> {
    seq![91u8] + join_comma(items) + seq![93u8]
}

/// The event names, in order of first appearance.
pub open spec fn uniq_names(s: Seq<EventV>) -> Seq<Seq<u8>>
    decreases s.len(),
{
    if s.len() == 0 {
        Seq::empty()
    } else {
        let r = uniq_names(s.drop_last());
        if r.contains(s.last().event) {
            r
        } else {
            r.push(s.last().event)
        }
    }
}

/// Drops every event of one collection, order kept.
pub open spec fn remove_collection(s: Seq<EventV>, cid: Seq<u8>) -> Seq<EventV>
    decreases s.len(),
{
    if s.len() == 0 {
        Seq::empty()
    } else {
        let rest = remove_collection(s.drop_last(), cid);
        if s.last().collection_id == cid {
            rest
        } else {
            rest.push(s.last())
        }
    }
}

/// Keeps, per collection, only the last event in list order — for a
/// timestamp-sorted list, the newest — ordered by last appearance.
pub open spec fn dedup_by_collection(s: Seq<EventV>) -> Seq<EventV>
    decreases s.len(),
{
    if s.len() == 0 {
        Seq::empty()
    } else {
        remove_collection(dedup_by_collection(s.drop_last()), s.last().collection_id)
            .push(s.last())
    }
}

/// The first position holding key `k`, or the length.
pub open spec fn pair_index(ps: Seq<(Seq<u8>, Seq<u8>)>, k: Seq<u8>, from: int) -> int
    decreases ps.len() - from,
{
    if from < 0 || from >= ps.len() {
        ps.len() as int
    } else if ps[from].0 == k {
        from
    } else {
        pair_index(ps, k, from + 1)
    }
}

/// Sets key `k` to `v`: replaces it in place if present, else appends.
pub open spec fn set_pair(
    ps: Seq<(Seq<u8>, Seq<u8>)>,
    k: Seq<u8>,
    v: Seq<u8>,
) -> Seq<(Seq<u8>, Seq<u8>)> {
    let i = pair_index(ps, k, 0);
    if i < ps.len() {
        ps.update(i, (k, v))
    } else {
        ps.push((k, v))
    }
}

/// The top-level pairs of a data value; a scalar has none.
pub open spec fn obj_pairs(d: crate::types::DataV) -> Seq<(Seq<u8>, Seq<u8>)> {
    match d {
        crate::types::DataV::Object(ps) => ps,
        crate::types::DataV::Scalar(_) => Seq::empty(),
    }
}

/// An event's row sort key: the stringified timestamp, as JSON text.
pub open spec fn row_key(e: EventV) -> Seq<u8> {
    crate::codec::quoted(crate::codec::dec_i64(e.timestamp as int))
}

/// An event's rendered row: its data object with the stringified
/// timestamp and the collection id merged in.
pub open spec fn row_text(e: EventV) -> Seq<u8> {
    crate::codec::wire_data(crate::types::DataV::Object(
        set_pair(
            set_pair(obj_pairs(e.data), ts_key(), row_key(e)),
            coll_key(),
            crate::codec::quoted(e.collection_id),
        ),
    ))
}

/// Inserts `e` behind every event whose row key is lexicographically not
/// larger.
pub open spec fn insert_by_rowkey(s: Seq<EventV>, e: EventV) -> Seq<EventV>
    decreases s.len(),
{
    if s.len() == 0 {
        seq![e]
    } else if crate::bytes::lex_le(row_key(s.last()), row_key(e)) {
        s.push(e)
    } else {
        insert_by_rowkey(s.drop_last(), e).push(s.last())
    }
}

/// Stable insertion sort by row key, ascending.
pub open spec fn sort_by_rowkey(s: Seq<EventV>) -> Seq<EventV>
    decreases s.len(),
{
    if s.len() == 0 {
        Seq::empty()
    } else {
        insert_by_rowkey(sort_by_rowkey(s.drop_last()), s.last())
    }
}

/// The list reversed.
pub open spec fn reverse_events(s: Seq<EventV>) -> Seq<EventV>
    decreases s.len(),
{
    if s.len() == 0 {
        Seq::empty()
    } else {
        seq![s.last()] + reverse_events(s.drop_last())
    }
}

pub proof fn lemma_reverse_pointwise(s: Seq<EventV>)
    ensures
        reverse_events(s).len() == s.len(),
        forall|i: int| 0 <= i < s.len() ==>
            #[trigger] reverse_events(s)[i] == s[s.len() - 1 - i],
    decreases s.len(),
{
    if s.len() > 0 {
        lemma_reverse_pointwise(s.drop_last());
    }
}

/// The rendered wire events of the list.
pub open spec fn wire_texts(s: Seq<EventV>) -> Seq<Seq<u8>>
    decreases s.len(),
{
    if s.len() == 0 {
        Seq::empty()
    } else {
        wire_texts(s.drop_last()).push(crate::codec::wire_event(s.last()))
    }
}

/// The rendered rows of the list.
pub open spec fn row_texts(s: Seq<EventV>) -> Seq<Seq<u8>>
    decreases s.len(),
{
    if s.len() == 0 {
        Seq::empty()
    } else {
        row_texts(s.drop_last()).push(row_text(s.last()))
    }
}

/// Inserts a text behind every one lexicographically not larger.
pub open spec fn insert_lex(s: Seq<Seq<u8>>, t: Seq<u8>) -> Seq<Seq<u8>>
    decreases s.len(),
{
    if s.len() == 0 {
        seq![t]
    } else if crate::bytes::lex_le(s.last(), t) {
        s.push(t)
    } else {
        insert_lex(s.drop_last(), t).push(s.last())
    }
}

/// Stable insertion sort of texts, ascending.
pub open spec fn sort_lex(s: Seq<Seq<u8>>) -> Seq<Seq<u8>>
    decreases s.len(),
{
    if s.len() == 0 {
        Seq::empty()
    } else {
        insert_lex(sort_lex(s.drop_last()), s.last())
    }
}

/// Every data key of the events, in order of first appearance.
pub open spec fn append_new_keys(r: Seq<Seq<u8>>, ps: Seq<(Seq<u8>, Seq<u8>)>) -> Seq<Seq<u8>>
    decreases ps.len(),
{
    if ps.len() == 0 {
        r
    } else {
        append_new_keys(
            if r.contains(ps[0].0) {
                r
            } else {
                r.push(ps[0].0)
            },
            ps.skip(1),
        )
    }
}

/// The unique data keys across the events' objects, first appearance
/// first.
pub open spec fn uniq_keys_of(s: Seq<EventV>) -> Seq<Seq<u8>>
    decreases s.len(),
{
    if s.len() == 0 {
        Seq::empty()
    } else {
        append_new_keys(uniq_keys_of(s.drop_last()), obj_pairs(s.last().data))
    }
}

/// The rendered columns for the keys, the two fixed keys left out.
pub open spec fn cols_of(keys: Seq<Seq<u8>>) -> Seq<Seq<u8>>
    decreases keys.len(),
{
    if keys.len() == 0 {
        Seq::empty()
    } else {
        let rest = cols_of(keys.drop_last());
        if keys.last() == ts_key() || keys.last() == coll_key() {
            rest
        } else {
            rest.push(col_text(keys.last()))
        }
    }
}

/// The full rendered column list: `Timestamp`, `collection_id`, then the
/// data columns sorted by their rendered text.
pub open spec fn cols_full(objs: Seq<EventV>) -> Seq<Seq<u8>> {
    seq![col_pair_text(ts_key(), ts_title()), col_pair_text(coll_key(), coll_key())]
        + sort_lex(cols_of(uniq_keys_of(objs)))
}

/// One frame of the snapshot: the channel name and its JSON payload.
pub struct FrameV {
    pub event: Seq<u8>,
    pub data: Seq<u8>,
}

/// The payload emitted for one event name: the selected events, their
/// columns and their rows, as one JSON object.
pub open spec fn group_payload(evs: Seq<EventV>, name: Seq<u8>) -> Seq<u8> {
    let objs = filter_objects(dedup_by_collection(filter_name(evs, name)));
    lit_events() + arr_text(wire_texts(objs))
        + lit_columns() + arr_text(cols_full(objs))
        + lit_rows() + arr_text(row_texts(reverse_events(sort_by_rowkey(objs))))
        + seq![125u8]
}

/// One frame per name, in the names' order.
pub open spec fn frames_for(evs: Seq<EventV>, names: Seq<Seq<u8>>) -> Seq<FrameV>
    decreases names.len(),
{
    if names.len() == 0 {
        Seq::empty()
    } else {
        frames_for(evs, names.drop_last()).push(FrameV {
            event: names.last(),
            data: group_payload(evs, names.last()),
        })
    }
}

/// The whole snapshot for a tenant, from one scan.
pub open spec fn snapshot_frames(rows: Seq<(Seq<u8>, Seq<u8>)>, tenant: Seq<u8>) -> Seq<FrameV> {
    let evs = sort_by_ts(filter_tenant_live(scanned_events(rows), tenant));
    frames_for(evs, uniq_names(evs))
}

// ---------------------------------------------------------------------
// exec: snapshot building blocks
// ---------------------------------------------------------------------

/// Whether one of the texts equals `x`.
fn contains_text(names: &Vec<Vec<u8>>, x: &Vec<u8>) -> (r: bool)
    ensures
        r == texts_of(names@).contains(x@),
{
    let mut i: usize = 0;
    while i < names.len()
        invariant
            i <= names@.len(),
            forall|j: int| 0 <= j < i ==> texts_of(names@)[j] != x@,
        decreases names@.len() - i,
    {
        if crate::bytes::bytes_eq(&names[i], x) {
            proof {
                assert(texts_of(names@)[i as int] == x@);
            }
            return true;
        }
        proof {
            assert(texts_of(names@)[i as int] == names@[i as int]@);
        }
        i = i + 1;
    }
    proof {
        if texts_of(names@).contains(x@) {
            let j = choose|j: int| 0 <= j < texts_of(names@).len()
                && texts_of(names@)[j] == x@;
            assert(false);
        }
    }
    false
}

/// Mirrors `uniq_names`.
fn uniq_names_exec(s: &Vec<Event>) -> (r: Vec<Vec<u8>>)
    ensures
        texts_of(r@) == uniq_names(views_of(s@)),
{
    let mut out: Vec<Vec<u8>> = Vec::new();
    let mut i: usize = 0;
    proof {
        assert(views_of(s@.subrange(0, 0)) =~~= Seq::<EventV>::empty());
        assert(texts_of(out@) =~= uniq_names(views_of(s@.subrange(0, 0))));
    }
    while i < s.len()
        invariant
            i <= s@.len(),
            texts_of(out@) == uniq_names(views_of(s@.subrange(0, i as int))),
        decreases s@.len() - i,
    {
        proof {
            assert(s@.subrange(0, i as int + 1).drop_last() =~= s@.subrange(0, i as int));
            lemma_views_drop_last(s@.subrange(0, i as int + 1));
            assert(s@.subrange(0, i as int + 1).last() == s@[i as int]);
        }
        if !contains_text(&out, &s[i].event) {
            let ghost before = out@;
            let name = s[i].event.clone();
            out.push(name);
            proof {
                lemma_texts_push(before, out@.last());
            }
        }
        i = i + 1;
    }
    proof {
        assert(s@.subrange(0, s@.len() as int) =~= s@);
    }
    out
}

/// Mirrors `remove_collection`.
fn remove_collection_exec(s: &Vec<Event>, cid: &Vec<u8>) -> (r: Vec<Event>)
    ensures
        views_of(r@) == remove_collection(views_of(s@), cid@),
{
    let mut out: Vec<Event> = Vec::new();
    let mut i: usize = 0;
    proof {
        assert(views_of(s@.subrange(0, 0)) =~~= Seq::<EventV>::empty());
        assert(views_of(out@) =~= remove_collection(views_of(s@.subrange(0, 0)), cid@));
    }
    while i < s.len()
        invariant
            i <= s@.len(),
            views_of(out@) == remove_collection(views_of(s@.subrange(0, i as int)), cid@),
        decreases s@.len() - i,
    {
        proof {
            assert(s@.subrange(0, i as int + 1).drop_last() =~= s@.subrange(0, i as int));
            lemma_views_drop_last(s@.subrange(0, i as int + 1));
            assert(s@.subrange(0, i as int + 1).last() == s@[i as int]);
        }
        if !crate::bytes::bytes_eq(&s[i].collection_id, cid) {
            let ghost before = out@;
            let e = crate::types::clone_event(&s[i]);
            out.push(e);
            proof {
                lemma_views_push(before, out@.last());
            }
        }
        i = i + 1;
    }
    proof {
        assert(s@.subrange(0, s@.len() as int) =~= s@);
    }
    out
}

/// Mirrors `dedup_by_collection`.
fn dedup_by_collection_exec(s: Vec<Event>) -> (r: Vec<Event>)
    ensures
        views_of(r@) == dedup_by_collection(views_of(s@)),
    decreases s@.len(),
{
    if s.len() == 0 {
        proof {
            assert(views_of(s@) =~= Seq::<EventV>::empty());
        }
        s
    } else {
        proof {
            lemma_views_drop_last(s@);
        }
        let mut s = s;
        let last = s.pop().unwrap();
        let ded = dedup_by_collection_exec(s);
        let mut r = remove_collection_exec(&ded, &last.collection_id);
        let ghost before = r@;
        r.push(last);
        proof {
            lemma_views_push(before, r@.last());
        }
        r
    }
}

/// Mirrors `insert_by_rowkey`; row keys are handed in precomputed.
fn insert_by_rowkey_exec(s: Vec<Event>, e: Event) -> (r: Vec<Event>)
    ensures
        views_of(r@) == insert_by_rowkey(views_of(s@), e@),
    decreases s@.len(),
{
    if s.len() == 0 {
        let mut out: Vec<Event> = Vec::new();
        let ghost before = out@;
        out.push(e);
        proof {
            lemma_views_push(before, out@.last());
            assert(views_of(out@) =~= insert_by_rowkey(views_of(s@), out@.last()@));
        }
        out
    } else {
        proof {
            lemma_views_drop_last(s@);
        }
        let k_last = row_key_exec(&s[s.len() - 1]);
        let k_e = row_key_exec(&e);
        if crate::bytes::lex_le_bytes(&k_last, &k_e) {
            let mut s = s;
            let ghost before = s@;
            s.push(e);
            proof {
                lemma_views_push(before, s@.last());
            }
            s
        } else {
            let mut s = s;
            let last = s.pop().unwrap();
            let mut r = insert_by_rowkey_exec(s, e);
            let ghost before = r@;
            r.push(last);
            proof {
                lemma_views_push(before, r@.last());
            }
            r
        }
    }
}

/// Mirrors `sort_by_rowkey`.
fn sort_by_rowkey_exec(s: Vec<Event>) -> (r: Vec<Event>)
    ensures
        views_of(r@) == sort_by_rowkey(views_of(s@)),
    decreases s@.len(),
{
    if s.len() == 0 {
        proof {
            assert(views_of(s@) =~= Seq::<EventV>::empty());
        }
        s
    } else {
        proof {
            lemma_views_drop_last(s@);
        }
        let mut s = s;
        let last = s.pop().unwrap();
        let sorted = sort_by_rowkey_exec(s);
        insert_by_rowkey_exec(sorted, last)
    }
}

/// Computes an event's row sort key.
fn row_key_exec(e: &Event) -> (r: Vec<u8>)
    ensures
        r@ == row_key(e@),
{
    let mut dec: Vec<u8> = Vec::new();
    crate::codec::push_i64(&mut dec, e.timestamp);
    let mut out: Vec<u8> = Vec::new();
    crate::codec::push_quoted(&mut out, &dec);
    proof {
        assert(out@ =~= row_key(e@));
    }
    out
}

/// Reverses the list.
fn reverse_events_exec(s: &Vec<Event>) -> (r: Vec<Event>)
    ensures
        views_of(r@) == reverse_events(views_of(s@)),
{
    let mut out: Vec<Event> = Vec::new();
    let mut i: usize = 0;
    proof {
        lemma_reverse_pointwise(views_of(s@));
    }
    while i < s.len()
        invariant
            i <= s@.len(),
            out@.len() == i,
            forall|j: int| 0 <= j < i ==> (#[trigger] out@[j])@ == s@[s@.len() - 1 - j]@,
        decreases s@.len() - i,
    {
        let e = crate::types::clone_event(&s[s.len() - 1 - i]);
        out.push(e);
        i = i + 1;
    }
    proof {
        lemma_reverse_pointwise(views_of(s@));
        assert forall|j: int| 0 <= j < s@.len() implies
            views_of(out@)[j] == reverse_events(views_of(s@))[j] by {
            assert(views_of(out@)[j] == out@[j]@);
            assert(views_of(s@)[s@.len() - 1 - j] == s@[s@.len() - 1 - j]@);
        }
        assert(views_of(out@) =~~= reverse_events(views_of(s@)));
    }
    out
}

/// Mirrors `set_pair`.
fn set_pair_exec(ps: Vec<(Vec<u8>, Vec<u8>)>, k: Vec<u8>, v: Vec<u8>) -> (r: Vec<(
    Vec<u8>,
    Vec<u8>,
)>)
    ensures
        r@.map_values(|p: (Vec<u8>, Vec<u8>)| (p.0@, p.1@)) == set_pair(
            ps@.map_values(|p: (Vec<u8>, Vec<u8>)| (p.0@, p.1@)), k@, v@),
{
    let ghost f = |p: (Vec<u8>, Vec<u8>)| (p.0@, p.1@);
    let ghost pv = ps@.map_values(f);
    let mut i: usize = 0;
    let mut found: bool = false;
    let mut at: usize = 0;
    while i < ps.len() && !found
        invariant
            i <= ps@.len(),
            pv == ps@.map_values(f),
            f == (|p: (Vec<u8>, Vec<u8>)| (p.0@, p.1@)),
            !found ==> pair_index(pv, k@, 0) == pair_index(pv, k@, i as int),
            found ==> at < ps@.len() && pair_index(pv, k@, 0) == at && pv[at as int].0 == k@,
        decreases ps@.len() - i + (if found { 0int } else { 1int }),
    {
        proof {
            assert(pv[i as int] == f(ps@[i as int]));
        }
        if crate::bytes::bytes_eq(&ps[i].0, &k) {
            found = true;
            at = i;
        } else {
            i = i + 1;
        }
    }
    proof {
        if !found {
            assert(pair_index(pv, k@, ps@.len() as int) == pv.len());
        }
    }
    let mut ps = ps;
    if found {
        ps.set(at, (k, v));
        proof {
            assert(ps@.map_values(f) =~~= set_pair(pv, k@, v@));
        }
        ps
    } else {
        let ghost before = ps@;
        ps.push((k, v));
        proof {
            assert(ps@.map_values(f) =~~= pv.push((k@, v@)));
            assert(ps@.map_values(f) =~~= set_pair(pv, k@, v@));
        }
        ps
    }
}

/// Renders one event's row.
fn row_text_exec(e: &Event) -> (r: Vec<u8>)
    ensures
        r@ == row_text(e@),
{
    let pairs: Vec<(Vec<u8>, Vec<u8>)> = match &e.data {
        crate::types::EventData::Object(ps) => {
            match crate::types::clone_data(&e.data) {
                crate::types::EventData::Object(c) => c,
                crate::types::EventData::Scalar(_) => {
                    proof {
                        assert(false);
                    }
                    Vec::new()
                }
            }
        }
        crate::types::EventData::Scalar(_) => Vec::new(),
    };
    proof {
        assert(pairs@.map_values(|p: (Vec<u8>, Vec<u8>)| (p.0@, p.1@))
            =~~= obj_pairs(e.data@));
    }
    let tsk: [u8; 9] = [116, 105, 109, 101, 115, 116, 97, 109, 112];
    let mut tskv: Vec<u8> = Vec::new();
    crate::codec::push_bytes(&mut tskv, tsk.as_slice());
    let rk = row_key_exec(e);
    let merged1 = set_pair_exec(pairs, tskv, rk);
    let ck: [u8; 13] = [99, 111, 108, 108, 101, 99, 116, 105, 111, 110, 95, 105, 100];
    let mut ckv: Vec<u8> = Vec::new();
    crate::codec::push_bytes(&mut ckv, ck.as_slice());
    let mut cval: Vec<u8> = Vec::new();
    crate::codec::push_quoted(&mut cval, &e.collection_id);
    let merged2 = set_pair_exec(merged1, ckv, cval);
    proof {
        assert(tsk@ =~= ts_key());
        assert(ck@ =~= coll_key());
    }
    let data = crate::types::EventData::Object(merged2);
    let mut out: Vec<u8> = Vec::new();
    crate::codec::push_wire_data(&mut out, &data);
    proof {
        assert(out@ =~= row_text(e@));
    }
    out
}

/// Appends a rendered JSON array of the texts.
fn push_text_array(out: &mut Vec<u8>, items: &Vec<Vec<u8>>)
    ensures
        final(out)@ == old(out)@ + arr_text(texts_of(items@)),
{
    out.push(91);
    let mut i: usize = 0;
    proof {
        assert(texts_of(items@.subrange(0, 0)) =~~= Seq::<Seq<u8>>::empty());
        assert(out@ =~= old(out)@ + seq![91u8] + join_comma(texts_of(items@.subrange(0, 0))));
    }
    while i < items.len()
        invariant
            i <= items@.len(),
            out@ == old(out)@ + seq![91u8] + join_comma(texts_of(items@.subrange(0, i as int))),
        decreases items@.len() - i,
    {
        if i > 0 {
            out.push(44);
        }
        crate::codec::push_bytes(out, items[i].as_slice());
        proof {
            let prev = texts_of(items@.subrange(0, i as int));
            let cur = texts_of(items@.subrange(0, i as int + 1));
            assert(items@.subrange(0, i as int + 1).drop_last() =~= items@.subrange(0, i as int));
            assert(cur.drop_last() =~~= prev);
            assert(cur.last() == items@[i as int]@);
            if i == 0 {
                assert(cur.len() == 1);
                assert(join_comma(cur) == cur[0]);
                assert(out@ =~= old(out)@ + seq![91u8] + join_comma(cur));
            } else {
                assert(join_comma(cur)
                    == join_comma(cur.drop_last()) + seq![44u8] + cur.last());
                assert(out@ =~= old(out)@ + seq![91u8] + join_comma(cur));
            }
        }
        i = i + 1;
    }
    out.push(93);
    proof {
        assert(items@.subrange(0, items@.len() as int) =~= items@);
        assert(out@ =~= old(out)@ + arr_text(texts_of(items@)));
    }
}

/// Mirrors `wire_texts`.
fn wire_texts_exec(s: &Vec<Event>) -> (r: Vec<Vec<u8>>)
    ensures
        texts_of(r@) == wire_texts(views_of(s@)),
{
    let mut out: Vec<Vec<u8>> = Vec::new();
    let mut i: usize = 0;
    proof {
        assert(views_of(s@.subrange(0, 0)) =~~= Seq::<EventV>::empty());
        assert(texts_of(out@) =~= wire_texts(views_of(s@.subrange(0, 0))));
    }
    while i < s.len()
        invariant
            i <= s@.len(),
            texts_of(out@) == wire_texts(views_of(s@.subrange(0, i as int))),
        decreases s@.len() - i,
    {
        proof {
            assert(s@.subrange(0, i as int + 1).drop_last() =~= s@.subrange(0, i as int));
            lemma_views_drop_last(s@.subrange(0, i as int + 1));
            assert(s@.subrange(0, i as int + 1).last() == s@[i as int]);
        }
        let ghost before = out@;
        let t = crate::codec::encode_event_wire(&s[i]);
        out.push(t);
        proof {
            lemma_texts_push(before, out@.last());
        }
        i = i + 1;
    }
    proof {
        assert(s@.subrange(0, s@.len() as int) =~= s@);
    }
    out
}

/// Mirrors `row_texts`.
fn row_texts_exec(s: &Vec<Event>) -> (r: Vec<Vec<u8>>)
    ensures
        texts_of(r@) == row_texts(views_of(s@)),
{
    let mut out: Vec<Vec<u8>> = Vec::new();
    let mut i: usize = 0;
    proof {
        assert(views_of(s@.subrange(0, 0)) =~~= Seq::<EventV>::empty());
        assert(texts_of(out@) =~= row_texts(views_of(s@.subrange(0, 0))));
    }
    while i < s.len()
        invariant
            i <= s@.len(),
            texts_of(out@) == row_texts(views_of(s@.subrange(0, i as int))),
        decreases s@.len() - i,
    {
        proof {
            assert(s@.subrange(0, i as int + 1).drop_last() =~= s@.subrange(0, i as int));
            lemma_views_drop_last(s@.subrange(0, i as int + 1));
            assert(s@.subrange(0, i as int + 1).last() == s@[i as int]);
        }
        let ghost before = out@;
        let t = row_text_exec(&s[i]);
        out.push(t);
        proof {
            lemma_texts_push(before, out@.last());
        }
        i = i + 1;
    }
    proof {
        assert(s@.subrange(0, s@.len() as int) =~= s@);
    }
    out
}

/// Mirrors `insert_lex`.
fn insert_lex_exec(s: Vec<Vec<u8>>, t: Vec<u8>) -> (r: Vec<Vec<u8>>)
    ensures
        texts_of(r@) == insert_lex(texts_of(s@), t@),
    decreases s@.len(),
{
    if s.len() == 0 {
        let mut out: Vec<Vec<u8>> = Vec::new();
        let ghost before = out@;
        out.push(t);
        proof {
            lemma_texts_push(before, out@.last());
            assert(texts_of(out@) =~= insert_lex(texts_of(s@), out@.last()@));
        }
        out
    } else {
        proof {
            assert(texts_of(s@).last() == s@.last()@);
            assert(texts_of(s@).drop_last() =~~= texts_of(s@.drop_last()));
        }
        if crate::bytes::lex_le_bytes(&s[s.len() - 1], &t) {
            let mut s = s;
            let ghost before = s@;
            s.push(t);
            proof {
                lemma_texts_push(before, s@.last());
            }
            s
        } else {
            let mut s = s;
            let last = s.pop().unwrap();
            let mut r = insert_lex_exec(s, t);
            let ghost before = r@;
            r.push(last);
            proof {
                lemma_texts_push(before, r@.last());
            }
            r
        }
    }
}

/// Mirrors `sort_lex`.
fn sort_lex_exec(s: Vec<Vec<u8>>) -> (r: Vec<Vec<u8>>)
    ensures
        texts_of(r@) == sort_lex(texts_of(s@)),
    decreases s@.len(),
{
    if s.len() == 0 {
        proof {
            assert(texts_of(s@) =~= Seq::<Seq<u8>>::empty());
        }
        s
    } else {
        proof {
            assert(texts_of(s@).last() == s@.last()@);
            assert(texts_of(s@).drop_last() =~~= texts_of(s@.drop_last()));
        }
        let mut s = s;
        let last = s.pop().unwrap();
        let sorted = sort_lex_exec(s);
        insert_lex_exec(sorted, last)
    }
}

/// Mirrors `uniq_keys_of`, one event's pairs at a time.
fn uniq_keys_exec(s: &Vec<Event>) -> (r: Vec<Vec<u8>>)
    ensures
        texts_of(r@) == uniq_keys_of(views_of(s@)),
{
    let mut out: Vec<Vec<u8>> = Vec::new();
    let mut i: usize = 0;
    proof {
        assert(views_of(s@.subrange(0, 0)) =~~= Seq::<EventV>::empty());
        assert(texts_of(out@) =~= uniq_keys_of(views_of(s@.subrange(0, 0))));
    }
    while i < s.len()
        invariant
            i <= s@.len(),
            texts_of(out@) == uniq_keys_of(views_of(s@.subrange(0, i as int))),
        decreases s@.len() - i,
    {
        proof {
            assert(s@.subrange(0, i as int + 1).drop_last() =~= s@.subrange(0, i as int));
            lemma_views_drop_last(s@.subrange(0, i as int + 1));
            assert(s@.subrange(0, i as int + 1).last() == s@[i as int]);
        }
        match &s[i].data {
            crate::types::EventData::Object(ps) => {
                let ghost f = |p: (Vec<u8>, Vec<u8>)| (p.0@, p.1@);
                let ghost pv = ps@.map_values(f);
                proof {
                    assert(pv =~~= obj_pairs(s@[i as int].data@));
                    assert(pv.skip(0) =~= pv);
                }
                let mut j: usize = 0;
                while j < ps.len()
                    invariant
                        j <= ps@.len(),
                        pv == ps@.map_values(f),
                        f == (|p: (Vec<u8>, Vec<u8>)| (p.0@, p.1@)),
                        append_new_keys(texts_of(out@), pv.skip(j as int))
                            == uniq_keys_of(views_of(s@.subrange(0, i as int + 1))),
                    decreases ps@.len() - j,
                {
                    proof {
                        assert(pv.skip(j as int)[0] == pv[j as int]);
                        assert(pv[j as int] == f(ps@[j as int]));
                        assert(pv.skip(j as int).skip(1) =~= pv.skip(j as int + 1));
                    }
                    if !contains_text(&out, &ps[j].0) {
                        let ghost before = out@;
                        let key = ps[j].0.clone();
                        out.push(key);
                        proof {
                            lemma_texts_push(before, out@.last());
                        }
                    }
                    j = j + 1;
                }
                proof {
                    assert(pv.skip(ps@.len() as int) =~= Seq::<(Seq<u8>, Seq<u8>)>::empty());
                }
            }
            crate::types::EventData::Scalar(_) => {
                proof {
                    assert(obj_pairs(s@[i as int].data@) =~~= Seq::<(Seq<u8>, Seq<u8>)>::empty());
                    assert(uniq_keys_of(views_of(s@.subrange(0, i as int + 1)))
                        == append_new_keys(texts_of(out@), obj_pairs(s@[i as int].data@)));
                }
            }
        }
        i = i + 1;
    }
    proof {
        assert(s@.subrange(0, s@.len() as int) =~= s@);
    }
    out
}

/// Renders one column descriptor.
fn col_text_exec(k: &Vec<u8>) -> (r: Vec<u8>)
    ensures
        r@ == col_text(k@),
{
    let lf: [u8; 9] = [123, 34, 102, 105, 101, 108, 100, 34, 58];
    let lt: [u8; 9] = [44, 34, 116, 105, 116, 108, 101, 34, 58];
    proof {
        assert(lf@ =~= lit_field());
        assert(lt@ =~= lit_title());
    }
    let mut out: Vec<u8> = Vec::new();
    crate::codec::push_bytes(&mut out, lf.as_slice());
    crate::codec::push_quoted(&mut out, k);
    crate::codec::push_bytes(&mut out, lt.as_slice());
    let title = sentence_case(k);
    crate::codec::push_quoted(&mut out, &title);
    out.push(125);
    proof {
        assert(out@ =~= col_text(k@));
    }
    out
}

/// Mirrors `cols_of`.
fn cols_of_exec(keys: &Vec<Vec<u8>>) -> (r: Vec<Vec<u8>>)
    ensures
        texts_of(r@) == cols_of(texts_of(keys@)),
{
    let tsk: [u8; 9] = [116, 105, 109, 101, 115, 116, 97, 109, 112];
    let ck: [u8; 13] = [99, 111, 108, 108, 101, 99, 116, 105, 111, 110, 95, 105, 100];
    let mut tskv: Vec<u8> = Vec::new();
    crate::codec::push_bytes(&mut tskv, tsk.as_slice());
    let mut ckv: Vec<u8> = Vec::new();
    crate::codec::push_bytes(&mut ckv, ck.as_slice());
    proof {
        assert(tskv@ =~= ts_key());
        assert(ckv@ =~= coll_key());
    }
    let mut out: Vec<Vec<u8>> = Vec::new();
    let mut i: usize = 0;
    proof {
        assert(texts_of(keys@.subrange(0, 0)) =~~= Seq::<Seq<u8>>::empty());
        assert(texts_of(out@) =~= cols_of(texts_of(keys@.subrange(0, 0))));
    }
    while i < keys.len()
        invariant
            i <= keys@.len(),
            tskv@ == ts_key(),
            ckv@ == coll_key(),
            texts_of(out@) == cols_of(texts_of(keys@.subrange(0, i as int))),
        decreases keys@.len() - i,
    {
        proof {
            assert(keys@.subrange(0, i as int + 1).drop_last() =~= keys@.subrange(0, i as int));
            assert(texts_of(keys@.subrange(0, i as int + 1)).drop_last()
                =~~= texts_of(keys@.subrange(0, i as int)));
            assert(texts_of(keys@.subrange(0, i as int + 1)).last() == keys@[i as int]@);
        }
        if !crate::bytes::bytes_eq(&keys[i], &tskv) && !crate::bytes::bytes_eq(&keys[i], &ckv) {
            let ghost before = out@;
            let c = col_text_exec(&keys[i]);
            out.push(c);
            proof {
                lemma_texts_push(before, out@.last());
            }
        }
        i = i + 1;
    }
    proof {
        assert(keys@.subrange(0, keys@.len() as int) =~= keys@);
    }
    out
}

/// Builds the full rendered column list for the selected events.
fn cols_full_exec(objs: &Vec<Event>) -> (r: Vec<Vec<u8>>)
    ensures
        texts_of(r@) == cols_full(views_of(objs@)),
{
    let tsk: [u8; 9] = [116, 105, 109, 101, 115, 116, 97, 109, 112];
    let tst: [u8; 9] = [84, 105, 109, 101, 115, 116, 97, 109, 112];
    let ck: [u8; 13] = [99, 111, 108, 108, 101, 99, 116, 105, 111, 110, 95, 105, 100];
    let lf: [u8; 9] = [123, 34, 102, 105, 101, 108, 100, 34, 58];
    let lt: [u8; 9] = [44, 34, 116, 105, 116, 108, 101, 34, 58];
    proof {
        assert(tsk@ =~= ts_key());
        assert(tst@ =~= ts_title());
        assert(ck@ =~= coll_key());
        assert(lf@ =~= lit_field());
        assert(lt@ =~= lit_title());
    }
    let mut tscol: Vec<u8> = Vec::new();
    crate::codec::push_bytes(&mut tscol, lf.as_slice());
    let mut tskv: Vec<u8> = Vec::new();
    crate::codec::push_bytes(&mut tskv, tsk.as_slice());
    crate::codec::push_quoted(&mut tscol, &tskv);
    crate::codec::push_bytes(&mut tscol, lt.as_slice());
    let mut tstv: Vec<u8> = Vec::new();
    crate::codec::push_bytes(&mut tstv, tst.as_slice());
    crate::codec::push_quoted(&mut tscol, &tstv);
    tscol.push(125);
    proof {
        assert(tscol@ =~= col_pair_text(ts_key(), ts_title()));
    }
    let mut ccol: Vec<u8> = Vec::new();
    crate::codec::push_bytes(&mut ccol, lf.as_slice());
    let mut ckv: Vec<u8> = Vec::new();
    crate::codec::push_bytes(&mut ckv, ck.as_slice());
    crate::codec::push_quoted(&mut ccol, &ckv);
    crate::codec::push_bytes(&mut ccol, lt.as_slice());
    let mut ckv2: Vec<u8> = Vec::new();
    crate::codec::push_bytes(&mut ckv2, ck.as_slice());
    crate::codec::push_quoted(&mut ccol, &ckv2);
    ccol.push(125);
    proof {
        assert(ccol@ =~= col_pair_text(coll_key(), coll_key()));
    }
    let keys = uniq_keys_exec(objs);
    let sorted = sort_lex_exec(cols_of_exec(&keys));
    let mut out: Vec<Vec<u8>> = Vec::new();
    out.push(tscol);
    out.push(ccol);
    let mut i: usize = 0;
    while i < sorted.len()
        invariant
            i <= sorted@.len(),
            out@.len() == 2 + i,
            texts_of(out@)[0] == col_pair_text(ts_key(), ts_title()),
            texts_of(out@)[1] == col_pair_text(coll_key(), coll_key()),
            forall|j: int| 0 <= j < i ==> texts_of(out@)[2 + j] == texts_of(sorted@)[j],
            texts_of(sorted@) == sort_lex(cols_of(uniq_keys_of(views_of(objs@)))),
        decreases sorted@.len() - i,
    {
        proof {
            assert(texts_of(sorted@)[i as int] == sorted@[i as int]@);
        }
        let c = crate::bytes::subvec(&sorted[i], 0, sorted[i].len());
        proof {
            assert(c@ =~= sorted@[i as int]@);
        }
        out.push(c);
        proof {
            assert forall|j: int| 0 <= j < out@.len() implies
                texts_of(out@)[j] == out@[j]@ by {}
        }
        i = i + 1;
    }
    proof {
        assert(texts_of(out@) =~~= cols_full(views_of(objs@)));
    }
    out
}

/// Builds the payload for one event name.
fn group_payload_exec(evs: &Vec<Event>, name: &Vec<u8>) -> (r: Vec<u8>)
    ensures
        r@ == group_payload(views_of(evs@), name@),
{
    let sel = filter_name_exec(evs, name);
    let ded = dedup_by_collection_exec(sel);
    let objs = filter_objects_exec(&ded);
    let le: [u8; 10] = [123, 34, 101, 118, 101, 110, 116, 115, 34, 58];
    let lc: [u8; 11] = [44, 34, 99, 111, 108, 117, 109, 110, 115, 34, 58];
    let lr: [u8; 8] = [44, 34, 114, 111, 119, 115, 34, 58];
    proof {
        assert(le@ =~= lit_events());
        assert(lc@ =~= lit_columns());
        assert(lr@ =~= lit_rows());
    }
    let mut out: Vec<u8> = Vec::new();
    crate::codec::push_bytes(&mut out, le.as_slice());
    let wires = wire_texts_exec(&objs);
    push_text_array(&mut out, &wires);
    crate::codec::push_bytes(&mut out, lc.as_slice());
    let cols = cols_full_exec(&objs);
    push_text_array(&mut out, &cols);
    crate::codec::push_bytes(&mut out, lr.as_slice());
    let objs_for_rows = sort_by_rowkey_exec(objs);
    let rev = reverse_events_exec(&objs_for_rows);
    let rows = row_texts_exec(&rev);
    push_text_array(&mut out, &rows);
    out.push(125);
    proof {
        assert(out@ =~= group_payload(views_of(evs@), name@));
    }
    out
}

/// The tenant's tabular snapshot: one push frame per event name, each
/// carrying the name's events, columns and rows as JSON. Deterministic
/// except for each frame's fresh id; every frame is bound to the tenant
/// and carries the five-second retry hint.
pub fn get_events(db: &sled::Db, tenant_id: &Vec<u8>) -> (r: Result<Vec<SSE>, BrokerError>)
    ensures
        match r {
            Ok(frames) => {
                &&& frames@.len() == snapshot_frames(db_order(*db), tenant_id@).len()
                &&& forall|i: int| 0 <= i < frames@.len() ==> {
                    let spec_frames = snapshot_frames(db_order(*db), tenant_id@);
                    &&& (#[trigger] frames@[i]).event@ == spec_frames[i].event
                    &&& frames@[i].data@ == spec_frames[i].data
                    &&& frames@[i].tenant_id@ == tenant_id@
                    &&& frames@[i].retry == 5000
                    &&& frames@[i].id@.len() == 36
                }
            },
            Err(BrokerError::Storage) => true,
            Err(_) => false,
        },
{
    let all = match scan_events(db) {
        Ok(evs) => evs,
        Err(e) => {
            return Err(e);
        }
    };
    let live = filter_tenant_live_exec(&all, tenant_id);
    let evs = sort_by_ts_exec(live);
    let names = uniq_names_exec(&evs);
    let ghost evs_v = views_of(evs@);
    let ghost names_v = texts_of(names@);
    let mut out: Vec<SSE> = Vec::new();
    let mut i: usize = 0;
    proof {
        assert(names_v.subrange(0, 0) =~= Seq::<Seq<u8>>::empty());
    }
    while i < names.len()
        invariant
            i <= names@.len(),
            evs_v == views_of(evs@),
            names_v == texts_of(names@),
            names_v == uniq_names(evs_v),
            out@.len() == i,
            forall|j: int| 0 <= j < i ==> {
                let spec_frames = frames_for(evs_v, names_v);
                &&& (#[trigger] out@[j]).event@ == spec_frames[j].event
                &&& out@[j].data@ == spec_frames[j].data
                &&& out@[j].tenant_id@ == tenant_id@
                &&& out@[j].retry == 5000
                &&& out@[j].id@.len() == 36
            },
        decreases names@.len() - i,
    {
        let payload = group_payload_exec(&evs, &names[i]);
        let frame = SSE {
            id: crate::ids::fresh_uuid(),
            event: names[i].clone(),
            data: payload,
            retry: 5000,
            tenant_id: tenant_id.clone(),
        };
        proof {
            lemma_frames_for_index(evs_v, names_v, i as int);
            assert(names_v[i as int] == names@[i as int]@);
        }
        out.push(frame);
        i = i + 1;
    }
    proof {
        assert(frames_for(evs_v, names_v).len() == names_v.len()) by {
            lemma_frames_for_len(evs_v, names_v);
        }
    }
    Ok(out)
}

/// Each frame of `frames_for` carries its name and that name's payload.
proof fn lemma_frames_for_index(evs: Seq<EventV>, names: Seq<Seq<u8>>, i: int)
    requires
        0 <= i < names.len(),
    ensures
        frames_for(evs, names).len() == names.len(),
        frames_for(evs, names)[i] == (FrameV {
            event: names[i],
            data: group_payload(evs, names[i]),
        }),
    decreases names.len(),
{
    lemma_frames_for_len(evs, names);
    if i < names.len() - 1 {
        lemma_frames_for_index(evs, names.drop_last(), i);
        assert(names.drop_last()[i] == names[i]);
    }
}

proof fn lemma_frames_for_len(evs: Seq<EventV>, names: Seq<Seq<u8>>)
    ensures
        frames_for(evs, names).len() == names.len(),
    decreases names.len(),
{
    if names.len() > 0 {
        lemma_frames_for_len(evs, names.drop_last());
    }
}

} // verus!

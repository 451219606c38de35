//! The persistence layer: a thin, trusted adapter around the embedded
//! ordered key-value engine (`sled`), with the key namespace on top.
//!
//! The store's contents are modelled by two names: `db_map`, the keyed
//! contents, and `db_order`, the key-ascending enumeration a scan yields.
//! Every mutation of an existing key goes through compare-and-swap.

use vstd::prelude::*;

use crate::bytes::lex_le;

verus! {

#[verifier::external_type_specification]
#[verifier::external_body]
pub struct ExDb(sled::Db);

/// What the store holds: each key's bytes.
pub uninterp spec fn db_map(db: sled::Db) -> Map<Seq<u8>, Seq<u8>>;

/// The pairs a full scan yields, in the engine's key-ascending order.
pub uninterp spec fn db_order(db: sled::Db) -> Seq<(Seq<u8>, Seq<u8>)>;

/// Outcome of a point read.
pub enum GetOutcome {
    /// The key is present with these bytes.
    Found(Vec<u8>),
    /// The key is absent.
    Absent,
    /// The engine reported a fault; nothing is known.
    Fault,
}

/// Outcome of a compare-and-swap.
pub enum CasOutcome {
    /// The expectation held and the new value is in place.
    Done,
    /// The expectation did not hold; nothing changed.
    Mismatch,
    /// The engine reported a fault; nothing changed.
    Fault,
}

/// The expectation a compare-and-swap is predicated on: the key currently
/// holds exactly `o`, or is absent.
pub open spec fn cas_expectation(
    m: Map<Seq<u8>, Seq<u8>>,
    key: Seq<u8>,
    expected: Option<Seq<u8>>,
) -> bool {
    match expected {
        Some(o) => m.contains_key(key) && m[key] == o,
        None => !m.contains_key(key),
    }
}

/// Relies on sled::Tree::get: the value stored at `key`, if any.
#[verifier::external_body]
pub fn store_get(db: &sled::Db, key: &Vec<u8>) -> (r: GetOutcome)
    ensures
        match r {
            GetOutcome::Found(v) => db_map(*db).contains_key(key@) && db_map(*db)[key@] == v@,
            GetOutcome::Absent => !db_map(*db).contains_key(key@),
            GetOutcome::Fault => true,
        },
{
    match db.get(key.as_slice()) {
        Ok(Some(v)) => GetOutcome::Found(v.to_vec()),
        Ok(None) => GetOutcome::Absent,
        Err(_) => GetOutcome::Fault,
    }
}

/// Relies on sled::Tree::compare_and_swap: writes `newval` at `key` only
/// if the key currently holds exactly `expected` (or is absent for `None`);
/// a mismatch or an engine fault leaves the store unchanged.
#[verifier::external_body]
pub fn store_cas(
    db: &mut sled::Db,
    key: &Vec<u8>,
    expected: Option<&Vec<u8>>,
    newval: &Vec<u8>,
) -> (r: CasOutcome)
    ensures
        match r {
            CasOutcome::Done => {
                &&& cas_expectation(db_map(*old(db)), key@,
                        match expected { Some(o) => Some(o@), None => None })
                &&& db_map(*final(db)) == db_map(*old(db)).insert(key@, newval@)
            },
            CasOutcome::Mismatch => {
                &&& *final(db) == *old(db)
                &&& !cas_expectation(db_map(*old(db)), key@,
                        match expected { Some(o) => Some(o@), None => None })
            },
            CasOutcome::Fault => *final(db) == *old(db),
        },
{
    let res = match expected {
        Some(o) => db.compare_and_swap(
            key.as_slice(), Some(o.as_slice()), Some(newval.as_slice())),
        None => db.compare_and_swap(
            key.as_slice(), None as Option<&[u8]>, Some(newval.as_slice())),
    };
    match res {
        Ok(Ok(())) => CasOutcome::Done,
        Ok(Err(_)) => CasOutcome::Mismatch,
        Err(_) => CasOutcome::Fault,
    }
}

/// Relies on sled::Tree::iter: yields every pair, keys strictly ascending.
/// The second component is false when the engine reported a fault mid-scan;
/// the clauses then say nothing.
#[verifier::external_body]
pub fn store_scan(db: &sled::Db) -> (r: (Vec<(Vec<u8>, Vec<u8>)>, bool))
    ensures
        r.1 ==> r.0@.map_values(|p: (Vec<u8>, Vec<u8>)| (p.0@, p.1@)) == db_order(*db),
        r.1 ==> forall|i: int| 0 <= i < r.0@.len() ==>
            #[trigger] db_map(*db).contains_key(r.0@[i].0@)
            && db_map(*db)[r.0@[i].0@] == r.0@[i].1@,
        r.1 ==> forall|k: Seq<u8>| #[trigger] db_map(*db).contains_key(k) ==>
            exists|i: int| 0 <= i < r.0@.len() && #[trigger] r.0@[i].0@ == k,
        r.1 ==> forall|i: int, j: int| 0 <= i < j < r.0@.len() ==>
            lex_le(r.0@[i].0@, r.0@[j].0@) && r.0@[i].0@ != r.0@[j].0@,
{
    let mut out: Vec<(Vec<u8>, Vec<u8>)> = Vec::new();
    for item in db.iter() {
        match item {
            Ok((k, v)) => out.push((k.to_vec(), v.to_vec())),
            Err(_) => return (out, false),
        }
    }
    (out, true)
}

/// Relies on sled::Tree::flush: durably persists pending writes; the
/// contents are unchanged. Returns whether the engine reported success.
#[verifier::external_body]
pub fn store_flush(db: &mut sled::Db) -> (r: bool)
    ensures
        *final(db) == *old(db),
{
    db.flush().is_ok()
}

// ---------------------------------------------------------------------
// the key namespace
// ---------------------------------------------------------------------

/// `_u_<id>`
pub open spec fn user_key(id: Seq<u8>) -> Seq<u8> {
    seq![95u8, 117u8, 95u8] + id
}

/// `_v_<id>`
pub open spec fn event_key(id: Seq<u8>) -> Seq<u8> {
    seq![95u8, 118u8, 95u8] + id
}

/// The key lies in the user namespace.
pub open spec fn is_user_key(k: Seq<u8>) -> bool {
    k.len() >= 3 && k.subrange(0, 3) == seq![95u8, 117u8, 95u8]
}

/// The key lies in the event namespace.
pub open spec fn is_event_key(k: Seq<u8>) -> bool {
    k.len() >= 3 && k.subrange(0, 3) == seq![95u8, 118u8, 95u8]
}

/// The id a namespaced key carries.
pub open spec fn key_id(k: Seq<u8>) -> Seq<u8> {
    k.skip(3)
}

/// The two namespaces are disjoint, a built key lies in its namespace,
/// and the id is recovered exactly.
pub proof fn lemma_key_namespace(id: Seq<u8>)
    ensures
        is_user_key(user_key(id)),
        is_event_key(event_key(id)),
        !is_event_key(user_key(id)),
        !is_user_key(event_key(id)),
        key_id(user_key(id)) == id,
        key_id(event_key(id)) == id,
{
    assert(user_key(id).subrange(0, 3) =~= seq![95u8, 117u8, 95u8]);
    assert(event_key(id).subrange(0, 3) =~= seq![95u8, 118u8, 95u8]);
    assert(user_key(id).subrange(0, 3)[1] == 117u8);
    assert(event_key(id).subrange(0, 3)[1] == 118u8);
    assert(key_id(user_key(id)) =~= id);
    assert(key_id(event_key(id)) =~= id);
}

/// Builds `_u_<id>`.
pub fn make_user_key(id: &Vec<u8>) -> (r: Vec<u8>)
    ensures
        r@ == user_key(id@),
{
    let mut out: Vec<u8> = Vec::new();
    out.push(95);
    out.push(117);
    out.push(95);
    crate::codec::push_bytes(&mut out, id.as_slice());
    proof {
        assert(out@ =~= user_key(id@));
    }
    out
}

/// Builds `_v_<id>`.
pub fn make_event_key(id: &Vec<u8>) -> (r: Vec<u8>)
    ensures
        r@ == event_key(id@),
{
    let mut out: Vec<u8> = Vec::new();
    out.push(95);
    out.push(118);
    out.push(95);
    crate::codec::push_bytes(&mut out, id.as_slice());
    proof {
        assert(out@ =~= event_key(id@));
    }
    out
}

/// Decides whether `k` lies in the event namespace.
pub fn check_event_key(k: &Vec<u8>) -> (r: bool)
    ensures
        r == is_event_key(k@),
{
    if k.len() < 3 {
        proof {
            assert(!is_event_key(k@));
        }
        return false;
    }
    let r = k[0] == 95 && k[1] == 118 && k[2] == 95;
    proof {
        if r {
            assert(k@.subrange(0, 3) =~= seq![95u8, 118u8, 95u8]);
        } else {
            assert(k@.subrange(0, 3)[0] == k@[0]);
            assert(k@.subrange(0, 3)[1] == k@[1]);
            assert(k@.subrange(0, 3)[2] == k@[2]);
        }
    }
    r
}

/// Decides whether `k` lies in the user namespace.
pub fn check_user_key(k: &Vec<u8>) -> (r: bool)
    ensures
        r == is_user_key(k@),
{
    if k.len() < 3 {
        proof {
            assert(!is_user_key(k@));
        }
        return false;
    }
    let r = k[0] == 95 && k[1] == 117 && k[2] == 95;
    proof {
        if r {
            assert(k@.subrange(0, 3) =~= seq![95u8, 117u8, 95u8]);
        } else {
            assert(k@.subrange(0, 3)[0] == k@[0]);
            assert(k@.subrange(0, 3)[1] == k@[1]);
            assert(k@.subrange(0, 3)[2] == k@[2]);
        }
    }
    r
}

} // verus!

//! The broker's store-wide laws, stated once over the predicates the
//! mutators' contracts establish.

use vstd::prelude::*;

use crate::projection::{snapshot_frames, FrameV};
use crate::records::{cancelled_monotone, lemma_monotone_trans, lemma_username_stays_taken,
    published_monotone, username_taken, users_preserved};
use crate::types::SSE;

verus! {

/// Unique usernames: once a signup for `name` has succeeded — so the
/// store carries a user record with that name — every state reached by
/// steps that preserve user records still carries it, and by the contract
/// of `user_create` a later signup for `name` can never return a second
/// success.
pub proof fn lemma_unique_usernames(
    m1: Map<Seq<u8>, Seq<u8>>,
    m2: Map<Seq<u8>, Seq<u8>>,
    name: Seq<u8>,
)
    requires
        username_taken(m1, name),
        users_preserved(m1, m2),
    ensures
        username_taken(m2, name),
{
    lemma_username_stays_taken(m1, m2, name);
}

/// Publication monotonicity: each mutation of the store preserves every
/// set `published` flag, and the preservation composes over any two
/// successive steps — once an observer has seen `published == true` for a
/// record, no later state shows it `false`.
pub proof fn lemma_publication_monotone(
    m0: Map<Seq<u8>, Seq<u8>>,
    m1: Map<Seq<u8>, Seq<u8>>,
    m2: Map<Seq<u8>, Seq<u8>>,
)
    requires
        published_monotone(m0, m1),
        published_monotone(m1, m2),
        cancelled_monotone(m0, m1),
        cancelled_monotone(m1, m2),
    ensures
        published_monotone(m0, m2),
        cancelled_monotone(m0, m2),
{
    lemma_monotone_trans(m0, m1, m2);
}

/// Cancel terminality: once a record's `cancelled` flag is set it never
/// falls again, over any two successive steps; the scheduler's own
/// contract further says that whatever it hands to the bus carries
/// `cancelled == false` and came from a record that was not cancelled.
pub proof fn lemma_cancel_terminal(
    m0: Map<Seq<u8>, Seq<u8>>,
    m1: Map<Seq<u8>, Seq<u8>>,
    m2: Map<Seq<u8>, Seq<u8>>,
)
    requires
        published_monotone(m0, m1),
        published_monotone(m1, m2),
        cancelled_monotone(m0, m1),
        cancelled_monotone(m1, m2),
    ensures
        cancelled_monotone(m0, m2),
{
    lemma_monotone_trans(m0, m1, m2);
}

/// Snapshot idempotence: two snapshot results taken from the same store
/// state and tenant agree frame for frame on the channel name, the
/// payload and the bound tenant — everything but the fresh per-frame id.
pub proof fn lemma_snapshot_idempotent(
    order: Seq<(Seq<u8>, Seq<u8>)>,
    tenant: Seq<u8>,
    a: Seq<SSE>,
    b: Seq<SSE>,
)
    requires
        a.len() == snapshot_frames(order, tenant).len(),
        forall|i: int| 0 <= i < a.len() ==> {
            let spec_frames = snapshot_frames(order, tenant);
            (#[trigger] a[i]).event@ == spec_frames[i].event
                && a[i].data@ == spec_frames[i].data
                && a[i].tenant_id@ == tenant
        },
        b.len() == snapshot_frames(order, tenant).len(),
        forall|i: int| 0 <= i < b.len() ==> {
            let spec_frames = snapshot_frames(order, tenant);
            (#[trigger] b[i]).event@ == spec_frames[i].event
                && b[i].data@ == spec_frames[i].data
                && b[i].tenant_id@ == tenant
        },
    ensures
        a.len() == b.len(),
        forall|i: int| 0 <= i < a.len() ==> (#[trigger] a[i]).event@ == b[i].event@
            && a[i].data@ == b[i].data@
            && a[i].tenant_id@ == b[i].tenant_id@,
{
}

} // verus!

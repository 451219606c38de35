//! The per-subscriber decision step: what frames one poll tick emits.

use vstd::prelude::*;

use crate::projection::{get_events, snapshot_frames};
use crate::store::db_order;
use crate::types::{BrokerError, Event, SSE};

verus! {

/// `internal_status`
pub open spec fn internal_status_name() -> Seq<u8> {
    seq![105u8, 110, 116, 101, 114, 110, 97, 108, 95, 115, 116, 97, 116, 117, 115]
}

/// `{"status":"polling"}`
pub open spec fn polling_text() -> Seq<u8> {
    seq![123u8, 34, 115, 116, 97, 116, 117, 115, 34, 58, 34, 112, 111, 108, 108, 105, 110,
        103, 34, 125]
}

/// `{"error":"denied"}`
pub open spec fn denied_text() -> Seq<u8> {
    seq![123u8, 34, 101, 114, 114, 111, 114, 34, 58, 34, 100, 101, 110, 105, 101, 100, 34,
        125]
}

/// One poll tick of a subscriber session bound to `tenant_id`.
///
/// An unauthenticated session gets the single denied status frame. An
/// authenticated one that received a bus nudge of its own tenant gets the
/// full tenant snapshot; otherwise a single keepalive. Every frame emitted
/// carries the session's tenant.
pub fn event_stream(
    db: &sled::Db,
    allowed: bool,
    tenant_id: &Vec<u8>,
    received: Option<&Event>,
) -> (r: Result<Vec<SSE>, BrokerError>)
    ensures
        match r {
            Ok(frames) => {
                &&& forall|i: int| 0 <= i < frames@.len() ==> {
                    &&& (#[trigger] frames@[i]).tenant_id@ == tenant_id@
                    &&& frames@[i].retry == 5000
                    &&& frames@[i].id@.len() == 36
                }
                &&& if !allowed {
                    frames@.len() == 1
                        && frames@[0].event@ == internal_status_name()
                        && frames@[0].data@ == denied_text()
                } else {
                    match received {
                        Some(e) => if e.tenant_id@ == tenant_id@ {
                            frames@.len() == snapshot_frames(db_order(*db), tenant_id@).len()
                                && forall|i: int| 0 <= i < frames@.len() ==> {
                                    let spec_frames = snapshot_frames(db_order(*db), tenant_id@);
                                    (#[trigger] frames@[i]).event@ == spec_frames[i].event
                                        && frames@[i].data@ == spec_frames[i].data
                                }
                        } else {
                            frames@.len() == 1
                                && frames@[0].event@ == internal_status_name()
                                && frames@[0].data@ == polling_text()
                        },
                        None => frames@.len() == 1
                            && frames@[0].event@ == internal_status_name()
                            && frames@[0].data@ == polling_text(),
                    }
                }
            },
            Err(BrokerError::Storage) => allowed,
            Err(_) => false,
        },
{
    let name_lit: [u8; 15] =
        [105, 110, 116, 101, 114, 110, 97, 108, 95, 115, 116, 97, 116, 117, 115];
    proof {
        assert(name_lit@ =~= internal_status_name());
    }
    if !allowed {
        let denied: [u8; 18] =
            [123, 34, 101, 114, 114, 111, 114, 34, 58, 34, 100, 101, 110, 105, 101, 100, 34,
                125];
        proof {
            assert(denied@ =~= denied_text());
        }
        let mut name: Vec<u8> = Vec::new();
        crate::codec::push_bytes(&mut name, name_lit.as_slice());
        let mut data: Vec<u8> = Vec::new();
        crate::codec::push_bytes(&mut data, denied.as_slice());
        let frame = SSE {
            id: crate::ids::fresh_uuid(),
            event: name,
            data,
            retry: 5000,
            tenant_id: tenant_id.clone(),
        };
        let mut out: Vec<SSE> = Vec::new();
        out.push(frame);
        return Ok(out);
    }
    let nudged = match received {
        Some(e) => crate::bytes::bytes_eq(&e.tenant_id, tenant_id),
        None => false,
    };
    if nudged {
        return get_events(db, tenant_id);
    }
    let polling: [u8; 20] =
        [123, 34, 115, 116, 97, 116, 117, 115, 34, 58, 34, 112, 111, 108, 108, 105, 110,
            103, 34, 125];
    proof {
        assert(polling@ =~= polling_text());
    }
    let mut name: Vec<u8> = Vec::new();
    crate::codec::push_bytes(&mut name, name_lit.as_slice());
    let mut data: Vec<u8> = Vec::new();
    crate::codec::push_bytes(&mut data, polling.as_slice());
    let frame = SSE {
        id: crate::ids::fresh_uuid(),
        event: name,
        data,
        retry: 5000,
        tenant_id: tenant_id.clone(),
    };
    let mut out: Vec<SSE> = Vec::new();
    out.push(frame);
    Ok(out)
}

} // verus!

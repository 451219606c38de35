//! The store's record format: a canonical, JSON-shaped text encoding of
//! user and event records, with an exact parser.
//!
//! Strings are quoted with `"` and escape only `"` and `\`; numbers are
//! plain decimals; an event's free-form data value is stored self-described
//! as `{"object":[[key,value],...]}` or `{"scalar":value-text}`.

use vstd::prelude::*;

use crate::types::{DataV, Event, EventData, EventV, UserV};
use crate::types::User;

verus! {

// ---------------------------------------------------------------------
// spec: text building blocks
// ---------------------------------------------------------------------

/// One byte of string content, escaped: `"` (34) and `\` (92) get a
/// leading backslash, every other byte stands as it is.
pub open spec fn esc_byte(b: u8) -> Seq<u8> {
    if b == 34 || b == 92 {
        seq![92u8, b]
    } else {
        seq![b]
    }
}

/// String content with every byte escaped.
pub open spec fn esc(s: Seq<u8>) -> Seq<u8>
    decreases s.len(),
{
    if s.len() == 0 {
        Seq::empty()
    } else {
        esc(s.drop_last()) + esc_byte(s.last())
    }
}

/// A quoted JSON string.
pub open spec fn quoted(s: Seq<u8>) -> Seq<u8> {
    seq![34u8] + esc(s) + seq![34u8]
}

/// Decimal digits of an unsigned number.
pub open spec fn dec_u64(n: nat) -> Seq<u8>
    decreases n,
{
    if n < 10 {
        seq![(48 + n) as u8]
    } else {
        dec_u64(n / 10) + seq![(48 + n % 10) as u8]
    }
}

/// Decimal text of a signed number.
pub open spec fn dec_i64(n: int) -> Seq<u8> {
    if n < 0 {
        seq![45u8] + dec_u64((-n) as nat)
    } else {
        dec_u64(n as nat)
    }
}

/// `true` or `false`.
pub open spec fn bool_text(b: bool) -> Seq<u8> {
    if b {
        seq![116u8, 114, 117, 101]
    } else {
        seq![102u8, 97, 108, 115, 101]
    }
}

// ---------------------------------------------------------------------
// spec: record fragments
// ---------------------------------------------------------------------

/// `{"id":`
pub open spec fn lit_key_id() -> Seq<u8> {
    seq![123u8, 34, 105, 100, 34, 58]
}

/// `,"user_id":`
pub open spec fn lit_key_user_id() -> Seq<u8> {
    seq![44u8, 34, 117, 115, 101, 114, 95, 105, 100, 34, 58]
}

/// `,"username":`
pub open spec fn lit_key_username() -> Seq<u8> {
    seq![44u8, 34, 117, 115, 101, 114, 110, 97, 109, 101, 34, 58]
}

/// `,"password":`
pub open spec fn lit_key_password() -> Seq<u8> {
    seq![44u8, 34, 112, 97, 115, 115, 119, 111, 114, 100, 34, 58]
}

/// `,"collection_id":`
pub open spec fn lit_key_collection_id() -> Seq<u8> {
    seq![44u8, 34, 99, 111, 108, 108, 101, 99, 116, 105, 111, 110, 95, 105, 100, 34, 58]
}

/// `,"tenant_id":`
pub open spec fn lit_key_tenant_id() -> Seq<u8> {
    seq![44u8, 34, 116, 101, 110, 97, 110, 116, 95, 105, 100, 34, 58]
}

/// `,"event":`
pub open spec fn lit_key_event() -> Seq<u8> {
    seq![44u8, 34, 101, 118, 101, 110, 116, 34, 58]
}

/// `,"timestamp":`
pub open spec fn lit_key_timestamp() -> Seq<u8> {
    seq![44u8, 34, 116, 105, 109, 101, 115, 116, 97, 109, 112, 34, 58]
}

/// `,"published":`
pub open spec fn lit_key_published() -> Seq<u8> {
    seq![44u8, 34, 112, 117, 98, 108, 105, 115, 104, 101, 100, 34, 58]
}

/// `,"cancelled":`
pub open spec fn lit_key_cancelled() -> Seq<u8> {
    seq![44u8, 34, 99, 97, 110, 99, 101, 108, 108, 101, 100, 34, 58]
}

/// `,"data":`
pub open spec fn lit_key_data() -> Seq<u8> {
    seq![44u8, 34, 100, 97, 116, 97, 34, 58]
}

/// `{"object":`
pub open spec fn lit_data_object() -> Seq<u8> {
    seq![123u8, 34, 111, 98, 106, 101, 99, 116, 34, 58]
}

/// `{"scalar":`
pub open spec fn lit_data_scalar() -> Seq<u8> {
    seq![123u8, 34, 115, 99, 97, 108, 97, 114, 34, 58]
}

/// One stored data pair: `["key","value-text"]`.
pub open spec fn enc_pair(p: (Seq<u8>, Seq<u8>)) -> Seq<u8> {
    seq![91u8] + quoted(p.0) + seq![44u8] + quoted(p.1) + seq![93u8]
}

/// The comma-joined pairs, without the surrounding brackets.
pub open spec fn enc_pairs_inner(ps: Seq<(Seq<u8>, Seq<u8>)>) -> Seq<u8>
    decreases ps.len(),
{
    if ps.len() == 0 {
        Seq::empty()
    } else if ps.len() == 1 {
        enc_pair(ps[0])
    } else {
        enc_pairs_inner(ps.drop_last()) + seq![44u8] + enc_pair(ps.last())
    }
}

/// The stored pair list: `[["k","v"],...]`.
pub open spec fn enc_pairs(ps: Seq<(Seq<u8>, Seq<u8>)>) -> Seq<u8> {
    seq![91u8] + enc_pairs_inner(ps) + seq![93u8]
}

/// The stored form of an event's data value.
pub open spec fn enc_data(d: DataV) -> Seq<u8> {
    match d {
        DataV::Object(ps) => lit_data_object() + enc_pairs(ps) + seq![125u8],
        DataV::Scalar(raw) => lit_data_scalar() + quoted(raw) + seq![125u8],
    }
}

/// The canonical stored user record.
#[verifier::opaque]
pub open spec fn enc_user(u: UserV) -> Seq<u8> {
    lit_key_id() + quoted(u.id)
        + lit_key_username() + quoted(u.username)
        + lit_key_password() + quoted(u.password)
        + lit_key_collection_id() + quoted(u.collection_id)
        + lit_key_tenant_id() + quoted(u.tenant_id)
        + seq![125u8]
}

/// The canonical stored event record.
#[verifier::opaque]
pub open spec fn enc_event(e: EventV) -> Seq<u8> {
    lit_key_id() + quoted(e.id)
        + lit_key_user_id() + quoted(e.user_id)
        + lit_key_collection_id() + quoted(e.collection_id)
        + lit_key_tenant_id() + quoted(e.tenant_id)
        + lit_key_event() + quoted(e.event)
        + lit_key_timestamp() + dec_i64(e.timestamp as int)
        + lit_key_published() + bool_text(e.published)
        + lit_key_cancelled() + bool_text(e.cancelled)
        + lit_key_data() + enc_data(e.data)
        + seq![125u8]
}

// ---------------------------------------------------------------------
// exec: encoders
// ---------------------------------------------------------------------

/// Appends a literal byte slice.
pub fn push_bytes(out: &mut Vec<u8>, s: &[u8])
    ensures
        final(out)@ == old(out)@ + s@,
{
    let mut i: usize = 0;
    proof {
        assert(out@ =~= old(out)@ + s@.subrange(0, 0));
    }
    while i < s.len()
        invariant
            i <= s@.len(),
            out@ == old(out)@ + s@.subrange(0, i as int),
        decreases s@.len() - i,
    {
        let b = s[i];
        out.push(b);
        proof {
            assert(out@ =~= old(out)@ + s@.subrange(0, i as int + 1));
        }
        i = i + 1;
    }
    proof {
        assert(old(out)@ + s@.subrange(0, s@.len() as int) =~= old(out)@ + s@);
    }
}

/// Appends string content, escaping `"` and `\`.
pub fn push_escaped(out: &mut Vec<u8>, s: &Vec<u8>)
    ensures
        final(out)@ == old(out)@ + esc(s@),
{
    let mut i: usize = 0;
    proof {
        assert(esc(s@.subrange(0, 0)) =~= Seq::<u8>::empty());
        assert(out@ =~= old(out)@ + esc(s@.subrange(0, 0)));
    }
    while i < s.len()
        invariant
            i <= s@.len(),
            out@ == old(out)@ + esc(s@.subrange(0, i as int)),
        decreases s@.len() - i,
    {
        let b = s[i];
        if b == 34 || b == 92 {
            out.push(92);
            out.push(b);
        } else {
            out.push(b);
        }
        proof {
            assert(s@.subrange(0, i as int + 1).drop_last() =~= s@.subrange(0, i as int));
            assert(s@.subrange(0, i as int + 1).last() == s@[i as int]);
            assert(esc(s@.subrange(0, i as int + 1))
                == esc(s@.subrange(0, i as int)) + esc_byte(s@[i as int]));
            assert(out@ =~= old(out)@ + esc(s@.subrange(0, i as int + 1)));
        }
        i = i + 1;
    }
    proof {
        assert(s@.subrange(0, s@.len() as int) =~= s@);
    }
}

/// Appends a quoted JSON string.
pub fn push_quoted(out: &mut Vec<u8>, s: &Vec<u8>)
    ensures
        final(out)@ == old(out)@ + quoted(s@),
{
    out.push(34);
    push_escaped(out, s);
    out.push(34);
    proof {
        assert(out@ =~= old(out)@ + quoted(s@));
    }
}

/// Appends the decimal digits of `n`.
pub fn push_u64(out: &mut Vec<u8>, n: u64)
    ensures
        final(out)@ == old(out)@ + dec_u64(n as nat),
    decreases n,
{
    if n < 10 {
        out.push(48 + n as u8);
        proof {
            assert(out@ =~= old(out)@ + dec_u64(n as nat));
        }
    } else {
        push_u64(out, n / 10);
        out.push(48 + (n % 10) as u8);
        proof {
            assert(out@ =~= old(out)@ + dec_u64(n as nat));
        }
    }
}

/// Appends the decimal text of `n`.
pub fn push_i64(out: &mut Vec<u8>, n: i64)
    ensures
        final(out)@ == old(out)@ + dec_i64(n as int),
{
    if n < 0 {
        out.push(45);
        let m: u64 = (-(n as i128)) as u64;
        proof {
            assert(m as nat == (-(n as int)) as nat);
        }
        push_u64(out, m);
        proof {
            assert(out@ =~= old(out)@ + dec_i64(n as int));
        }
    } else {
        push_u64(out, n as u64);
        proof {
            assert(out@ =~= old(out)@ + dec_i64(n as int));
        }
    }
}

/// Appends `true` or `false`.
pub fn push_bool(out: &mut Vec<u8>, b: bool)
    ensures
        final(out)@ == old(out)@ + bool_text(b),
{
    if b {
        let lit: [u8; 4] = [116, 114, 117, 101];
        push_bytes(out, lit.as_slice());
        proof {
            assert(out@ =~= old(out)@ + bool_text(b));
        }
    } else {
        let lit: [u8; 5] = [102, 97, 108, 115, 101];
        push_bytes(out, lit.as_slice());
        proof {
            assert(out@ =~= old(out)@ + bool_text(b));
        }
    }
}

/// Appends the stored pair list `[["k","v"],...]`.
pub fn push_pairs(out: &mut Vec<u8>, ps: &Vec<(Vec<u8>, Vec<u8>)>)
    ensures
        final(out)@ == old(out)@ + enc_pairs(
            ps@.map_values(|p: (Vec<u8>, Vec<u8>)| (p.0@, p.1@))),
{
    let ghost f = |p: (Vec<u8>, Vec<u8>)| (p.0@, p.1@);
    out.push(91);
    let mut i: usize = 0;
    proof {
        assert(enc_pairs_inner(ps@.subrange(0, 0).map_values(f)) =~= Seq::<u8>::empty());
        assert(out@ =~= old(out)@ + seq![91u8]
            + enc_pairs_inner(ps@.subrange(0, 0).map_values(f)));
    }
    while i < ps.len()
        invariant
            i <= ps@.len(),
            out@ == old(out)@ + seq![91u8]
                + enc_pairs_inner(ps@.subrange(0, i as int).map_values(f)),
            f == (|p: (Vec<u8>, Vec<u8>)| (p.0@, p.1@)),
        decreases ps@.len() - i,
    {
        if i > 0 {
            out.push(44);
        }
        out.push(91);
        push_quoted(out, &ps[i].0);
        out.push(44);
        push_quoted(out, &ps[i].1);
        out.push(93);
        proof {
            let prev = ps@.subrange(0, i as int).map_values(f);
            let cur = ps@.subrange(0, i as int + 1).map_values(f);
            assert(ps@.subrange(0, i as int + 1).drop_last() =~= ps@.subrange(0, i as int));
            assert(cur.drop_last() =~~= prev);
            assert(cur.last() == f(ps@[i as int]));
            if i == 0 {
                assert(cur.len() == 1);
                assert(enc_pairs_inner(cur) == enc_pair(cur[0]));
                assert(cur[0] == f(ps@[0]));
                assert(out@ =~= old(out)@ + seq![91u8] + enc_pairs_inner(cur));
            } else {
                assert(enc_pairs_inner(cur)
                    == enc_pairs_inner(cur.drop_last()) + seq![44u8] + enc_pair(cur.last()));
                assert(out@ =~= old(out)@ + seq![91u8] + enc_pairs_inner(cur));
            }
        }
        i = i + 1;
    }
    out.push(93);
    proof {
        assert(ps@.subrange(0, ps@.len() as int) =~= ps@);
        assert(out@ =~= old(out)@ + enc_pairs(ps@.map_values(f)));
    }
}

/// Appends the stored form of a data value.
pub fn push_data(out: &mut Vec<u8>, d: &EventData)
    ensures
        final(out)@ == old(out)@ + enc_data(d@),
{
    match d {
        EventData::Object(ps) => {
            let lit: [u8; 10] = [123, 34, 111, 98, 106, 101, 99, 116, 34, 58];
            proof {
                assert(lit@ =~= lit_data_object());
            }
            push_bytes(out, lit.as_slice());
            push_pairs(out, ps);
            out.push(125);
            proof {
                assert(out@ =~= old(out)@ + enc_data(d@));
            }
        }
        EventData::Scalar(raw) => {
            let lit: [u8; 10] = [123, 34, 115, 99, 97, 108, 97, 114, 34, 58];
            proof {
                assert(lit@ =~= lit_data_scalar());
            }
            push_bytes(out, lit.as_slice());
            push_quoted(out, raw);
            out.push(125);
            proof {
                assert(out@ =~= old(out)@ + enc_data(d@));
            }
        }
    }
}

/// The canonical stored text of a user record.
pub fn encode_user(u: &User) -> (r: Vec<u8>)
    ensures
        r@ == enc_user(u@),
{
    proof {
        reveal(enc_user);
    }
    let mut out: Vec<u8> = Vec::new();
    let l_id: [u8; 6] = [123, 34, 105, 100, 34, 58];
    let l_username: [u8; 12] = [44, 34, 117, 115, 101, 114, 110, 97, 109, 101, 34, 58];
    let l_password: [u8; 12] = [44, 34, 112, 97, 115, 115, 119, 111, 114, 100, 34, 58];
    let l_collection: [u8; 17] =
        [44, 34, 99, 111, 108, 108, 101, 99, 116, 105, 111, 110, 95, 105, 100, 34, 58];
    let l_tenant: [u8; 13] = [44, 34, 116, 101, 110, 97, 110, 116, 95, 105, 100, 34, 58];
    proof {
        assert(l_id@ =~= lit_key_id());
        assert(l_username@ =~= lit_key_username());
        assert(l_password@ =~= lit_key_password());
        assert(l_collection@ =~= lit_key_collection_id());
        assert(l_tenant@ =~= lit_key_tenant_id());
    }
    push_bytes(&mut out, l_id.as_slice());
    push_quoted(&mut out, &u.id);
    push_bytes(&mut out, l_username.as_slice());
    push_quoted(&mut out, &u.username);
    push_bytes(&mut out, l_password.as_slice());
    push_quoted(&mut out, &u.password);
    push_bytes(&mut out, l_collection.as_slice());
    push_quoted(&mut out, &u.collection_id);
    push_bytes(&mut out, l_tenant.as_slice());
    push_quoted(&mut out, &u.tenant_id);
    out.push(125);
    proof {
        assert(out@ =~= enc_user(u@));
    }
    out
}

/// Appends every field of an event up to and including `,"data":`.
fn push_event_head(out: &mut Vec<u8>, e: &Event)
    ensures
        final(out)@ == old(out)@
            + lit_key_id() + quoted(e.id@)
            + lit_key_user_id() + quoted(e.user_id@)
            + lit_key_collection_id() + quoted(e.collection_id@)
            + lit_key_tenant_id() + quoted(e.tenant_id@)
            + lit_key_event() + quoted(e.event@)
            + lit_key_timestamp() + dec_i64(e.timestamp as int)
            + lit_key_published() + bool_text(e.published)
            + lit_key_cancelled() + bool_text(e.cancelled)
            + lit_key_data(),
{
    let l_id: [u8; 6] = [123, 34, 105, 100, 34, 58];
    let l_user: [u8; 11] = [44, 34, 117, 115, 101, 114, 95, 105, 100, 34, 58];
    let l_collection: [u8; 17] =
        [44, 34, 99, 111, 108, 108, 101, 99, 116, 105, 111, 110, 95, 105, 100, 34, 58];
    let l_tenant: [u8; 13] = [44, 34, 116, 101, 110, 97, 110, 116, 95, 105, 100, 34, 58];
    let l_event: [u8; 9] = [44, 34, 101, 118, 101, 110, 116, 34, 58];
    let l_timestamp: [u8; 13] = [44, 34, 116, 105, 109, 101, 115, 116, 97, 109, 112, 34, 58];
    let l_published: [u8; 13] = [44, 34, 112, 117, 98, 108, 105, 115, 104, 101, 100, 34, 58];
    let l_cancelled: [u8; 13] = [44, 34, 99, 97, 110, 99, 101, 108, 108, 101, 100, 34, 58];
    let l_data: [u8; 8] = [44, 34, 100, 97, 116, 97, 34, 58];
    proof {
        assert(l_id@ =~= lit_key_id());
        assert(l_user@ =~= lit_key_user_id());
        assert(l_collection@ =~= lit_key_collection_id());
        assert(l_tenant@ =~= lit_key_tenant_id());
        assert(l_event@ =~= lit_key_event());
        assert(l_timestamp@ =~= lit_key_timestamp());
        assert(l_published@ =~= lit_key_published());
        assert(l_cancelled@ =~= lit_key_cancelled());
        assert(l_data@ =~= lit_key_data());
    }
    push_bytes(out, l_id.as_slice());
    push_quoted(out, &e.id);
    push_bytes(out, l_user.as_slice());
    push_quoted(out, &e.user_id);
    push_bytes(out, l_collection.as_slice());
    push_quoted(out, &e.collection_id);
    push_bytes(out, l_tenant.as_slice());
    push_quoted(out, &e.tenant_id);
    push_bytes(out, l_event.as_slice());
    push_quoted(out, &e.event);
    push_bytes(out, l_timestamp.as_slice());
    push_i64(out, e.timestamp);
    push_bytes(out, l_published.as_slice());
    push_bool(out, e.published);
    push_bytes(out, l_cancelled.as_slice());
    push_bool(out, e.cancelled);
    push_bytes(out, l_data.as_slice());
    proof {
        assert(out@ =~= old(out)@
            + lit_key_id() + quoted(e.id@)
            + lit_key_user_id() + quoted(e.user_id@)
            + lit_key_collection_id() + quoted(e.collection_id@)
            + lit_key_tenant_id() + quoted(e.tenant_id@)
            + lit_key_event() + quoted(e.event@)
            + lit_key_timestamp() + dec_i64(e.timestamp as int)
            + lit_key_published() + bool_text(e.published)
            + lit_key_cancelled() + bool_text(e.cancelled)
            + lit_key_data());
    }
}

/// The canonical stored text of an event record.
pub fn encode_event(e: &Event) -> (r: Vec<u8>)
    ensures
        r@ == enc_event(e@),
{
    proof {
        reveal(enc_event);
    }
    let mut out: Vec<u8> = Vec::new();
    push_event_head(&mut out, e);
    push_data(&mut out, &e.data);
    out.push(125);
    proof {
        assert(out@ =~= enc_event(e@));
    }
    out
}

// ---------------------------------------------------------------------
// spec and exec: the consumer-facing (wire) JSON of an event
// ---------------------------------------------------------------------

/// One wire pair: `"key":value-text`, the value text inlined as it is.
pub open spec fn wire_pair(p: (Seq<u8>, Seq<u8>)) -> Seq<u8> {
    quoted(p.0) + seq![58u8] + p.1
}

/// The comma-joined wire pairs.
pub open spec fn wire_pairs_inner(ps: Seq<(Seq<u8>, Seq<u8>)>) -> Seq<u8>
    decreases ps.len(),
{
    if ps.len() == 0 {
        Seq::empty()
    } else if ps.len() == 1 {
        wire_pair(ps[0])
    } else {
        wire_pairs_inner(ps.drop_last()) + seq![44u8] + wire_pair(ps.last())
    }
}

/// The wire JSON of a data value: a real object, or the scalar text.
pub open spec fn wire_data(d: DataV) -> Seq<u8> {
    match d {
        DataV::Object(ps) => seq![123u8] + wire_pairs_inner(ps) + seq![125u8],
        DataV::Scalar(raw) => raw,
    }
}

/// The wire JSON of an event, with its data value inlined.
pub open spec fn wire_event(e: EventV) -> Seq<u8> {
    lit_key_id() + quoted(e.id)
        + lit_key_user_id() + quoted(e.user_id)
        + lit_key_collection_id() + quoted(e.collection_id)
        + lit_key_tenant_id() + quoted(e.tenant_id)
        + lit_key_event() + quoted(e.event)
        + lit_key_timestamp() + dec_i64(e.timestamp as int)
        + lit_key_published() + bool_text(e.published)
        + lit_key_cancelled() + bool_text(e.cancelled)
        + lit_key_data() + wire_data(e.data)
        + seq![125u8]
}

/// Appends the wire JSON of a data value.
pub fn push_wire_data(out: &mut Vec<u8>, d: &EventData)
    ensures
        final(out)@ == old(out)@ + wire_data(d@),
{
    match d {
        EventData::Scalar(raw) => {
            push_bytes(out, raw.as_slice());
            proof {
                assert(out@ =~= old(out)@ + wire_data(d@));
            }
        }
        EventData::Object(ps) => {
            let ghost f = |p: (Vec<u8>, Vec<u8>)| (p.0@, p.1@);
            out.push(123);
            let mut i: usize = 0;
            proof {
                assert(wire_pairs_inner(ps@.subrange(0, 0).map_values(f))
                    =~= Seq::<u8>::empty());
                assert(out@ =~= old(out)@ + seq![123u8]
                    + wire_pairs_inner(ps@.subrange(0, 0).map_values(f)));
            }
            while i < ps.len()
                invariant
                    i <= ps@.len(),
                    out@ == old(out)@ + seq![123u8]
                        + wire_pairs_inner(ps@.subrange(0, i as int).map_values(f)),
                    f == (|p: (Vec<u8>, Vec<u8>)| (p.0@, p.1@)),
                decreases ps@.len() - i,
            {
                if i > 0 {
                    out.push(44);
                }
                push_quoted(out, &ps[i].0);
                out.push(58);
                push_bytes(out, ps[i].1.as_slice());
                proof {
                    let prev = ps@.subrange(0, i as int).map_values(f);
                    let cur = ps@.subrange(0, i as int + 1).map_values(f);
                    assert(ps@.subrange(0, i as int + 1).drop_last()
                        =~= ps@.subrange(0, i as int));
                    assert(cur.drop_last() =~~= prev);
                    assert(cur.last() == f(ps@[i as int]));
                    if i == 0 {
                        assert(cur.len() == 1);
                        assert(wire_pairs_inner(cur) == wire_pair(cur[0]));
                        assert(cur[0] == f(ps@[0]));
                        assert(out@ =~= old(out)@ + seq![123u8] + wire_pairs_inner(cur));
                    } else {
                        assert(wire_pairs_inner(cur)
                            == wire_pairs_inner(cur.drop_last()) + seq![44u8]
                                + wire_pair(cur.last()));
                        assert(out@ =~= old(out)@ + seq![123u8] + wire_pairs_inner(cur));
                    }
                }
                i = i + 1;
            }
            out.push(125);
            proof {
                assert(ps@.subrange(0, ps@.len() as int) =~= ps@);
                assert(out@ =~= old(out)@ + wire_data(d@));
            }
        }
    }
}

// ---------------------------------------------------------------------
// spec: parsing
// ---------------------------------------------------------------------

/// An ASCII decimal digit.
pub open spec fn is_digit(b: u8) -> bool {
    48 <= b <= 57
}

/// Expects the literal `lit` at position `i`; yields the position after it.
pub open spec fn ps_lit(s: Seq<u8>, i: int, lit: Seq<u8>) -> Option<int> {
    if 0 <= i && i + lit.len() <= s.len() && s.subrange(i, i + lit.len()) == lit {
        Some(i + lit.len())
    } else {
        None
    }
}

/// Reads quoted-string content from `i` up to the closing quote;
/// `acc` carries the unescaped bytes read so far.
pub open spec fn ps_qs_body(s: Seq<u8>, i: int, acc: Seq<u8>) -> Option<(Seq<u8>, int)>
    decreases s.len() - i,
{
    if i < 0 || i >= s.len() {
        None
    } else if s[i] == 34 {
        Some((acc, i + 1))
    } else if s[i] == 92 {
        if i + 1 < s.len() && (s[i + 1] == 34 || s[i + 1] == 92) {
            ps_qs_body(s, i + 2, acc.push(s[i + 1]))
        } else {
            None
        }
    } else {
        ps_qs_body(s, i + 1, acc.push(s[i]))
    }
}

/// Reads a quoted string starting at `i`.
pub open spec fn ps_qs(s: Seq<u8>, i: int) -> Option<(Seq<u8>, int)> {
    if 0 <= i < s.len() && s[i] == 34 {
        ps_qs_body(s, i + 1, Seq::empty())
    } else {
        None
    }
}

/// Reads further digits onto the value `acc`; fails past the `u64` range.
pub open spec fn ps_digits(s: Seq<u8>, i: int, acc: nat) -> Option<(nat, int)>
    decreases s.len() - i,
{
    if i < 0 || i >= s.len() || !is_digit(s[i]) {
        Some((acc, i))
    } else {
        let acc2 = acc * 10 + (s[i] - 48);
        if acc2 <= 0xffff_ffff_ffff_ffff {
            ps_digits(s, i + 1, acc2 as nat)
        } else {
            None
        }
    }
}

/// Reads an unsigned decimal (at least one digit) starting at `i`.
pub open spec fn ps_u64(s: Seq<u8>, i: int) -> Option<(nat, int)> {
    if 0 <= i < s.len() && is_digit(s[i]) {
        ps_digits(s, i, 0)
    } else {
        None
    }
}

/// Reads a signed decimal that fits in `i64`.
pub open spec fn ps_i64(s: Seq<u8>, i: int) -> Option<(int, int)> {
    if 0 <= i < s.len() && s[i] == 45 {
        match ps_u64(s, i + 1) {
            Some((n, j)) => if n <= 0x8000_0000_0000_0000 {
                Some((-(n as int), j))
            } else {
                None
            },
            None => None,
        }
    } else {
        match ps_u64(s, i) {
            Some((n, j)) => if n < 0x8000_0000_0000_0000 {
                Some((n as int, j))
            } else {
                None
            },
            None => None,
        }
    }
}

/// Reads `true` or `false`.
pub open spec fn ps_bool(s: Seq<u8>, i: int) -> Option<(bool, int)> {
    match ps_lit(s, i, bool_text(true)) {
        Some(j) => Some((true, j)),
        None => match ps_lit(s, i, bool_text(false)) {
            Some(j) => Some((false, j)),
            None => None,
        },
    }
}

/// Reads one stored data pair `["key","value-text"]`.
pub open spec fn ps_pair(s: Seq<u8>, i: int) -> Option<((Seq<u8>, Seq<u8>), int)> {
    match ps_lit(s, i, seq![91u8]) {
        Some(i1) => match ps_qs(s, i1) {
            Some((k, i2)) => match ps_lit(s, i2, seq![44u8]) {
                Some(i3) => match ps_qs(s, i3) {
                    Some((v, i4)) => match ps_lit(s, i4, seq![93u8]) {
                        Some(i5) => Some(((k, v), i5)),
                        None => None,
                    },
                    None => None,
                },
                None => None,
            },
            None => None,
        },
        None => None,
    }
}

/// After one pair: reads `,pair` repetitions up to the closing `]`.
pub open spec fn ps_pairs_rest(
    s: Seq<u8>,
    i: int,
    acc: Seq<(Seq<u8>, Seq<u8>)>,
) -> Option<(Seq<(Seq<u8>, Seq<u8>)>, int)>
    decreases s.len() - i via ps_pairs_rest_dec
{
    if i < 0 || i >= s.len() {
        None
    } else if s[i] == 93 {
        Some((acc, i + 1))
    } else if s[i] == 44 {
        match ps_pair(s, i + 1) {
            Some((p, j)) => ps_pairs_rest(s, j, acc.push(p)),
            None => None,
        }
    } else {
        None
    }
}

#[via_fn]
proof fn ps_pairs_rest_dec(s: Seq<u8>, i: int, acc: Seq<(Seq<u8>, Seq<u8>)>) {
    if 0 <= i < s.len() && s[i] == 44 {
        lemma_ps_pair_bounds(s, i + 1);
    }
}

/// Reads the stored pair list `[["k","v"],...]`.
pub open spec fn ps_pairs(s: Seq<u8>, i: int) -> Option<(Seq<(Seq<u8>, Seq<u8>)>, int)> {
    match ps_lit(s, i, seq![91u8]) {
        Some(j) => if j < s.len() && s[j] == 93 {
            Some((Seq::empty(), j + 1))
        } else {
            match ps_pair(s, j) {
                Some((p, j2)) => ps_pairs_rest(s, j2, seq![p]),
                None => None,
            }
        },
        None => None,
    }
}

/// Reads the stored form of a data value.
pub open spec fn ps_data(s: Seq<u8>, i: int) -> Option<(DataV, int)> {
    match ps_lit(s, i, lit_data_object()) {
        Some(j) => match ps_pairs(s, j) {
            Some((ps, j2)) => match ps_lit(s, j2, seq![125u8]) {
                Some(j3) => Some((DataV::Object(ps), j3)),
                None => None,
            },
            None => None,
        },
        None => match ps_lit(s, i, lit_data_scalar()) {
            Some(j) => match ps_qs(s, j) {
                Some((raw, j2)) => match ps_lit(s, j2, seq![125u8]) {
                    Some(j3) => Some((DataV::Scalar(raw), j3)),
                    None => None,
                },
                None => None,
            },
            None => None,
        },
    }
}

/// Parses a whole stored user record; the record must span the whole text.
#[verifier::opaque]
pub open spec fn parse_user(s: Seq<u8>) -> Option<UserV> {
    match ps_lit(s, 0, lit_key_id()) {
        Some(i1) => match ps_qs(s, i1) {
            Some((id, i2)) => match ps_lit(s, i2, lit_key_username()) {
                Some(i3) => match ps_qs(s, i3) {
                    Some((username, i4)) => match ps_lit(s, i4, lit_key_password()) {
                        Some(i5) => match ps_qs(s, i5) {
                            Some((password, i6)) => match ps_lit(s, i6, lit_key_collection_id()) {
                                Some(i7) => match ps_qs(s, i7) {
                                    Some((collection_id, i8)) => match ps_lit(
                                        s, i8, lit_key_tenant_id()) {
                                        Some(i9) => match ps_qs(s, i9) {
                                            Some((tenant_id, i10)) => match ps_lit(
                                                s, i10, seq![125u8]) {
                                                Some(i11) => if i11 == s.len() {
                                                    Some(UserV {
                                                        id, username, password,
                                                        collection_id, tenant_id,
                                                    })
                                                } else {
                                                    None
                                                },
                                                None => None,
                                            },
                                            None => None,
                                        },
                                        None => None,
                                    },
                                    None => None,
                                },
                                None => None,
                            },
                            None => None,
                        },
                        None => None,
                    },
                    None => None,
                },
                None => None,
            },
            None => None,
        },
        None => None,
    }
}

/// Parses a whole stored event record; the record must span the whole text.
#[verifier::opaque]
pub open spec fn parse_event(s: Seq<u8>) -> Option<EventV> {
    match ps_lit(s, 0, lit_key_id()) {
        Some(i1) => match ps_qs(s, i1) {
            Some((id, i2)) => match ps_lit(s, i2, lit_key_user_id()) {
                Some(i3) => match ps_qs(s, i3) {
                    Some((user_id, i4)) => match ps_lit(s, i4, lit_key_collection_id()) {
                        Some(i5) => match ps_qs(s, i5) {
                            Some((collection_id, i6)) => match ps_lit(s, i6, lit_key_tenant_id()) {
                                Some(i7) => match ps_qs(s, i7) {
                                    Some((tenant_id, i8)) => match ps_lit(s, i8, lit_key_event()) {
                                        Some(i9) => match ps_qs(s, i9) {
                                            Some((name, i10)) => parse_event_tail(
                                                s, i10, id, user_id, collection_id,
                                                tenant_id, name),
                                            None => None,
                                        },
                                        None => None,
                                    },
                                    None => None,
                                },
                                None => None,
                            },
                            None => None,
                        },
                        None => None,
                    },
                    None => None,
                },
                None => None,
            },
            None => None,
        },
        None => None,
    }
}

/// The numeric, boolean and data fields of an event record.
#[verifier::opaque]
pub open spec fn parse_event_tail(
    s: Seq<u8>,
    i: int,
    id: Seq<u8>,
    user_id: Seq<u8>,
    collection_id: Seq<u8>,
    tenant_id: Seq<u8>,
    name: Seq<u8>,
) -> Option<EventV> {
    match ps_lit(s, i, lit_key_timestamp()) {
        Some(i1) => match ps_i64(s, i1) {
            Some((ts, i2)) => match ps_lit(s, i2, lit_key_published()) {
                Some(i3) => match ps_bool(s, i3) {
                    Some((published, i4)) => match ps_lit(s, i4, lit_key_cancelled()) {
                        Some(i5) => match ps_bool(s, i5) {
                            Some((cancelled, i6)) => match ps_lit(s, i6, lit_key_data()) {
                                Some(i7) => match ps_data(s, i7) {
                                    Some((data, i8)) => match ps_lit(s, i8, seq![125u8]) {
                                        Some(i9) => if i9 == s.len() {
                                            Some(EventV {
                                                id, user_id, collection_id, tenant_id,
                                                event: name,
                                                timestamp: ts as i64,
                                                published, cancelled, data,
                                            })
                                        } else {
                                            None
                                        },
                                        None => None,
                                    },
                                    None => None,
                                },
                                None => None,
                            },
                            None => None,
                        },
                        None => None,
                    },
                    None => None,
                },
                None => None,
            },
            None => None,
        },
        None => None,
    }
}

// ---------------------------------------------------------------------
// proof: parser position bounds
// ---------------------------------------------------------------------

/// A quoted-string read always moves forward and stays inside the text.
pub proof fn lemma_ps_qs_body_bounds(s: Seq<u8>, i: int, acc: Seq<u8>)
    ensures
        ps_qs_body(s, i, acc) matches Some(r) ==> i < r.1 <= s.len(),
    decreases s.len() - i,
{
    if 0 <= i < s.len() {
        if s[i] == 34 {
        } else if s[i] == 92 {
            if i + 1 < s.len() && (s[i + 1] == 34 || s[i + 1] == 92) {
                lemma_ps_qs_body_bounds(s, i + 2, acc.push(s[i + 1]));
            }
        } else {
            lemma_ps_qs_body_bounds(s, i + 1, acc.push(s[i]));
        }
    }
}

/// A pair read always moves forward and stays inside the text.
pub proof fn lemma_ps_pair_bounds(s: Seq<u8>, i: int)
    ensures
        ps_pair(s, i) matches Some(r) ==> i < r.1 <= s.len(),
{
    match ps_lit(s, i, seq![91u8]) {
        Some(i1) => {
            lemma_ps_qs_body_bounds(s, i1 + 1, Seq::empty());
            match ps_qs(s, i1) {
                Some(r2) => {
                    match ps_lit(s, r2.1, seq![44u8]) {
                        Some(i3) => {
                            lemma_ps_qs_body_bounds(s, i3 + 1, Seq::empty());
                        }
                        None => {}
                    }
                }
                None => {}
            }
        }
        None => {}
    }
}

// ---------------------------------------------------------------------
// exec: parsers
// ---------------------------------------------------------------------

/// Decides `ps_lit` at position `i`.
pub fn parse_lit(s: &Vec<u8>, i: usize, lit: &[u8]) -> (r: Option<usize>)
    ensures
        match r {
            Some(j) => ps_lit(s@, i as int, lit@) == Some(j as int)
                && j == i + lit@.len() && j <= s@.len(),
            None => ps_lit(s@, i as int, lit@) is None,
        },
{
    if lit.len() > s.len() || i > s.len() - lit.len() {
        return None;
    }
    let mut k: usize = 0;
    proof {
        assert(s@.subrange(i as int, i as int) =~= lit@.subrange(0, 0));
    }
    while k < lit.len()
        invariant
            k <= lit@.len(),
            i + lit@.len() <= s@.len(),
            s@.len() <= usize::MAX,
            s@.subrange(i as int, i as int + k as int) == lit@.subrange(0, k as int),
        decreases lit@.len() - k,
    {
        if s[i + k] != lit[k] {
            proof {
                let ii = i as int;
                let ll = lit@.len() as int;
                assert(s@.subrange(ii, ii + ll)[k as int] == s@[ii + k]);
                assert(s@.subrange(ii, ii + ll) != lit@);
            }
            return None;
        }
        proof {
            assert(s@.subrange(i as int, i as int + k as int + 1)
                =~= lit@.subrange(0, k as int + 1));
        }
        k = k + 1;
    }
    proof {
        assert(lit@.subrange(0, lit@.len() as int) =~= lit@);
        assert(s@.subrange(i as int, i as int + lit@.len() as int) =~= lit@);
    }
    Some(i + lit.len())
}

/// Reads a quoted string at position `i`.
pub fn parse_qs(s: &Vec<u8>, i: usize) -> (r: Option<(Vec<u8>, usize)>)
    ensures
        match r {
            Some(p) => ps_qs(s@, i as int) == Some((p.0@, p.1 as int)) && i < p.1 <= s@.len(),
            None => ps_qs(s@, i as int) is None,
        },
{
    if i >= s.len() || s[i] != 34 {
        return None;
    }
    let mut acc: Vec<u8> = Vec::new();
    let mut j: usize = i + 1;
    loop
        invariant
            i + 1 <= j <= s@.len(),
            i < s@.len() && s@[i as int] == 34,
            ps_qs(s@, i as int) == ps_qs_body(s@, j as int, acc@),
        decreases s@.len() - j,
    {
        if j == s.len() {
            return None;
        }
        let b = s[j];
        if b == 34 {
            return Some((acc, j + 1));
        }
        if b == 92 {
            if j + 1 == s.len() {
                return None;
            }
            let b2 = s[j + 1];
            if b2 == 34 || b2 == 92 {
                acc.push(b2);
                j = j + 2;
            } else {
                return None;
            }
        } else {
            acc.push(b);
            j = j + 1;
        }
    }
}

/// Reads an unsigned decimal run starting at a digit.
fn parse_digits(s: &Vec<u8>, start: usize) -> (r: Option<(u64, usize)>)
    requires
        start < s@.len(),
        is_digit(s@[start as int]),
    ensures
        match r {
            Some(p) => ps_digits(s@, start as int, 0) == Some((p.0 as nat, p.1 as int))
                && start < p.1 <= s@.len(),
            None => ps_digits(s@, start as int, 0) is None,
        },
{
    let mut acc: u64 = 0;
    let mut j: usize = start;
    while j < s.len() && 48 <= s[j] && s[j] <= 57
        invariant
            start <= j <= s@.len(),
            start < s@.len() && is_digit(s@[start as int]),
            ps_digits(s@, start as int, 0) == ps_digits(s@, j as int, acc as nat),
        decreases s@.len() - j,
    {
        let b = s[j];
        let w: u128 = acc as u128 * 10 + (b - 48) as u128;
        if w > 0xffff_ffff_ffff_ffff {
            return None;
        }
        acc = w as u64;
        j = j + 1;
    }
    proof {
        if j == start {
            assert(48 <= s@[start as int] <= 57);
            assert(false);
        }
    }
    Some((acc, j))
}

/// Reads a signed decimal that fits in `i64`.
pub fn parse_i64_at(s: &Vec<u8>, i: usize) -> (r: Option<(i64, usize)>)
    ensures
        match r {
            Some(p) => ps_i64(s@, i as int) == Some((p.0 as int, p.1 as int))
                && i < p.1 <= s@.len(),
            None => ps_i64(s@, i as int) is None,
        },
{
    if i >= s.len() {
        return None;
    }
    if s[i] == 45 {
        if i + 1 >= s.len() {
            return None;
        }
        let b = s[i + 1];
        if !(48 <= b && b <= 57) {
            return None;
        }
        match parse_digits(s, i + 1) {
            Some((n, j)) => {
                if n <= 0x8000_0000_0000_0000 {
                    let v: i64 = (-(n as i128)) as i64;
                    proof {
                        assert(v as int == -(n as int));
                    }
                    Some((v, j))
                } else {
                    None
                }
            }
            None => None,
        }
    } else {
        let b = s[i];
        if !(48 <= b && b <= 57) {
            return None;
        }
        match parse_digits(s, i) {
            Some((n, j)) => {
                if n < 0x8000_0000_0000_0000 {
                    Some((n as i64, j))
                } else {
                    None
                }
            }
            None => None,
        }
    }
}

/// Reads `true` or `false`.
pub fn parse_bool(s: &Vec<u8>, i: usize) -> (r: Option<(bool, usize)>)
    ensures
        match r {
            Some(p) => ps_bool(s@, i as int) == Some((p.0, p.1 as int)) && i < p.1 <= s@.len(),
            None => ps_bool(s@, i as int) is None,
        },
{
    let lit_t: [u8; 4] = [116, 114, 117, 101];
    let lit_f: [u8; 5] = [102, 97, 108, 115, 101];
    proof {
        assert(lit_t@ =~= bool_text(true));
        assert(lit_f@ =~= bool_text(false));
    }
    match parse_lit(s, i, lit_t.as_slice()) {
        Some(j) => Some((true, j)),
        None => match parse_lit(s, i, lit_f.as_slice()) {
            Some(j) => Some((false, j)),
            None => None,
        },
    }
}

/// Reads one stored data pair.
fn parse_pair(s: &Vec<u8>, i: usize) -> (r: Option<((Vec<u8>, Vec<u8>), usize)>)
    ensures
        match r {
            Some(p) => ps_pair(s@, i as int) == Some((((p.0).0@, (p.0).1@), p.1 as int))
                && i < p.1 <= s@.len(),
            None => ps_pair(s@, i as int) is None,
        },
{
    let open_b: [u8; 1] = [91];
    let comma: [u8; 1] = [44];
    let close_b: [u8; 1] = [93];
    proof {
        assert(open_b@ =~= seq![91u8]);
        assert(comma@ =~= seq![44u8]);
        assert(close_b@ =~= seq![93u8]);
    }
    match parse_lit(s, i, open_b.as_slice()) {
        Some(i1) => match parse_qs(s, i1) {
            Some((k, i2)) => match parse_lit(s, i2, comma.as_slice()) {
                Some(i3) => match parse_qs(s, i3) {
                    Some((v, i4)) => match parse_lit(s, i4, close_b.as_slice()) {
                        Some(i5) => Some(((k, v), i5)),
                        None => None,
                    },
                    None => None,
                },
                None => None,
            },
            None => None,
        },
        None => None,
    }
}

/// Reads the stored pair list.
fn parse_pairs(s: &Vec<u8>, i: usize) -> (r: Option<(Vec<(Vec<u8>, Vec<u8>)>, usize)>)
    ensures
        match r {
            Some(p) => ps_pairs(s@, i as int) == Some((
                p.0@.map_values(|q: (Vec<u8>, Vec<u8>)| (q.0@, q.1@)),
                p.1 as int,
            )) && i < p.1 <= s@.len(),
            None => ps_pairs(s@, i as int) is None,
        },
{
    let ghost f = |q: (Vec<u8>, Vec<u8>)| (q.0@, q.1@);
    let open_b: [u8; 1] = [91];
    proof {
        assert(open_b@ =~= seq![91u8]);
    }
    let j = match parse_lit(s, i, open_b.as_slice()) {
        Some(j) => j,
        None => {
            return None;
        }
    };
    if j < s.len() && s[j] == 93 {
        let empty: Vec<(Vec<u8>, Vec<u8>)> = Vec::new();
        proof {
            assert(empty@.map_values(f) =~~= Seq::<(Seq<u8>, Seq<u8>)>::empty());
        }
        return Some((empty, j + 1));
    }
    let mut acc: Vec<(Vec<u8>, Vec<u8>)> = Vec::new();
    let mut cur: usize;
    match parse_pair(s, j) {
        Some((p, j2)) => {
            acc.push(p);
            cur = j2;
            proof {
                assert(acc@.map_values(f) =~~= seq![f(p)]);
            }
        }
        None => {
            return None;
        }
    }
    loop
        invariant
            i < cur <= s@.len(),
            ps_pairs(s@, i as int) == ps_pairs_rest(s@, cur as int, acc@.map_values(f)),
            f == (|q: (Vec<u8>, Vec<u8>)| (q.0@, q.1@)),
        decreases s@.len() - cur,
    {
        if cur >= s.len() {
            return None;
        }
        let b = s[cur];
        if b == 93 {
            return Some((acc, cur + 1));
        }
        if b != 44 {
            return None;
        }
        match parse_pair(s, cur + 1) {
            Some((p, j2)) => {
                let ghost prev = acc@.map_values(f);
                acc.push(p);
                proof {
                    assert(acc@.map_values(f) =~~= prev.push(f(p)));
                }
                cur = j2;
            }
            None => {
                return None;
            }
        }
    }
}

/// Reads the stored form of a data value.
fn parse_data(s: &Vec<u8>, i: usize) -> (r: Option<(EventData, usize)>)
    ensures
        match r {
            Some(p) => ps_data(s@, i as int) == Some((p.0@, p.1 as int)) && i < p.1 <= s@.len(),
            None => ps_data(s@, i as int) is None,
        },
{
    let lit_obj: [u8; 10] = [123, 34, 111, 98, 106, 101, 99, 116, 34, 58];
    let lit_sca: [u8; 10] = [123, 34, 115, 99, 97, 108, 97, 114, 34, 58];
    let close: [u8; 1] = [125];
    proof {
        assert(lit_obj@ =~= lit_data_object());
        assert(lit_sca@ =~= lit_data_scalar());
        assert(close@ =~= seq![125u8]);
    }
    match parse_lit(s, i, lit_obj.as_slice()) {
        Some(j) => match parse_pairs(s, j) {
            Some((ps, j2)) => match parse_lit(s, j2, close.as_slice()) {
                Some(j3) => Some((EventData::Object(ps), j3)),
                None => None,
            },
            None => None,
        },
        None => match parse_lit(s, i, lit_sca.as_slice()) {
            Some(j) => match parse_qs(s, j) {
                Some((raw, j2)) => match parse_lit(s, j2, close.as_slice()) {
                    Some(j3) => Some((EventData::Scalar(raw), j3)),
                    None => None,
                },
                None => None,
            },
            None => None,
        },
    }
}

/// Parses a stored user record.
pub fn parse_user_record(s: &Vec<u8>) -> (r: Option<User>)
    ensures
        match r {
            Some(u) => parse_user(s@) == Some(u@),
            None => parse_user(s@) is None,
        },
{
    proof {
        reveal(parse_user);
    }
    let l_id: [u8; 6] = [123, 34, 105, 100, 34, 58];
    let l_username: [u8; 12] = [44, 34, 117, 115, 101, 114, 110, 97, 109, 101, 34, 58];
    let l_password: [u8; 12] = [44, 34, 112, 97, 115, 115, 119, 111, 114, 100, 34, 58];
    let l_collection: [u8; 17] =
        [44, 34, 99, 111, 108, 108, 101, 99, 116, 105, 111, 110, 95, 105, 100, 34, 58];
    let l_tenant: [u8; 13] = [44, 34, 116, 101, 110, 97, 110, 116, 95, 105, 100, 34, 58];
    let close: [u8; 1] = [125];
    proof {
        assert(l_id@ =~= lit_key_id());
        assert(l_username@ =~= lit_key_username());
        assert(l_password@ =~= lit_key_password());
        assert(l_collection@ =~= lit_key_collection_id());
        assert(l_tenant@ =~= lit_key_tenant_id());
        assert(close@ =~= seq![125u8]);
    }
    let i1 = match parse_lit(s, 0, l_id.as_slice()) { Some(j) => j, None => { return None; } };
    let (id, i2) = match parse_qs(s, i1) { Some(p) => p, None => { return None; } };
    let i3 = match parse_lit(s, i2, l_username.as_slice()) {
        Some(j) => j, None => { return None; } };
    let (username, i4) = match parse_qs(s, i3) { Some(p) => p, None => { return None; } };
    let i5 = match parse_lit(s, i4, l_password.as_slice()) {
        Some(j) => j, None => { return None; } };
    let (password, i6) = match parse_qs(s, i5) { Some(p) => p, None => { return None; } };
    let i7 = match parse_lit(s, i6, l_collection.as_slice()) {
        Some(j) => j, None => { return None; } };
    let (collection_id, i8) = match parse_qs(s, i7) { Some(p) => p, None => { return None; } };
    let i9 = match parse_lit(s, i8, l_tenant.as_slice()) {
        Some(j) => j, None => { return None; } };
    let (tenant_id, i10) = match parse_qs(s, i9) { Some(p) => p, None => { return None; } };
    let i11 = match parse_lit(s, i10, close.as_slice()) {
        Some(j) => j, None => { return None; } };
    if i11 != s.len() {
        return None;
    }
    Some(User { id, username, password, collection_id, tenant_id })
}

/// Parses a stored event record.
pub fn parse_event_record(s: &Vec<u8>) -> (r: Option<Event>)
    ensures
        match r {
            Some(e) => parse_event(s@) == Some(e@),
            None => parse_event(s@) is None,
        },
{
    proof {
        reveal(parse_event);
        reveal(parse_event_tail);
    }
    let l_id: [u8; 6] = [123, 34, 105, 100, 34, 58];
    let l_user: [u8; 11] = [44, 34, 117, 115, 101, 114, 95, 105, 100, 34, 58];
    let l_collection: [u8; 17] =
        [44, 34, 99, 111, 108, 108, 101, 99, 116, 105, 111, 110, 95, 105, 100, 34, 58];
    let l_tenant: [u8; 13] = [44, 34, 116, 101, 110, 97, 110, 116, 95, 105, 100, 34, 58];
    let l_event: [u8; 9] = [44, 34, 101, 118, 101, 110, 116, 34, 58];
    let l_timestamp: [u8; 13] = [44, 34, 116, 105, 109, 101, 115, 116, 97, 109, 112, 34, 58];
    let l_published: [u8; 13] = [44, 34, 112, 117, 98, 108, 105, 115, 104, 101, 100, 34, 58];
    let l_cancelled: [u8; 13] = [44, 34, 99, 97, 110, 99, 101, 108, 108, 101, 100, 34, 58];
    let l_data: [u8; 8] = [44, 34, 100, 97, 116, 97, 34, 58];
    let close: [u8; 1] = [125];
    proof {
        assert(l_id@ =~= lit_key_id());
        assert(l_user@ =~= lit_key_user_id());
        assert(l_collection@ =~= lit_key_collection_id());
        assert(l_tenant@ =~= lit_key_tenant_id());
        assert(l_event@ =~= lit_key_event());
        assert(l_timestamp@ =~= lit_key_timestamp());
        assert(l_published@ =~= lit_key_published());
        assert(l_cancelled@ =~= lit_key_cancelled());
        assert(l_data@ =~= lit_key_data());
        assert(close@ =~= seq![125u8]);
    }
    let i1 = match parse_lit(s, 0, l_id.as_slice()) { Some(j) => j, None => { return None; } };
    let (id, i2) = match parse_qs(s, i1) { Some(p) => p, None => { return None; } };
    let i3 = match parse_lit(s, i2, l_user.as_slice()) {
        Some(j) => j, None => { return None; } };
    let (user_id, i4) = match parse_qs(s, i3) { Some(p) => p, None => { return None; } };
    let i5 = match parse_lit(s, i4, l_collection.as_slice()) {
        Some(j) => j, None => { return None; } };
    let (collection_id, i6) = match parse_qs(s, i5) { Some(p) => p, None => { return None; } };
    let i7 = match parse_lit(s, i6, l_tenant.as_slice()) {
        Some(j) => j, None => { return None; } };
    let (tenant_id, i8) = match parse_qs(s, i7) { Some(p) => p, None => { return None; } };
    let i9 = match parse_lit(s, i8, l_event.as_slice()) {
        Some(j) => j, None => { return None; } };
    let (name, i10) = match parse_qs(s, i9) { Some(p) => p, None => { return None; } };
    let i11 = match parse_lit(s, i10, l_timestamp.as_slice()) {
        Some(j) => j, None => { return None; } };
    let (ts, i12) = match parse_i64_at(s, i11) { Some(p) => p, None => { return None; } };
    let i13 = match parse_lit(s, i12, l_published.as_slice()) {
        Some(j) => j, None => { return None; } };
    let (published, i14) = match parse_bool(s, i13) { Some(p) => p, None => { return None; } };
    let i15 = match parse_lit(s, i14, l_cancelled.as_slice()) {
        Some(j) => j, None => { return None; } };
    let (cancelled, i16) = match parse_bool(s, i15) { Some(p) => p, None => { return None; } };
    let i17 = match parse_lit(s, i16, l_data.as_slice()) {
        Some(j) => j, None => { return None; } };
    let (data, i18) = match parse_data(s, i17) { Some(p) => p, None => { return None; } };
    let i19 = match parse_lit(s, i18, close.as_slice()) {
        Some(j) => j, None => { return None; } };
    if i19 != s.len() {
        return None;
    }
    Some(Event {
        id, user_id, collection_id, tenant_id,
        event: name,
        timestamp: ts,
        published, cancelled, data,
    })
}

/// The wire JSON text of an event.
pub fn encode_event_wire(e: &Event) -> (r: Vec<u8>)
    ensures
        r@ == wire_event(e@),
{
    let mut out: Vec<u8> = Vec::new();
    push_event_head(&mut out, e);
    push_wire_data(&mut out, &e.data);
    out.push(125);
    proof {
        assert(out@ =~= wire_event(e@));
    }
    out
}

} // verus!

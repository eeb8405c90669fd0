//! Properties that relate several operations: what one peer emits, the other
//! parses back; byte accounting along a stream; slot bookkeeping.
use crate::client::{
    client_step, completed, delivered_body, model_wf, reply_fits, request_sent, take_step, ClientModel, Phase, Slot,
    NUM_CHANNELS,
};
use crate::server::{server_need, server_step, Assembled};
use crate::consts::{REP_HEADER_LEN, REQ_HEADER_LEN};
use crate::wire::{
    lemma_rep_header_round_trip, lemma_req_header_round_trip, rep_header_bytes, rep_header_of,
    rep_packet, req_header_bytes, ReplyHeader, RequestHeader,
};
use vstd::prelude::*;

verus! {

/// Every request that a client emits, fed to a server waiting for a header (its
/// seven header bytes first, then the bytes it asks for), comes out with the
/// method index, channel, body bytes and side-buffer bytes that were sent, as
/// long as both lengths are below the server's bound.
pub proof fn lemma_emit_then_parse(
    before: ClientModel,
    after: ClientModel,
    out_before: Seq<u8>,
    out_after: Seq<u8>,
    method_idx: u8,
    enc: Seq<u8>,
    side: Seq<u8>,
    dst_body: Seq<u8>,
    dst_side: Option<Seq<u8>>,
    chan_id: u8,
    n: nat,
    max_buf_len: u16,
)
    requires
        request_sent(
            before,
            after,
            out_before,
            out_after,
            method_idx,
            enc,
            side,
            dst_body,
            dst_side,
            chan_id,
            n,
        ),
        enc.len() < max_buf_len,
        side.len() < max_buf_len,
    ensures
        ({
            let h = RequestHeader {
                method_idx,
                chan_id,
                opts: 0,
                body_len: enc.len() as u16,
                buf_len: side.len() as u16,
            };
            let first = server_step(None, max_buf_len, out_after.subrange(0, REQ_HEADER_LEN as int));
            if n == REQ_HEADER_LEN {
                first is Ok && first->Ok_0 == (None::<RequestHeader>, Assembled::Request(h, enc, side))
            } else {
                let second = server_step(
                    Some(h),
                    max_buf_len,
                    out_after.subrange(REQ_HEADER_LEN as int, n as int),
                );
                &&& first is Ok
                &&& first->Ok_0 == (Some(h), Assembled::NeedBytes((n - REQ_HEADER_LEN) as nat))
                &&& second is Ok
                &&& second->Ok_0 == (None::<RequestHeader>, Assembled::Request(h, enc, side))
            }
        }),
{
    let h = RequestHeader {
        method_idx,
        chan_id,
        opts: 0,
        body_len: enc.len() as u16,
        buf_len: side.len() as u16,
    };
    let rest = out_before.subrange(n as int, out_before.len() as int);
    let hb = req_header_bytes(h);
    lemma_req_header_round_trip(h, Seq::empty());
    assert(out_after.subrange(0, REQ_HEADER_LEN as int) =~= hb + Seq::empty());
    let payload = out_after.subrange(REQ_HEADER_LEN as int, n as int);
    assert(payload =~= enc + side);
    assert(payload.subrange(0, enc.len() as int) =~= enc);
    assert(payload.subrange(enc.len() as int, (enc.len() + side.len()) as int) =~= side);
    if n == REQ_HEADER_LEN {
        assert(enc =~= Seq::<u8>::empty());
        assert(side =~= Seq::<u8>::empty());
    }
}

/// The next state of a step, or its error.
pub open spec fn state_of(r: Result<(ClientModel, nat, Option<u8>), crate::error::Error>) -> Result<
    ClientModel,
    crate::error::Error,
> {
    match r {
        Ok((m, _, _)) => Ok(m),
        Err(e) => Err(e),
    }
}

/// Feeding a whole reply packet to the reply assembler: its six header bytes,
/// then, if the assembler asks for more, that many bytes.
pub open spec fn feed_packet(m: ClientModel, packet: Seq<u8>) -> Result<ClientModel, crate::error::Error> {
    if packet.len() < REP_HEADER_LEN {
        state_of(client_step(m, packet))
    } else {
        match client_step(m, packet.subrange(0, REP_HEADER_LEN as int)) {
            Err(e) => Err(e),
            Ok((m1, need, done)) => {
                if done is Some {
                    Ok(m1)
                } else if packet.len() < REP_HEADER_LEN + need {
                    state_of(
                        client_step(m1, packet.subrange(REP_HEADER_LEN as int, packet.len() as int)),
                    )
                } else {
                    state_of(
                        client_step(m1, packet.subrange(REP_HEADER_LEN as int, REP_HEADER_LEN + need)),
                    )
                }
            },
        }
    }
}

/// The side buffer that a reply delivers: present exactly when one was lent.
pub open spec fn delivered_side(dst_side: Option<Seq<u8>>, side: Seq<u8>) -> Option<Seq<u8>> {
    match dst_side {
        Some(_) => Some(side),
        None => None,
    }
}

/// The reply header `h` is accepted by the slot of its channel.
pub open spec fn reply_accepted(m: ClientModel, h: ReplyHeader) -> bool {
    &&& m.slots[h.chan_id as int] is Waiting
    &&& reply_fits(h, m.slots[h.chan_id as int]->Waiting_body, m.slots[h.chan_id as int]->Waiting_side)
}

/// Every reply packet that a server writes, fed to a client whose slot for that
/// channel waits with room enough, completes that slot with the header, the
/// body bytes copied to the start of the body destination (which keeps its
/// length) and the side-buffer bytes that were sent; taking the reply then
/// hands out exactly those and empties the slot.  Other slots are untouched.
pub proof fn lemma_reply_round_trip(
    m: ClientModel,
    h: ReplyHeader,
    body: Seq<u8>,
    side: Seq<u8>,
    rest: Seq<u8>,
)
    requires
        model_wf(m),
        m.phase is WaitHeader,
        reply_accepted(m, h),
        body.len() == h.body_len,
        side.len() == h.buf_len,
    ensures
        ({
            let c = h.chan_id as int;
            let dst_body = m.slots[c]->Waiting_body;
            let dst_side = m.slots[c]->Waiting_side;
            let done = Slot::Complete {
                header: h,
                body: delivered_body(dst_body, body),
                side: delivered_side(dst_side, side),
            };
            let m2 = ClientModel { phase: Phase::WaitHeader, slots: m.slots.update(c, done) };
            &&& feed_packet(m, rep_packet(h, body, side) + rest) is Ok
            &&& feed_packet(m, rep_packet(h, body, side) + rest)->Ok_0 == m2
            &&& model_wf(m2)
            &&& take_step(m2, h.chan_id) == (
                ClientModel { phase: Phase::WaitHeader, slots: m.slots.update(c, Slot::Empty) },
                Some((h, delivered_body(dst_body, body), delivered_side(dst_side, side))),
            )
        }),
{
    let c = h.chan_id as int;
    let packet = rep_packet(h, body, side) + rest;
    lemma_rep_header_round_trip(h, Seq::empty());
    assert(packet.subrange(0, REP_HEADER_LEN as int) =~= rep_header_bytes(h) + Seq::empty());
    let payload = packet.subrange(REP_HEADER_LEN as int, REP_HEADER_LEN + body.len() + side.len());
    assert(payload =~= body + side);
    assert(payload.subrange(0, body.len() as int) =~= body);
    assert(payload.subrange(body.len() as int, (body.len() + side.len()) as int) =~= side);
    assert(Seq::<u8>::empty().subrange(0, 0) =~= Seq::<u8>::empty());
    if body.len() + side.len() == 0 {
        assert(body =~= Seq::<u8>::empty());
        assert(side =~= Seq::<u8>::empty());
    }
    let db = m.slots[c]->Waiting_body;
    let ds = m.slots[c]->Waiting_side;
    let done = Slot::Complete {
        header: h,
        body: delivered_body(db, body),
        side: delivered_side(ds, side),
    };
    let m2 = ClientModel { phase: Phase::WaitHeader, slots: m.slots.update(c, done) };
    let hdr = packet.subrange(0, REP_HEADER_LEN as int);
    assert(rep_header_of(hdr) == h);
    let n = body.len() + side.len();
    if n == 0 {
        assert(completed(h, db, ds, Seq::empty()) == done);
        assert(client_step(m, hdr) == Ok::<(ClientModel, nat, Option<u8>), crate::error::Error>(
            (m2, REP_HEADER_LEN as nat, Some(h.chan_id)),
        ));
    } else {
        let m1 = ClientModel {
            phase: Phase::WaitBody {
                header: h,
                body: m.slots[c]->Waiting_body,
                side: ds,
            },
            slots: m.slots.update(c, Slot::Receiving),
        };
        assert(client_step(m, hdr) == Ok::<(ClientModel, nat, Option<u8>), crate::error::Error>(
            (m1, n, None),
        ));
        assert(completed(h, db, ds, payload) == done);
        assert(m1.slots.update(c, done) =~= m2.slots);
        assert(client_step(m1, payload) == Ok::<(ClientModel, nat, Option<u8>), crate::error::Error>(
            (m2, REP_HEADER_LEN as nat, Some(h.chan_id)),
        ));
    }
    assert forall|d: int| 0 <= d < NUM_CHANNELS implies !(#[trigger] m2.slots[d] is Receiving) by {
        if d != c {
            assert(m2.slots[d] == m.slots[d]);
        }
    }
    assert(m2.slots.update(c, Slot::Empty) =~= m.slots.update(c, Slot::Empty));
}

/// Taking a reply twice, with nothing fed in between, hands out nothing the
/// second time and changes nothing.
pub proof fn lemma_idempotent_take(m: ClientModel, c: u8)
    requires
        model_wf(m),
    ensures
        take_step(take_step(m, c).0, c).1 is None,
        take_step(take_step(m, c).0, c).0 == take_step(m, c).0,
{
}

/// 0, 1, 2 or 3 for an `Empty`, `Waiting`, `Receiving` or `Complete` slot.
pub open spec fn slot_kind(s: Slot) -> int {
    match s {
        Slot::Empty => 0,
        Slot::Waiting { .. } => 1,
        Slot::Receiving => 2,
        Slot::Complete { .. } => 3,
    }
}

/// How many of `slots` are of kind `k`.
pub open spec fn count_kind(slots: Seq<Slot>, k: int) -> nat
    decreases slots.len(),
{
    if slots.len() == 0 {
        0
    } else {
        count_kind(slots.drop_last(), k) + if slot_kind(slots.last()) == k {
            1nat
        } else {
            0nat
        }
    }
}

proof fn lemma_count_kinds(slots: Seq<Slot>)
    ensures
        count_kind(slots, 0) + count_kind(slots, 1) + count_kind(slots, 2) + count_kind(slots, 3)
            == slots.len(),
    decreases slots.len(),
{
    if slots.len() > 0 {
        lemma_count_kinds(slots.drop_last());
    }
}

/// In every state of a client, the numbers of `Empty`, `Waiting`, `Receiving`
/// and `Complete` slots add up to the number of channels, 256.
pub proof fn lemma_slot_conservation(m: ClientModel)
    requires
        model_wf(m),
    ensures
        count_kind(m.slots, 0) + count_kind(m.slots, 1) + count_kind(m.slots, 2) + count_kind(
            m.slots,
            3,
        ) == NUM_CHANNELS,
{
    lemma_count_kinds(m.slots);
}

/// Feeding whole reply packets one after the other.
pub open spec fn feed_all(m: ClientModel, replies: Seq<(ReplyHeader, Seq<u8>, Seq<u8>)>) -> Result<
    ClientModel,
    crate::error::Error,
>
    decreases replies.len(),
{
    if replies.len() == 0 {
        Ok(m)
    } else {
        match feed_packet(m, rep_packet(replies[0].0, replies[0].1, replies[0].2)) {
            Ok(m1) => feed_all(m1, replies.drop_first()),
            Err(e) => Err(e),
        }
    }
}

/// The replies go to distinct channels, each of which waits for a reply of
/// that size, and each body and side buffer has the length its header gives.
pub open spec fn replies_expected(m: ClientModel, replies: Seq<(ReplyHeader, Seq<u8>, Seq<u8>)>) -> bool {
    &&& forall|i: int, j: int|
        0 <= i < j < replies.len() ==> #[trigger] replies[i].0.chan_id != #[trigger] replies[j].0.chan_id
    &&& forall|i: int|
        0 <= i < replies.len() ==> {
            &&& reply_accepted(m, #[trigger] replies[i].0)
            &&& replies[i].1.len() == replies[i].0.body_len
            &&& replies[i].2.len() == replies[i].0.buf_len
        }
}

/// Replies to outstanding requests may arrive in any order: fed one after the
/// other, they complete each of their slots with their own header, body (copied
/// to the start of the body destination) and side buffer, and leave every other
/// slot as it was.  The end state depends on the set of replies alone, not on
/// the order in which they came.
#[verifier::rlimit(60)]
pub proof fn lemma_out_of_order_delivery(m: ClientModel, replies: Seq<(ReplyHeader, Seq<u8>, Seq<u8>)>)
    requires
        model_wf(m),
        m.phase is WaitHeader,
        replies_expected(m, replies),
    ensures
        feed_all(m, replies) is Ok,
        ({
            let r = feed_all(m, replies)->Ok_0;
            &&& model_wf(r)
            &&& r.phase is WaitHeader
            &&& forall|i: int|
                0 <= i < replies.len() ==> r.slots[#[trigger] replies[i].0.chan_id as int]
                    == Slot::Complete {
                    header: replies[i].0,
                    body: delivered_body(
                        m.slots[replies[i].0.chan_id as int]->Waiting_body,
                        replies[i].1,
                    ),
                    side: delivered_side(
                        m.slots[replies[i].0.chan_id as int]->Waiting_side,
                        replies[i].2,
                    ),
                }
            &&& forall|d: int|
                0 <= d < NUM_CHANNELS && (forall|i: int|
                    0 <= i < replies.len() ==> #[trigger] replies[i].0.chan_id != d) ==> r.slots[d]
                    == m.slots[d]
        }),
    decreases replies.len(),
{
    if replies.len() > 0 {
        let (h, b, sd) = replies[0];
        let c = h.chan_id as int;
        assert(reply_accepted(m, replies[0].0));
        lemma_reply_round_trip(m, h, b, sd, Seq::empty());
        assert(rep_packet(h, b, sd) + Seq::empty() =~= rep_packet(h, b, sd));
        let m1 = feed_packet(m, rep_packet(h, b, sd))->Ok_0;
        let rest = replies.drop_first();
        assert forall|i: int| 0 <= i < rest.len() implies #[trigger] rest[i].0.chan_id != c by {
            assert(rest[i] == replies[i + 1]);
            assert(replies[0].0.chan_id != replies[i + 1].0.chan_id);
        }
        assert forall|i: int| 0 <= i < rest.len() implies reply_accepted(m1, #[trigger] rest[i].0) by {
            assert(rest[i] == replies[i + 1]);
            assert(reply_accepted(m, replies[i + 1].0));
            assert(m1.slots[rest[i].0.chan_id as int] == m.slots[rest[i].0.chan_id as int]);
        }
        assert forall|i: int, j: int|
            0 <= i < j < rest.len() implies #[trigger] rest[i].0.chan_id
            != #[trigger] rest[j].0.chan_id by {
            assert(rest[i] == replies[i + 1]);
            assert(rest[j] == replies[j + 1]);
        }
        assert forall|i: int| 0 <= i < rest.len() implies {
            &&& #[trigger] rest[i].1.len() == rest[i].0.body_len
            &&& rest[i].2.len() == rest[i].0.buf_len
        } by {
            assert(rest[i] == replies[i + 1]);
        }
        lemma_out_of_order_delivery(m1, rest);
        let r = feed_all(m, replies)->Ok_0;
        assert(r == feed_all(m1, rest)->Ok_0);
        assert forall|i: int|
            0 <= i < replies.len() implies r.slots[#[trigger] replies[i].0.chan_id as int]
            == Slot::Complete {
            header: replies[i].0,
            body: delivered_body(m.slots[replies[i].0.chan_id as int]->Waiting_body, replies[i].1),
            side: delivered_side(m.slots[replies[i].0.chan_id as int]->Waiting_side, replies[i].2),
        } by {
            if i == 0 {
                assert forall|k: int| 0 <= k < rest.len() implies #[trigger] rest[k].0.chan_id
                    != c by {
                    assert(rest[k] == replies[k + 1]);
                }
            } else {
                assert(rest[i - 1] == replies[i]);
                assert(replies[i].0.chan_id != c);
                assert(m1.slots[replies[i].0.chan_id as int] == m.slots[replies[i].0.chan_id as int]);
            }
        }
        assert forall|d: int|
            0 <= d < NUM_CHANNELS && (forall|i: int|
                0 <= i < replies.len() ==> #[trigger] replies[i].0.chan_id != d) implies r.slots[d]
            == m.slots[d] by {
            assert(replies[0].0.chan_id != d);
            assert forall|k: int| 0 <= k < rest.len() implies #[trigger] rest[k].0.chan_id != d by {
                assert(rest[k] == replies[k + 1]);
            }
        }
    }
}

/// The number of bytes of all the feeds.
pub open spec fn total_len(feeds: Seq<Seq<u8>>) -> nat
    decreases feeds.len(),
{
    if feeds.len() == 0 {
        0
    } else {
        feeds[0].len() + total_len(feeds.drop_first())
    }
}

/// The `NeedBytes` count that a server step returned, 0 for a request.
pub open spec fn needs_of(out: Assembled) -> nat {
    match out {
        Assembled::NeedBytes(n) => n,
        Assembled::Request(_, _, _) => 0,
    }
}

/// Bytes the server still awaits for the body of a header it has read.
pub open spec fn server_owed(pending: Option<RequestHeader>) -> nat {
    match pending {
        None => 0,
        Some(h) => (h.body_len + h.buf_len) as nat,
    }
}

/// Feeding a server, each feed exactly as long as the server asks: the final
/// pending header, the sum of the `NeedBytes` counts returned and the sum of
/// the header lengths read; `None` once a feed is refused.
pub open spec fn server_run(pending: Option<RequestHeader>, max_buf_len: u16, feeds: Seq<Seq<u8>>) -> Option<
    (Option<RequestHeader>, nat, nat),
>
    decreases feeds.len(),
{
    if feeds.len() == 0 {
        Some((pending, 0, 0))
    } else if feeds[0].len() != server_need(pending) {
        None
    } else {
        match server_step(pending, max_buf_len, feeds[0]) {
            Err(_) => None,
            Ok((next, out)) => match server_run(next, max_buf_len, feeds.drop_first()) {
                None => None,
                Some((last, needs, headers)) => Some(
                    (
                        last,
                        needs + needs_of(out),
                        headers + if pending is None {
                            REQ_HEADER_LEN as nat
                        } else {
                            0
                        },
                    ),
                ),
            },
        }
    }
}

proof fn lemma_server_run_counts(pending: Option<RequestHeader>, max_buf_len: u16, feeds: Seq<Seq<u8>>)
    requires
        server_run(pending, max_buf_len, feeds) is Some,
    ensures
        ({
            let (last, needs, headers) = server_run(pending, max_buf_len, feeds)->Some_0;
            total_len(feeds) + server_owed(last) == needs + headers + server_owed(pending)
        }),
    decreases feeds.len(),
{
    if feeds.len() > 0 {
        let (next, out) = server_step(pending, max_buf_len, feeds[0])->Ok_0;
        lemma_server_run_counts(next, max_buf_len, feeds.drop_first());
    }
}

/// Along a byte stream that a server accepts, fed as it asks, from a server
/// waiting for a header to one waiting for a header again: the bytes consumed
/// are the `NeedBytes` counts returned plus the header lengths read.
pub proof fn lemma_server_need_bytes(max_buf_len: u16, feeds: Seq<Seq<u8>>)
    requires
        server_run(None, max_buf_len, feeds) is Some,
        server_run(None, max_buf_len, feeds)->Some_0.0 is None,
    ensures
        total_len(feeds) == server_run(None, max_buf_len, feeds)->Some_0.1 + server_run(
            None,
            max_buf_len,
            feeds,
        )->Some_0.2,
{
    lemma_server_run_counts(None, max_buf_len, feeds);
}

/// The number of bytes that the reply assembler asks for next.
pub open spec fn client_need(phase: Phase) -> nat {
    match phase {
        Phase::WaitHeader => REP_HEADER_LEN as nat,
        Phase::WaitBody { header, .. } => (header.body_len + header.buf_len) as nat,
    }
}

/// Feeding a client, each feed exactly as long as it asks: the final state and
/// the sum of the counts returned; `None` once a feed is refused.
pub open spec fn client_run(m: ClientModel, feeds: Seq<Seq<u8>>) -> Option<(ClientModel, nat)>
    decreases feeds.len(),
{
    if feeds.len() == 0 {
        Some((m, 0))
    } else if feeds[0].len() != client_need(m.phase) {
        None
    } else {
        match client_step(m, feeds[0]) {
            Err(_) => None,
            Ok((next, need, _)) => match client_run(next, feeds.drop_first()) {
                None => None,
                Some((last, needs)) => Some((last, needs + need)),
            },
        }
    }
}

/// Each count that a client step returns is what the next step reads.
pub proof fn lemma_client_step_need(m: ClientModel, bytes: Seq<u8>)
    requires
        client_step(m, bytes) is Ok,
    ensures
        client_step(m, bytes)->Ok_0.1 == client_need(client_step(m, bytes)->Ok_0.0.phase),
{
}

proof fn lemma_client_run_counts(m: ClientModel, feeds: Seq<Seq<u8>>)
    requires
        client_run(m, feeds) is Some,
    ensures
        total_len(feeds) + client_need(client_run(m, feeds)->Some_0.0.phase) == client_run(
            m,
            feeds,
        )->Some_0.1 + client_need(m.phase),
    decreases feeds.len(),
{
    if feeds.len() > 0 {
        let next = client_step(m, feeds[0])->Ok_0.0;
        lemma_client_step_need(m, feeds[0]);
        lemma_client_run_counts(next, feeds.drop_first());
    }
}

/// Along a byte stream that a client accepts, fed as it asks from a client
/// waiting for a header: the bytes consumed plus the count still asked for are
/// the six bytes of the first header plus all the counts returned.  (The
/// client's counts include the header lengths it asks for.)
pub proof fn lemma_client_need_bytes(m: ClientModel, feeds: Seq<Seq<u8>>)
    requires
        m.phase is WaitHeader,
        client_run(m, feeds) is Some,
    ensures
        total_len(feeds) + client_need(client_run(m, feeds)->Some_0.0.phase) == REP_HEADER_LEN
            + client_run(m, feeds)->Some_0.1,
{
    lemma_client_run_counts(m, feeds);
}

proof fn lemma_count_update(s: Seq<Slot>, i: int, x: Slot, k: int)
    requires
        0 <= i < s.len(),
    ensures
        count_kind(s.update(i, x), k) + (if slot_kind(s[i]) == k {
            1nat
        } else {
            0nat
        }) == count_kind(s, k) + (if slot_kind(x) == k {
            1nat
        } else {
            0nat
        }),
    decreases s.len(),
{
    let u = s.update(i, x);
    if i == s.len() - 1 {
        assert(u.drop_last() =~= s.drop_last());
    } else {
        lemma_count_update(s.drop_last(), i, x, k);
        assert(u.drop_last() =~= s.drop_last().update(i, x));
    }
}

/// Emitting a request turns exactly one `Empty` slot into a `Waiting` one and
/// leaves the numbers of `Receiving` and `Complete` slots as they were.
pub proof fn lemma_request_slot_counts(
    before: ClientModel,
    after: ClientModel,
    out_before: Seq<u8>,
    out_after: Seq<u8>,
    method_idx: u8,
    enc: Seq<u8>,
    side: Seq<u8>,
    dst_body: Seq<u8>,
    dst_side: Option<Seq<u8>>,
    chan_id: u8,
    n: nat,
)
    requires
        model_wf(before),
        request_sent(
            before,
            after,
            out_before,
            out_after,
            method_idx,
            enc,
            side,
            dst_body,
            dst_side,
            chan_id,
            n,
        ),
    ensures
        count_kind(after.slots, 0) + 1 == count_kind(before.slots, 0),
        count_kind(after.slots, 1) == count_kind(before.slots, 1) + 1,
        count_kind(after.slots, 2) == count_kind(before.slots, 2),
        count_kind(after.slots, 3) == count_kind(before.slots, 3),
{
    let x = Slot::Waiting { body: dst_body, side: dst_side };
    lemma_count_update(before.slots, chan_id as int, x, 0);
    lemma_count_update(before.slots, chan_id as int, x, 1);
    lemma_count_update(before.slots, chan_id as int, x, 2);
    lemma_count_update(before.slots, chan_id as int, x, 3);
}

/// A channel whose reply is not complete stays so through any step of the
/// reply assembler that does not report that channel complete: taking its
/// reply, after one take and any such steps, still hands out nothing.
pub proof fn lemma_take_stays_empty(m: ClientModel, bytes: Seq<u8>, c: u8)
    requires
        model_wf(m),
        !(m.slots[c as int] is Complete),
        client_step(m, bytes) is Ok,
        client_step(m, bytes)->Ok_0.2 != Some(c),
    ensures
        !(client_step(m, bytes)->Ok_0.0.slots[c as int] is Complete),
        take_step(client_step(m, bytes)->Ok_0.0, c).1 is None,
{
}

} // verus!

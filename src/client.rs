//! Client side: the request emitter, the reply slots and the reply assembler.
use crate::codec::Body;
use crate::consts::{REP_HEADER_LEN, REQ_HEADER_LEN};
pub use crate::error::Error;
use crate::shape::{OptBuf, OptBufNo, OptBufYes};
use crate::wire::{
    rep_header_from_bytes, rep_header_of, req_packet, ReplyHeader, RequestHeader,
};
use core::marker::PhantomData;
use vstd::prelude::*;

verus! {

/// Number of channels, and so of reply slots, of a client.
pub const NUM_CHANNELS: usize = 256;

/// A reply slot, as plain values.
pub enum Slot {
    Empty,
    Waiting { body: Seq<u8>, side: Option<Seq<u8>> },
    Receiving,
    Complete { header: ReplyHeader, body: Seq<u8>, side: Option<Seq<u8>> },
}

/// What the reply assembler is doing, as plain values.
pub enum Phase {
    WaitHeader,
    WaitBody { header: ReplyHeader, body: Seq<u8>, side: Option<Seq<u8>> },
}

/// The state of a client, as plain values.
pub struct ClientModel {
    pub phase: Phase,
    pub slots: Seq<Slot>,
}

/// The bytes of an optional buffer.
pub open spec fn opt_view(o: Option<Vec<u8>>) -> Option<Seq<u8>> {
    match o {
        Some(v) => Some(v@),
        None => None,
    }
}

/// A reply with header `h` fits the destinations lent for it.
pub open spec fn reply_fits(h: ReplyHeader, body: Seq<u8>, side: Option<Seq<u8>>) -> bool {
    &&& h.body_len <= body.len()
    &&& match side {
        None => h.buf_len == 0,
        Some(s) => h.buf_len <= s.len(),
    }
}

/// The invariant of a client: one slot per channel, a slot is `Receiving`
/// exactly while the assembler fills the destinations of its reply, and a
/// complete reply's body destination holds at least the body.
pub open spec fn model_wf(m: ClientModel) -> bool {
    &&& m.slots.len() == NUM_CHANNELS
    &&& forall|c: int|
        0 <= c < NUM_CHANNELS && #[trigger] m.slots[c] is Complete ==> m.slots[c]->Complete_header.body_len
            <= m.slots[c]->Complete_body.len()
    &&& match m.phase {
        Phase::WaitHeader => forall|c: int| 0 <= c < NUM_CHANNELS ==> !(#[trigger] m.slots[c] is Receiving),
        Phase::WaitBody { header, body, side } => {
            &&& reply_fits(header, body, side)
            &&& forall|c: int|
                0 <= c < NUM_CHANNELS ==> (#[trigger] m.slots[c] is Receiving <==> c == header.chan_id)
        },
    }
}

/// Order in which channels are tried: 1, 2, ..., 255, then 0.
pub open spec fn chan_rank(c: int) -> int {
    if c == 0 {
        255
    } else {
        c - 1
    }
}

/// Some channel is free.
pub open spec fn has_free(slots: Seq<Slot>) -> bool {
    exists|c: int| 0 <= c < NUM_CHANNELS && #[trigger] slots[c] is Empty
}

/// `c` is the channel that the next request takes: the first free one in the
/// order 1, 2, ..., 255, 0.  Channel 0 is thus taken last.
pub open spec fn next_chan(slots: Seq<Slot>, c: int) -> bool {
    &&& 0 <= c < NUM_CHANNELS
    &&& slots[c] is Empty
    &&& forall|d: int|
        0 <= d < NUM_CHANNELS && #[trigger] slots[d] is Empty ==> chan_rank(c) <= chan_rank(d)
}

/// The body destination `dst` once `body` is copied to its start: it keeps
/// its length.
pub open spec fn delivered_body(dst: Seq<u8>, body: Seq<u8>) -> Seq<u8> {
    body + dst.subrange(body.len() as int, dst.len() as int)
}

/// The slot that a reply fills once all its bytes are in: the body is copied to
/// the start of the body destination, and the side destination, if one was
/// lent, is cut to the side buffer received.
pub open spec fn completed(h: ReplyHeader, body: Seq<u8>, side: Option<Seq<u8>>, payload: Seq<u8>) -> Slot {
    Slot::Complete {
        header: h,
        body: delivered_body(body, payload.subrange(0, h.body_len as int)),
        side: match side {
            Some(_) => Some(payload.subrange(h.body_len as int, h.body_len + h.buf_len)),
            None => None,
        },
    }
}

/// One step of the reply assembler: the next state, the number of bytes the
/// next feed must supply, and the channel whose reply became complete, if any.
pub open spec fn client_step(m: ClientModel, bytes: Seq<u8>) -> Result<
    (ClientModel, nat, Option<u8>),
    Error,
> {
    match m.phase {
        Phase::WaitHeader => {
            if bytes.len() < REP_HEADER_LEN {
                Err(Error::BadHeader)
            } else {
                let h = rep_header_of(bytes);
                let c = h.chan_id as int;
                match m.slots[c] {
                    Slot::Empty => Err(Error::SlotEmpty),
                    Slot::Receiving => Err(Error::SlotReceiving),
                    Slot::Complete { .. } => Err(Error::SlotComplete),
                    Slot::Waiting { body, side } => {
                        if h.body_len > body.len() {
                            Err(Error::BodyTooLong)
                        } else if side is None && h.buf_len > 0 {
                            Err(Error::UnexpectedSideBuf)
                        } else if side is Some && h.buf_len > side->Some_0.len() {
                            Err(Error::SideBufTooLong)
                        } else if h.body_len + h.buf_len == 0 {
                            Ok(
                                (
                                    ClientModel {
                                        phase: Phase::WaitHeader,
                                        slots: m.slots.update(c, completed(h, body, side, Seq::empty())),
                                    },
                                    REP_HEADER_LEN as nat,
                                    Some(h.chan_id),
                                ),
                            )
                        } else {
                            Ok(
                                (
                                    ClientModel {
                                        phase: Phase::WaitBody { header: h, body, side },
                                        slots: m.slots.update(c, Slot::Receiving),
                                    },
                                    (h.body_len + h.buf_len) as nat,
                                    None,
                                ),
                            )
                        }
                    },
                }
            }
        },
        Phase::WaitBody { header, body, side } => {
            if bytes.len() < header.body_len + header.buf_len {
                Err(Error::ReceivedTooShort)
            } else {
                Ok(
                    (
                        ClientModel {
                            phase: Phase::WaitHeader,
                            slots: m.slots.update(
                                header.chan_id as int,
                                completed(header, body, side, bytes),
                            ),
                        },
                        REP_HEADER_LEN as nat,
                        Some(header.chan_id),
                    ),
                )
            }
        },
    }
}

/// Taking the reply of channel `c`: the next state and what is handed out.
pub open spec fn take_step(m: ClientModel, c: u8) -> (ClientModel, Option<
    (ReplyHeader, Seq<u8>, Option<Seq<u8>>),
>) {
    match m.slots[c as int] {
        Slot::Complete { header, body, side } => (
            ClientModel { phase: m.phase, slots: m.slots.update(c as int, Slot::Empty) },
            Some((header, body, side)),
        ),
        _ => (m, None),
    }
}

#[derive(Debug)]
enum ReplyState {
    Empty,
    Waiting { rep_body_buf: Vec<u8>, opt_buf: Option<Vec<u8>> },
    Receiving,
    Complete { rep_header: ReplyHeader, rep_body_buf: Vec<u8>, opt_buf: Option<Vec<u8>> },
}

impl ReplyState {
    spec fn view(&self) -> Slot {
        match self {
            ReplyState::Empty => Slot::Empty,
            ReplyState::Waiting { rep_body_buf, opt_buf } => Slot::Waiting {
                body: rep_body_buf@,
                side: opt_view(*opt_buf),
            },
            ReplyState::Receiving => Slot::Receiving,
            ReplyState::Complete { rep_header, rep_body_buf, opt_buf } => Slot::Complete {
                header: *rep_header,
                body: rep_body_buf@,
                side: opt_view(*opt_buf),
            },
        }
    }

    /// If the slot is waiting, take its destination buffers and mark it receiving.
    fn take_waiting(&mut self) -> (r: Option<(Vec<u8>, Option<Vec<u8>>)>)
        ensures
            match old(self).view() {
                Slot::Waiting { body, side } => {
                    &&& r is Some
                    &&& r->Some_0.0@ == body
                    &&& opt_view(r->Some_0.1) == side
                    &&& final(self).view() == Slot::Receiving
                },
                _ => r is None && final(self).view() == old(self).view(),
            },
    {
        match self {
            ReplyState::Waiting { .. } => {},
            _ => return None,
        }
        let mut taken = ReplyState::Receiving;
        core::mem::swap(self, &mut taken);
        match taken {
            ReplyState::Waiting { rep_body_buf, opt_buf } => Some((rep_body_buf, opt_buf)),
            _ => None,
        }
    }

    /// If the slot is complete, take its reply and mark it empty.
    fn take_complete(&mut self) -> (r: Option<(ReplyHeader, Vec<u8>, Option<Vec<u8>>)>)
        ensures
            match old(self).view() {
                Slot::Complete { header, body, side } => {
                    &&& r is Some
                    &&& r->Some_0.0 == header
                    &&& r->Some_0.1@ == body
                    &&& opt_view(r->Some_0.2) == side
                    &&& final(self).view() == Slot::Empty
                },
                _ => r is None && final(self).view() == old(self).view(),
            },
    {
        match self {
            ReplyState::Complete { .. } => {},
            _ => return None,
        }
        let mut taken = ReplyState::Empty;
        core::mem::swap(self, &mut taken);
        match taken {
            ReplyState::Complete { rep_header, rep_body_buf, opt_buf } => Some(
                (rep_header, rep_body_buf, opt_buf),
            ),
            _ => None,
        }
    }
}

/// The bytes of an optional side buffer; none is the empty string.
pub open spec fn side_of(o: Option<&[u8]>) -> Seq<u8> {
    match o {
        Some(s) => s@,
        None => Seq::empty(),
    }
}

/// A request of `enc_len` body bytes and `side_len` side-buffer bytes can be
/// emitted into an output buffer of `out_len` bytes.
pub open spec fn emit_fits(slots: Seq<Slot>, out_len: nat, enc_len: nat, side_len: nat) -> bool {
    &&& has_free(slots)
    &&& enc_len <= u16::MAX
    &&& side_len <= u16::MAX
    &&& REQ_HEADER_LEN + enc_len + side_len <= out_len
}

/// The error that emitting such a request reports, checked in this order.
pub open spec fn emit_fails_with(
    e: Error,
    slots: Seq<Slot>,
    out_len: nat,
    enc_len: nat,
    side_len: nat,
) -> bool {
    if !has_free(slots) {
        e is NoFreeChannel
    } else if out_len < REQ_HEADER_LEN {
        e is OutBufTooShort
    } else if REQ_HEADER_LEN + enc_len > out_len {
        e is Codec
    } else if enc_len > u16::MAX || side_len > u16::MAX {
        e is LenExceedsMax
    } else if REQ_HEADER_LEN + enc_len + side_len > out_len {
        e is OutBufTooShort
    } else {
        false
    }
}

/// What `take_reply` hands out, as plain values.
pub open spec fn reply_view(r: Option<(ReplyHeader, Vec<u8>, Option<Vec<u8>>)>) -> Option<
    (ReplyHeader, Seq<u8>, Option<Seq<u8>>),
> {
    match r {
        Some((h, b, s)) => Some((h, b@, opt_view(s))),
        None => None,
    }
}

/// Copy `src` into `out` from index `at` on.
fn copy_into(out: &mut [u8], at: usize, src: &[u8])
    requires
        at + src@.len() <= old(out)@.len(),
    ensures
        final(out)@ == old(out)@.subrange(0, at as int) + src@ + old(out)@.subrange(
            at + src@.len(),
            old(out)@.len() as int,
        ),
{
    let ghost start = out@;
    let len = out.len();
    let mut i: usize = 0;
    while i < src.len()
        invariant
            i <= src@.len(),
            start.len() == len,
            at + src@.len() <= start.len(),
            out@.len() == start.len(),
            forall|j: int|
                0 <= j < start.len() ==> #[trigger] out@[j] == if at <= j < at + i {
                    src@[j - at]
                } else {
                    start[j]
                },
        decreases src@.len() - i,
    {
        out[at + i] = src[i];
        i += 1;
    }
    assert(out@ =~= start.subrange(0, at as int) + src@ + start.subrange(
        at + src@.len(),
        start.len() as int,
    ));
}

/// Copy `src[from..from + n]` to the start of `dst`, in place.
fn fill_from(dst: &mut Vec<u8>, src: &[u8], from: usize, n: usize)
    requires
        n <= old(dst)@.len(),
        from + n <= src@.len(),
    ensures
        final(dst)@ == delivered_body(old(dst)@, src@.subrange(from as int, from + n)),
{
    let ghost start = dst@;
    let src_len = src.len();
    let mut i: usize = 0;
    while i < n
        invariant
            i <= n,
            src@.len() == src_len,
            n <= dst@.len(),
            dst@.len() == start.len(),
            from + n <= src@.len(),
            forall|j: int| 0 <= j < i ==> #[trigger] dst@[j] == src@[from + j],
            forall|j: int| i <= j < start.len() ==> #[trigger] dst@[j] == start[j],
        decreases n - i,
    {
        dst[i] = src[from + i];
        i += 1;
    }
    assert(dst@ =~= delivered_body(start, src@.subrange(from as int, from + n)));
}

enum State {
    WaitHeader,
    WaitBody(ReplyHeader, Vec<u8>, Option<Vec<u8>>),
}

/// Main component of the RPC client: it emits requests, keeps one reply slot per
/// channel, and assembles the replies that come back into those slots.
pub struct RpcClient {
    state: State,
    reply_slots: Vec<ReplyState>,
}

impl View for RpcClient {
    type V = ClientModel;

    closed spec fn view(&self) -> ClientModel {
        ClientModel {
            phase: match self.state {
                State::WaitHeader => Phase::WaitHeader,
                State::WaitBody(header, body, side) => Phase::WaitBody {
                    header,
                    body: body@,
                    side: opt_view(side),
                },
            },
            slots: self.reply_slots@.map_values(|s: ReplyState| s.view()),
        }
    }
}

impl RpcClient {
    /// The client's invariant, which every operation keeps.
    pub open spec fn wf(&self) -> bool {
        model_wf(self@)
    }

    /// Create a client with every slot empty.
    pub fn new() -> (r: Self)
        ensures
            r.wf(),
            r@.phase is WaitHeader,
            forall|c: int| 0 <= c < NUM_CHANNELS ==> #[trigger] r@.slots[c] is Empty,
    {
        let mut reply_slots: Vec<ReplyState> = Vec::new();
        let mut i: usize = 0;
        while i < NUM_CHANNELS
            invariant
                i <= NUM_CHANNELS,
                reply_slots@.len() == i,
                forall|c: int| 0 <= c < i ==> #[trigger] reply_slots@[c].view() is Empty,
            decreases NUM_CHANNELS - i,
        {
            reply_slots.push(ReplyState::Empty);
            i += 1;
        }
        RpcClient { state: State::WaitHeader, reply_slots }
    }

    /// The channel the next request takes, if any is free.
    fn free_chan(&self) -> (r: Option<u8>)
        requires
            self.wf(),
        ensures
            match r {
                Some(c) => next_chan(self@.slots, c as int),
                None => !has_free(self@.slots),
            },
    {
        let mut k: usize = 0;
        while k < NUM_CHANNELS
            invariant
                k <= NUM_CHANNELS,
                self.wf(),
                forall|j: int| 0 <= j < k ==> !(#[trigger] self@.slots[(j + 1) % 256] is Empty),
            decreases NUM_CHANNELS - k,
        {
            let c = (k + 1) % NUM_CHANNELS;
            assert(self@.slots[c as int] == self.reply_slots@[c as int].view());
            if let ReplyState::Empty = self.reply_slots[c] {
                assert forall|d: int|
                    0 <= d < NUM_CHANNELS && #[trigger] self@.slots[d] is Empty implies chan_rank(
                    c as int,
                ) <= chan_rank(d) by {
                    let j = chan_rank(d);
                    assert((j + 1) % 256 == d);
                }
                return Some(c as u8);
            }
            k += 1;
        }
        assert forall|d: int| 0 <= d < NUM_CHANNELS implies !(#[trigger] self@.slots[d] is Empty) by {
            let j = chan_rank(d);
            assert((j + 1) % 256 == d);
        }
        None
    }
    /// Emit a request: take the next free channel, encode `body` after the
    /// header, copy `req_body_buf` after the body, fill in `header` (with its
    /// reserved `opts` bits cleared) and write it in front.  The slot of the channel becomes `Waiting` with the destinations
    /// lent for the reply.  Returns the number of bytes written to `buf`.  On an
    /// error the client and `header` are left as they were.
    pub fn req<S: Body>(
        &mut self,
        header: &mut RequestHeader,
        body: &S,
        req_body_buf: Option<&[u8]>,
        rep_body_buf: Vec<u8>,
        rep_opt_buf: Option<Vec<u8>>,
        buf: &mut [u8],
    ) -> (r: Result<usize, Error>)
        requires
            old(self).wf(),
        ensures
            final(self).wf(),
            final(buf)@.len() == old(buf)@.len(),
            ({
                let enc = body.encoding();
                let side = side_of(req_body_buf);
                let len = old(buf)@.len();
                match r {
                    Ok(n) => {
                        let h = *final(header);
                        &&& emit_fits(old(self)@.slots, len, enc.len(), side.len())
                        &&& next_chan(old(self)@.slots, h.chan_id as int)
                        &&& h == RequestHeader {
                            method_idx: old(header).method_idx,
                            chan_id: h.chan_id,
                            opts: 0,
                            body_len: enc.len() as u16,
                            buf_len: side.len() as u16,
                        }
                        &&& n == REQ_HEADER_LEN + enc.len() + side.len()
                        &&& final(buf)@ == req_packet(h, enc, side) + old(buf)@.subrange(n as int, len as int)
                        &&& final(self)@ == ClientModel {
                            phase: old(self)@.phase,
                            slots: old(self)@.slots.update(
                                h.chan_id as int,
                                Slot::Waiting { body: rep_body_buf@, side: opt_view(rep_opt_buf) },
                            ),
                        }
                    },
                    Err(e) => {
                        &&& emit_fails_with(e, old(self)@.slots, len, enc.len(), side.len())
                        &&& final(self)@ == old(self)@
                        &&& *final(header) == *old(header)
                    },
                }
            }),
    {
        let chan_id = match self.free_chan() {
            Some(c) => c,
            None => return Err(Error::NoFreeChannel),
        };
        if buf.len() < REQ_HEADER_LEN {
            return Err(Error::OutBufTooShort);
        }
        let n = body.encode_at(buf, REQ_HEADER_LEN)?;
        if n > u16::MAX as usize {
            return Err(Error::LenExceedsMax);
        }
        let side: &[u8] = match req_body_buf {
            Some(s) => s,
            None => &[],
        };
        assert(side@ == side_of(req_body_buf));
        if side.len() > u16::MAX as usize {
            return Err(Error::LenExceedsMax);
        }
        if buf.len() - REQ_HEADER_LEN - n < side.len() {
            return Err(Error::OutBufTooShort);
        }
        let ghost encoded = buf@;
        copy_into(buf, REQ_HEADER_LEN + n, side);
        header.chan_id = chan_id;
        header.opts = 0;
        header.body_len = n as u16;
        header.buf_len = side.len() as u16;
        let ghost copied = buf@;
        header.write_to(buf);
        let total = REQ_HEADER_LEN + n + side.len();
        proof {
            let len = encoded.len() as int;
            let at = REQ_HEADER_LEN + n;
            assert(encoded.subrange(at as int, len) == old(buf)@.subrange(at as int, len));
            assert(copied.subrange(total as int, len) =~= encoded.subrange(total as int, len));
            assert forall|i: int| at <= i < len implies encoded[i] == old(buf)@[i] by {
                assert(encoded[i] == encoded.subrange(at as int, len)[i - at]);
                assert(old(buf)@[i] == old(buf)@.subrange(at as int, len)[i - at]);
            }
            assert(encoded.subrange(total as int, len) =~= old(buf)@.subrange(total as int, len));
            assert(copied.subrange(REQ_HEADER_LEN as int, at as int) =~= encoded.subrange(
                REQ_HEADER_LEN as int,
                at as int,
            ));
            assert(copied.subrange(at as int, total as int) =~= side@);
            assert(copied =~= copied.subrange(0, REQ_HEADER_LEN as int) + body.encoding() + side@
                + old(buf)@.subrange(total as int, len));
            assert(buf@ =~= req_packet(*header, body.encoding(), side@) + old(buf)@.subrange(
                total as int,
                len,
            ));
        }
        let ghost before = self@;
        self.reply_slots.set(
            chan_id as usize,
            ReplyState::Waiting { rep_body_buf, opt_buf: rep_opt_buf },
        );
        assert(self@.slots =~= before.slots.update(
            chan_id as int,
            Slot::Waiting { body: rep_body_buf@, side: opt_view(rep_opt_buf) },
        ));
        Ok(total)
    }

    /// Feed bytes to the reply assembler.  Waiting for a header, it reads the
    /// first six bytes and checks them against the slot of the channel they name;
    /// waiting for a body, it copies the first `body_len + buf_len` bytes into
    /// the destinations lent for the reply: the body to the start of the body
    /// destination, which keeps its length, and the side buffer into the side
    /// destination, which is cut to the length received.  Returns how many bytes the next feed
    /// must supply, and the channel whose reply became complete, if any.  On an
    /// error the client is left as it was.
    pub fn parse(&mut self, rcv_buf: &[u8]) -> (r: Result<(usize, Option<u8>), Error>)
        requires
            old(self).wf(),
        ensures
            final(self).wf(),
            ({
                let step = client_step(old(self)@, rcv_buf@);
                match r {
                    Ok((n, done)) => step is Ok && step->Ok_0 == (final(self)@, n as nat, done),
                    Err(e) => step is Err && step->Err_0 == e && final(self)@ == old(self)@,
                }
            }),
    {
        let ghost start = self@;
        let mut st = State::WaitHeader;
        core::mem::swap(&mut st, &mut self.state);
        match st {
            State::WaitHeader => {
                let h = match rep_header_from_bytes(rcv_buf) {
                    Ok(h) => h,
                    Err(e) => {
                        assert(self@ =~= start);
                        return Err(e);
                    },
                };
                let c = h.chan_id as usize;
                assert(start.slots[c as int] == self.reply_slots@[c as int].view());
                assert(self@ =~= start);
                match &self.reply_slots[c] {
                    ReplyState::Empty => return Err(Error::SlotEmpty),
                    ReplyState::Receiving => return Err(Error::SlotReceiving),
                    ReplyState::Complete { .. } => return Err(Error::SlotComplete),
                    ReplyState::Waiting { rep_body_buf, opt_buf } => {
                        if h.body_len() > rep_body_buf.len() {
                            return Err(Error::BodyTooLong);
                        }
                        match opt_buf {
                            None => {
                                if h.buf_len > 0 {
                                    return Err(Error::UnexpectedSideBuf);
                                }
                            },
                            Some(b) => {
                                if h.buf_len() > b.len() {
                                    return Err(Error::SideBufTooLong);
                                }
                            },
                        }
                    },
                }
                let mut slot = ReplyState::Receiving;
                core::mem::swap(&mut slot, &mut self.reply_slots[c]);
                let (body_buf, opt_buf) = match slot.take_waiting() {
                    Some(t) => t,
                    None => {
                        // The slot was found waiting just above.
                        assert(false);
                        return Err(Error::SlotEmpty);
                    },
                };
                let n = h.body_len() + h.buf_len();
                if n == 0 {
                    let opt_buf = match opt_buf {
                        Some(mut b) => {
                            b.truncate(0);
                            assert(b@ =~= Seq::<u8>::empty().subrange(0, 0));
                            Some(b)
                        },
                        None => None,
                    };
                    self.reply_slots.set(
                        c,
                        ReplyState::Complete { rep_header: h, rep_body_buf: body_buf, opt_buf },
                    );
                    proof {
                        let done = completed(
                            h,
                            start.slots[c as int]->Waiting_body,
                            start.slots[c as int]->Waiting_side,
                            Seq::empty(),
                        );
                        assert(body_buf@ =~= delivered_body(body_buf@, Seq::<u8>::empty().subrange(0, 0)));
                        assert(self@.slots =~= start.slots.update(c as int, done));
                    }
                    return Ok((REP_HEADER_LEN, Some(h.chan_id)));
                }
                self.state = State::WaitBody(h, body_buf, opt_buf);
                assert(self@.slots =~= start.slots.update(c as int, Slot::Receiving));
                Ok((n, None))
            },
            State::WaitBody(h, mut body_buf, opt_buf) => {
                let body_len = h.body_len();
                let n = body_len + h.buf_len();
                if rcv_buf.len() < n {
                    self.state = State::WaitBody(h, body_buf, opt_buf);
                    assert(self@ =~= start);
                    return Err(Error::ReceivedTooShort);
                }
                fill_from(&mut body_buf, rcv_buf, 0, body_len);
                let opt_buf = match opt_buf {
                    Some(mut b) => {
                        fill_from(&mut b, rcv_buf, body_len, h.buf_len());
                        b.truncate(h.buf_len());
                        assert(b@ =~= rcv_buf@.subrange(body_len as int, n as int));
                        Some(b)
                    },
                    None => None,
                };
                let c = h.chan_id as usize;
                self.reply_slots.set(
                    c,
                    ReplyState::Complete { rep_header: h, rep_body_buf: body_buf, opt_buf },
                );
                assert(self@.slots =~= start.slots.update(
                    c as int,
                    completed(h, start.phase->WaitBody_body, start.phase->WaitBody_side, rcv_buf@),
                ));
                Ok((REP_HEADER_LEN, Some(h.chan_id)))
            },
        }
    }

    /// One step of waiting for the reply on `chan_id`: feed `rcv_buf` to the
    /// assembler, and say whether that reply is now complete (`None`) or how many
    /// bytes to read next (`Some`).  Replies on other channels complete their own
    /// slots on the way.
    pub fn await_reply(&mut self, chan_id: u8, rcv_buf: &[u8]) -> (r: Result<Option<usize>, Error>)
        requires
            old(self).wf(),
        ensures
            final(self).wf(),
            ({
                let step = client_step(old(self)@, rcv_buf@);
                match r {
                    Ok(None) => step is Ok && step->Ok_0.0 == final(self)@ && step->Ok_0.2 == Some(
                        chan_id,
                    ),
                    Ok(Some(n)) => {
                        &&& step is Ok
                        &&& step->Ok_0 == (final(self)@, n as nat, step->Ok_0.2)
                        &&& step->Ok_0.2 != Some(chan_id)
                    },
                    Err(e) => step is Err && step->Err_0 == e && final(self)@ == old(self)@,
                }
            }),
    {
        let (n, done) = self.parse(rcv_buf)?;
        match done {
            Some(c) => {
                if c == chan_id {
                    return Ok(None);
                }
            },
            None => {},
        }
        Ok(Some(n))
    }

    /// Take the reply of channel `chan_id` if it is complete; its slot becomes
    /// `Empty`.  Otherwise nothing changes and `None` is returned.
    pub fn take_reply(&mut self, chan_id: u8) -> (r: Option<(ReplyHeader, Vec<u8>, Option<Vec<u8>>)>)
        requires
            old(self).wf(),
        ensures
            final(self).wf(),
            final(self)@ == take_step(old(self)@, chan_id).0,
            reply_view(r) == take_step(old(self)@, chan_id).1,
    {
        let ghost start = self@;
        let c = chan_id as usize;
        assert(start.slots[c as int] == self.reply_slots@[c as int].view());
        if let ReplyState::Complete { .. } = &self.reply_slots[c] {
        } else {
            assert(self@ =~= take_step(start, chan_id).0);
            return None;
        }
        let mut slot = ReplyState::Empty;
        core::mem::swap(&mut slot, &mut self.reply_slots[c]);
        assert(self@.slots =~= start.slots.update(c as int, Slot::Empty));
        slot.take_complete()
    }
}

/// An RPC method, identified on the wire by its index in the method table.
pub trait MethodId {
    const METHOD_ID: u8;
}

/// After a request of method `method_idx` was emitted on channel `chan_id`,
/// `n` bytes long, with `enc` as body and `side` as side buffer: the output
/// buffer holds the packet, and the slot of the channel waits with the
/// destinations lent for the reply.
pub open spec fn request_sent(
    before: ClientModel,
    after: ClientModel,
    out_before: Seq<u8>,
    out_after: Seq<u8>,
    method_idx: u8,
    enc: Seq<u8>,
    side: Seq<u8>,
    dst_body: Seq<u8>,
    dst_side: Option<Seq<u8>>,
    chan_id: u8,
    n: nat,
) -> bool {
    let h = RequestHeader {
        method_idx,
        chan_id,
        opts: 0,
        body_len: enc.len() as u16,
        buf_len: side.len() as u16,
    };
    &&& emit_fits(before.slots, out_before.len(), enc.len(), side.len())
    &&& next_chan(before.slots, chan_id as int)
    &&& n == REQ_HEADER_LEN + enc.len() + side.len()
    &&& out_after == req_packet(h, enc, side) + out_before.subrange(n as int, out_before.len() as int)
    &&& after == ClientModel {
        phase: before.phase,
        slots: before.slots.update(chan_id as int, Slot::Waiting { body: dst_body, side: dst_side }),
    }
}

/// Emitting a request either succeeded as `request_sent` says, or failed with
/// the error that `emit_fails_with` names and changed neither the client nor the
/// channel of the handle.
pub open spec fn request_done(
    before: ClientModel,
    after: ClientModel,
    out_before: Seq<u8>,
    out_after: Seq<u8>,
    method_idx: u8,
    enc: Seq<u8>,
    side: Seq<u8>,
    dst_body: Seq<u8>,
    dst_side: Option<Seq<u8>>,
    chan_before: u8,
    chan_after: u8,
    r: Result<usize, Error>,
) -> bool {
    match r {
        Ok(n) => request_sent(
            before,
            after,
            out_before,
            out_after,
            method_idx,
            enc,
            side,
            dst_body,
            dst_side,
            chan_after,
            n as nat,
        ),
        Err(e) => {
            &&& emit_fails_with(e, before.slots, out_before.len(), enc.len(), side.len())
            &&& after == before
            &&& chan_after == chan_before
        },
    }
}

/// What a request handle surfaces for a reply: an error reply, or the body
/// decoded.
pub open spec fn reply_outcome<P: Body>(h: ReplyHeader, body: Seq<u8>, r: Result<P, Error>) -> bool {
    &&& h.opts % 2 == 1 ==> r is Err && r->Err_0 is ErrReply
    &&& forall|v: P| h.opts % 2 == 0 && #[trigger] v.encoding() == body ==> r is Ok && r->Ok_0 == v
    &&& r is Err ==> r->Err_0 is ErrReply || r->Err_0 is Codec
}

/// Type used to build a request of method `M` and collect its reply.  `Q` and
/// `P` are the request and reply bodies; `QB` and `PB` say whether the request
/// and the reply carry a side buffer.
#[derive(Debug)]
pub struct RequestType<M: MethodId, Q: Body, QB: OptBuf, P: Body, PB: OptBuf> {
    chan_id: u8,
    body: Q,
    phantom: PhantomData<(M, QB, P, PB)>,
}

impl<M: MethodId, Q: Body, QB: OptBuf, P: Body, PB: OptBuf> RequestType<M, Q, QB, P, PB> {
    /// The channel of the request once emitted.
    pub closed spec fn chan(&self) -> u8 {
        self.chan_id
    }

    /// The request body.
    pub closed spec fn value(&self) -> Q {
        self.body
    }

    /// A request carrying `req`, not yet emitted.
    pub fn new(req: Q) -> (r: Self)
        ensures
            r.chan() == 0,
            r.value() == req,
    {
        RequestType { chan_id: 0, body: req, phantom: PhantomData }
    }

    /// The channel the request was emitted on.
    pub fn chan_id(&self) -> (r: u8)
        ensures
            r == self.chan(),
    {
        self.chan_id
    }

    /// Emit the request through `RpcClient::req` with a header for method `M`.
    fn send(
        &mut self,
        req_body_buf: Option<&[u8]>,
        rpc_client: &mut RpcClient,
        rep_body_buf: Vec<u8>,
        rep_opt_buf: Option<Vec<u8>>,
        buf: &mut [u8],
    ) -> (r: Result<usize, Error>)
        requires
            old(rpc_client).wf(),
        ensures
            final(rpc_client).wf(),
            final(self).value() == old(self).value(),
            final(buf)@.len() == old(buf)@.len(),
            request_done(
                old(rpc_client)@,
                final(rpc_client)@,
                old(buf)@,
                final(buf)@,
                M::METHOD_ID,
                old(self).value().encoding(),
                side_of(req_body_buf),
                rep_body_buf@,
                opt_view(rep_opt_buf),
                old(self).chan(),
                final(self).chan(),
                r,
            ),
    {
        let mut header = RequestHeader {
            method_idx: M::METHOD_ID,
            chan_id: 0,
            opts: 0,
            body_len: 0,
            buf_len: 0,
        };
        let n = rpc_client.req(&mut header, &self.body, req_body_buf, rep_body_buf, rep_opt_buf, buf)?;
        self.chan_id = header.chan_id;
        Ok(n)
    }
}

impl<M: MethodId, Q: Body, P: Body> RequestType<M, Q, OptBufNo, P, OptBufNo> {
    /// Emit the request into `buf`; the reply body goes to `rep_body_buf`.  Returns the number of bytes written.
    pub fn request(
        &mut self,
        rpc_client: &mut RpcClient,
        rep_body_buf: Vec<u8>,
        buf: &mut [u8],
    ) -> (r: Result<usize, Error>)
        requires
            old(rpc_client).wf(),
        ensures
            final(rpc_client).wf(),
            final(self).value() == old(self).value(),
            final(buf)@.len() == old(buf)@.len(),
            request_done(
                old(rpc_client)@,
                final(rpc_client)@,
                old(buf)@,
                final(buf)@,
                M::METHOD_ID,
                old(self).value().encoding(),
                Seq::empty(),
                rep_body_buf@,
                None,
                old(self).chan(),
                final(self).chan(),
                r,
            ),
    {
        assert(side_of(None) =~= Seq::<u8>::empty());
        self.send(None, rpc_client, rep_body_buf, None, buf)
    }
}

impl<M: MethodId, Q: Body, P: Body> RequestType<M, Q, OptBufNo, P, OptBufYes> {
    /// Emit the request into `buf`; the reply body goes to `rep_body_buf` and its side buffer to `rep_opt_buf`.  Returns the number of bytes written.
    pub fn request(
        &mut self,
        rpc_client: &mut RpcClient,
        rep_body_buf: Vec<u8>,
        rep_opt_buf: Vec<u8>,
        buf: &mut [u8],
    ) -> (r: Result<usize, Error>)
        requires
            old(rpc_client).wf(),
        ensures
            final(rpc_client).wf(),
            final(self).value() == old(self).value(),
            final(buf)@.len() == old(buf)@.len(),
            request_done(
                old(rpc_client)@,
                final(rpc_client)@,
                old(buf)@,
                final(buf)@,
                M::METHOD_ID,
                old(self).value().encoding(),
                Seq::empty(),
                rep_body_buf@,
                Some(rep_opt_buf@),
                old(self).chan(),
                final(self).chan(),
                r,
            ),
    {
        assert(side_of(None) =~= Seq::<u8>::empty());
        self.send(None, rpc_client, rep_body_buf, Some(rep_opt_buf), buf)
    }
}

impl<M: MethodId, Q: Body, P: Body> RequestType<M, Q, OptBufYes, P, OptBufNo> {
    /// Emit the request into `buf`, with `req_body_buf` as request side buffer; the reply body goes to `rep_body_buf`.  Returns the number of bytes written.
    pub fn request(
        &mut self,
        req_body_buf: &[u8],
        rpc_client: &mut RpcClient,
        rep_body_buf: Vec<u8>,
        buf: &mut [u8],
    ) -> (r: Result<usize, Error>)
        requires
            old(rpc_client).wf(),
        ensures
            final(rpc_client).wf(),
            final(self).value() == old(self).value(),
            final(buf)@.len() == old(buf)@.len(),
            request_done(
                old(rpc_client)@,
                final(rpc_client)@,
                old(buf)@,
                final(buf)@,
                M::METHOD_ID,
                old(self).value().encoding(),
                req_body_buf@,
                rep_body_buf@,
                None,
                old(self).chan(),
                final(self).chan(),
                r,
            ),
    {
        assert(side_of(Some(req_body_buf)) == req_body_buf@);
        self.send(Some(req_body_buf), rpc_client, rep_body_buf, None, buf)
    }
}

impl<M: MethodId, Q: Body, P: Body> RequestType<M, Q, OptBufYes, P, OptBufYes> {
    /// Emit the request into `buf`, with `req_body_buf` as request side buffer; the reply body goes to `rep_body_buf` and its side buffer to `rep_opt_buf`.  Returns the number of bytes written.
    pub fn request(
        &mut self,
        req_body_buf: &[u8],
        rpc_client: &mut RpcClient,
        rep_body_buf: Vec<u8>,
        rep_opt_buf: Vec<u8>,
        buf: &mut [u8],
    ) -> (r: Result<usize, Error>)
        requires
            old(rpc_client).wf(),
        ensures
            final(rpc_client).wf(),
            final(self).value() == old(self).value(),
            final(buf)@.len() == old(buf)@.len(),
            request_done(
                old(rpc_client)@,
                final(rpc_client)@,
                old(buf)@,
                final(buf)@,
                M::METHOD_ID,
                old(self).value().encoding(),
                req_body_buf@,
                rep_body_buf@,
                Some(rep_opt_buf@),
                old(self).chan(),
                final(self).chan(),
                r,
            ),
    {
        assert(side_of(Some(req_body_buf)) == req_body_buf@);
        self.send(Some(req_body_buf), rpc_client, rep_body_buf, Some(rep_opt_buf), buf)
    }
}

impl<M: MethodId, Q: Body, QB: OptBuf, P: Body> RequestType<M, Q, QB, P, OptBufNo> {
    /// Take the reply of this request from the client, if it is complete, and
    /// decode its body.  An error reply comes out as `ErrReply`.
    pub fn take_reply(&mut self, rpc_client: &mut RpcClient) -> (r: Option<Result<P, Error>>)
        requires
            old(rpc_client).wf(),
        ensures
            final(rpc_client).wf(),
            *final(self) == *old(self),
            final(rpc_client)@ == take_step(old(rpc_client)@, old(self).chan()).0,
            match take_step(old(rpc_client)@, old(self).chan()).1 {
                None => r is None,
                Some((h, body, _)) => r is Some && reply_outcome(
                    h,
                    body.subrange(0, h.body_len as int),
                    r->Some_0,
                ),
            },
    {
        match rpc_client.take_reply(self.chan_id) {
            None => None,
            Some((rep_header, rep_body_buf, _opt_buf)) => {
                if rep_header.is_err() {
                    return Some(Err(Error::ErrReply));
                }
                let body = vstd::slice::slice_subrange(
                    rep_body_buf.as_slice(),
                    0,
                    rep_header.body_len(),
                );
                Some(P::decode(body))
            },
        }
    }
}

impl<M: MethodId, Q: Body, QB: OptBuf, P: Body> RequestType<M, Q, QB, P, OptBufYes> {
    /// Take the reply of this request from the client, if it is complete, and
    /// decode its body; the reply side buffer comes with it.  An error reply
    /// comes out as `ErrReply`.
    pub fn take_reply(&mut self, rpc_client: &mut RpcClient) -> (r: Option<
        Result<(P, Vec<u8>), Error>,
    >)
        requires
            old(rpc_client).wf(),
        ensures
            final(rpc_client).wf(),
            *final(self) == *old(self),
            final(rpc_client)@ == take_step(old(rpc_client)@, old(self).chan()).0,
            match take_step(old(rpc_client)@, old(self).chan()).1 {
                None => r is None,
                Some((h, body, side)) => {
                    &&& r is Some
                    &&& h.opts % 2 == 1 ==> r->Some_0 is Err && r->Some_0->Err_0 is ErrReply
                    &&& forall|v: P|
                        h.opts % 2 == 0 && #[trigger] v.encoding() == body.subrange(0, h.body_len as int)
                            ==> r->Some_0 is Ok
                            && r->Some_0->Ok_0.0 == v
                    &&& r->Some_0 is Ok ==> r->Some_0->Ok_0.1@ == match side {
                        Some(s) => s,
                        None => Seq::empty(),
                    }
                    &&& r->Some_0 is Err ==> r->Some_0->Err_0 is ErrReply || r->Some_0->Err_0 is Codec
                },
            },
    {
        match rpc_client.take_reply(self.chan_id) {
            None => None,
            Some((rep_header, rep_body_buf, opt_buf)) => {
                if rep_header.is_err() {
                    return Some(Err(Error::ErrReply));
                }
                let side = match opt_buf {
                    Some(b) => b,
                    None => Vec::new(),
                };
                let body = vstd::slice::slice_subrange(
                    rep_body_buf.as_slice(),
                    0,
                    rep_header.body_len(),
                );
                match P::decode(body) {
                    Ok(v) => Some(Ok((v, side))),
                    Err(e) => Some(Err(e)),
                }
            },
        }
    }
}

} // verus!

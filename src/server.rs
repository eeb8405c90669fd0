//! Server side: the request assembler and the per-call request handle.
use crate::codec::Body;
pub use crate::error::Error;
use crate::shape::{OptBuf, OptBufNo, OptBufYes};
use crate::wire::{
    rep_header_bytes, rep_packet, req_header_from_bytes, req_header_of, ReplyHeader, RequestHeader,
};
use crate::consts::{REP_HEADER_LEN, REQ_HEADER_LEN};
use core::marker::PhantomData;
use vstd::prelude::*;

verus! {

/// Result of feeding bytes to a parser: more bytes are needed, or an item is ready.
#[derive(Debug)]
pub enum ParseResult<T> {
    NeedBytes(usize),
    Request(T),
}

/// What one feed of the request assembler yields, as plain values.
pub enum Assembled {
    NeedBytes(nat),
    Request(RequestHeader, Seq<u8>, Seq<u8>),
}

/// One step of the request assembler.  `pending` is the header whose body is
/// awaited, if any; the result is the next `pending` and what the step yields.
pub open spec fn server_step(pending: Option<RequestHeader>, max_buf_len: u16, bytes: Seq<u8>) -> Result<
    (Option<RequestHeader>, Assembled),
    Error,
> {
    match pending {
        None => {
            if bytes.len() < REQ_HEADER_LEN {
                Err(Error::BadHeader)
            } else {
                let h = req_header_of(bytes);
                if h.body_len >= max_buf_len || h.buf_len >= max_buf_len {
                    Err(Error::LenExceedsMax)
                } else if h.body_len + h.buf_len == 0 {
                    Ok((None, Assembled::Request(h, Seq::empty(), Seq::empty())))
                } else {
                    Ok((Some(h), Assembled::NeedBytes((h.body_len + h.buf_len) as nat)))
                }
            }
        },
        Some(h) => {
            let n = h.body_len + h.buf_len;
            if bytes.len() < n {
                Err(Error::ReceivedTooShort)
            } else {
                Ok(
                    (
                        None,
                        Assembled::Request(
                            h,
                            bytes.subrange(0, h.body_len as int),
                            bytes.subrange(h.body_len as int, n),
                        ),
                    ),
                )
            }
        },
    }
}

/// The number of bytes that the next feed must supply.
pub open spec fn server_need(pending: Option<RequestHeader>) -> nat {
    match pending {
        None => REQ_HEADER_LEN as nat,
        Some(h) => (h.body_len + h.buf_len) as nat,
    }
}

/// What a successful `RpcServer::parse` returned, as plain values.
pub open spec fn assembled_of(r: ParseResult<(RequestHeader, &[u8], &[u8])>) -> Assembled {
    match r {
        ParseResult::NeedBytes(n) => Assembled::NeedBytes(n as nat),
        ParseResult::Request((h, b, s)) => Assembled::Request(h, b@, s@),
    }
}

enum State {
    WaitHeader,
    WaitBody(RequestHeader),
}

/// Main component of the RPC server: it keeps the state of the parsed bytes and
/// hands out each request once its bytes are in.
pub struct RpcServer {
    max_buf_len: u16,
    state: State,
}

impl RpcServer {
    /// The header whose body the server awaits, if any.
    pub closed spec fn pending(&self) -> Option<RequestHeader> {
        match self.state {
            State::WaitHeader => None,
            State::WaitBody(h) => Some(h),
        }
    }

    /// The bound on the body and side-buffer lengths of a request.
    pub closed spec fn max_len(&self) -> u16 {
        self.max_buf_len
    }

    /// Create a server that accepts body and side-buffer lengths below `max_buf_len`.
    pub fn new(max_buf_len: u16) -> (r: Self)
        ensures
            r.pending() is None,
            r.max_len() == max_buf_len,
    {
        RpcServer { max_buf_len, state: State::WaitHeader }
    }

    /// Feed bytes to the server.  Waiting for a header, it reads the first seven
    /// bytes; waiting for a body, the first `body_len + buf_len`.  It returns how
    /// many bytes the next feed must supply, or a request with its body and side
    /// buffer lent from `rcv_buf`.  On an error the state is left as it was.
    pub fn parse<'a>(&mut self, rcv_buf: &'a [u8]) -> (r: Result<
        ParseResult<(RequestHeader, &'a [u8], &'a [u8])>,
        Error,
    >)
        ensures
            final(self).max_len() == old(self).max_len(),
            ({
                let step = server_step(old(self).pending(), old(self).max_len(), rcv_buf@);
                match r {
                    Ok(res) => step is Ok && step->Ok_0 == (final(self).pending(), assembled_of(res)),
                    Err(e) => step is Err && step->Err_0 == e && final(self).pending() == old(self).pending(),
                }
            }),
    {
        match self.state {
            State::WaitHeader => {
                let h = req_header_from_bytes(rcv_buf)?;
                if h.body_len >= self.max_buf_len || h.buf_len >= self.max_buf_len {
                    return Err(Error::LenExceedsMax);
                }
                let n = h.body_len() + h.buf_len();
                if n == 0 {
                    let empty: &[u8] = &[];
                    assert(empty@ =~= Seq::<u8>::empty());
                    Ok(ParseResult::Request((h, empty, empty)))
                } else {
                    self.state = State::WaitBody(h);
                    Ok(ParseResult::NeedBytes(n))
                }
            },
            State::WaitBody(h) => {
                let body_len = h.body_len();
                let n = body_len + h.buf_len();
                if rcv_buf.len() < n {
                    return Err(Error::ReceivedTooShort);
                }
                self.state = State::WaitHeader;
                let body = vstd::slice::slice_subrange(rcv_buf, 0, body_len);
                let side = vstd::slice::slice_subrange(rcv_buf, body_len, n);
                Ok(ParseResult::Request((h, body, side)))
            },
        }
    }
}

/// The header of a reply on channel `chan_id` with the given options and lengths.
pub open spec fn reply_header(chan_id: u8, opts: u8, body_len: nat, buf_len: nat) -> ReplyHeader {
    ReplyHeader { chan_id, opts, body_len: body_len as u16, buf_len: buf_len as u16 }
}

/// Write an error reply on channel `chan_id`: a header with the error bit set
/// and no body or side buffer.  This is how a server answers a request it
/// cannot serve, such as one of an unknown method.  `err` is reserved for future
/// use.  Returns the number of bytes written.
pub fn reply_err_for(chan_id: u8, err: u8, reply_buf: &mut [u8]) -> (r: Result<usize, Error>)
    ensures
        final(reply_buf)@.len() == old(reply_buf)@.len(),
        match r {
            Ok(n) => {
                &&& n == REP_HEADER_LEN
                &&& final(reply_buf)@ == rep_packet(
                    reply_header(chan_id, 1, 0, 0),
                    Seq::empty(),
                    Seq::empty(),
                ) + old(reply_buf)@.subrange(n as int, old(reply_buf)@.len() as int)
            },
            Err(e) => old(reply_buf)@.len() < REP_HEADER_LEN && e is OutBufTooShort,
        },
{
    if reply_buf.len() < REP_HEADER_LEN {
        return Err(Error::OutBufTooShort);
    }
    let header = ReplyHeader { chan_id, opts: 1, body_len: 0, buf_len: 0 };
    header.write_to(reply_buf);
    assert(rep_packet(header, Seq::empty(), Seq::empty()) =~= rep_header_bytes(header));
    Ok(REP_HEADER_LEN)
}

/// Handle of one received request of an RPC method: the decoded body and the
/// channel the reply must go to.  `QB` and `PB` say whether the request and the
/// reply carry a side buffer.  Replying consumes the handle.
#[derive(Debug)]
pub struct RequestType<Q: Body, QB: OptBuf, P: Body, PB: OptBuf> {
    chan_id: u8,
    pub body: Q,
    phantom: PhantomData<(QB, P, PB)>,
}

impl<Q: Body, QB: OptBuf, P: Body, PB: OptBuf> RequestType<Q, QB, P, PB> {
    /// The channel the request came on.
    pub closed spec fn chan(&self) -> u8 {
        self.chan_id
    }

    /// The decoded request body.
    pub closed spec fn value(&self) -> Q {
        self.body
    }

    /// Write an error reply: a header with the error bit set and no body or side
    /// buffer.  `err` is reserved for future use.  Returns the number of bytes written.
    pub fn reply_err(self, err: u8, reply_buf: &mut [u8]) -> (r: Result<usize, Error>)
        ensures
            final(reply_buf)@.len() == old(reply_buf)@.len(),
            match r {
                Ok(n) => {
                    &&& n == REP_HEADER_LEN
                    &&& final(reply_buf)@ == rep_packet(
                        reply_header(self.chan(), 1, 0, 0),
                        Seq::empty(),
                        Seq::empty(),
                    ) + old(reply_buf)@.subrange(n as int, old(reply_buf)@.len() as int)
                },
                Err(e) => old(reply_buf)@.len() < REP_HEADER_LEN && e is OutBufTooShort,
            },
    {
        reply_err_for(self.chan_id, err, reply_buf)
    }
}

impl<Q: Body, P: Body, PB: OptBuf> RequestType<Q, OptBufNo, P, PB> {
    /// Decode the body of a request of a method without a request side buffer.
    pub fn from_bytes(header: RequestHeader, body: &[u8], side: &[u8]) -> (r: Result<Self, Error>)
        ensures
            header.buf_len > 0 ==> r is Err && r->Err_0 is UnexpectedSideBuf,
            forall|v: Q|
                header.buf_len == 0 && #[trigger] v.encoding() == body@ ==> r is Ok && r->Ok_0.value()
                    == v,
            r is Ok ==> r->Ok_0.chan() == header.chan_id,
            r is Err ==> r->Err_0 is UnexpectedSideBuf || r->Err_0 is Codec,
    {
        if header.buf_len > 0 {
            return Err(Error::UnexpectedSideBuf);
        }
        let v = Q::decode(body)?;
        Ok(RequestType { chan_id: header.chan_id, body: v, phantom: PhantomData })
    }
}

impl<Q: Body, P: Body, PB: OptBuf> RequestType<Q, OptBufYes, P, PB> {
    /// Decode the body of a request of a method with a request side buffer; the
    /// side buffer is lent back as it is.
    pub fn from_bytes<'a>(header: RequestHeader, body: &'a [u8], side: &'a [u8]) -> (r: Result<
        (Self, &'a [u8]),
        Error,
    >)
        ensures
            forall|v: Q|
                #[trigger] v.encoding() == body@ ==> r is Ok && r->Ok_0.0.value() == v,
            r is Ok ==> r->Ok_0.0.chan() == header.chan_id && r->Ok_0.1@ == side@,
            r is Err ==> r->Err_0 is Codec,
    {
        let v = Q::decode(body)?;
        Ok((RequestType { chan_id: header.chan_id, body: v, phantom: PhantomData }, side))
    }
}

impl<Q: Body, QB: OptBuf, P: Body> RequestType<Q, QB, P, OptBufNo> {
    /// Write a reply packet carrying `payload` into `reply_buf`, and return the
    /// number of bytes written.
    pub fn reply(self, payload: P, reply_buf: &mut [u8]) -> (r: Result<usize, Error>)
        ensures
            final(reply_buf)@.len() == old(reply_buf)@.len(),
            ({
                let enc = payload.encoding();
                let len = old(reply_buf)@.len();
                match r {
                    Ok(n) => {
                        &&& enc.len() <= u16::MAX
                        &&& n == REP_HEADER_LEN + enc.len()
                        &&& final(reply_buf)@ == rep_packet(
                            reply_header(self.chan(), 0, enc.len(), 0),
                            enc,
                            Seq::empty(),
                        ) + old(reply_buf)@.subrange(n as int, len as int)
                    },
                    Err(e) => {
                        ||| len < REP_HEADER_LEN && e is OutBufTooShort
                        ||| REP_HEADER_LEN <= len < REP_HEADER_LEN + enc.len() && e is Codec
                        ||| REP_HEADER_LEN + enc.len() <= len && enc.len() > u16::MAX
                            && e is LenExceedsMax
                    },
                }
            }),
    {
        if reply_buf.len() < REP_HEADER_LEN {
            return Err(Error::OutBufTooShort);
        }
        let n = payload.encode_at(reply_buf, REP_HEADER_LEN)?;
        if n > u16::MAX as usize {
            return Err(Error::LenExceedsMax);
        }
        let header = ReplyHeader { chan_id: self.chan_id, opts: 0, body_len: n as u16, buf_len: 0 };
        let ghost mid = reply_buf@;
        header.write_to(reply_buf);
        proof {
            let len = mid.len() as int;
            assert(mid =~= mid.subrange(0, REP_HEADER_LEN as int) + payload.encoding()
                + mid.subrange(REP_HEADER_LEN + n, len));
            assert(reply_buf@ =~= rep_packet(header, payload.encoding(), Seq::empty())
                + mid.subrange(REP_HEADER_LEN + n, len));
        }
        Ok(REP_HEADER_LEN + n)
    }
}

impl<Q: Body, QB: OptBuf, P: Body> RequestType<Q, QB, P, OptBufYes> {
    /// Write the encoding of `payload` after the reply header and lend the rest of
    /// `reply_buf`, where the reply side buffer goes, to be filled in place.
    pub fn get_opt_buf<'a>(&self, payload: &P, reply_buf: &'a mut [u8]) -> (r: Result<
        &'a mut [u8],
        Error,
    >)
        ensures
            ({
                let enc = payload.encoding();
                let len = old(reply_buf)@.len();
                match r {
                    Ok(side) => {
                        &&& enc.len() <= u16::MAX
                        &&& REP_HEADER_LEN + enc.len() <= len
                        &&& side@ == old(reply_buf)@.subrange(REP_HEADER_LEN + enc.len(), len as int)
                        &&& final(reply_buf)@ == old(reply_buf)@.subrange(0, REP_HEADER_LEN as int) + enc
                            + final(side)@
                    },
                    Err(e) => {
                        &&& final(reply_buf)@.len() == len
                        &&& {
                            ||| len < REP_HEADER_LEN && e is OutBufTooShort
                        ||| REP_HEADER_LEN <= len < REP_HEADER_LEN + enc.len() && e is Codec
                            ||| REP_HEADER_LEN + enc.len() <= len && enc.len() > u16::MAX
                                && e is LenExceedsMax
                        }
                    },
                }
            }),
    {
        if reply_buf.len() < REP_HEADER_LEN {
            return Err(Error::OutBufTooShort);
        }
        let n = payload.encode_at(reply_buf, REP_HEADER_LEN)?;
        if n > u16::MAX as usize {
            return Err(Error::LenExceedsMax);
        }
        let (_, side) = reply_buf.split_at_mut(REP_HEADER_LEN + n);
        Ok(side)
    }

    /// Write a reply packet carrying `payload` and a side buffer of `opt_buf_len`
    /// bytes, which the caller has already put in the region that `get_opt_buf`
    /// lent.  Returns the number of bytes of the packet.
    pub fn reply(self, payload: P, opt_buf_len: u16, reply_buf: &mut [u8]) -> (r: Result<
        usize,
        Error,
    >)
        ensures
            final(reply_buf)@.len() == old(reply_buf)@.len(),
            ({
                let enc = payload.encoding();
                let len = old(reply_buf)@.len();
                match r {
                    Ok(n) => {
                        &&& enc.len() <= u16::MAX
                        &&& n == REP_HEADER_LEN + enc.len() + opt_buf_len
                        &&& n <= len
                        &&& final(reply_buf)@ == rep_header_bytes(
                            reply_header(self.chan(), 0, enc.len(), opt_buf_len as nat),
                        ) + enc + old(reply_buf)@.subrange(REP_HEADER_LEN + enc.len(), len as int)
                    },
                    Err(e) => {
                        ||| len < REP_HEADER_LEN && e is OutBufTooShort
                        ||| REP_HEADER_LEN <= len < REP_HEADER_LEN + enc.len() && e is Codec
                        ||| REP_HEADER_LEN + enc.len() <= len && enc.len() > u16::MAX
                            && e is LenExceedsMax
                        ||| REP_HEADER_LEN + enc.len() <= len && enc.len() <= u16::MAX
                            && REP_HEADER_LEN + enc.len() + opt_buf_len > len && e is OutBufTooShort
                    },
                }
            }),
    {
        if reply_buf.len() < REP_HEADER_LEN {
            return Err(Error::OutBufTooShort);
        }
        let n = payload.encode_at(reply_buf, REP_HEADER_LEN)?;
        if n > u16::MAX as usize {
            return Err(Error::LenExceedsMax);
        }
        if reply_buf.len() - REP_HEADER_LEN - n < opt_buf_len as usize {
            return Err(Error::OutBufTooShort);
        }
        let header = ReplyHeader {
            chan_id: self.chan_id,
            opts: 0,
            body_len: n as u16,
            buf_len: opt_buf_len,
        };
        let ghost mid = reply_buf@;
        header.write_to(reply_buf);
        proof {
            let len = mid.len() as int;
            assert(mid =~= mid.subrange(0, REP_HEADER_LEN as int) + payload.encoding()
                + mid.subrange(REP_HEADER_LEN + n, len));
            assert(reply_buf@ =~= rep_header_bytes(header) + payload.encoding()
                + mid.subrange(REP_HEADER_LEN + n, len));
        }
        Ok(REP_HEADER_LEN + n + opt_buf_len as usize)
    }
}

/// A request of any method of a method table: implemented by the table's
/// dispatch type, which picks the handle by `header.method_idx`.
pub trait Request<'a>: Sized {
    /// Build the request from its header, body and side buffer.
    fn from_bytes(header: RequestHeader, body: &'a [u8], side: &'a [u8]) -> Result<Self, Error>;

    /// Feed bytes to `rpc_server` and, once a request is in, build it.
    fn from_rpc(rpc_server: &mut RpcServer, rcv_buf: &'a [u8]) -> (r: Result<ParseResult<Self>, Error>)
        ensures
            final(rpc_server).max_len() == old(rpc_server).max_len(),
            ({
                let step = server_step(old(rpc_server).pending(), old(rpc_server).max_len(), rcv_buf@);
                match step {
                    Ok((p, Assembled::NeedBytes(n))) => {
                        &&& final(rpc_server).pending() == p
                        &&& r is Ok && r->Ok_0 is NeedBytes && r->Ok_0->NeedBytes_0 == n
                    },
                    Ok((p, Assembled::Request(_, _, _))) => {
                        &&& final(rpc_server).pending() == p
                        &&& !(r is Ok && r->Ok_0 is NeedBytes)
                    },
                    Err(e) => {
                        &&& final(rpc_server).pending() == old(rpc_server).pending()
                        &&& r is Err && r->Err_0 == e
                    },
                }
            }),
    {
        match rpc_server.parse(rcv_buf)? {
            ParseResult::NeedBytes(n) => Ok(ParseResult::NeedBytes(n)),
            ParseResult::Request((header, body, side)) => {
                let req = Self::from_bytes(header, body, side)?;
                Ok(ParseResult::Request(req))
            },
        }
    }
}

} // verus!

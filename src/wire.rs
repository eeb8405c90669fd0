//! Packet headers and their fixed little-endian layout.
use crate::consts::{REP_HEADER_LEN, REQ_HEADER_LEN};
use vstd::prelude::*;

verus! {

/// Options of a request/reply packet (reserved for future use).
#[derive(Clone, Copy, Debug, PartialEq, Eq)]
pub struct Opts {
    pub sync: bool,
    pub once: bool,
    pub cancel: bool,
}

/// Header of a request packet.
#[derive(Clone, Copy, Debug, PartialEq, Eq)]
pub struct RequestHeader {
    pub method_idx: u8,
    pub chan_id: u8,
    pub opts: u8,
    pub body_len: u16,
    pub buf_len: u16,
}

/// Header of a reply packet.
#[derive(Clone, Copy, Debug, PartialEq, Eq)]
pub struct ReplyHeader {
    pub chan_id: u8,
    pub opts: u8,
    pub body_len: u16,
    pub buf_len: u16,
}

/// The two bytes of `v`, least significant first.
pub open spec fn u16_le(v: u16) -> Seq<u8> {
    seq![(v % 256) as u8, (v / 256) as u8]
}

/// The integer held little-endian in `b[i]`, `b[i + 1]`.
pub open spec fn u16_at(b: Seq<u8>, i: int) -> u16 {
    (b[i] + 256 * b[i + 1]) as u16
}

/// The seven bytes of a request header on the wire.
pub open spec fn req_header_bytes(h: RequestHeader) -> Seq<u8> {
    seq![h.method_idx, h.chan_id, h.opts] + u16_le(h.body_len) + u16_le(h.buf_len)
}

/// The six bytes of a reply header on the wire.
pub open spec fn rep_header_bytes(h: ReplyHeader) -> Seq<u8> {
    seq![h.chan_id, h.opts] + u16_le(h.body_len) + u16_le(h.buf_len)
}

/// The request header held by the first seven bytes of `b`.
pub open spec fn req_header_of(b: Seq<u8>) -> RequestHeader {
    RequestHeader {
        method_idx: b[0],
        chan_id: b[1],
        opts: b[2],
        body_len: u16_at(b, 3),
        buf_len: u16_at(b, 5),
    }
}

/// The reply header held by the first six bytes of `b`.
pub open spec fn rep_header_of(b: Seq<u8>) -> ReplyHeader {
    ReplyHeader { chan_id: b[0], opts: b[1], body_len: u16_at(b, 2), buf_len: u16_at(b, 4) }
}

/// A whole request packet: header, then body, then side buffer.
pub open spec fn req_packet(h: RequestHeader, body: Seq<u8>, side: Seq<u8>) -> Seq<u8> {
    req_header_bytes(h) + body + side
}

/// A whole reply packet: header, then body, then side buffer.
pub open spec fn rep_packet(h: ReplyHeader, body: Seq<u8>, side: Seq<u8>) -> Seq<u8> {
    rep_header_bytes(h) + body + side
}

/// Reading back the two bytes of `v` gives `v`.
pub proof fn lemma_u16_le(v: u16)
    ensures
        u16_at(u16_le(v), 0) == v,
        u16_le(v).len() == 2,
{
}

/// Decoding the bytes of a request header, whatever follows them, gives it back.
pub proof fn lemma_req_header_round_trip(h: RequestHeader, rest: Seq<u8>)
    ensures
        req_header_of(req_header_bytes(h) + rest) == h,
        req_header_bytes(h).len() == REQ_HEADER_LEN,
{
    let b = req_header_bytes(h) + rest;
    lemma_u16_le(h.body_len);
    lemma_u16_le(h.buf_len);
    assert(u16_at(b, 3) == u16_at(u16_le(h.body_len), 0));
    assert(u16_at(b, 5) == u16_at(u16_le(h.buf_len), 0));
}

/// Decoding the bytes of a reply header, whatever follows them, gives it back.
pub proof fn lemma_rep_header_round_trip(h: ReplyHeader, rest: Seq<u8>)
    ensures
        rep_header_of(rep_header_bytes(h) + rest) == h,
        rep_header_bytes(h).len() == REP_HEADER_LEN,
{
    let b = rep_header_bytes(h) + rest;
    lemma_u16_le(h.body_len);
    lemma_u16_le(h.buf_len);
    assert(u16_at(b, 2) == u16_at(u16_le(h.body_len), 0));
    assert(u16_at(b, 4) == u16_at(u16_le(h.buf_len), 0));
}

fn read_u16(buf: &[u8], i: usize) -> (r: u16)
    requires
        i + 1 < buf@.len(),
    ensures
        r == u16_at(buf@, i as int),
{
    let lo = buf[i] as u16;
    let hi = buf[i + 1] as u16;
    lo + 256 * hi
}

fn write_u16(out: &mut [u8], i: usize, v: u16)
    requires
        i + 1 < old(out)@.len(),
    ensures
        final(out)@ == old(out)@.update(i as int, u16_le(v)[0]).update(i + 1, u16_le(v)[1]),
{
    out[i] = (v % 256) as u8;
    out[i + 1] = (v / 256) as u8;
}

impl RequestHeader {
    /// The body length as a `usize`.
    pub fn body_len(&self) -> (r: usize)
        ensures
            r == self.body_len,
    {
        self.body_len as usize
    }

    /// The side-buffer length as a `usize`.
    pub fn buf_len(&self) -> (r: usize)
        ensures
            r == self.buf_len,
    {
        self.buf_len as usize
    }

    /// Write the header into the first seven bytes of `out`.
    pub fn write_to(&self, out: &mut [u8])
        requires
            old(out)@.len() >= REQ_HEADER_LEN,
        ensures
            final(out)@ == req_header_bytes(*self) + old(out)@.subrange(
                REQ_HEADER_LEN as int,
                old(out)@.len() as int,
            ),
    {
        out[0] = self.method_idx;
        out[1] = self.chan_id;
        out[2] = self.opts;
        write_u16(out, 3, self.body_len);
        write_u16(out, 5, self.buf_len);
        assert(final(out)@ =~= req_header_bytes(*self) + old(out)@.subrange(
            REQ_HEADER_LEN as int,
            old(out)@.len() as int,
        ));
    }
}

impl ReplyHeader {
    /// The body length as a `usize`.
    pub fn body_len(&self) -> (r: usize)
        ensures
            r == self.body_len,
    {
        self.body_len as usize
    }

    /// The side-buffer length as a `usize`.
    pub fn buf_len(&self) -> (r: usize)
        ensures
            r == self.buf_len,
    {
        self.buf_len as usize
    }

    /// Whether the error bit of `opts` is set.
    pub fn is_err(&self) -> (r: bool)
        ensures
            r == (self.opts % 2 == 1),
    {
        self.opts % 2 == 1
    }

    /// Write the header into the first six bytes of `out`.
    pub fn write_to(&self, out: &mut [u8])
        requires
            old(out)@.len() >= REP_HEADER_LEN,
        ensures
            final(out)@ == rep_header_bytes(*self) + old(out)@.subrange(
                REP_HEADER_LEN as int,
                old(out)@.len() as int,
            ),
    {
        out[0] = self.chan_id;
        out[1] = self.opts;
        write_u16(out, 2, self.body_len);
        write_u16(out, 4, self.buf_len);
        assert(final(out)@ =~= rep_header_bytes(*self) + old(out)@.subrange(
            REP_HEADER_LEN as int,
            old(out)@.len() as int,
        ));
    }
}

/// Decode a request header from the first seven bytes of `buf`.
pub fn req_header_from_bytes(buf: &[u8]) -> (r: Result<RequestHeader, crate::error::Error>)
    ensures
        match r {
            Ok(h) => buf@.len() >= REQ_HEADER_LEN && h == req_header_of(buf@),
            Err(e) => buf@.len() < REQ_HEADER_LEN && e == crate::error::Error::BadHeader,
        },
{
    if buf.len() < REQ_HEADER_LEN {
        return Err(crate::error::Error::BadHeader);
    }
    Ok(
        RequestHeader {
            method_idx: buf[0],
            chan_id: buf[1],
            opts: buf[2],
            body_len: read_u16(buf, 3),
            buf_len: read_u16(buf, 5),
        },
    )
}

/// Decode a reply header from the first six bytes of `buf`.
pub fn rep_header_from_bytes(buf: &[u8]) -> (r: Result<ReplyHeader, crate::error::Error>)
    ensures
        match r {
            Ok(h) => buf@.len() >= REP_HEADER_LEN && h == rep_header_of(buf@),
            Err(e) => buf@.len() < REP_HEADER_LEN && e == crate::error::Error::BadHeader,
        },
{
    if buf.len() < REP_HEADER_LEN {
        return Err(crate::error::Error::BadHeader);
    }
    Ok(
        ReplyHeader {
            chan_id: buf[0],
            opts: buf[1],
            body_len: read_u16(buf, 2),
            buf_len: read_u16(buf, 4),
        },
    )
}

} // verus!

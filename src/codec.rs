//! The body codec: values that a request or a reply can carry, and their bytes.
use crate::error::Error;
use postcard::Error as CodecError;
use vstd::prelude::*;

verus! {

/// A value that travels as the body of a packet.
///
/// `encoding` is the byte string that stands for the value; it depends on the
/// value alone, never on the buffer it is written into.
pub trait Body: Sized {
    spec fn encoding(&self) -> Seq<u8>;

    /// Write the encoding of `self` into `out` from index `at` on, and return its
    /// length; fail when it does not fit.
    fn encode_at(&self, out: &mut [u8], at: usize) -> (r: Result<usize, Error>)
        requires
            at <= old(out)@.len(),
        ensures
            final(out)@.len() == old(out)@.len(),
            final(out)@.subrange(0, at as int) == old(out)@.subrange(0, at as int),
            match r {
                Ok(n) => {
                    &&& n == self.encoding().len()
                    &&& at + n <= old(out)@.len()
                    &&& final(out)@.subrange(at as int, at + n) == self.encoding()
                    &&& final(out)@.subrange(at + n, old(out)@.len() as int) == old(out)@.subrange(
                        at + n,
                        old(out)@.len() as int,
                    )
                },
                Err(e) => at + self.encoding().len() > old(out)@.len() && e is Codec,
            },
    ;

    /// Read a value from its encoding.
    fn decode(bytes: &[u8]) -> (r: Result<Self, Error>)
        ensures
            forall|v: Self| #[trigger] v.encoding() == bytes@ ==> r is Ok && r->Ok_0 == v,
            r is Err ==> r->Err_0 is Codec,
    ;
}

/// The variable-length encoding of an unsigned integer: seven bits per byte,
/// least significant first, the top bit set on every byte but the last.
pub open spec fn varint(v: nat) -> Seq<u8>
    decreases v,
{
    if v < 128 {
        seq![v as u8]
    } else {
        seq![(v % 128 + 128) as u8] + varint(v / 128)
    }
}

/// The bytes that the codec writes for a `u32`.
pub open spec fn postcard_u32(v: u32) -> Seq<u8> {
    varint(v as nat)
}

/// Relies on `postcard::to_slice` (through postcard's `varint_u32`): on success
/// it has written the variable-length encoding of `v`
/// at the start of `out[at..]`, nothing else, and returns how many bytes that
/// took; it fails, with only `out[at..]` touched, when the encoding does not fit.
#[verifier::external_body]
fn u32_to_slice(v: u32, out: &mut [u8], at: usize) -> (r: Result<usize, CodecError>)
    requires
        at <= old(out)@.len(),
    ensures
        final(out)@.len() == old(out)@.len(),
        final(out)@.subrange(0, at as int) == old(out)@.subrange(0, at as int),
        match r {
            Ok(n) => {
                &&& n == postcard_u32(v).len()
                &&& at + n <= old(out)@.len()
                &&& final(out)@.subrange(at as int, at + n) == postcard_u32(v)
                &&& final(out)@.subrange(at + n, old(out)@.len() as int) == old(out)@.subrange(
                    at + n,
                    old(out)@.len() as int,
                )
            },
            Err(_) => at + postcard_u32(v).len() > old(out)@.len(),
        },
{
    match postcard::to_slice(&v, &mut out[at..]) {
        Ok(written) => Ok(written.len()),
        Err(e) => Err(e),
    }
}

/// Relies on `postcard::from_bytes`: the bytes that `postcard::to_slice` wrote
/// for a `u32` read back as that `u32`.
#[verifier::external_body]
fn u32_from_bytes(b: &[u8]) -> (r: Result<u32, CodecError>)
    ensures
        forall|v: u32| #[trigger] postcard_u32(v) == b@ ==> r is Ok && r->Ok_0 == v,
{
    postcard::from_bytes::<u32>(b)
}

/// Relies on `postcard::to_slice`: a `[u8; 4]` is written as its four bytes, in
/// order, at the start of `out[at..]`; it fails when fewer than four bytes are left.
#[verifier::external_body]
fn bytes4_to_slice(v: &[u8; 4], out: &mut [u8], at: usize) -> (r: Result<usize, CodecError>)
    requires
        at <= old(out)@.len(),
    ensures
        final(out)@.len() == old(out)@.len(),
        final(out)@.subrange(0, at as int) == old(out)@.subrange(0, at as int),
        match r {
            Ok(n) => {
                &&& n == 4
                &&& at + 4 <= old(out)@.len()
                &&& final(out)@.subrange(at as int, at + 4) == v@
                &&& final(out)@.subrange(at + 4, old(out)@.len() as int) == old(out)@.subrange(
                    at + 4,
                    old(out)@.len() as int,
                )
            },
            Err(_) => at + 4 > old(out)@.len(),
        },
{
    match postcard::to_slice(v, &mut out[at..]) {
        Ok(written) => Ok(written.len()),
        Err(e) => Err(e),
    }
}

/// Relies on `postcard::from_bytes`: a `[u8; 4]` is read from the first four
/// bytes; fewer than four bytes is an error.
#[verifier::external_body]
fn bytes4_from_bytes(b: &[u8]) -> (r: Result<[u8; 4], CodecError>)
    ensures
        match r {
            Ok(a) => b@.len() >= 4 && a@ == b@.subrange(0, 4),
            Err(_) => b@.len() < 4,
        },
{
    postcard::from_bytes::<[u8; 4]>(b)
}

/// Relies on `postcard::to_slice`: the unit value is written as no bytes at all.
#[verifier::external_body]
fn unit_to_slice(out: &mut [u8], at: usize) -> (r: Result<usize, CodecError>)
    requires
        at <= old(out)@.len(),
    ensures
        final(out)@ == old(out)@,
        r is Ok && r->Ok_0 == 0,
{
    match postcard::to_slice(&(), &mut out[at..]) {
        Ok(written) => Ok(written.len()),
        Err(e) => Err(e),
    }
}

/// Relies on `postcard::from_bytes`: the unit value reads from any bytes.
#[verifier::external_body]
fn unit_from_bytes(b: &[u8]) -> (r: Result<(), CodecError>)
    ensures
        r is Ok,
{
    postcard::from_bytes::<()>(b)
}

impl Body for u32 {
    open spec fn encoding(&self) -> Seq<u8> {
        postcard_u32(*self)
    }

    fn encode_at(&self, out: &mut [u8], at: usize) -> (r: Result<usize, Error>) {
        match u32_to_slice(*self, out, at) {
            Ok(n) => Ok(n),
            Err(e) => Err(Error::Codec(e)),
        }
    }

    fn decode(bytes: &[u8]) -> (r: Result<u32, Error>) {
        match u32_from_bytes(bytes) {
            Ok(v) => Ok(v),
            Err(e) => Err(Error::Codec(e)),
        }
    }
}

impl Body for [u8; 4] {
    open spec fn encoding(&self) -> Seq<u8> {
        self@
    }

    fn encode_at(&self, out: &mut [u8], at: usize) -> (r: Result<usize, Error>) {
        match bytes4_to_slice(self, out, at) {
            Ok(n) => Ok(n),
            Err(e) => Err(Error::Codec(e)),
        }
    }

    fn decode(bytes: &[u8]) -> (r: Result<[u8; 4], Error>) {
        match bytes4_from_bytes(bytes) {
            Ok(a) => {
                assert forall|v: [u8; 4]| #[trigger] v.encoding() == bytes@ implies a == v by {
                    assert(a@ =~= v@);
                    assert(a =~= v);
                }
                Ok(a)
            },
            Err(e) => Err(Error::Codec(e)),
        }
    }
}

impl Body for () {
    open spec fn encoding(&self) -> Seq<u8> {
        Seq::empty()
    }

    fn encode_at(&self, out: &mut [u8], at: usize) -> (r: Result<usize, Error>) {
        let r = unit_to_slice(out, at);
        assert(out@.subrange(at as int, at as int) =~= Seq::<u8>::empty());
        match r {
            Ok(n) => Ok(n),
            Err(e) => Err(Error::Codec(e)),
        }
    }

    fn decode(bytes: &[u8]) -> (r: Result<(), Error>) {
        match unit_from_bytes(bytes) {
            Ok(v) => Ok(v),
            Err(e) => Err(Error::Codec(e)),
        }
    }
}

} // verus!

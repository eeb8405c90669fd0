//! Errors reported by the codec, the parsers and the emitters.
use postcard::Error as CodecError;
use vstd::prelude::*;

verus! {

/// The error type of the body codec.
#[verifier::external_type_specification]
#[verifier::external_body]
pub struct ExCodecError(CodecError);

/// Everything that can go wrong while framing or parsing packets.
#[derive(Debug)]
pub enum Error {
    /// The body codec failed to encode or decode a value.
    Codec(CodecError),
    /// Fewer bytes than a header needs.
    BadHeader,
    /// A length in a header, or of a buffer to send, is over the limit.
    LenExceedsMax,
    /// A request names a method that the table does not hold.
    UnknownMethod,
    /// A side buffer arrived for a method that declares none.
    UnexpectedSideBuf,
    /// A reply arrived for a channel with no outstanding request.
    SlotEmpty,
    /// A reply arrived for a channel whose reply is being received.
    SlotReceiving,
    /// A reply arrived for a channel whose reply awaits pickup.
    SlotComplete,
    /// The reply body is longer than the destination lent for it.
    BodyTooLong,
    /// The reply side buffer is longer than the destination lent for it.
    SideBufTooLong,
    /// Every channel has a request outstanding.
    NoFreeChannel,
    /// A feed supplied fewer bytes than the parser asked for.
    ReceivedTooShort,
    /// The output buffer cannot hold the packet.
    OutBufTooShort,
    /// The server answered with an error reply.
    ErrReply,
}

} // verus!

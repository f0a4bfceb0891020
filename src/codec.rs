use vstd::prelude::*;

use crate::parser::{ParseFailure, message_at, message_result, parse_message};
use crate::protocol::{MessageView, SipMessage};
use crate::writer::{render, write_sip_message};

verus! {

/// Why a datagram could not be decoded.
#[derive(Debug, Clone, Copy, PartialEq, Eq, Structural)]
pub enum DecodeError {
    /// The bytes match no message shape; the datagram is to be dropped.
    BadMessage,
    /// The bytes are the beginning of a message that the datagram cut short.
    IncompleteMessage,
}

/// Translates between datagrams and messages. It holds no state.
pub struct UdpSip;

/// What decoding the bytes `b` gives, with the message read through its view.
pub open spec fn decoded(b: Seq<u8>) -> Result<MessageView, DecodeError> {
    match message_at(b) {
        Ok(m) => Ok(m),
        Err(ParseFailure::Malformed) => Err(DecodeError::BadMessage),
        Err(ParseFailure::Incomplete) => Err(DecodeError::IncompleteMessage),
    }
}

impl UdpSip {
    /// Reads the datagram `buf` that came from `src`, and pairs the message with `src`.
    pub fn decode<A>(&mut self, src: A, buf: &[u8]) -> (r: Result<(A, SipMessage<String>), DecodeError>)
        ensures
            match r {
                Ok((a, m)) => a == src && decoded(buf@) == Ok::<MessageView, DecodeError>(m@),
                Err(e) => decoded(buf@) == Err::<MessageView, DecodeError>(e),
            },
    {
        let r = parse_message(buf);
        assert(message_result(r) == message_at(buf@));
        match r {
            Ok(m) => Ok((src, m)),
            Err(ParseFailure::Malformed) => Err(DecodeError::BadMessage),
            Err(ParseFailure::Incomplete) => Err(DecodeError::IncompleteMessage),
        }
    }

    /// Appends the wire form of `msg` to `into`, and gives back the address to send it to.
    pub fn encode<A>(&mut self, addr: A, msg: SipMessage<String>, into: &mut Vec<u8>) -> (r: A)
        ensures
            r == addr,
            final(into)@ == old(into)@ + render(msg@),
    {
        let mut bytes = write_sip_message(&msg);
        into.append(&mut bytes);
        addr
    }
}

} // verus!

//! The byte side of one pump direction.  A transport buffers the raw
//! bytes read from one peer and yields the messages framed in them;
//! the loop that moves bytes between the transport and the streams
//! lives outside the library and hands in plain byte chunks.

use vstd::prelude::*;

verus! {

use crate::codec::{spec_decode, decode, Decoded, DecodeSpec};
use crate::bytes_util::copy_range;
use crate::message::Message;
use crate::errors::ProxyError;

/// What the buffered bytes yield next.
#[derive(Debug)]
pub enum PumpRead {
    /// One whole message, consumed from the front of the buffer.
    Msg(Message),
    /// The buffer does not yet hold a whole message.
    NeedMore,
    /// The bytes are unusable: a framing or serialization failure.
    Failed(ProxyError),
}

/// How a direction ends when its input is exhausted.
#[derive(Debug, PartialEq, Eq, Clone, Copy, Structural)]
pub enum EndState {
    /// All bytes were consumed: a clean end of input.
    Clean,
    /// Bytes of an unfinished message remain: a framing failure.
    Truncated,
}

/// One direction's byte buffer.
#[derive(Debug)]
pub struct LspTransport {
    buffer: Vec<u8>,
}

impl LspTransport {
    /// The model of the undecoded bytes.
    pub closed spec fn bytes(&self) -> Seq<u8> {
        self.buffer@
    }

    /// A fresh transport with nothing buffered.
    pub fn new() -> (r: Self)
        ensures
            r.bytes().len() == 0,
    {
        LspTransport { buffer: Vec::new() }
    }

    /// Appends a chunk read from the peer.
    pub fn feed(&mut self, chunk: &Vec<u8>)
        ensures
            final(self).bytes() == old(self).bytes() + chunk@,
    {
        let mut i: usize = 0;
        while i < chunk.len()
            invariant
                i <= chunk@.len(),
                self.buffer@ == old(self).buffer@ + chunk@.take(i as int),
            decreases chunk@.len() - i,
        {
            self.buffer.push(chunk[i]);
            assert(self.buffer@ =~= old(self).buffer@ + chunk@.take(i + 1));
            i += 1;
        }
        assert(chunk@.take(chunk@.len() as int) =~= chunk@);
    }

    /// The next message framed in the buffer, if a whole one is there.
    /// A yielded message's bytes leave the buffer; on anything else
    /// the buffer is unchanged.
    pub fn next_message(&mut self) -> (r: PumpRead)
        ensures
            (match r {
                PumpRead::Msg(m) => spec_decode(old(self).bytes()) matches DecodeSpec::Done(
                    md,
                    used,
                ) && md == m@ && final(self).bytes() == old(self).bytes().skip(used),
                PumpRead::NeedMore => spec_decode(old(self).bytes()) is Incomplete
                    && final(self).bytes() == old(self).bytes(),
                PumpRead::Failed(e) => final(self).bytes() == old(self).bytes() && ((e
                    == ProxyError::FramingError && spec_decode(old(self).bytes()) is BadHeader)
                    || (e == ProxyError::SerializationError
                    && spec_decode(old(self).bytes()) is BadBody)),
            }),
    {
        match decode(&self.buffer) {
            Decoded::Msg(m, used) => {
                let rest = copy_range(&self.buffer, used, self.buffer.len());
                self.buffer = rest;
                proof {
                    assert(self.buffer@ =~= old(self).buffer@.skip(
                        spec_decode(old(self).buffer@)->Done_1,
                    ));
                }
                PumpRead::Msg(m)
            },
            Decoded::NeedMore => PumpRead::NeedMore,
            Decoded::BadHeader => PumpRead::Failed(ProxyError::FramingError),
            Decoded::BadBody => PumpRead::Failed(ProxyError::SerializationError),
        }
    }

    /// How this direction ends once its input is exhausted: clean when
    /// nothing is buffered, a framing failure when a message was cut
    /// short.
    pub fn at_end(&self) -> (r: EndState)
        ensures
            r == (if self.bytes().len() == 0 {
                EndState::Clean
            } else {
                EndState::Truncated
            }),
    {
        if self.buffer.len() == 0 {
            EndState::Clean
        } else {
            EndState::Truncated
        }
    }
}

} // verus!

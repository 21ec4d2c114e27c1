//! Framing on the request/response transport: every request and every
//! response is its length as four big-endian bytes, then the body.

use vstd::prelude::*;
use crate::bytes::{copy_range, get_be, lemma_be_of_value, put_bytes, u32_be, u32_to_be};

verus! {

/// The frame around `body`.
pub open spec fn frame(body: Seq<u8>) -> Seq<u8> {
    u32_be(body.len() as u32) + body
}

/// What reading a frame off the front of received bytes gives.
pub enum FrameRead {
    /// There is a whole frame; its body, and the number of bytes it takes.
    Complete(Vec<u8>, usize),
    /// More bytes have to come first.
    Incomplete,
}

/// The codec of the messaging protocol.
#[derive(Clone, Debug, Default)]
pub struct PigeonCodec;

impl PigeonCodec {
    /// The frame around `body`, or nothing where the body is too long for its
    /// length to be written in four bytes.
    pub fn write_frame(&self, body: &[u8]) -> (r: Option<Vec<u8>>)
        ensures
            match r {
                Some(bytes) => body@.len() <= u32::MAX && bytes@ == frame(body@),
                None => body@.len() > u32::MAX,
            },
    {
        if body.len() > 0xffff_ffff {
            return None;
        }
        let mut out = u32_to_be(body.len() as u32);
        put_bytes(&mut out, body);
        Some(out)
    }

    /// Reads the frame that `bytes` starts with, if it is all there: bytes
    /// start with a whole frame exactly when they are the frame of some body
    /// followed by anything.
    pub fn read_frame(&self, bytes: &[u8]) -> (r: FrameRead)
        ensures
            match r {
                FrameRead::Complete(body, used) => used == body@.len() + 4 && used <= bytes@.len()
                    && body@.len() <= u32::MAX && bytes@ == frame(body@) + bytes@.skip(
                    used as int,
                ),
                FrameRead::Incomplete => forall|body: Seq<u8>, rest: Seq<u8>|
                    body.len() <= u32::MAX ==> bytes@ != #[trigger] (frame(body) + rest),
            },
    {
        if bytes.len() < 4 {
            proof {
                assert forall|body: Seq<u8>, rest: Seq<u8>| body.len() <= u32::MAX implies bytes@
                    != #[trigger] (frame(body) + rest) by {
                    crate::bytes::lemma_pow256_values();
                    crate::bytes::lemma_be_roundtrip(body.len(), 4);
                    assert((frame(body) + rest).len() >= 4);
                }
            }
            return FrameRead::Incomplete;
        }
        let len64 = get_be(bytes, 0, 4);
        proof {
            let head = bytes@.subrange(0, 4);
            lemma_be_of_value(head);
            crate::bytes::lemma_pow256_values();
        }
        let len: u32 = len64 as u32;
        let available: u64 = (bytes.len() - 4) as u64;
        if available < len64 {
            proof {
                assert forall|body: Seq<u8>, rest: Seq<u8>| body.len() <= u32::MAX implies bytes@
                    != #[trigger] (frame(body) + rest) by {
                    if bytes@ == frame(body) + rest {
                        crate::bytes::lemma_be_roundtrip(body.len(), 4);
                        let whole = frame(body) + rest;
                        assert(whole.subrange(0, 4) =~= u32_be(body.len() as u32));
                        assert(whole.len() >= 4 + body.len());
                    }
                }
            }
            return FrameRead::Incomplete;
        }
        let used: usize = 4 + len as usize;
        let body = copy_range(bytes, 4, used);
        proof {
            assert(bytes@ =~= frame(body@) + bytes@.skip(used as int));
        }
        FrameRead::Complete(body, used)
    }
}

/// The name of the messaging protocol on the transport.
pub fn protocol_name() -> (name: &'static str)
    ensures
        name@ == "/pigeon/1"@,
{
    "/pigeon/1"
}

} // verus!

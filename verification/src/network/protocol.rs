//! The earlier request/response pair of the file exchange: a request carries
//! an identifier and data, a response says whether they were received. Both
//! travel in the same frames as everything else.

use vstd::prelude::*;
use crate::bytes::to_array;
use crate::codec::{
    lemma_cancel_len_prefixed, len_prefixed, put_len_prefixed, take_len_prefixed, take_u8,
};
use super::rr::{frame, PigeonCodec};

verus! {

/// A request: data under an identifier.
#[derive(Debug)]
pub struct MessageRequest {
    pub message_id: [u8; 16],
    pub data: Vec<u8>,
}

/// A response: whether the request was received.
#[derive(Debug, Clone, Copy, PartialEq, Eq, Structural)]
pub struct MessageResponse {
    pub received: bool,
}

/// The codec of the file exchange.
#[derive(Debug, Clone)]
pub struct FileExchangeCodec;

/// The body of a request: identifier and data, each behind its length.
pub open spec fn request_body(message_id: Seq<u8>, data: Seq<u8>) -> Seq<u8> {
    len_prefixed(message_id) + len_prefixed(data)
}

/// `bytes` starts with the body of the request with this identifier and data.
pub open spec fn starts_with_request(bytes: Seq<u8>, message_id: Seq<u8>, data: Seq<u8>) -> bool {
    exists|rest: Seq<u8>| bytes == #[trigger] (request_body(message_id, data) + rest)
}

/// The body of a response: one byte, 1 for received and 0 for not.
pub open spec fn response_body(received: bool) -> Seq<u8> {
    if received {
        seq![1u8]
    } else {
        seq![0u8]
    }
}

impl FileExchangeCodec {
    /// The frame of a request, or nothing where it is too long for a frame.
    pub fn write_request(&self, request: &MessageRequest) -> (r: Option<Vec<u8>>)
        ensures
            match r {
                Some(bytes) => bytes@ == frame(request_body(request.message_id@, request.data@)),
                None => request_body(request.message_id@, request.data@).len() > u32::MAX,
            },
    {
        let mut body: Vec<u8> = Vec::new();
        put_len_prefixed(&mut body, request.message_id.as_slice());
        put_len_prefixed(&mut body, request.data.as_slice());
        proof {
            assert(body@ =~= request_body(request.message_id@, request.data@));
        }
        PigeonCodec.write_frame(body.as_slice())
    }

    /// The request in the body of a frame: an identifier of 16 bytes and
    /// data, each behind its length. Bytes behind them are ignored.
    pub fn read_request(&self, body: &[u8]) -> (r: Option<MessageRequest>)
        ensures
            match r {
                Some(request) => starts_with_request(body@, request.message_id@, request.data@),
                None => forall|id: Seq<u8>, data: Seq<u8>|
                    id.len() == 16 && data.len() <= u64::MAX ==> !#[trigger] starts_with_request(
                        body@,
                        id,
                        data,
                    ),
            },
    {
        let ghost all = body@;
        proof {
            assert(all =~= all.skip(0));
        }
        let r1 = take_len_prefixed(body, 0);
        let r2 = match &r1 {
            Some((_, p)) => take_len_prefixed(body, *p),
            None => None,
        };
        proof {
            assert forall|id: Seq<u8>, data: Seq<u8>|
                id.len() == 16 && data.len() <= u64::MAX && #[trigger] starts_with_request(
                    all,
                    id,
                    data,
                ) implies r2 is Some && (r1->0).0@ == id && (r2->0).0@ == data by {
                let rest = choose|rest: Seq<u8>| all == #[trigger] (request_body(id, data) + rest);
                let tail = len_prefixed(data) + rest;
                assert(request_body(id, data) + rest =~= len_prefixed(id) + tail);
                assert(r1 is Some);
                lemma_cancel_len_prefixed(id, tail, (r1->0).0@, all.skip((r1->0).1 as int));
                assert(r2 is Some);
                lemma_cancel_len_prefixed(data, rest, (r2->0).0@, all.skip((r2->0).1 as int));
            }
        }
        match (r1, r2) {
            (Some((id, _)), Some((data, end))) => {
                if id.len() != 16 {
                    return None;
                }
                let request = MessageRequest { message_id: to_array::<16>(id.as_slice()), data };
                proof {
                    assert(all =~= request_body(request.message_id@, request.data@) + all.skip(
                        end as int,
                    ));
                }
                Some(request)
            },
            _ => None,
        }
    }

    /// The frame of a response.
    pub fn write_response(&self, response: &MessageResponse) -> (bytes: Vec<u8>)
        ensures
            bytes@ == frame(response_body(response.received)),
    {
        let mut body: Vec<u8> = Vec::new();
        body.push(if response.received {
            1
        } else {
            0
        });
        proof {
            assert(body@ =~= response_body(response.received));
        }
        match PigeonCodec.write_frame(body.as_slice()) {
            Some(bytes) => bytes,
            None => Vec::new(),
        }
    }

    /// The response in the body of a frame: its first byte has to be 0 or 1.
    pub fn read_response(&self, body: &[u8]) -> (r: Option<MessageResponse>)
        ensures
            match r {
                Some(response) => body@.len() > 0 && body@[0] == response_body(
                    response.received,
                )[0],
                None => body@.len() == 0 || body@[0] > 1,
            },
    {
        match take_u8(body, 0) {
            Some((first, _)) => {
                proof {
                    assert(body@ =~= body@.skip(0));
                    assert(body@[0] == (seq![first] + body@.skip(1))[0]);
                }
                if first == 0 {
                    Some(MessageResponse { received: false })
                } else if first == 1 {
                    Some(MessageResponse { received: true })
                } else {
                    None
                }
            },
            None => None,
        }
    }
}

} // verus!

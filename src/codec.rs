//! Turning frames into messages and back, through postcard.
//!
//! On the wire a message is its correlation id (a zig-zag varint) followed by
//! the variant index of its body (a varint), COBS-stuffed and terminated by a
//! zero byte. The pair `(i32, u32)` has exactly that layout, so postcard is
//! asked to read and write such pairs, and the library maps them to messages.
use vstd::prelude::*;
use crate::protocol::{Request, Response, request_body_at, response_body_index, RequestBody};

verus! {

/// What `postcard::from_bytes_cobs::<(i32, u32)>` reads from a frame.
pub uninterp spec fn decoded_pair(frame: Seq<u8>) -> Option<(i32, u32)>;

/// What `postcard::to_allocvec_cobs` writes for the pair `(id, index)`.
pub uninterp spec fn encoded_pair(id: i32, index: u32) -> Option<Seq<u8>>;

/// Relies on postcard::from_bytes_cobs: it unstuffs a copy of the frame up to
/// its first zero byte and reads an `i32` and a `u32`; the result depends on
/// the bytes alone.
#[verifier::external_body]
fn decode_pair(frame: &Vec<u8>) -> (r: Option<(i32, u32)>)
    ensures
        r == decoded_pair(frame@),
{
    let mut copy = frame.clone();
    postcard::from_bytes_cobs::<(i32, u32)>(&mut copy).ok()
}

/// Relies on postcard::to_allocvec_cobs: it serializes the pair, stuffs it and
/// appends the zero terminator; the result depends on the pair alone.
#[verifier::external_body]
fn encode_pair(id: i32, index: u32) -> (r: Option<Vec<u8>>)
    ensures
        match r {
            Some(v) => encoded_pair(id, index) == Some(v@),
            None => encoded_pair(id, index) is None,
        },
{
    postcard::to_allocvec_cobs(&(id, index)).ok()
}

/// The request that a decoded pair stands for.
pub open spec fn request_of_pair(pair: Option<(i32, u32)>) -> Option<Request> {
    match pair {
        Some((id, index)) => match request_body_at(index) {
            Some(body) => Some(Request { correlation_id: id, body }),
            None => None,
        },
        None => None,
    }
}

/// The request carried by a frame (without its terminator), if it holds one.
pub open spec fn request_of_frame(frame: Seq<u8>) -> Option<Request> {
    request_of_pair(decoded_pair(frame))
}

/// The bytes that carry a response on the wire, terminator included.
pub open spec fn response_frame(response: Response) -> Option<Seq<u8>> {
    encoded_pair(response.correlation_id, response_body_index(response.body))
}

/// The request that a decoded pair stands for: the body must be a known
/// variant.
pub fn request_from_pair(pair: Option<(i32, u32)>) -> (r: Option<Request>)
    ensures
        r == request_of_pair(pair),
{
    match pair {
        Some((id, index)) => match RequestBody::from_index(index) {
            Some(body) => Some(Request { correlation_id: id, body }),
            None => None,
        },
        None => None,
    }
}

/// Reads the request carried by a frame (without its terminator).
pub fn decode_request(frame: &Vec<u8>) -> (r: Option<Request>)
    ensures
        r == request_of_frame(frame@),
{
    request_from_pair(decode_pair(frame))
}

/// Writes the bytes that carry a response, terminator included.
pub fn encode_response(response: &Response) -> (r: Option<Vec<u8>>)
    ensures
        match r {
            Some(v) => response_frame(*response) == Some(v@),
            None => response_frame(*response) is None,
        },
{
    encode_pair(response.correlation_id, response.body.index())
}

} // verus!

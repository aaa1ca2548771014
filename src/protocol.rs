//! The messages exchanged with the host, and the handler that answers them.
use vstd::prelude::*;

verus! {

/// What a request asks for.
#[derive(Debug, Clone, Copy, PartialEq, Eq, Structural)]
pub enum RequestBody {
    Ping,
}

/// A request from the host; the correlation id is echoed in the response.
#[derive(Debug, Clone, Copy, PartialEq, Eq, Structural)]
pub struct Request {
    pub correlation_id: i32,
    pub body: RequestBody,
}

/// What a response answers.
#[derive(Debug, Clone, Copy, PartialEq, Eq, Structural)]
pub enum ResponseBody {
    Ping,
}

/// A response to the host, carrying the correlation id of its request.
#[derive(Debug, Clone, Copy, PartialEq, Eq, Structural)]
pub struct Response {
    pub correlation_id: i32,
    pub body: ResponseBody,
}

/// The request body with variant index `index` on the wire, if any.
pub open spec fn request_body_at(index: u32) -> Option<RequestBody> {
    if index == 0 {
        Some(RequestBody::Ping)
    } else {
        None
    }
}

/// The variant index of a response body on the wire.
pub open spec fn response_body_index(body: ResponseBody) -> u32 {
    match body {
        ResponseBody::Ping => 0,
    }
}

/// The answer to a request: a ping is answered by a ping with the same
/// correlation id.
pub open spec fn answer(request: Request) -> Option<Response> {
    match request.body {
        RequestBody::Ping => Some(Response { correlation_id: request.correlation_id, body: ResponseBody::Ping }),
    }
}

impl RequestBody {
    /// The body whose variant index on the wire is `index`.
    pub fn from_index(index: u32) -> (r: Option<RequestBody>)
        ensures
            r == request_body_at(index),
    {
        if index == 0 {
            Some(RequestBody::Ping)
        } else {
            None
        }
    }
}

impl ResponseBody {
    /// The variant index of this body on the wire.
    pub fn index(&self) -> (r: u32)
        ensures
            r == response_body_index(*self),
    {
        match self {
            ResponseBody::Ping => 0,
        }
    }
}

/// Answers one request; the correlation id passes through unchanged.
pub fn process_request(request: Request) -> (r: Option<Response>)
    ensures
        r == answer(request),
        r == Some(Response { correlation_id: request.correlation_id, body: ResponseBody::Ping }),
{
    match request.body {
        RequestBody::Ping => {
            Some(Response { correlation_id: request.correlation_id, body: ResponseBody::Ping })
        },
    }
}

} // verus!

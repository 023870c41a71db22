//! The request/reply client: one client socket per endpoint, selected by the
//! endpoint's tag.

use vstd::prelude::*;
use vstd::std_specs::cmp::PartialEqSpec;

use crate::esb::{distinct, position_of};

verus! {

/// A message that travels as a frame body: it encodes itself, and decodes
/// from the type tag at the head of a body.
pub trait Message: Sized {
    /// Encodes the message into a frame body.
    fn encode(&self) -> Result<Vec<u8>, String>;

    /// Decodes a message from a frame body.
    fn decode(body: &[u8]) -> Result<Self, String>;
}

/// Marker trait for requests.
pub trait Request: Message {}

/// Marker trait for replies.
pub trait Reply: Message {}

/// A request/reply API: a request type with its reply type.
pub trait Api {
    /// Requests of the API
    type Request: Request;

    /// Replies of the API
    type Reply: Reply;
}

/// Errors of a request/reply exchange.
#[derive(Clone, Debug, PartialEq, Eq)]
pub enum RpcError {
    /// The reply does not match the request
    UnexpectedServerResponse,
    /// The endpoint tag names no endpoint of the client
    UnknownEndpoint(String),
    /// Transport-level error while sending or receiving
    Transport(String),
    /// The request did not encode or the reply did not decode
    Presentation(String),
}

/// The endpoints of a request/reply client, in the order of their sockets.
pub struct RpcClient<E> {
    endpoints: Vec<E>,
}

impl<E: PartialEq + std::fmt::Display> RpcClient<E> {
    /// The endpoint tags, in the order of their sockets.
    pub closed spec fn endpoints(&self) -> Seq<E> {
        self.endpoints@
    }

    /// Each endpoint is listed once, so that each has one socket.
    pub open spec fn wf(&self) -> bool {
        distinct(self.endpoints())
    }

    /// A client over the given endpoints, each listed once; socket `i`
    /// serves `endpoints[i]`.
    pub fn init(endpoints: Vec<E>) -> (r: RpcClient<E>)
        requires
            distinct(endpoints@),
        ensures
            r.endpoints() == endpoints@,
            r.wf(),
    {
        RpcClient { endpoints }
    }

    /// Number of endpoints.
    pub fn endpoint_count(&self) -> (r: usize)
        ensures
            r == self.endpoints().len(),
    {
        self.endpoints.len()
    }

    /// The socket that serves a request to `endpoint`; `UnknownEndpoint`
    /// for a tag that names no endpoint of the client.
    pub fn endpoint_socket(&self, endpoint: &E) -> (r: Result<usize, RpcError>)
        ensures
            match r {
                Ok(i) => i < self.endpoints().len() && (E::obeys_eq_spec()
                    ==> self.endpoints()[i as int].eq_spec(endpoint)),
                Err(e) => {
                    &&& e matches RpcError::UnknownEndpoint(t)
                        && vstd::string::to_string_from_display_ensures::<E>(endpoint, t)
                    &&& E::obeys_eq_spec() ==> forall|i: int|
                        0 <= i < self.endpoints().len() ==> !self.endpoints()[i].eq_spec(endpoint)
                },
            },
    {
        match position_of(&self.endpoints, endpoint) {
            Some(i) => Ok(i),
            None => Err(RpcError::UnknownEndpoint(endpoint.to_string())),
        }
    }
}

} // verus!

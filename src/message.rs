//! The messages that travel inside frames, and the library's error kinds.

use vstd::prelude::*;

verus! {

/// Identifies a registered service; a routing key only.
pub type ServiceId = u16;

/// Identifies one method of a service; a routing key only.
pub type MethodId = u16;

/// Tags a frame so that a response finds the call it answers.
pub type RequestId = u64;

/// A call as the client sends it.
pub struct Request {
    pub service_id: ServiceId,
    pub method_id: MethodId,
    pub payload: Vec<u8>,
}

/// A call as a service handler receives it, once routed.
pub struct ServiceRequest {
    pub method_id: MethodId,
    pub payload: Vec<u8>,
}

/// The answer to a call. `success == false` carries the handler's own failure
/// payload; faults of the connection are reported apart from it.
pub struct Response {
    pub success: bool,
    pub payload: Vec<u8>,
}

/// The mathematical content of a [`Response`].
pub struct ResponseView {
    pub success: bool,
    pub payload: Seq<u8>,
}

impl View for Response {
    type V = ResponseView;

    open spec fn view(&self) -> ResponseView {
        ResponseView { success: self.success, payload: self.payload@ }
    }
}

/// Why a call on the client side failed.
#[derive(Clone, Copy, Debug, PartialEq, Eq, Structural)]
pub enum CallError {
    /// The connection closed or failed before a response arrived.
    TransportFailure,
    /// No outstanding call has this id: it was never issued or is consumed.
    UnknownCall,
    /// The serialized request does not fit in one frame.
    BodyTooLarge,
    /// Every request id of this connection has been handed out.
    IdsExhausted,
}

/// Why the service registry refused an operation.
#[derive(Clone, Copy, Debug, PartialEq, Eq, Structural)]
pub enum ServiceError {
    /// No handler is bound to the service id.
    UnknownService,
    /// A handler is already bound to the service id.
    DuplicateService,
}

} // verus!

//! The server side: a registry that binds at most one handler to each service
//! id and routes each inbound request to the handler of its service.

use vstd::prelude::*;
use std::collections::HashMap;
use crate::message::{Request, ServiceError, ServiceId, ServiceRequest};

verus! {

broadcast use vstd::std_specs::hash::group_hash_axioms;

/// The registry after binding `handler` to `service_id`, or why it refuses.
pub open spec fn register_spec<H>(m: Map<ServiceId, H>, service_id: ServiceId, handler: H) -> (
    Map<ServiceId, H>,
    Result<(), ServiceError>,
) {
    if m.contains_key(service_id) {
        (m, Err(ServiceError::DuplicateService))
    } else {
        (m.insert(service_id, handler), Ok(()))
    }
}

/// The registry after unbinding `service_id`, or why it refuses.
pub open spec fn deregister_spec<H>(m: Map<ServiceId, H>, service_id: ServiceId) -> (
    Map<ServiceId, H>,
    Result<(), ServiceError>,
) {
    if m.contains_key(service_id) {
        (m.remove(service_id), Ok(()))
    } else {
        (m, Err(ServiceError::UnknownService))
    }
}

/// Which handler a request for `service_id` goes to.
pub open spec fn route_spec<H>(m: Map<ServiceId, H>, service_id: ServiceId) -> Result<H, ServiceError> {
    if m.contains_key(service_id) {
        Ok(m[service_id])
    } else {
        Err(ServiceError::UnknownService)
    }
}

/// Binds service ids to handlers of type `H`.
pub struct ServiceDispatcher<H> {
    services: HashMap<ServiceId, H>,
}

impl<H> View for ServiceDispatcher<H> {
    type V = Map<ServiceId, H>;

    closed spec fn view(&self) -> Map<ServiceId, H> {
        self.services@
    }
}

impl<H> ServiceDispatcher<H> {
    /// A registry with no service bound.
    pub fn new() -> (r: ServiceDispatcher<H>)
        ensures
            r@ == Map::<ServiceId, H>::empty(),
    {
        ServiceDispatcher { services: HashMap::new() }
    }

    /// Binds `service` to `service_id`; fails with `DuplicateService`, and
    /// changes nothing, when the id is already bound.
    pub fn register(&mut self, service_id: ServiceId, service: H) -> (r: Result<(), ServiceError>)
        ensures
            (final(self)@, r) == register_spec(old(self)@, service_id, service),
    {
        if self.services.contains_key(&service_id) {
            return Err(ServiceError::DuplicateService);
        }
        self.services.insert(service_id, service);
        Ok(())
    }

    /// Unbinds `service_id`; fails with `UnknownService` when it is not bound.
    pub fn deregister(&mut self, service_id: ServiceId) -> (r: Result<(), ServiceError>)
        ensures
            (final(self)@, r) == deregister_spec(old(self)@, service_id),
    {
        if self.services.remove(&service_id).is_none() {
            Err(ServiceError::UnknownService)
        } else {
            Ok(())
        }
    }

    /// The handler bound to `service_id`, if any.
    pub fn get(&self, service_id: ServiceId) -> (r: Option<&H>)
        ensures
            match r {
                Some(h) => self@.contains_key(service_id) && *h == self@[service_id],
                None => !self@.contains_key(service_id),
            },
    {
        self.services.get(&service_id)
    }

    /// Routes `request` to the handler of its service, with the method id and
    /// payload that the handler is to receive; `UnknownService` when none is bound.
    pub fn route(&self, request: Request) -> (r: Result<(&H, ServiceRequest), ServiceError>)
        ensures
            match r {
                Ok((h, sr)) => {
                    &&& route_spec(self@, request.service_id) == Ok::<H, ServiceError>(*h)
                    &&& sr.method_id == request.method_id
                    &&& sr.payload@ == request.payload@
                },
                Err(e) => route_spec(self@, request.service_id) == Err::<H, ServiceError>(e),
            },
    {
        match self.services.get(&request.service_id) {
            Some(h) => Ok((h, ServiceRequest { method_id: request.method_id, payload: request.payload })),
            None => Err(ServiceError::UnknownService),
        }
    }
}

/// Exclusivity: a second handler for a bound id is refused and the first stays.
pub proof fn lemma_register_exclusive<H>(m: Map<ServiceId, H>, service_id: ServiceId, h1: H, h2: H)
    ensures
        ({
            let (m1, r1) = register_spec(m, service_id, h1);
            let (m2, r2) = register_spec(m1, service_id, h2);
            r2 == Err::<(), ServiceError>(ServiceError::DuplicateService) && m2 == m1
                && (r1 is Ok ==> route_spec(m2, service_id) == Ok::<H, ServiceError>(h1))
        }),
{
}

/// After a successful deregistration, requests for that id fail with
/// `UnknownService`.
pub proof fn lemma_deregistered_unknown<H>(m: Map<ServiceId, H>, service_id: ServiceId)
    ensures
        ({
            let (m1, r1) = deregister_spec(m, service_id);
            route_spec(m1, service_id) == Err::<H, ServiceError>(ServiceError::UnknownService)
        }),
{
}

} // verus!

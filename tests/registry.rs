use ipc_rpc::message::{Request, ServiceError};
use ipc_rpc::service::ServiceDispatcher;

fn request(service_id: u16, method_id: u16, payload: &[u8]) -> Request {
    Request { service_id, method_id, payload: payload.to_vec() }
}

#[test]
fn register_twice_is_duplicate_and_keeps_first() {
    let mut reg: ServiceDispatcher<&'static str> = ServiceDispatcher::new();
    assert_eq!(reg.register(5, "first"), Ok(()));
    assert_eq!(reg.register(5, "second"), Err(ServiceError::DuplicateService));
    assert_eq!(reg.get(5), Some(&"first"));
}

#[test]
fn deregistered_service_is_unknown_to_dispatch() {
    let mut reg: ServiceDispatcher<&'static str> = ServiceDispatcher::new();
    reg.register(5, "h").unwrap();
    assert_eq!(reg.deregister(5), Ok(()));
    assert!(matches!(reg.route(request(5, 0, &[])), Err(ServiceError::UnknownService)));
    assert_eq!(reg.deregister(5), Err(ServiceError::UnknownService));
    assert_eq!(reg.register(5, "again"), Ok(()));
    assert_eq!(reg.get(5), Some(&"again"));
}

#[test]
fn unregistered_service_is_unknown() {
    let mut reg: ServiceDispatcher<u32> = ServiceDispatcher::new();
    reg.register(0, 1).unwrap();
    assert!(matches!(reg.route(request(99, 0, &[1])), Err(ServiceError::UnknownService)));
    assert_eq!(reg.get(99), None);
}

#[test]
fn route_hands_method_and_payload_to_bound_handler() {
    let mut reg: ServiceDispatcher<u32> = ServiceDispatcher::new();
    reg.register(1, 100).unwrap();
    reg.register(2, 200).unwrap();
    let (h, sr) = match reg.route(request(2, 7, &[4, 5])) {
        Ok(x) => x,
        Err(_) => panic!("service 2 is bound"),
    };
    assert_eq!(*h, 200);
    assert_eq!(sr.method_id, 7);
    assert_eq!(sr.payload, vec![4, 5]);
}

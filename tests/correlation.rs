use ipc_rpc::dispatcher::Dispatcher;
use ipc_rpc::frame::{decode_frame, encode_frame};
use ipc_rpc::message::{CallError, Response};

fn response(success: bool, payload: &[u8]) -> Response {
    Response { success, payload: payload.to_vec() }
}

#[test]
fn invoke_hands_out_distinct_ids_and_frames_the_body() {
    let mut d = Dispatcher::new();
    let (a, fa) = d.invoke(&[1, 2]).unwrap();
    let (b, fb) = d.invoke(&[3]).unwrap();
    let (c, _) = d.invoke(&[]).unwrap();
    assert_eq!((a, b, c), (0, 1, 2));
    assert_eq!(fa, encode_frame(a, &[1, 2]).unwrap());
    let mut buf = fb;
    assert_eq!(decode_frame(&mut buf).unwrap(), (b, vec![3]));
}

#[test]
fn poll_before_response_is_pending() {
    let mut d = Dispatcher::new();
    let (id, _) = d.invoke(&[0]).unwrap();
    assert_eq!(d.poll(id, 1).unwrap().is_none(), true);
}

#[test]
fn response_wakes_exactly_its_waiters_and_is_consumed_once() {
    let mut d = Dispatcher::new();
    let (x, _) = d.invoke(&[0]).unwrap();
    let (y, _) = d.invoke(&[1]).unwrap();
    assert!(d.poll(x, 10).unwrap().is_none());
    assert!(d.poll(x, 11).unwrap().is_none());
    assert!(d.poll(y, 20).unwrap().is_none());
    let woken = d.deliver(x, response(true, &[5]));
    assert_eq!(woken, vec![10, 11]);
    let got = d.poll(x, 12).unwrap().unwrap();
    assert!(got.success);
    assert_eq!(got.payload, vec![5]);
    assert_eq!(d.poll(x, 12).err(), Some(CallError::UnknownCall));
    assert!(d.poll(y, 21).unwrap().is_none());
    assert_eq!(d.deliver(y, response(false, &[9])), vec![20, 21]);
    let got = d.poll(y, 22).unwrap().unwrap();
    assert!(!got.success);
    assert_eq!(got.payload, vec![9]);
}

#[test]
fn second_response_for_answered_call_is_dropped() {
    let mut d = Dispatcher::new();
    let (x, _) = d.invoke(&[0]).unwrap();
    assert_eq!(d.deliver(x, response(true, &[1])), Vec::<u64>::new());
    assert_eq!(d.deliver(x, response(true, &[2])), Vec::<u64>::new());
    assert_eq!(d.poll(x, 0).unwrap().unwrap().payload, vec![1]);
    assert_eq!(d.deliver(x, response(true, &[3])), Vec::<u64>::new());
    assert_eq!(d.poll(x, 0).err(), Some(CallError::UnknownCall));
}

#[test]
fn unknown_id_response_is_dropped_without_effect() {
    let mut d = Dispatcher::new();
    let (x, _) = d.invoke(&[0]).unwrap();
    assert!(d.poll(x, 4).unwrap().is_none());
    assert!(d.deliver(77, response(true, &[1])).is_empty());
    assert!(d.poll(x, 5).unwrap().is_none());
    assert_eq!(d.deliver(x, response(true, &[2])), vec![4, 5]);
    assert_eq!(d.poll(x, 6).unwrap().unwrap().payload, vec![2]);
}

#[test]
fn never_issued_id_is_unknown() {
    let mut d = Dispatcher::new();
    assert_eq!(d.poll(3, 0).err(), Some(CallError::UnknownCall));
}

#[test]
fn transport_loss_fails_waiting_calls_and_new_ones() {
    let mut d = Dispatcher::new();
    let (x, _) = d.invoke(&[0]).unwrap();
    let (y, _) = d.invoke(&[1]).unwrap();
    assert!(d.deliver(y, response(true, &[8])).is_empty());
    assert!(d.poll(x, 1).unwrap().is_none());
    d.close();
    assert_eq!(d.poll(x, 1).err(), Some(CallError::TransportFailure));
    assert_eq!(d.poll(x, 1).err(), Some(CallError::UnknownCall));
    assert_eq!(d.poll(y, 2).unwrap().unwrap().payload, vec![8]);
    assert_eq!(d.invoke(&[2]).err(), Some(CallError::TransportFailure));
}

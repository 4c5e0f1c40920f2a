use ipc_rpc::common::ClientService;
use ipc_rpc::dispatcher::Dispatcher;
use ipc_rpc::frame::{decode_all, decode_frame, encode_frame};
use ipc_rpc::message::{CallError, Request, Response};
use ipc_rpc::service::ServiceDispatcher;
use ipc_rpc::test_socket::{SocketPoll, TestSocket};

#[test]
fn local() {
    let svc = ClientService;

    assert_eq!(5, svc.load(5).unwrap().number);
}

#[test]
fn load_returns_zeroed_block() {
    let block = ClientService.load(12).unwrap();
    assert_eq!(block.number, 12);
    assert_eq!(block.data, vec![0u8; 128]);
}

#[test]
fn socket_yields_replies_in_order_then_closes() {
    let mut s = TestSocket::with_replies(vec![vec![1], vec![], vec![2, 3]]);
    let mut got = Vec::new();
    loop {
        match s.poll() {
            SocketPoll::Ready(Some(d)) => got.push(d),
            SocketPoll::Ready(None) => break,
            SocketPoll::NotReady => panic!("no reply is delayed"),
        }
    }
    assert_eq!(got, vec![vec![1], vec![], vec![2, 3]]);
    assert!(matches!(s.poll(), SocketPoll::Ready(None)));
}

#[test]
fn socket_records_sends() {
    let mut s = TestSocket::with_replies(Vec::new());
    s.start_send(vec![7]);
    s.start_send(vec![8, 9]);
    assert_eq!(s.writes(), &vec![vec![7], vec![8, 9]]);
    assert!(matches!(s.poll(), SocketPoll::Ready(None)));
}

#[test]
fn end_to_end_load_over_frames() {
    let mut registry: ServiceDispatcher<ClientService> = ServiceDispatcher::new();
    registry.register(0, ClientService).unwrap();
    let mut client = Dispatcher::new();
    let mut client_socket = TestSocket::with_replies(Vec::new());

    // Client: serialize the call and send its frame.
    let payload = bincode::serialize(&5u64, bincode::Infinite).unwrap();
    assert_eq!(payload.len(), 8);
    let body = bincode::serialize(&(0u16, 0u16, payload), bincode::Infinite).unwrap();
    let (id, frame) = client.invoke(&body).unwrap();
    client_socket.start_send(frame);

    // Server: take the frame, route it, run the handler, send the reply.
    let mut server_socket = TestSocket::with_replies(client_socket.writes().clone());
    let mut inbound = match server_socket.poll() {
        SocketPoll::Ready(Some(bytes)) => bytes,
        _ => panic!("the request frame was sent"),
    };
    let (rid, rbody) = decode_frame(&mut inbound).unwrap();
    assert_eq!(rid, id);
    let (service_id, method_id, payload): (u16, u16, Vec<u8>) = bincode::deserialize(&rbody).unwrap();
    let (handler, sr) = match registry.route(Request { service_id, method_id, payload }) {
        Ok(x) => x,
        Err(_) => panic!("service 0 is bound"),
    };
    assert_eq!(sr.method_id, 0);
    let n: u64 = bincode::deserialize(&sr.payload).unwrap();
    let block = handler.load(n).unwrap();
    let block_bytes = bincode::serialize(&(block.number, block.data), bincode::Infinite).unwrap();
    let reply_body = bincode::serialize(&(true, block_bytes), bincode::Infinite).unwrap();
    server_socket.start_send(encode_frame(rid, &reply_body).unwrap());

    // Client: pump the reply into the table, then take the response.
    assert!(client.poll(id, 1).unwrap().is_none());
    let mut replies = TestSocket::with_replies(server_socket.writes().clone());
    let mut buf = Vec::new();
    while let SocketPoll::Ready(Some(bytes)) = replies.poll() {
        buf.extend(bytes);
        for (fid, fbody) in decode_all(&mut buf) {
            let (success, payload): (bool, Vec<u8>) = bincode::deserialize(&fbody).unwrap();
            assert_eq!(client.deliver(fid, Response { success, payload }), vec![1]);
        }
    }
    let response = client.poll(id, 2).unwrap().unwrap();
    assert!(response.success);
    let (number, data): (u64, Vec<u8>) = bincode::deserialize(&response.payload).unwrap();
    assert_eq!(number, 5);
    assert_eq!(data, vec![0u8; 128]);
}

#[test]
fn transport_closure_fails_pending_call() {
    let mut client = Dispatcher::new();
    let (id, _) = client.invoke(&[1, 2, 3]).unwrap();
    assert!(client.poll(id, 1).unwrap().is_none());
    let mut socket = TestSocket::with_replies(Vec::new());
    if let SocketPoll::Ready(None) = socket.poll() {
        client.close();
    }
    assert_eq!(client.poll(id, 1).err(), Some(CallError::TransportFailure));
}

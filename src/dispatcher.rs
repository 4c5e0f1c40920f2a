//! The client side: a correlation table from request id to the state of the
//! call, which hands out fresh ids, records arriving responses, wakes the
//! waiters of exactly the call answered, and fails waiting calls once the
//! transport is gone.

use vstd::prelude::*;
use std::collections::HashMap;
use crate::frame::{encode_frame, frame_bytes, FrameError};
use crate::message::{CallError, RequestId, Response, ResponseView};

verus! {

broadcast use vstd::std_specs::hash::group_hash_axioms;

/// The state of one outstanding call.
pub enum PendingCall {
    /// No response yet; the tokens of the callers suspended on it.
    Waiting { waiters: Vec<u64> },
    /// The response arrived and waits to be taken.
    Done { response: Response },
}

/// The mathematical content of a [`PendingCall`].
pub enum CallView {
    Waiting(Seq<u64>),
    Done(ResponseView),
}

impl View for PendingCall {
    type V = CallView;

    open spec fn view(&self) -> CallView {
        match self {
            PendingCall::Waiting { waiters } => CallView::Waiting(waiters@),
            PendingCall::Done { response } => CallView::Done(response@),
        }
    }
}

/// The abstract state of a [`Dispatcher`]: its outstanding calls, the next id
/// it will hand out, and whether the transport is gone.
pub struct TableView {
    pub calls: Map<RequestId, CallView>,
    pub next_id: RequestId,
    pub closed: bool,
}

impl TableView {
    /// Every outstanding id was handed out before `next_id`, so `next_id` is free.
    pub open spec fn wf(self) -> bool {
        forall|id: RequestId| #[trigger] self.calls.contains_key(id) ==> id < self.next_id
    }
}

/// The table with a fresh call registered under `next_id`, or why none is.
pub open spec fn invoke_spec(v: TableView, body_len: nat) -> (TableView, Result<RequestId, CallError>) {
    if v.closed {
        (v, Err(CallError::TransportFailure))
    } else if body_len > u32::MAX {
        (v, Err(CallError::BodyTooLarge))
    } else if v.next_id == u64::MAX {
        (v, Err(CallError::IdsExhausted))
    } else {
        (
            TableView {
                calls: v.calls.insert(v.next_id, CallView::Waiting(Seq::empty())),
                next_id: (v.next_id + 1) as u64,
                closed: false,
            },
            Ok(v.next_id),
        )
    }
}

/// What the caller waiting on `id` gets: the response, taken out of the table
/// (`Some`); or, while none has come and the transport lives, `None`, with
/// `waiter` registered for wake-up.
pub open spec fn poll_spec(v: TableView, id: RequestId, waiter: u64) -> (
    TableView,
    Result<Option<ResponseView>, CallError>,
) {
    if !v.calls.contains_key(id) {
        (v, Err(CallError::UnknownCall))
    } else {
        match v.calls[id] {
            CallView::Done(r) => (TableView { calls: v.calls.remove(id), ..v }, Ok(Some(r))),
            CallView::Waiting(ws) => if v.closed {
                (TableView { calls: v.calls.remove(id), ..v }, Err(CallError::TransportFailure))
            } else {
                (
                    TableView { calls: v.calls.insert(id, CallView::Waiting(ws.push(waiter))), ..v },
                    Ok(None),
                )
            },
        }
    }
}

/// A response arriving for `id`: recorded if the call waits for one, and the
/// waiters to wake are returned; otherwise the frame is dropped.
pub open spec fn deliver_spec(v: TableView, id: RequestId, r: ResponseView) -> (TableView, Seq<u64>) {
    if v.calls.contains_key(id) && v.calls[id] is Waiting {
        (
            TableView { calls: v.calls.insert(id, CallView::Done(r)), ..v },
            v.calls[id]->Waiting_0,
        )
    } else {
        (v, Seq::empty())
    }
}

/// The transport is gone: calls still waiting fail when next polled, and no
/// new call is accepted.
pub open spec fn close_spec(v: TableView) -> TableView {
    TableView { closed: true, ..v }
}

/// The correlation table of one connection. Shared between callers and the
/// receiving side, it is meant to sit behind one lock.
pub struct Dispatcher {
    calls: HashMap<RequestId, PendingCall>,
    next_id: RequestId,
    closed: bool,
}

impl View for Dispatcher {
    type V = TableView;

    closed spec fn view(&self) -> TableView {
        TableView {
            calls: self.calls@.map_values(|c: PendingCall| c@),
            next_id: self.next_id,
            closed: self.closed,
        }
    }
}

impl Dispatcher {
    #[verifier::type_invariant]
    closed spec fn inv(&self) -> bool {
        forall|id: RequestId| #[trigger] self.calls@.contains_key(id) ==> id < self.next_id
    }

    /// An empty table for a live connection.
    pub fn new() -> (r: Dispatcher)
        ensures
            r@.calls.is_empty(),
            r@.next_id == 0,
            !r@.closed,
            r@.wf(),
    {
        let r = Dispatcher { calls: HashMap::new(), next_id: 0, closed: false };
        assert(r@.calls =~= Map::empty());
        r
    }

    /// Starts a call whose serialized request is `body`: hands out a fresh id,
    /// registers the call as waiting, and returns the id with the frame to send.
    pub fn invoke(&mut self, body: &[u8]) -> (r: Result<(RequestId, Vec<u8>), CallError>)
        ensures
            final(self)@.wf(),
            final(self)@ == invoke_spec(old(self)@, body@.len()).0,
            match r {
                Ok((id, frame)) => {
                    &&& invoke_spec(old(self)@, body@.len()).1 == Ok::<RequestId, CallError>(id)
                    &&& frame@ == frame_bytes(id, body@)
                },
                Err(e) => invoke_spec(old(self)@, body@.len()).1 == Err::<RequestId, CallError>(e),
            },
    {
        proof {
            use_type_invariant(&*self);
        }
        if self.closed {
            return Err(CallError::TransportFailure);
        }
        let id = self.next_id;
        let frame = match encode_frame(id, body) {
            Ok(f) => f,
            Err(FrameError::BodyTooLarge) => {
                return Err(CallError::BodyTooLarge);
            },
        };
        if id == u64::MAX {
            return Err(CallError::IdsExhausted);
        }
        let mut calls = HashMap::new();
        std::mem::swap(&mut calls, &mut self.calls);
        calls.insert(id, PendingCall::Waiting { waiters: Vec::new() });
        self.next_id = id + 1;
        self.calls = calls;
        proof {
            assert(self@.calls =~= old(self)@.calls.insert(id, CallView::Waiting(Seq::empty())));
        }
        Ok((id, frame))
    }

    /// Asks for the result of call `id` on behalf of the caller `waiter`.
    pub fn poll(&mut self, id: RequestId, waiter: u64) -> (r: Result<Option<Response>, CallError>)
        ensures
            final(self)@.wf(),
            final(self)@ == poll_spec(old(self)@, id, waiter).0,
            match r {
                Ok(Some(resp)) => poll_spec(old(self)@, id, waiter).1 == Ok::<Option<ResponseView>, CallError>(Some(resp@)),
                Ok(None) => poll_spec(old(self)@, id, waiter).1 == Ok::<Option<ResponseView>, CallError>(None),
                Err(e) => poll_spec(old(self)@, id, waiter).1 == Err::<Option<ResponseView>, CallError>(e),
            },
    {
        proof {
            use_type_invariant(&*self);
        }
        let mut calls = HashMap::new();
        std::mem::swap(&mut calls, &mut self.calls);
        let found = calls.remove(&id);
        match found {
            None => {
                self.calls = calls;
                proof {
                    assert(self@.calls =~= old(self)@.calls);
                }
                Err(CallError::UnknownCall)
            },
            Some(PendingCall::Done { response }) => {
                self.calls = calls;
                proof {
                    assert(self@.calls =~= old(self)@.calls.remove(id));
                }
                Ok(Some(response))
            },
            Some(PendingCall::Waiting { waiters }) => {
                if self.closed {
                    self.calls = calls;
                    proof {
                        assert(self@.calls =~= old(self)@.calls.remove(id));
                    }
                    Err(CallError::TransportFailure)
                } else {
                    let mut waiters = waiters;
                    waiters.push(waiter);
                    calls.insert(id, PendingCall::Waiting { waiters });
                    self.calls = calls;
                    proof {
                        assert(self@.calls =~= old(self)@.calls.insert(id, CallView::Waiting(old(self)@.calls[id]->Waiting_0.push(waiter))));
                    }
                    Ok(None)
                }
            },
        }
    }

    /// Records `response`, which arrived for `id`, and returns the tokens of the
    /// callers to wake. A response for an id that waits for none is dropped.
    pub fn deliver(&mut self, id: RequestId, response: Response) -> (r: Vec<u64>)
        ensures
            final(self)@.wf(),
            final(self)@ == deliver_spec(old(self)@, id, response@).0,
            r@ == deliver_spec(old(self)@, id, response@).1,
    {
        proof {
            use_type_invariant(&*self);
        }
        let mut calls = HashMap::new();
        std::mem::swap(&mut calls, &mut self.calls);
        let found = calls.remove(&id);
        match found {
            None => {
                self.calls = calls;
                proof {
                    assert(self@.calls =~= old(self)@.calls);
                }
                Vec::new()
            },
            Some(PendingCall::Done { response: kept }) => {
                calls.insert(id, PendingCall::Done { response: kept });
                self.calls = calls;
                proof {
                    assert(self@.calls =~= old(self)@.calls);
                }
                Vec::new()
            },
            Some(PendingCall::Waiting { waiters }) => {
                let ghost rv = response@;
                calls.insert(id, PendingCall::Done { response });
                self.calls = calls;
                proof {
                    assert(self@.calls =~= old(self)@.calls.insert(id, CallView::Done(rv)));
                }
                waiters
            },
        }
    }

    /// Marks the transport as gone.
    pub fn close(&mut self)
        ensures
            final(self)@.wf(),
            final(self)@ == close_spec(old(self)@),
    {
        proof {
            use_type_invariant(&*self);
        }
        self.closed = true;
        proof {
            assert(self@.calls =~= old(self)@.calls);
        }
    }
}

/// Every operation keeps the table well formed, and a successful `invoke`
/// hands out an id that no outstanding call holds, so that among any sequence
/// of calls no two outstanding ones share an id.
pub proof fn lemma_ids_unique(v: TableView, body_len: nat, id: RequestId, waiter: u64, r: ResponseView)
    requires
        v.wf(),
    ensures
        invoke_spec(v, body_len).0.wf(),
        poll_spec(v, id, waiter).0.wf(),
        deliver_spec(v, id, r).0.wf(),
        close_spec(v).wf(),
        invoke_spec(v, body_len).1 matches Ok(fresh) ==> {
            &&& !v.calls.contains_key(fresh)
            &&& invoke_spec(v, body_len).0.calls.contains_key(fresh)
        },
{
}

/// Two calls started one after the other get different ids, and both are
/// outstanding afterwards.
pub proof fn lemma_consecutive_ids_differ(v: TableView, len1: nat, len2: nat)
    requires
        v.wf(),
    ensures
        ({
            let (v1, r1) = invoke_spec(v, len1);
            let (v2, r2) = invoke_spec(v1, len2);
            r1 matches Ok(a) ==> r2 matches Ok(b) ==> {
                &&& a != b
                &&& v2.calls.contains_key(a)
                &&& v2.calls.contains_key(b)
            }
        }),
{
}

/// Exactly-once resolution: a response for a waiting call wakes exactly that
/// call's waiters, touches no other call, is handed out by the next poll, and
/// is gone after it; repeated responses and polls see nothing stale.
pub proof fn lemma_exactly_once(
    v: TableView,
    id: RequestId,
    r: ResponseView,
    again: ResponseView,
    w1: u64,
    w2: u64,
)
    requires
        v.wf(),
        v.calls.contains_key(id),
        v.calls[id] is Waiting,
    ensures
        ({
            let (v1, woken) = deliver_spec(v, id, r);
            let (v2, first) = poll_spec(v1, id, w1);
            let (v3, second) = poll_spec(v2, id, w2);
            &&& woken == v.calls[id]->Waiting_0
            &&& forall|other: RequestId| other != id ==> {
                &&& #[trigger] v1.calls.contains_key(other) == v.calls.contains_key(other)
                &&& v1.calls[other] == v.calls[other]
            }
            &&& deliver_spec(v1, id, again) == (v1, Seq::<u64>::empty())
            &&& first == Ok::<Option<ResponseView>, CallError>(Some(r))
            &&& !v2.calls.contains_key(id)
            &&& second == Err::<Option<ResponseView>, CallError>(CallError::UnknownCall)
            &&& v3 == v2
            &&& deliver_spec(v2, id, again) == (v2, Seq::<u64>::empty())
        }),
{
}

/// A response for an id with no outstanding call is dropped: the table is
/// unchanged and nobody is woken.
pub proof fn lemma_unknown_id_dropped(v: TableView, id: RequestId, r: ResponseView)
    requires
        !v.calls.contains_key(id),
    ensures
        deliver_spec(v, id, r) == (v, Seq::<u64>::empty()),
{
}

/// Once the transport is gone, a call still waiting resolves with
/// `TransportFailure` at its next poll, and no new call starts.
pub proof fn lemma_transport_loss(v: TableView, id: RequestId, waiter: u64, body_len: nat)
    requires
        v.wf(),
        v.calls.contains_key(id),
        v.calls[id] is Waiting,
    ensures
        ({
            let (v1, res) = poll_spec(close_spec(v), id, waiter);
            &&& res == Err::<Option<ResponseView>, CallError>(CallError::TransportFailure)
            &&& !v1.calls.contains_key(id)
            &&& invoke_spec(close_spec(v), body_len).1 == Err::<RequestId, CallError>(
                CallError::TransportFailure,
            )
        }),
{
}

} // verus!

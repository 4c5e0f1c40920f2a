//! An in-memory transport: it yields a scripted list of inbound payloads and
//! records every outbound one. Running out of scripted payloads stands for the
//! peer closing the connection.

use vstd::prelude::*;

verus! {

/// One scripted inbound payload; a delayed one is not ready at its first poll.
struct ReadPayload {
    data: Vec<u8>,
    is_delayed: bool,
}

/// The abstract state of a [`TestSocket`].
pub struct SocketView {
    /// The scripted payloads with their delay flags.
    pub reads: Seq<(Seq<u8>, bool)>,
    /// How many of them were handed out.
    pub read_idx: nat,
    /// The outbound payloads, in the order sent.
    pub writes: Seq<Seq<u8>>,
}

/// What a poll of the socket's inbound side found.
pub enum SocketPoll {
    /// A payload, or `None` once the connection is closed.
    Ready(Option<Vec<u8>>),
    /// Nothing yet; poll again.
    NotReady,
}

/// A scripted transport for tests.
pub struct TestSocket {
    reads: Vec<ReadPayload>,
    read_idx: usize,
    writes: Vec<Vec<u8>>,
}

impl View for TestSocket {
    type V = SocketView;

    closed spec fn view(&self) -> SocketView {
        SocketView {
            reads: self.reads@.map_values(|p: ReadPayload| (p.data@, p.is_delayed)),
            read_idx: self.read_idx as nat,
            writes: self.writes@.map_values(|w: Vec<u8>| w@),
        }
    }
}

impl TestSocket {
    /// A socket that will yield `repl`, in order and each at once, then close.
    pub fn with_replies(repl: Vec<Vec<u8>>) -> (r: TestSocket)
        ensures
            r@.reads == repl@.map_values(|w: Vec<u8>| (w@, false)),
            r@.read_idx == 0,
            r@.writes == Seq::<Seq<u8>>::empty(),
    {
        let mut reads: Vec<ReadPayload> = Vec::new();
        let mut i: usize = 0;
        let mut repl = repl;
        let ghost all = repl@;
        let n = repl.len();
        while repl.len() > 0
            invariant
                all.len() == n,
                i + repl@.len() == all.len(),
                repl@ == all.subrange(i as int, all.len() as int),
                reads@.len() == i,
                forall|j: int| 0 <= j < i ==> (#[trigger] reads@[j]).data@ == all[j]@ && !reads@[j].is_delayed,
            decreases repl@.len(),
        {
            let reply = repl.remove(0);
            assert(reply@ == all[i as int]@);
            reads.push(ReadPayload { data: reply, is_delayed: false });
            i = i + 1;
            proof {
                assert(repl@ =~= all.subrange(i as int, all.len() as int));
            }
        }
        proof {
            assert(reads@.map_values(|p: ReadPayload| (p.data@, p.is_delayed))
                =~= all.map_values(|w: Vec<u8>| (w@, false)));
        }
        let r = TestSocket { reads, read_idx: 0, writes: Vec::new() };
        assert(r@.writes =~= Seq::<Seq<u8>>::empty());
        r
    }

    /// Takes the next inbound payload. A delayed one answers `NotReady` once,
    /// then is ready; after the last one the socket reports the close.
    pub fn poll(&mut self) -> (r: SocketPoll)
        ensures
            final(self)@.writes == old(self)@.writes,
            old(self)@.read_idx >= old(self)@.reads.len() ==> {
                &&& r matches SocketPoll::Ready(None)
                &&& final(self)@ == old(self)@
            },
            old(self)@.read_idx < old(self)@.reads.len() ==> {
                let (data, delayed) = old(self)@.reads[old(self)@.read_idx as int];
                if delayed {
                    &&& r is NotReady
                    &&& final(self)@.read_idx == old(self)@.read_idx
                    &&& final(self)@.reads == old(self)@.reads.update(
                        old(self)@.read_idx as int,
                        (data, false),
                    )
                } else {
                    &&& r matches SocketPoll::Ready(Some(d)) && d@ == data
                    &&& final(self)@.read_idx == old(self)@.read_idx + 1
                    &&& final(self)@.reads == old(self)@.reads
                }
            },
    {
        if self.read_idx >= self.reads.len() {
            return SocketPoll::Ready(None);
        }
        let idx = self.read_idx;
        if self.reads[idx].is_delayed {
            let data = self.reads[idx].data.clone();
            proof {
                assert(data@ =~= self.reads@[idx as int].data@);
            }
            self.reads.set(idx, ReadPayload { data, is_delayed: false });
            proof {
                assert(self@.reads =~= old(self)@.reads.update(
                    idx as int,
                    (old(self)@.reads[idx as int].0, false),
                ));
            }
            SocketPoll::NotReady
        } else {
            self.read_idx = idx + 1;
            let d = self.reads[idx].data.clone();
            proof {
                assert(d@ =~= self.reads@[idx as int].data@);
            }
            SocketPoll::Ready(Some(d))
        }
    }

    /// Records an outbound payload; always accepted at once.
    pub fn start_send(&mut self, item: Vec<u8>)
        ensures
            final(self)@.writes == old(self)@.writes.push(item@),
            final(self)@.reads == old(self)@.reads,
            final(self)@.read_idx == old(self)@.read_idx,
    {
        let ghost w = item@;
        self.writes.push(item);
        proof {
            assert(self@.writes =~= old(self)@.writes.push(w));
        }
    }

    /// The outbound payloads sent so far, in order.
    pub fn writes(&self) -> (r: &Vec<Vec<u8>>)
        ensures
            r@.map_values(|w: Vec<u8>| w@) == self@.writes,
    {
        &self.writes
    }
}

} // verus!

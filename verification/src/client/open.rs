//! The open-loop client: requests are issued at their arrival times,
//! whatever is still outstanding.
use vstd::prelude::*;
use vstd::arithmetic::div_mod::lemma_fundamental_div_mod_converse;
use vstd::arithmetic::power2::{lemma2_to64, lemma_pow2_strictly_increases};
use vstd::arithmetic::power2::{lemma_pow2_unfold, pow2};
use vstd::std_specs::hash::group_hash_axioms;
use std::collections::{HashMap, VecDeque};
use crate::client::{choose_request_type, Progress};
use crate::connection::{RequestState, StateModel};
use crate::error::{AspenRsError, InternalFault, IoFailure, NetworkError};
use crate::latency::{Latencies, LatencyLists};
use crate::packet::{Request, RequestType};
use crate::BUF_LEN;

verus! {

/// What a pass over one connection's queue came to.
#[derive(Clone, Copy, Debug, PartialEq, Eq, Structural)]
pub enum OpenProgress {
    /// The queue was advanced as far as the socket allowed.
    MadeProgress,
    /// The peer reset the connection.
    ConnectionReset,
}

/// Whether `shift` is the least number of bits that tells `num_threads`
/// threads apart: the logarithm of `num_threads` to base two, rounded up.
pub open spec fn is_id_shift(num_threads: nat, shift: nat) -> bool {
    &&& pow2(shift) >= num_threads
    &&& shift > 0 ==> pow2((shift - 1) as nat) < num_threads
}

/// The request id that thread `thread` makes of its counter: the counter in
/// the high bits, the thread's index in the low `shift` bits.
pub open spec fn req_id_of(thread: nat, shift: nat, counter: nat) -> nat {
    counter * pow2(shift) + thread
}

/// The low `shift` bits of a request id are the index of its thread.
pub proof fn lemma_req_id_names_thread(thread: nat, shift: nat, counter: nat)
    requires
        thread < pow2(shift),
    ensures
        req_id_of(thread, shift, counter) % pow2(shift) == thread,
        req_id_of(thread, shift, counter) / pow2(shift) == counter,
{
    lemma_fundamental_div_mod_converse(
        req_id_of(thread, shift, counter) as int,
        pow2(shift) as int,
        counter as int,
        thread as int,
    );
}

/// Two request ids are equal only if the same thread made them of the same
/// counter: no two threads share an id, and no thread repeats one.
pub proof fn lemma_req_ids_unique(
    shift: nat,
    thread_a: nat,
    counter_a: nat,
    thread_b: nat,
    counter_b: nat,
)
    requires
        thread_a < pow2(shift),
        thread_b < pow2(shift),
        req_id_of(thread_a, shift, counter_a) == req_id_of(thread_b, shift, counter_b),
    ensures
        thread_a == thread_b,
        counter_a == counter_b,
{
    lemma_req_id_names_thread(thread_a, shift, counter_a);
    lemma_req_id_names_thread(thread_b, shift, counter_b);
}

/// With the shift for `num_threads` threads, the index of each of them fits
/// in the low bits.
pub proof fn lemma_thread_fits_shift(num_threads: nat, shift: nat, thread: nat)
    requires
        is_id_shift(num_threads, shift),
        thread < num_threads,
    ensures
        thread < pow2(shift),
{
}

/// The number of low bits of a request id that hold the thread's index,
/// for `num_threads` threads.
pub fn req_id_shift(num_threads: usize) -> (shift: u8)
    ensures
        is_id_shift(num_threads as nat, shift as nat),
        shift <= 64,
{
    let mut shift: u8 = 0;
    let mut stride: u128 = 1;
    proof {
        lemma2_to64();
    }
    while stride < num_threads as u128
        invariant
            shift <= 64,
            stride == pow2(shift as nat),
            shift > 0 ==> pow2((shift - 1) as nat) < num_threads,
            num_threads <= 0xffff_ffff_ffff_ffff,
        decreases 65 - shift,
    {
        proof {
            lemma2_to64();
            assert(shift < 64);
            lemma_pow2_unfold((shift + 1) as nat);
        }
        stride = stride * 2;
        shift = shift + 1;
    }
    shift
}

/// Hands out the request ids of one thread.
pub struct ReqIdAllocator {
    counter: u128,
    thread: u64,
    shift: u8,
    stride: u128,
}

impl ReqIdAllocator {
    /// The thread's index fits in the low bits.
    pub closed spec fn wf(&self) -> bool {
        &&& self.shift <= 64
        &&& self.counter <= 0x1_0000_0000_0000_0000
        &&& self.counter > 0 ==> (self.counter - 1) * self.stride + self.thread <= u64::MAX
        &&& self.stride == pow2(self.shift as nat)
        &&& self.thread < self.stride
    }

    /// The index of the thread.
    pub closed spec fn thread(&self) -> nat {
        self.thread as nat
    }

    /// The number of low bits that hold the thread's index.
    pub closed spec fn shift(&self) -> nat {
        self.shift as nat
    }

    /// The number of ids handed out so far.
    pub closed spec fn counter(&self) -> nat {
        self.counter as nat
    }

    /// In a well-formed allocator the thread's index fits in the low bits,
    /// so that the laws of request ids hold of what it hands out.
    pub proof fn lemma_thread_fits(&self)
        requires
            self.wf(),
        ensures
            self.shift() <= 64,
            self.thread() < pow2(self.shift()),
    {
    }

    /// The allocator of thread `thread`, with `shift` low bits for the
    /// index; nothing if the index does not fit in them.
    pub fn new(thread: u64, shift: u8) -> (made: Option<ReqIdAllocator>)
        ensures
            shift <= 64 && thread < pow2(shift as nat) <==> made is Some,
            made matches Some(ids) ==> ids.wf() && ids.thread() == thread && ids.shift() == shift
                && ids.counter() == 0,
    {
        if shift > 64 {
            return None;
        }
        let mut stride: u128 = 1;
        let mut i: u8 = 0;
        proof {
            lemma2_to64();
        }
        while i < shift
            invariant
                i <= shift <= 64,
                stride == pow2(i as nat),
                stride <= 0x1_0000_0000_0000_0000,
            decreases shift - i,
        {
            proof {
                lemma2_to64();
                lemma_pow2_unfold((i + 1) as nat);
                if i + 1 < 64 {
                    lemma_pow2_strictly_increases((i + 1) as nat, 64);
                }
            }
            stride = stride * 2;
            i = i + 1;
        }
        if thread as u128 >= stride {
            return None;
        }
        Some(ReqIdAllocator { counter: 0, thread, shift, stride })
    }

    /// The number of ids handed out so far.
    pub fn issued(&self) -> (n: u128)
        ensures
            n == self.counter(),
    {
        self.counter
    }

    /// The next id of the thread, or nothing once 64 bits cannot hold it.
    pub fn next_id(&mut self) -> (id: Option<u64>)
        requires
            old(self).wf(),
        ensures
            final(self).wf(),
            final(self).thread() == old(self).thread(),
            final(self).shift() == old(self).shift(),
            match id {
                Some(id) => id == req_id_of(
                    old(self).thread(),
                    old(self).shift(),
                    old(self).counter(),
                ) && final(self).counter() == old(self).counter() + 1,
                None => req_id_of(old(self).thread(), old(self).shift(), old(self).counter())
                    > u64::MAX && final(self).counter() == old(self).counter(),
            },
    {
        proof {
            lemma2_to64();
            if self.shift < 64 {
                lemma_pow2_strictly_increases(self.shift as nat, 64);
            }
            assert(self.counter * self.stride <= 0x2_0000_0000_0000_0000) by (nonlinear_arith)
                requires
                    self.stride <= 0x1_0000_0000_0000_0000,
                    self.counter > 0 ==> (self.counter - 1) * self.stride
                        <= 0xffff_ffff_ffff_ffff,
                    self.counter >= 0,
            ;
        }
        let id: u128 = self.counter * self.stride + self.thread as u128;
        if id > u64::MAX as u128 {
            return None;
        }
        proof {
            assert(self.counter < 0x1_0000_0000_0000_0000) by (nonlinear_arith)
                requires
                    self.counter * self.stride + self.thread <= 0xffff_ffff_ffff_ffff,
                    self.stride >= 1,
            ;
        }
        self.counter = self.counter + 1;
        assert((self.counter - 1) * self.stride + self.thread == id);
        Some(id as u64)
    }
}

broadcast use group_hash_axioms;

/// What one write or read for the head of a queue came to.
#[derive(Clone, Copy, Debug, PartialEq, Eq, Structural)]
pub enum QueueStep {
    /// The head is done with this queue; go on with the next request.
    Continue,
    /// The pass over the queue ends, with this to report.
    Stop(OpenProgress),
}

/// What a failed write or read means for a pass over a queue: blocking
/// ends the pass quietly, a reset ends it as a reset, anything else is an
/// error.
pub open spec fn after_failure(failure: IoFailure) -> Result<QueueStep, AspenRsError> {
    match failure {
        IoFailure::WouldBlock => Ok(QueueStep::Stop(OpenProgress::MadeProgress)),
        IoFailure::ConnectionReset => Ok(QueueStep::Stop(OpenProgress::ConnectionReset)),
        _ => Err(AspenRsError::NetworkError(NetworkError::of(failure))),
    }
}

/// The bookkeeping of one open-loop connection, as the contracts see it.
pub struct ConnectionModel {
    /// Every request that was enqueued and has neither completed nor been
    /// dropped.
    pub in_flight: Map<u64, StateModel>,
    /// The requests still being written, oldest first.
    pub write_queue: Seq<u64>,
    /// The requests awaiting their response, in the order they were sent.
    pub read_queue: Seq<u64>,
    pub latencies: LatencyLists,
    /// How many requests were lost to resets.
    pub drop_count: nat,
}

impl ConnectionModel {
    /// A connection with nothing in flight.
    pub open spec fn empty() -> ConnectionModel {
        ConnectionModel {
            in_flight: Map::empty(),
            write_queue: Seq::empty(),
            read_queue: Seq::empty(),
            latencies: LatencyLists::empty(),
            drop_count: 0,
        }
    }

    /// Each request in flight is in exactly one queue, once: in the write
    /// queue while it is being written, in the read queue while it awaits
    /// its response. Nothing else is in a queue.
    pub open spec fn consistent(self) -> bool {
        &&& self.in_flight.dom().finite()
        &&& self.write_queue.no_duplicates()
        &&& self.read_queue.no_duplicates()
        &&& forall|id: u64|
            self.in_flight.contains_key(id) <==> self.write_queue.contains(id)
                || self.read_queue.contains(id)
        &&& forall|id: u64| self.write_queue.contains(id) ==> self.in_flight[id] is Writing
        &&& forall|id: u64| self.read_queue.contains(id) ==> self.in_flight[id] is Reading
    }

    /// The bookkeeping after `req_id` was enqueued with a request whose
    /// class and frame are given.
    pub open spec fn enqueued(self, req_id: u64, kind: RequestType, frame: Seq<u8>) -> ConnectionModel {
        ConnectionModel {
            in_flight: self.in_flight.insert(req_id, StateModel::fresh(kind, frame)),
            write_queue: self.write_queue.push(req_id),
            ..self
        }
    }

    /// The bookkeeping after a write for the head of the write queue that
    /// accepted `n` bytes at time `now`, and what the pass does next: a
    /// request that is written out moves to the back of the read queue and
    /// the pass goes on; a partial write ends the pass.
    pub open spec fn after_write(self, n: nat, now: u128) -> (ConnectionModel, QueueStep) {
        let id = self.write_queue[0];
        let next = self.in_flight[id].after_write(n, now);
        if next is Reading {
            (
                ConnectionModel {
                    in_flight: self.in_flight.insert(id, next),
                    write_queue: self.write_queue.drop_first(),
                    read_queue: self.read_queue.push(id),
                    ..self
                },
                QueueStep::Continue,
            )
        } else {
            (
                ConnectionModel { in_flight: self.in_flight.insert(id, next), ..self },
                QueueStep::Stop(OpenProgress::MadeProgress),
            )
        }
    }

    /// The bookkeeping after a read of `bytes` for the head of the read
    /// queue at time `now`, and what the pass does next; or the error, which
    /// leaves the bookkeeping as it was. A completed response is measured
    /// under the class that was awaited, leaves the queue and the table, and
    /// the pass goes on; an incomplete one ends the pass.
    pub open spec fn after_read(self, bytes: Seq<u8>, now: u128) -> Result<
        (ConnectionModel, QueueStep),
        AspenRsError,
    > {
        let id = self.read_queue[0];
        match self.in_flight[id].after_read(bytes, now) {
            Err(e) => Err(e),
            Ok((next, progress)) => match progress {
                Progress::CompletedResponse(_, latency) => Ok(
                    (
                        ConnectionModel {
                            in_flight: self.in_flight.remove(id),
                            read_queue: self.read_queue.drop_first(),
                            latencies: self.latencies.recorded(next.awaited(), latency),
                            ..self
                        },
                        QueueStep::Continue,
                    ),
                ),
                _ => Ok(
                    (
                        ConnectionModel { in_flight: self.in_flight.insert(id, next), ..self },
                        QueueStep::Stop(OpenProgress::MadeProgress),
                    ),
                ),
            },
        }
    }

    /// The bookkeeping after the connection was replaced: everything in
    /// flight is dropped and counted.
    pub open spec fn dropped(self) -> ConnectionModel {
        ConnectionModel {
            in_flight: Map::empty(),
            write_queue: Seq::empty(),
            read_queue: Seq::empty(),
            drop_count: self.drop_count + self.in_flight.dom().len(),
            ..self
        }
    }
}

/// A reset drops every request in flight, whatever their number, and
/// counts exactly them: the table and both queues are empty afterwards, so
/// none of them is sent again and none is measured; the latencies stay.
/// With a request in a queue, the count grows by one at least.
pub proof fn lemma_reset_counts_what_it_drops(m: ConnectionModel)
    requires
        m.consistent(),
    ensures
        m.dropped().drop_count == m.drop_count + m.in_flight.dom().len(),
        m.dropped().in_flight == Map::<u64, StateModel>::empty(),
        m.dropped().write_queue.len() == 0,
        m.dropped().read_queue.len() == 0,
        m.dropped().latencies == m.latencies,
        m.dropped().consistent(),
        m.write_queue.len() > 0 || m.read_queue.len() > 0 ==> m.dropped().drop_count
            >= m.drop_count + 1,
{
    if m.write_queue.len() > 0 {
        let id = m.write_queue[0];
        assert(m.write_queue.contains(id));
        assert(m.in_flight.dom().remove(id).len() == m.in_flight.dom().len() - 1);
    } else if m.read_queue.len() > 0 {
        let id = m.read_queue[0];
        assert(m.read_queue.contains(id));
        assert(m.in_flight.dom().remove(id).len() == m.in_flight.dom().len() - 1);
    }
}

/// The bookkeeping of one open-loop connection: the requests in flight by
/// id, the queues they wait in, the latencies measured and the requests
/// dropped.
pub struct Connection {
    in_flight: HashMap<u64, RequestState>,
    write_queue: VecDeque<u64>,
    read_queue: VecDeque<u64>,
    latencies: Latencies,
    drop_count: u64,
}

impl View for Connection {
    type V = ConnectionModel;

    closed spec fn view(&self) -> ConnectionModel {
        ConnectionModel {
            in_flight: Map::new(
                |id: u64| self.in_flight@.contains_key(id),
                |id: u64| self.in_flight@[id]@,
            ),
            write_queue: self.write_queue@,
            read_queue: self.read_queue@,
            latencies: self.latencies@,
            drop_count: self.drop_count as nat,
        }
    }
}

impl Connection {
    /// Every request in flight is well formed.
    pub closed spec fn states_wf(&self) -> bool {
        forall|id: u64| #[trigger]
            self.in_flight@.contains_key(id) ==> self.in_flight@[id].wf()
                && self.in_flight@[id]@.awaits_more()
    }

    /// The queues and the table agree, and every request is well formed.
    pub open spec fn wf(&self) -> bool {
        &&& self@.consistent()
        &&& self.states_wf()
    }

    /// The bookkeeping of a fresh connection.
    pub fn new() -> (conn: Connection)
        ensures
            conn.wf(),
            conn@ == ConnectionModel::empty(),
    {
        let conn = Connection {
            in_flight: HashMap::new(),
            write_queue: VecDeque::new(),
            read_queue: VecDeque::new(),
            latencies: Latencies::new(),
            drop_count: 0,
        };
        assert(conn@.in_flight =~= Map::<u64, StateModel>::empty());
        conn
    }

    /// How many requests were lost to resets.
    pub fn drop_count(&self) -> (n: u64)
        ensures
            n == self@.drop_count,
    {
        self.drop_count
    }

    /// The latencies measured on this connection.
    pub fn latencies(&self) -> (lists: &Latencies)
        ensures
            lists@ == self@.latencies,
    {
        &self.latencies
    }

    /// How many requests are in flight.
    pub fn in_flight_len(&self) -> (n: usize)
        ensures
            n == self@.in_flight.dom().len(),
    {
        assert(self@.in_flight.dom() =~= self.in_flight@.dom());
        self.in_flight.len()
    }

    /// Whether any request is still being written.
    pub fn has_writes(&self) -> (b: bool)
        ensures
            b == (self@.write_queue.len() > 0),
    {
        self.write_queue.len() > 0
    }

    /// Whether any request awaits its response.
    pub fn has_reads(&self) -> (b: bool)
        ensures
            b == (self@.read_queue.len() > 0),
    {
        self.read_queue.len() > 0
    }

    /// Puts a new request at the back of the write queue. An id that is
    /// still in flight is refused, and nothing changes.
    pub fn enqueue_new_request(&mut self, req: Request, req_id: u64) -> (r: Result<
        (),
        AspenRsError,
    >)
        requires
            old(self).wf(),
        ensures
            final(self).wf(),
            old(self)@.in_flight.contains_key(req_id) ==> final(self)@ == old(self)@ && r == Err::<
                (),
                AspenRsError,
            >(AspenRsError::InternalError(InternalFault::DuplicateRequestId(req_id))),
            !old(self)@.in_flight.contains_key(req_id) ==> final(self)@ == old(self)@.enqueued(
                req_id,
                req@.kind(),
                req@.frame(),
            ) && r is Ok,
    {
        if self.in_flight.contains_key(&req_id) {
            return Err(AspenRsError::InternalError(InternalFault::DuplicateRequestId(req_id)));
        }
        let state: RequestState = RequestState::new(req);
        self.in_flight.insert(req_id, state);
        self.write_queue.push_back(req_id);
        proof {
            let before = old(self)@;
            let after = self@;
            assert(after.in_flight =~= before.in_flight.insert(req_id, state@));
            assert(!before.write_queue.contains(req_id));
            assert forall|id: u64| after.write_queue.contains(id) <==> (before.write_queue.contains(
                id,
            ) || id == req_id) by {
                if before.write_queue.contains(id) {
                    let i = choose|i: int|
                        0 <= i < before.write_queue.len() && before.write_queue[i] == id;
                    assert(after.write_queue[i] == id);
                }
                if id == req_id {
                    assert(after.write_queue[before.write_queue.len() as int] == id);
                }
            }
        }
        Ok(())
    }

    /// The bytes to hand to the next write: what is still unsent of the
    /// request at the head of the write queue.
    pub fn pending_write(&self) -> (bytes: Option<&[u8]>)
        requires
            self.wf(),
        ensures
            self@.write_queue.len() == 0 ==> bytes is None,
            self@.write_queue.len() > 0 ==> (bytes matches Some(b) && b@
                == self@.in_flight[self@.write_queue[0]].unsent()),
    {
        if self.write_queue.len() == 0 {
            return None;
        }
        let id: u64 = self.write_queue[0];
        assert(self@.write_queue.contains(id));
        Some(self.in_flight.get(&id).unwrap().unsent())
    }

    /// How many bytes to ask of the next read for the head of the read
    /// queue: never past the end of its response.
    pub fn read_limit(&self) -> (limit: usize)
        requires
            self.wf(),
        ensures
            limit <= BUF_LEN,
            self@.read_queue.len() > 0 ==> limit >= 1,
            self@.read_queue.len() == 0 ==> limit == 0,
            self@.read_queue.len() > 0 ==> limit == crate::connection::read_budget(
                self@.in_flight[self@.read_queue[0]]->read_buf,
            ),
    {
        if self.read_queue.len() == 0 {
            return 0;
        }
        let id: u64 = self.read_queue[0];
        assert(self@.read_queue.contains(id));
        self.in_flight.get(&id).unwrap().read_limit()
    }

    /// Replaces the connection's bookkeeping after a reset: every request
    /// in flight is dropped and counted.
    pub fn reset(&mut self)
        requires
            old(self).wf(),
            old(self)@.drop_count + old(self)@.in_flight.dom().len() <= u64::MAX,
        ensures
            final(self).wf(),
            final(self)@ == old(self)@.dropped(),
    {
        let lost: usize = self.in_flight_len();
        self.drop_count = self.drop_count + lost as u64;
        self.in_flight = HashMap::new();
        self.read_queue = VecDeque::new();
        self.write_queue = VecDeque::new();
        assert(self@.in_flight =~= Map::<u64, StateModel>::empty());
    }

    /// Takes in what a write for the head of the write queue came to.
    pub fn on_write(&mut self, outcome: Result<usize, IoFailure>, now: u128) -> (r: Result<
        QueueStep,
        AspenRsError,
    >)
        requires
            old(self).wf(),
            old(self)@.write_queue.len() > 0,
            outcome matches Ok(n) ==> n <= old(self)@.in_flight[old(
                self,
            )@.write_queue[0]].unsent().len(),
        ensures
            final(self).wf(),
            match outcome {
                Ok(n) => final(self)@ == old(self)@.after_write(n as nat, now).0 && r == Ok::<
                    QueueStep,
                    AspenRsError,
                >(old(self)@.after_write(n as nat, now).1),
                Err(failure) => final(self)@ == old(self)@ && r == after_failure(failure),
            },
    {
        let id: u64 = self.write_queue[0];
        assert(old(self)@.write_queue.contains(id));
        let n: usize = match outcome {
            Ok(n) => n,
            Err(failure) => {
                return match failure {
                    IoFailure::WouldBlock => Ok(QueueStep::Stop(OpenProgress::MadeProgress)),
                    IoFailure::ConnectionReset => Ok(
                        QueueStep::Stop(OpenProgress::ConnectionReset),
                    ),
                    _ => Err(AspenRsError::NetworkError(NetworkError::from(failure))),
                };
            },
        };
        let mut state: RequestState = self.in_flight.remove(&id).unwrap();
        let ghost before_state = state@;
        let sent: Result<Progress, AspenRsError> = state.on_write(Ok(n), now);
        let written_out: bool = match state {
            RequestState::Writing { .. } => false,
            RequestState::Reading { .. } => true,
        };
        let ghost next = state@;
        self.in_flight.insert(id, state);
        if written_out {
            let head: Option<u64> = self.write_queue.pop_front();
            self.read_queue.push_back(id);
        }
        proof {
            let before = old(self)@;
            let after = self@;
            assert(next == before_state.after_write(n as nat, now));
            assert(after.in_flight =~= before.in_flight.insert(id, next));
            if written_out {
                assert(after.write_queue =~= before.write_queue.drop_first());
                assert(!before.read_queue.contains(id));
                assert forall|other: u64| after.write_queue.contains(other) <==> (
                before.write_queue.contains(other) && other != id) by {
                    if after.write_queue.contains(other) {
                        let i = choose|i: int|
                            0 <= i < after.write_queue.len() && after.write_queue[i] == other;
                        assert(before.write_queue[i + 1] == other);
                    }
                    if before.write_queue.contains(other) && other != id {
                        let i = choose|i: int|
                            0 <= i < before.write_queue.len() && before.write_queue[i] == other;
                        assert(after.write_queue[i - 1] == other);
                    }
                }
                assert forall|other: u64| after.read_queue.contains(other) <==> (
                before.read_queue.contains(other) || other == id) by {
                    if before.read_queue.contains(other) {
                        let i = choose|i: int|
                            0 <= i < before.read_queue.len() && before.read_queue[i] == other;
                        assert(after.read_queue[i] == other);
                    }
                    if other == id {
                        assert(after.read_queue[before.read_queue.len() as int] == other);
                    }
                }
                assert(after.write_queue.no_duplicates());
                assert(after.read_queue.no_duplicates());
            }
        }
        if written_out {
            Ok(QueueStep::Continue)
        } else {
            Ok(QueueStep::Stop(OpenProgress::MadeProgress))
        }
    }

    /// Takes in what a read for the head of the read queue came to.
    pub fn on_read(&mut self, outcome: Result<&[u8], IoFailure>, now: u128) -> (r: Result<
        QueueStep,
        AspenRsError,
    >)
        requires
            old(self).wf(),
            old(self)@.read_queue.len() > 0,
            outcome matches Ok(bytes) ==> old(self)@.in_flight[old(
                self,
            )@.read_queue[0]]->read_buf.len() + bytes@.len() <= usize::MAX,
        ensures
            final(self).wf(),
            match outcome {
                Ok(bytes) => match old(self)@.after_read(bytes@, now) {
                    Ok((next, step)) => final(self)@ == next && r == Ok::<
                        QueueStep,
                        AspenRsError,
                    >(step),
                    Err(e) => final(self)@ == old(self)@ && r == Err::<QueueStep, AspenRsError>(
                        e,
                    ),
                },
                Err(failure) => final(self)@ == old(self)@ && r == after_failure(failure),
            },
    {
        let id: u64 = self.read_queue[0];
        assert(old(self)@.read_queue.contains(id));
        let bytes: &[u8] = match outcome {
            Ok(bytes) => bytes,
            Err(failure) => {
                return match failure {
                    IoFailure::WouldBlock => Ok(QueueStep::Stop(OpenProgress::MadeProgress)),
                    IoFailure::ConnectionReset => Ok(
                        QueueStep::Stop(OpenProgress::ConnectionReset),
                    ),
                    _ => Err(AspenRsError::NetworkError(NetworkError::from(failure))),
                };
            },
        };
        let mut state: RequestState = self.in_flight.remove(&id).unwrap();
        let ghost before_state = state@;
        let read: Result<Progress, AspenRsError> = state.on_read(Ok(bytes), now);
        let ghost next = state@;
        match read {
            Err(e) => {
                self.in_flight.insert(id, state);
                proof {
                    assert(self@.in_flight =~= old(self)@.in_flight);
                }
                Err(e)
            },
            Ok(Progress::CompletedResponse(_, latency)) => {
                self.latencies.record(state.awaited(), latency);
                let head: Option<u64> = self.read_queue.pop_front();
                proof {
                    let before = old(self)@;
                    let after = self@;
                    assert(after.in_flight =~= before.in_flight.remove(id));
                    assert(after.read_queue =~= before.read_queue.drop_first());
                    assert(!before.write_queue.contains(id));
                    assert forall|other: u64| after.read_queue.contains(other) <==> (
                    before.read_queue.contains(other) && other != id) by {
                        if after.read_queue.contains(other) {
                            let i = choose|i: int|
                                0 <= i < after.read_queue.len() && after.read_queue[i] == other;
                            assert(before.read_queue[i + 1] == other);
                        }
                        if before.read_queue.contains(other) && other != id {
                            let i = choose|i: int|
                                0 <= i < before.read_queue.len() && before.read_queue[i] == other;
                            assert(after.read_queue[i - 1] == other);
                        }
                    }
                    assert(after.read_queue.no_duplicates());
                }
                Ok(QueueStep::Continue)
            },
            Ok(_) => {
                self.in_flight.insert(id, state);
                proof {
                    assert(self@.in_flight =~= old(self)@.in_flight.insert(id, next));
                }
                Ok(QueueStep::Stop(OpenProgress::MadeProgress))
            },
        }
    }
}

/// What one open-loop thread carries through a run: its request ids and
/// what it gathers from its connections at the end.
pub struct ClientThread {
    pub ids: ReqIdAllocator,
    pub latencies: Latencies,
    pub drop_count: u64,
}

impl ClientThread {
    /// The state of thread `thread` at the start of a run, with `shift` low
    /// id bits for the thread's index; nothing if the index does not fit.
    pub fn init(thread: u64, shift: u8) -> (made: Option<ClientThread>)
        ensures
            shift <= 64 && thread < pow2(shift as nat) <==> made is Some,
            made matches Some(t) ==> t.ids.wf() && t.ids.thread() == thread && t.ids.shift()
                == shift && t.ids.counter() == 0 && t.latencies@ == LatencyLists::empty()
                && t.drop_count == 0,
    {
        match ReqIdAllocator::new(thread, shift) {
            Some(ids) => Some(ClientThread { ids, latencies: Latencies::new(), drop_count: 0 }),
            None => None,
        }
    }

    /// The next request of the thread: a random one of the class that the
    /// two draws choose, under the thread's next id. Nothing once the ids
    /// are used up.
    pub fn generate_random_request(&mut self, be_hit: bool, write_hit: bool) -> (made: Option<
        (Request, u64),
    >)
        requires
            old(self).ids.wf(),
        ensures
            final(self).ids.wf(),
            final(self).ids.thread() == old(self).ids.thread(),
            final(self).ids.shift() == old(self).ids.shift(),
            final(self).latencies == old(self).latencies,
            final(self).drop_count == old(self).drop_count,
            match made {
                Some((req, req_id)) => {
                    &&& req_id == req_id_of(
                        old(self).ids.thread(),
                        old(self).ids.shift(),
                        old(self).ids.counter(),
                    )
                    &&& final(self).ids.counter() == old(self).ids.counter() + 1
                    &&& req@.req_id() == req_id
                    &&& req@.kind() == crate::client::request_type_for(be_hit, write_hit)
                    &&& Request::is_generated(req@)
                },
                None => req_id_of(
                    old(self).ids.thread(),
                    old(self).ids.shift(),
                    old(self).ids.counter(),
                ) > u64::MAX && final(self).ids.counter() == old(self).ids.counter(),
            },
    {
        let req_id: u64 = match self.ids.next_id() {
            Some(req_id) => req_id,
            None => {
                return None;
            },
        };
        let kind: RequestType = choose_request_type(be_hit, write_hit);
        Some((Request::random(kind, req_id), req_id))
    }

    /// Adds what one connection measured and dropped to the thread's
    /// totals.
    pub fn collect(&mut self, conn: &Connection)
        requires
            old(self).drop_count + conn@.drop_count <= u64::MAX,
        ensures
            final(self).ids == old(self).ids,
            final(self).drop_count == old(self).drop_count + conn@.drop_count,
            final(self).latencies@ == old(self).latencies@.extended(conn@.latencies),
    {
        self.drop_count = self.drop_count + conn.drop_count();
        self.latencies.extend_from(conn.latencies());
    }
}

} // verus!

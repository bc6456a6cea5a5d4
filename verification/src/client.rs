//! The closed-loop client: one request at a time on each connection.
use vstd::prelude::*;
use crate::connection::{RequestState, StateModel};
use crate::error::{AspenRsError, IoFailure};
use crate::latency::{Latencies, LatencyLists};
use crate::packet::{Request, RequestType, ResponseType};
use crate::BUF_LEN;

pub mod open;

verus! {

/// What one step on a connection came to.
#[derive(Clone, Copy, Debug, PartialEq, Eq, Structural)]
pub enum Progress {
    /// The socket was not ready; nothing changed.
    WouldBlock,
    /// Bytes moved, and the request is not finished.
    MadeProgress,
    /// The first bytes of a request went out.
    SentRequest,
    /// A whole response arrived: its class and the latency in microseconds.
    CompletedResponse(ResponseType, u128),
    /// The peer reset the connection; the flag says whether a request was
    /// in flight.
    ConnectionReset(bool),
    /// Nothing to do.
    Idle,
}

/// Which of its three states a connection is in.
#[derive(Clone, Copy, Debug, PartialEq, Eq, Structural)]
pub enum ConnStateType {
    Ready,
    WritingRequest,
    ReadingResponse,
}

/// The state of a closed-loop connection: ready, or busy with one request.
pub struct ConnectionStatus {
    state: Option<RequestState>,
}

impl View for ConnectionStatus {
    type V = Option<StateModel>;

    closed spec fn view(&self) -> Option<StateModel> {
        match self.state {
            Some(state) => Some(state@),
            None => None,
        }
    }
}

impl ConnectionStatus {
    /// The request in progress, if any, is well formed. Every function
    /// here keeps it so.
    pub closed spec fn wf(&self) -> bool {
        self.state matches Some(state) ==> state.wf() && state@.awaits_more()
    }

    /// The state that follows a step which reported `progress` and left the
    /// request in state `next`: a completed response makes the connection
    /// ready again.
    pub open spec fn settle(next: StateModel, progress: Progress) -> Option<StateModel> {
        if progress is CompletedResponse {
            None
        } else {
            Some(next)
        }
    }

    /// A connection that is ready for its first request.
    pub fn new() -> (status: ConnectionStatus)
        ensures
            status.wf(),
            status@ is None,
    {
        ConnectionStatus { state: None }
    }

    /// Which state the connection is in.
    pub fn kind(&self) -> (k: ConnStateType)
        ensures
            k == match self@ {
                None => ConnStateType::Ready,
                Some(StateModel::Writing { .. }) => ConnStateType::WritingRequest,
                Some(StateModel::Reading { .. }) => ConnStateType::ReadingResponse,
            },
    {
        match &self.state {
            None => ConnStateType::Ready,
            Some(RequestState::Writing { .. }) => ConnStateType::WritingRequest,
            Some(RequestState::Reading { .. }) => ConnStateType::ReadingResponse,
        }
    }

    /// Offers the connection a request while it is ready. With a request it
    /// starts writing; without one it stays idle.
    pub fn submit(&mut self, req: Option<Request>) -> (progress: Progress)
        requires
            old(self)@ is None,
        ensures
            final(self).wf(),
            match req {
                Some(req) => progress == Progress::MadeProgress && final(self)@ == Some(
                    StateModel::fresh(req@.kind(), req@.frame()),
                ),
                None => progress == Progress::Idle && final(self)@ is None,
            },
    {
        match req {
            Some(req) => {
                self.state = Some(RequestState::new(req));
                Progress::MadeProgress
            },
            None => Progress::Idle,
        }
    }

    /// The bytes to hand to the next write; none unless a request is being
    /// written.
    pub fn unsent(&self) -> (bytes: &[u8])
        requires
            self.wf(),
        ensures
            bytes@ == match self@ {
                Some(state) => state.unsent(),
                None => Seq::<u8>::empty(),
            },
    {
        match &self.state {
            Some(state) => state.unsent(),
            None => {
                let empty: &[u8] = &[];
                empty
            },
        }
    }

    /// How many bytes to ask of the next read; none unless a response is
    /// awaited.
    pub fn read_limit(&self) -> (limit: usize)
        requires
            self.wf(),
        ensures
            limit <= BUF_LEN,
            self@ matches Some(StateModel::Reading { .. }) ==> limit >= 1,
            self@ matches Some(StateModel::Reading { read_buf, .. }) ==> limit
                == crate::connection::read_budget(read_buf),
            !(self@ matches Some(StateModel::Reading { .. })) ==> limit == 0,
    {
        match &self.state {
            Some(state) => state.read_limit(),
            None => 0,
        }
    }

    /// Takes in what a write on the socket came to, while a request is
    /// being written.
    pub fn on_write(&mut self, outcome: Result<usize, IoFailure>, now: u128) -> (r: Result<
        Progress,
        AspenRsError,
    >)
        requires
            old(self).wf(),
            old(self)@ matches Some(state) && state is Writing && (outcome matches Ok(n) ==> n
                <= state.unsent().len()),
        ensures
            final(self).wf(),
            match outcome {
                Ok(n) => final(self)@ == Some(old(self)@->0.after_write(n as nat, now)) && r
                    == Ok::<Progress, AspenRsError>(old(self)@->0.write_progress()),
                Err(failure) => final(self)@ == old(self)@ && r == old(self)@->0.after_failure(
                    failure,
                ),
            },
    {
        let mut state: RequestState = match self.state.take() {
            Some(state) => state,
            None => {
                return Ok(Progress::Idle);
            },
        };
        let r: Result<Progress, AspenRsError> = state.on_write(outcome, now);
        self.state = Some(state);
        r
    }

    /// Takes in what a read on the socket came to, while a response is
    /// awaited. A completed response makes the connection ready again.
    pub fn on_read(&mut self, outcome: Result<&[u8], IoFailure>, now: u128) -> (r: Result<
        Progress,
        AspenRsError,
    >)
        requires
            old(self).wf(),
            old(self)@ matches Some(StateModel::Reading { read_buf, .. }) && (outcome matches Ok(
                bytes,
            ) ==> read_buf.len() + bytes@.len() <= usize::MAX),
        ensures
            final(self).wf(),
            match outcome {
                Ok(bytes) => match old(self)@->0.after_read(bytes@, now) {
                    Ok((next, progress)) => final(self)@ == ConnectionStatus::settle(
                        next,
                        progress,
                    ) && r == Ok::<Progress, AspenRsError>(progress),
                    Err(e) => final(self)@ == old(self)@ && r == Err::<Progress, AspenRsError>(e),
                },
                Err(failure) => final(self)@ == old(self)@ && r == old(self)@->0.after_failure(
                    failure,
                ),
            },
    {
        let mut state: RequestState = match self.state.take() {
            Some(state) => state,
            None => {
                return Ok(Progress::Idle);
            },
        };
        let r: Result<Progress, AspenRsError> = state.on_read(outcome, now);
        if let Ok(Progress::CompletedResponse(_, _)) = r {
        } else {
            self.state = Some(state);
        }
        r
    }

    /// Forgets the request, if any: the connection was replaced.
    pub fn reset(&mut self)
        ensures
            final(self).wf(),
            final(self)@ is None,
    {
        self.state = None;
    }
}

/// The class that two independent draws choose: a scan if the first hit,
/// else a write if the second hit, else a read.
pub open spec fn request_type_for(be_hit: bool, write_hit: bool) -> RequestType {
    if be_hit {
        RequestType::BeRead
    } else if write_hit {
        RequestType::LcWrite
    } else {
        RequestType::LcRead
    }
}

/// The class of the next random request, from the outcome of two
/// independent draws.
pub fn choose_request_type(be_hit: bool, write_hit: bool) -> (kind: RequestType)
    ensures
        kind == request_type_for(be_hit, write_hit),
{
    if be_hit {
        RequestType::BeRead
    } else if write_hit {
        RequestType::LcWrite
    } else {
        RequestType::LcRead
    }
}

/// Whether a connection has a request in flight: one that a reset would
/// drop.
pub open spec fn has_in_flight(conn: Option<StateModel>) -> bool {
    conn matches Some(state) && state.in_flight()
}

/// How many of `conns` have a request in flight.
pub open spec fn in_flight_count(conns: Seq<Option<StateModel>>) -> nat
    decreases conns.len(),
{
    if conns.len() == 0 {
        0
    } else {
        in_flight_count(conns.drop_last()) + if has_in_flight(conns.last()) {
            1nat
        } else {
            0nat
        }
    }
}

/// No more requests are in flight than there are connections.
pub proof fn lemma_in_flight_count_bound(conns: Seq<Option<StateModel>>)
    ensures
        in_flight_count(conns) <= conns.len(),
    decreases conns.len(),
{
    if conns.len() > 0 {
        lemma_in_flight_count_bound(conns.drop_last());
    }
}

/// Replacing one connection changes the count by that connection alone.
pub proof fn lemma_in_flight_count_update(
    conns: Seq<Option<StateModel>>,
    i: int,
    conn: Option<StateModel>,
)
    requires
        0 <= i < conns.len(),
    ensures
        in_flight_count(conns.update(i, conn)) + (if has_in_flight(conns[i]) {
            1nat
        } else {
            0nat
        }) == in_flight_count(conns) + (if has_in_flight(conn) {
            1nat
        } else {
            0nat
        }),
    decreases conns.len(),
{
    let updated = conns.update(i, conn);
    if i == conns.len() - 1 {
        assert(updated.drop_last() =~= conns.drop_last());
    } else {
        assert(updated.drop_last() =~= conns.drop_last().update(i, conn));
        lemma_in_flight_count_update(conns.drop_last(), i, conn);
    }
}

/// How many requests are pending after a step that reported `progress`: a
/// sent request is one more, a completed response or a reset with a request
/// in flight one less.
pub open spec fn pending_after(pending: int, progress: Progress) -> int {
    match progress {
        Progress::SentRequest => pending + 1,
        Progress::CompletedResponse(_, _) => pending - 1,
        Progress::ConnectionReset(true) => pending - 1,
        _ => pending,
    }
}

/// A closed-loop thread, as the contracts see it.
pub struct ThreadModel {
    /// The state of each connection; `None` is a ready one.
    pub connections: Seq<Option<StateModel>>,
    pub latencies: LatencyLists,
    /// Requests that are still to be issued.
    pub remaining_work: nat,
    /// Requests that were sent and have neither completed nor been dropped.
    pub tasks_pending: nat,
    /// The connection to visit next.
    pub cursor: nat,
}

impl ThreadModel {
    /// The cursor points at a connection, and the pending count is the
    /// number of connections with a request in flight.
    pub open spec fn consistent(self) -> bool {
        &&& self.connections.len() > 0 ==> self.cursor < self.connections.len()
        &&& self.connections.len() == 0 ==> self.cursor == 0
        &&& self.tasks_pending == in_flight_count(self.connections)
    }

    /// The connection being visited.
    pub open spec fn visited(self) -> Option<StateModel> {
        self.connections[self.cursor as int]
    }

    /// The thread after a step on the visited connection that left it in
    /// state `next` and reported `progress`: a reset makes the connection
    /// ready for its replacement, a completed response is measured, and the
    /// pending count follows.
    pub open spec fn after(self, next: Option<StateModel>, progress: Progress) -> ThreadModel {
        ThreadModel {
            connections: self.connections.update(
                self.cursor as int,
                if progress is ConnectionReset {
                    None
                } else {
                    next
                },
            ),
            latencies: match progress {
                Progress::CompletedResponse(kind, latency) => self.latencies.recorded(
                    kind,
                    latency,
                ),
                _ => self.latencies,
            },
            tasks_pending: pending_after(self.tasks_pending as int, progress) as nat,
            ..self
        }
    }
}

/// A closed-loop thread: its connections, visited round-robin, and the
/// counts that say when the run is over.
pub struct ClientThread {
    connections: Vec<ConnectionStatus>,
    latencies: Latencies,
    remaining_work: usize,
    tasks_pending: usize,
    cursor: usize,
}

impl View for ClientThread {
    type V = ThreadModel;

    closed spec fn view(&self) -> ThreadModel {
        ThreadModel {
            connections: Seq::new(self.connections@.len(), |i: int| self.connections@[i]@),
            latencies: self.latencies@,
            remaining_work: self.remaining_work as nat,
            tasks_pending: self.tasks_pending as nat,
            cursor: self.cursor as nat,
        }
    }
}

impl ClientThread {
    /// Every connection is well formed.
    pub closed spec fn connections_wf(&self) -> bool {
        forall|i: int| 0 <= i < self.connections@.len() ==> (#[trigger] self.connections@[i]).wf()
    }

    /// The counts agree with the connections, and every connection is well
    /// formed.
    pub open spec fn wf(&self) -> bool {
        &&& self@.consistent()
        &&& self.connections_wf()
    }

    /// A thread with `conns_per_thr` ready connections and `workload`
    /// requests to issue.
    pub fn init(workload: usize, conns_per_thr: usize) -> (thread: ClientThread)
        ensures
            thread.wf(),
            thread@.connections == Seq::new(conns_per_thr as nat, |i: int| None::<StateModel>),
            thread@.latencies == LatencyLists::empty(),
            thread@.remaining_work == workload,
            thread@.tasks_pending == 0,
            thread@.cursor == 0,
    {
        let mut connections: Vec<ConnectionStatus> = Vec::new();
        let mut i: usize = 0;
        while i < conns_per_thr
            invariant
                i <= conns_per_thr,
                connections@.len() == i,
                forall|j: int| 0 <= j < i ==> (#[trigger] connections@[j]).wf() && connections@[j]@
                    is None,
            decreases conns_per_thr - i,
        {
            connections.push(ConnectionStatus::new());
            i = i + 1;
        }
        let thread = ClientThread {
            connections,
            latencies: Latencies::new(),
            remaining_work: workload,
            tasks_pending: 0,
            cursor: 0,
        };
        proof {
            let ready = Seq::new(conns_per_thr as nat, |i: int| None::<StateModel>);
            assert(thread@.connections =~= ready);
            lemma_all_ready_count(ready);
        }
        thread
    }

    /// How many connections the thread drives.
    pub fn conns_per_thr(&self) -> (n: usize)
        ensures
            n == self@.connections.len(),
    {
        self.connections.len()
    }

    /// Requests that are still to be issued.
    pub fn remaining_work(&self) -> (n: usize)
        ensures
            n == self@.remaining_work,
    {
        self.remaining_work
    }

    /// Requests that were sent and have neither completed nor been dropped.
    pub fn tasks_pending(&self) -> (n: usize)
        ensures
            n == self@.tasks_pending,
    {
        self.tasks_pending
    }

    /// The index of the connection to visit next.
    pub fn cursor(&self) -> (i: usize)
        ensures
            i == self@.cursor,
    {
        self.cursor
    }

    /// The latencies measured so far.
    pub fn latencies(&self) -> (lists: &Latencies)
        ensures
            lists@ == self@.latencies,
    {
        &self.latencies
    }

    /// Whether the run is over: nothing left to issue and nothing pending.
    pub fn is_done(&self) -> (done: bool)
        ensures
            done == (self@.remaining_work == 0 && self@.tasks_pending == 0),
    {
        self.remaining_work == 0 && self.tasks_pending == 0
    }

    /// The state of the connection being visited.
    pub fn kind(&self) -> (k: ConnStateType)
        requires
            self.wf(),
            self@.connections.len() > 0,
        ensures
            k == match self@.visited() {
                None => ConnStateType::Ready,
                Some(StateModel::Writing { .. }) => ConnStateType::WritingRequest,
                Some(StateModel::Reading { .. }) => ConnStateType::ReadingResponse,
            },
    {
        self.connections[self.cursor].kind()
    }

    /// Decides whether the visited connection gets a new request: it does
    /// if it is ready and work is left, and that work is then taken.
    pub fn claim_work(&mut self) -> (claimed: bool)
        requires
            old(self).wf(),
            old(self)@.connections.len() > 0,
        ensures
            final(self).wf(),
            claimed == (old(self)@.visited() is None && old(self)@.remaining_work > 0),
            final(self)@ == (ThreadModel {
                remaining_work: if claimed {
                    (old(self)@.remaining_work - 1) as nat
                } else {
                    old(self)@.remaining_work
                },
                ..old(self)@
            }),
    {
        let ready: bool = self.connections[self.cursor].kind() == ConnStateType::Ready;
        if ready && self.remaining_work > 0 {
            self.remaining_work = self.remaining_work - 1;
            assert(self@.connections =~= old(self)@.connections);
            true
        } else {
            false
        }
    }

    /// Offers the visited connection a request while it is ready.
    pub fn submit(&mut self, req: Option<Request>) -> (progress: Progress)
        requires
            old(self).wf(),
            old(self)@.connections.len() > 0,
            old(self)@.visited() is None,
        ensures
            final(self).wf(),
            match req {
                Some(req) => progress == Progress::MadeProgress && final(self)@ == old(self)@.after(
                    Some(StateModel::fresh(req@.kind(), req@.frame())),
                    progress,
                ),
                None => progress == Progress::Idle && final(self)@ == old(self)@,
            },
    {
        assert(self.cursor < self.connections@.len());
        let progress: Progress = self.connections[self.cursor].submit(req);
        proof {
            let before = old(self)@;
            let next = self.connections@[self.cursor as int]@;
            assert(self@.connections =~= before.connections.update(self.cursor as int, next));
            lemma_in_flight_count_update(before.connections, self.cursor as int, next);
            assert(before.connections.update(self.cursor as int, before.visited())
                =~= before.connections);
        }
        progress
    }

    /// The bytes to hand to the next write on the visited connection.
    pub fn unsent(&self) -> (bytes: &[u8])
        requires
            self.wf(),
            self@.connections.len() > 0,
        ensures
            bytes@ == match self@.visited() {
                Some(state) => state.unsent(),
                None => Seq::<u8>::empty(),
            },
    {
        self.connections[self.cursor].unsent()
    }

    /// How many bytes to ask of the next read on the visited connection.
    pub fn read_limit(&self) -> (limit: usize)
        requires
            self.wf(),
            self@.connections.len() > 0,
        ensures
            limit <= BUF_LEN,
            self@.visited() matches Some(StateModel::Reading { read_buf, .. }) ==> limit
                == crate::connection::read_budget(read_buf) && limit >= 1,
            !(self@.visited() matches Some(StateModel::Reading { .. })) ==> limit == 0,
    {
        self.connections[self.cursor].read_limit()
    }

    /// Takes in what a write on the visited connection came to, and keeps
    /// the counts: the first bytes of a request make it pending, a reset
    /// drops it if it was and leaves the connection ready for its
    /// replacement.
    pub fn on_write(&mut self, outcome: Result<usize, IoFailure>, now: u128) -> (r: Result<
        Progress,
        AspenRsError,
    >)
        requires
            old(self).wf(),
            old(self)@.connections.len() > 0,
            old(self)@.visited() matches Some(state) && state is Writing && (outcome matches Ok(n)
                ==> n <= state.unsent().len()),
        ensures
            final(self).wf(),
            match outcome {
                Ok(n) => r == Ok::<Progress, AspenRsError>(
                    old(self)@.visited()->0.write_progress(),
                ) && final(self)@ == old(self)@.after(
                    Some(old(self)@.visited()->0.after_write(n as nat, now)),
                    old(self)@.visited()->0.write_progress(),
                ),
                Err(failure) => r == old(self)@.visited()->0.after_failure(failure) && match r {
                    Ok(progress) => final(self)@ == old(self)@.after(
                        old(self)@.visited(),
                        progress,
                    ),
                    Err(_) => final(self)@ == old(self)@,
                },
            },
    {
        assert(self.cursor < self.connections@.len());
        let ghost before = self@.visited();
        let r: Result<Progress, AspenRsError> = self.connections[self.cursor].on_write(
            outcome,
            now,
        );
        proof {
            ClientThread::lemma_only_visited_changed(*old(self), *self);
        }
        self.settle(r, Ghost(before))
    }

    /// Takes in what a read on the visited connection came to, and keeps
    /// the counts: a completed response is measured and no longer pending,
    /// a reset drops the request and leaves the connection ready for its
    /// replacement.
    pub fn on_read(&mut self, outcome: Result<&[u8], IoFailure>, now: u128) -> (r: Result<
        Progress,
        AspenRsError,
    >)
        requires
            old(self).wf(),
            old(self)@.connections.len() > 0,
            old(self)@.visited() matches Some(StateModel::Reading { read_buf, .. }) && (
            outcome matches Ok(bytes) ==> read_buf.len() + bytes@.len() <= usize::MAX),
        ensures
            final(self).wf(),
            match outcome {
                Ok(bytes) => match old(self)@.visited()->0.after_read(bytes@, now) {
                    Ok((next, progress)) => r == Ok::<Progress, AspenRsError>(progress)
                        && final(self)@ == old(self)@.after(
                        ConnectionStatus::settle(next, progress),
                        progress,
                    ),
                    Err(e) => r == Err::<Progress, AspenRsError>(e) && final(self)@ == old(self)@,
                },
                Err(failure) => r == old(self)@.visited()->0.after_failure(failure) && match r {
                    Ok(progress) => final(self)@ == old(self)@.after(
                        old(self)@.visited(),
                        progress,
                    ),
                    Err(_) => final(self)@ == old(self)@,
                },
            },
    {
        assert(self.cursor < self.connections@.len());
        let ghost before = self@.visited();
        let r: Result<Progress, AspenRsError> = self.connections[self.cursor].on_read(
            outcome,
            now,
        );
        proof {
            ClientThread::lemma_only_visited_changed(*old(self), *self);
        }
        self.settle(r, Ghost(before))
    }

    /// A step on the visited connection changes that connection alone:
    /// with the connection put back as it was, the thread is as it was.
    proof fn lemma_only_visited_changed(before: ClientThread, after: ClientThread)
        requires
            before.cursor < before.connections@.len(),
            after.connections@.len() == before.connections@.len(),
            forall|j: int|
                0 <= j < before.connections@.len() && j != before.cursor
                    ==> after.connections@[j] == before.connections@[j],
            after.latencies == before.latencies,
            after.remaining_work == before.remaining_work,
            after.tasks_pending == before.tasks_pending,
            after.cursor == before.cursor,
        ensures
            (ThreadModel {
                connections: after@.connections.update(after@.cursor as int, before@.visited()),
                ..after@
            }) == before@,
            after@.visited() == after.connections@[after.cursor as int]@,
            after@.visited() == before@.visited() ==> after@ == before@,
    {
        let at = before.cursor as int;
        assert(after@.connections.update(at, before@.visited()) =~= before@.connections);
        if after@.visited() == before@.visited() {
            assert(after@.connections =~= before@.connections);
        }
    }

    /// Brings the counts in line with what a step on the visited connection
    /// reported. `before` is the state that the connection was in before
    /// the step.
    fn settle(&mut self, r: Result<Progress, AspenRsError>, before: Ghost<Option<StateModel>>) -> (same:
        Result<Progress, AspenRsError>)
        requires
            old(self).connections_wf(),
            old(self)@.cursor < old(self)@.connections.len(),
            old(self)@.tasks_pending == in_flight_count(
                old(self)@.connections.update(old(self)@.cursor as int, before@),
            ),
            match r {
                Ok(Progress::SentRequest) => !has_in_flight(before@) && has_in_flight(
                    old(self)@.visited(),
                ),
                Ok(Progress::CompletedResponse(_, _)) => has_in_flight(before@)
                    && old(self)@.visited() is None,
                Ok(Progress::ConnectionReset(flag)) => flag == has_in_flight(before@)
                    && old(self)@.visited() == before@,
                Ok(_) => has_in_flight(before@) == has_in_flight(old(self)@.visited()),
                Err(_) => old(self)@.visited() == before@,
            },
        ensures
            same == r,
            final(self).wf(),
            match r {
                Ok(progress) => final(self)@ == (ThreadModel {
                    connections: old(self)@.connections.update(
                        old(self)@.cursor as int,
                        before@,
                    ),
                    ..old(self)@
                }).after(old(self)@.visited(), progress),
                Err(_) => final(self)@ == old(self)@,
            },
    {
        let ghost cur = self@.connections;
        let ghost at = self.cursor as int;
        let len: usize = self.connections.len();
        assert(cur.len() == len);
        let ghost prev = cur.update(at, before@);
        proof {
            lemma_in_flight_count_bound(cur);
            lemma_in_flight_count_update(prev, at, cur[at]);
            assert(prev.update(at, cur[at]) =~= cur);
            assert(prev.update(at, None) =~= cur.update(at, None));
            lemma_in_flight_count_update(cur, at, None);
            lemma_in_flight_count_bound(cur.update(at, None));
        }
        match r {
            Ok(Progress::CompletedResponse(kind, latency)) => {
                self.latencies.record(kind, latency);
                self.tasks_pending = self.tasks_pending - 1;
                assert(self@.connections =~= prev.update(at, cur[at]));
            },
            Ok(Progress::ConnectionReset(in_flight)) => {
                self.connections[self.cursor].reset();
                if in_flight {
                    self.tasks_pending = self.tasks_pending - 1;
                }
                assert(self@.connections =~= prev.update(at, None));
            },
            Ok(Progress::SentRequest) => {
                self.tasks_pending = self.tasks_pending + 1;
                assert(self@.connections =~= prev.update(at, cur[at]));
            },
            Ok(_) => {
                assert(self@.connections =~= prev.update(at, cur[at]));
            },
            Err(_) => {
                assert(cur =~= prev);
            },
        }
        r
    }

    /// Moves on to the next connection, round-robin.
    pub fn advance(&mut self)
        requires
            old(self).wf(),
            old(self)@.connections.len() > 0,
        ensures
            final(self).wf(),
            final(self)@ == (ThreadModel {
                cursor: (((old(self)@.cursor + 1) as int) % (old(self)@.connections.len() as int)) as nat,
                ..old(self)@
            }),
    {
        proof {
            let m = self.connections@.len() as int;
            if self.cursor + 1 == m {
                vstd::arithmetic::div_mod::lemma_mod_self_0(m);
            } else {
                vstd::arithmetic::div_mod::lemma_small_mod((self.cursor + 1) as nat, m as nat);
            }
        }
        let len: usize = self.connections.len();
        assert(self.cursor < len);
        if self.cursor + 1 == len {
            self.cursor = 0;
        } else {
            self.cursor = self.cursor + 1;
        }
        assert(self@.connections =~= old(self)@.connections);
    }
}

/// Among connections that are all ready, no request is in flight.
pub proof fn lemma_all_ready_count(conns: Seq<Option<StateModel>>)
    requires
        forall|i: int| 0 <= i < conns.len() ==> conns[i] is None,
    ensures
        in_flight_count(conns) == 0,
    decreases conns.len(),
{
    if conns.len() > 0 {
        lemma_all_ready_count(conns.drop_last());
    }
}

} // verus!

//! Whole exchanges on a closed-loop connection: a request handed over,
//! written out in any pieces, and its response read in any pieces.
//!
//! The functions of `ConnectionStatus` fix each step. Here the steps are put
//! in a row, and the laws say what a row of them comes to.
use vstd::prelude::*;
use crate::client::{has_in_flight, in_flight_count, lemma_in_flight_count_update};
use crate::client::{ConnectionStatus, Progress, ThreadModel};
use crate::connection::{elapsed, lemma_partial_response_is_gathered};
use crate::connection::{lemma_whole_response_completes, lemma_writes_compose, StateModel};
use crate::error::AspenRsError;
use crate::latency::LatencyLists;
use crate::packet::{RequestModel, ResponseModel, ResponseType};

verus! {

/// What happens on a connection, one step at a time.
pub enum Event {
    /// A request is handed to the ready connection.
    Submit(RequestModel),
    /// A write accepted this many bytes at this time.
    Wrote(nat, u128),
    /// A read gave these bytes at this time.
    Read(Seq<u8>, u128),
}

/// What one event does to a connection, as `submit`, `on_write` and
/// `on_read` do it: the state afterwards and what is reported. An event that
/// the state has no use for changes nothing.
pub open spec fn step(conn: Option<StateModel>, event: Event) -> Result<
    (Option<StateModel>, Progress),
    AspenRsError,
> {
    match event {
        Event::Submit(req) => match conn {
            None => Ok((Some(StateModel::fresh(req.kind(), req.frame())), Progress::MadeProgress)),
            Some(_) => Ok((conn, Progress::Idle)),
        },
        Event::Wrote(n, now) => match conn {
            Some(state) => if state is Writing {
                Ok((Some(state.after_write(n, now)), state.write_progress()))
            } else {
                Ok((conn, Progress::Idle))
            },
            None => Ok((conn, Progress::Idle)),
        },
        Event::Read(bytes, now) => match conn {
            Some(state) => if state is Reading {
                match state.after_read(bytes, now) {
                    Ok((next, progress)) => Ok((ConnectionStatus::settle(next, progress), progress)),
                    Err(e) => Err(e),
                }
            } else {
                Ok((conn, Progress::Idle))
            },
            None => Ok((conn, Progress::Idle)),
        },
    }
}

/// What a row of events does to a connection: the state at the end and the
/// reports in order, or the first error.
pub open spec fn run(conn: Option<StateModel>, events: Seq<Event>) -> Result<
    (Option<StateModel>, Seq<Progress>),
    AspenRsError,
>
    decreases events.len(),
{
    if events.len() == 0 {
        Ok((conn, Seq::empty()))
    } else {
        match run(conn, events.drop_last()) {
            Err(e) => Err(e),
            Ok((mid, reports)) => match step(mid, events.last()) {
                Err(e) => Err(e),
                Ok((next, progress)) => Ok((next, reports.push(progress))),
            },
        }
    }
}

/// The completed responses among `reports`, in order: the class and the
/// latency of each.
pub open spec fn completions(reports: Seq<Progress>) -> Seq<(ResponseType, u128)>
    decreases reports.len(),
{
    if reports.len() == 0 {
        Seq::empty()
    } else {
        match reports.last() {
            Progress::CompletedResponse(kind, latency) => completions(reports.drop_last()).push(
                (kind, latency),
            ),
            _ => completions(reports.drop_last()),
        }
    }
}

/// The sum of the amounts.
pub open spec fn total(pieces: Seq<nat>) -> nat
    decreases pieces.len(),
{
    if pieces.len() == 0 {
        0
    } else {
        total(pieces.drop_last()) + pieces.last()
    }
}

/// The chunks put end to end.
pub open spec fn joined(chunks: Seq<Seq<u8>>) -> Seq<u8>
    decreases chunks.len(),
{
    if chunks.len() == 0 {
        Seq::empty()
    } else {
        joined(chunks.drop_last()) + chunks.last()
    }
}

/// One write for each piece.
pub open spec fn writes(pieces: Seq<nat>, times: Seq<u128>) -> Seq<Event> {
    Seq::new(pieces.len(), |i: int| Event::Wrote(pieces[i], times[i]))
}

/// One read for each chunk.
pub open spec fn reads(chunks: Seq<Seq<u8>>, times: Seq<u128>) -> Seq<Event> {
    Seq::new(chunks.len(), |i: int| Event::Read(chunks[i], times[i]))
}

/// A run of two rows of events is the run of the first, then the run of the
/// second from where the first ended.
pub proof fn lemma_run_concat(conn: Option<StateModel>, first: Seq<Event>, second: Seq<Event>)
    ensures
        run(conn, first + second) == match run(conn, first) {
            Err(e) => Err::<(Option<StateModel>, Seq<Progress>), AspenRsError>(e),
            Ok((mid, reports)) => match run(mid, second) {
                Err(e) => Err(e),
                Ok((end, more)) => Ok((end, reports + more)),
            },
        },
    decreases second.len(),
{
    if second.len() == 0 {
        assert(first + second =~= first);
        match run(conn, first) {
            Ok((mid, reports)) => {
                assert(reports + Seq::<Progress>::empty() =~= reports);
            },
            Err(_) => {},
        }
    } else {
        assert((first + second).drop_last() =~= first + second.drop_last());
        lemma_run_concat(conn, first, second.drop_last());
        match run(conn, first) {
            Ok((mid, reports)) => {
                match run(mid, second.drop_last()) {
                    Ok((near, more)) => {
                        match step(near, second.last()) {
                            Ok((end, progress)) => {
                                assert((reports + more).push(progress) =~= reports + more.push(
                                    progress,
                                ));
                            },
                            Err(_) => {},
                        }
                    },
                    Err(_) => {},
                }
            },
            Err(_) => {},
        }
    }
}

/// The completions of two rows of reports are those of the first, then
/// those of the second.
pub proof fn lemma_completions_concat(first: Seq<Progress>, second: Seq<Progress>)
    ensures
        completions(first + second) == completions(first) + completions(second),
    decreases second.len(),
{
    if second.len() == 0 {
        assert(first + second =~= first);
        assert(completions(first) + completions(second) =~= completions(first));
    } else {
        assert((first + second).drop_last() =~= first + second.drop_last());
        lemma_completions_concat(first, second.drop_last());
        match second.last() {
            Progress::CompletedResponse(kind, latency) => {
                assert((completions(first) + completions(second.drop_last())).push(
                    (kind, latency),
                ) =~= completions(first) + completions(second.drop_last()).push((kind, latency)));
            },
            _ => {},
        }
    }
}

/// Reports without a completed response hold no completion.
pub proof fn lemma_no_completions(reports: Seq<Progress>)
    requires
        forall|i: int| 0 <= i < reports.len() ==> !(#[trigger] reports[i] is CompletedResponse),
    ensures
        completions(reports) == Seq::<(ResponseType, u128)>::empty(),
    decreases reports.len(),
{
    if reports.len() > 0 {
        lemma_no_completions(reports.drop_last());
    }
}

/// However a socket takes a request, in one piece or byte by byte, the
/// writes come to the same as one write of the whole at the time of the
/// first: each write goes on where the last one stopped, the first reports
/// what a first write reports, and every later one reports progress.
pub proof fn lemma_writes_in_pieces(state: StateModel, pieces: Seq<nat>, times: Seq<u128>)
    requires
        state matches StateModel::Writing { write_buf, offset, .. } && offset + total(pieces)
            <= write_buf.len() && offset + total(pieces.drop_last()) < write_buf.len(),
        pieces.len() >= 1,
        times.len() == pieces.len(),
    ensures
        run(Some(state), writes(pieces, times)) matches Ok((end, reports)) && {
            &&& end == Some(state.after_write(total(pieces), times[0]))
            &&& reports.len() == pieces.len()
            &&& reports[0] == state.write_progress()
            &&& forall|i: int| 0 < i < reports.len() ==> reports[i] == Progress::MadeProgress
        },
    decreases pieces.len(),
{
    let events = writes(pieces, times);
    let rest = pieces.drop_last();
    assert(events.drop_last() =~= writes(rest, times.drop_last()));
    if pieces.len() == 1 {
        assert(total(rest) == 0);
        assert(run(Some(state), events.drop_last()) == Ok::<
            (Option<StateModel>, Seq<Progress>),
            AspenRsError,
        >((Some(state), Seq::empty())));
    } else {
        assert(total(rest) == total(rest.drop_last()) + rest.last());
        lemma_writes_in_pieces(state, rest, times.drop_last());
        lemma_writes_compose(state, total(rest), times[0], pieces.last(), times.last());
    }
}

/// While the pieces read so far fall short of a response, each of them is
/// gathered and reported as progress.
pub proof fn lemma_response_partly_read(
    res: ResponseModel,
    start_time: u128,
    chunks: Seq<Seq<u8>>,
    times: Seq<u128>,
)
    requires
        res.frame().len() <= usize::MAX,
        times.len() == chunks.len(),
        forall|i: int| 0 <= i < chunks.len() ==> (#[trigger] chunks[i]).len() > 0,
        joined(chunks).len() < res.frame().len(),
        joined(chunks) == res.frame().take(joined(chunks).len() as int),
    ensures
        run(
            Some(StateModel::Reading { res_type: res.kind(), start_time, read_buf: Seq::empty() }),
            reads(chunks, times),
        ) matches Ok((end, reports)) && {
            &&& end == Some(
                StateModel::Reading { res_type: res.kind(), start_time, read_buf: joined(chunks) },
            )
            &&& reports.len() == chunks.len()
            &&& forall|i: int| 0 <= i < reports.len() ==> reports[i] == Progress::MadeProgress
        },
    decreases chunks.len(),
{
    let frame = res.frame();
    let events = reads(chunks, times);
    if chunks.len() > 0 {
        let rest = chunks.drop_last();
        let upto = joined(chunks).len() as int;
        let gathered = joined(rest).len() as int;
        assert(events.drop_last() =~= reads(rest, times.drop_last()));
        assert(joined(rest) =~= frame.take(gathered)) by {
            assert(joined(chunks) == joined(rest) + chunks.last());
            assert forall|i: int| 0 <= i < gathered implies joined(rest)[i] == frame[i] by {
                assert(joined(chunks)[i] == joined(rest)[i]);
                assert(frame.take(upto)[i] == frame[i]);
            }
        }
        assert(chunks.last() =~= frame.subrange(gathered, upto)) by {
            assert(joined(chunks) == joined(rest) + chunks.last());
            assert forall|i: int| 0 <= i < upto - gathered implies chunks.last()[i] == frame[
                gathered + i] by {
                assert(joined(chunks)[gathered + i] == chunks.last()[i]);
                assert(frame.take(upto)[gathered + i] == frame[gathered + i]);
            }
        }
        lemma_response_partly_read(res, start_time, rest, times.drop_last());
        lemma_partial_response_is_gathered(res, start_time, gathered, upto, times.last());
        assert(frame.take(upto) =~= joined(chunks));
    }
}

/// However a response of the awaited class arrives, in one piece or byte by
/// byte, the reads report exactly one completed response, with the last
/// piece: its class, and the time from the first write to that read. The
/// connection is then ready again.
pub proof fn lemma_response_in_pieces(
    res: ResponseModel,
    start_time: u128,
    chunks: Seq<Seq<u8>>,
    times: Seq<u128>,
)
    requires
        res.frame().len() <= usize::MAX,
        chunks.len() >= 1,
        times.len() == chunks.len(),
        forall|i: int| 0 <= i < chunks.len() ==> (#[trigger] chunks[i]).len() > 0,
        joined(chunks) == res.frame(),
    ensures
        run(
            Some(StateModel::Reading { res_type: res.kind(), start_time, read_buf: Seq::empty() }),
            reads(chunks, times),
        ) matches Ok((end, reports)) && {
            &&& end is None
            &&& reports.len() == chunks.len()
            &&& forall|i: int| 0 <= i < reports.len() - 1 ==> reports[i] == Progress::MadeProgress
            &&& reports.last() == Progress::CompletedResponse(
                res.kind(),
                elapsed(start_time, times.last()),
            )
            &&& completions(reports) == seq![(res.kind(), elapsed(start_time, times.last()))]
        },
{
    let frame = res.frame();
    let events = reads(chunks, times);
    let rest = chunks.drop_last();
    let gathered = joined(rest).len() as int;
    assert(events.drop_last() =~= reads(rest, times.drop_last()));
    assert(joined(chunks) == joined(rest) + chunks.last());
    assert(joined(rest) =~= frame.take(gathered));
    assert(chunks.last() =~= frame.subrange(gathered, frame.len() as int));
    lemma_response_partly_read(res, start_time, rest, times.drop_last());
    lemma_whole_response_completes(res, start_time, gathered, times.last());
    let reports = run(
        Some(StateModel::Reading { res_type: res.kind(), start_time, read_buf: Seq::empty() }),
        events,
    )->Ok_0.1;
    lemma_no_completions(reports.drop_last());
    assert(completions(reports) =~= seq![(res.kind(), elapsed(start_time, times.last()))]);
}

/// One request on a ready connection, with its response and the pieces in
/// which the socket moves the two.
pub struct Exchange {
    pub req: RequestModel,
    pub res: ResponseModel,
    /// How many bytes each write accepts.
    pub pieces: Seq<nat>,
    pub write_times: Seq<u128>,
    /// The bytes that each read gives.
    pub chunks: Seq<Seq<u8>>,
    pub read_times: Seq<u128>,
}

impl Exchange {
    /// The response is a well-formed one of the class that answers the
    /// request; the writes take the request's frame, the last of them its
    /// end; the reads give the response's frame, none of them nothing.
    pub open spec fn sound(self) -> bool {
        &&& self.res.kind() == ResponseType::answering(self.req.kind())
        &&& self.res.frame().len() <= usize::MAX
        &&& self.pieces.len() >= 1
        &&& self.write_times.len() == self.pieces.len()
        &&& total(self.pieces) == self.req.frame().len()
        &&& total(self.pieces.drop_last()) < self.req.frame().len()
        &&& self.chunks.len() >= 1
        &&& self.read_times.len() == self.chunks.len()
        &&& forall|i: int| 0 <= i < self.chunks.len() ==> (#[trigger] self.chunks[i]).len() > 0
        &&& joined(self.chunks) == self.res.frame()
    }

    /// The events of the exchange: the request is handed over, written and
    /// answered.
    pub open spec fn events(self) -> Seq<Event> {
        seq![Event::Submit(self.req)] + writes(self.pieces, self.write_times) + reads(
            self.chunks,
            self.read_times,
        )
    }

    /// What the exchange is to report when it completes: the class that
    /// answers the request, and the time from the first write to the last
    /// read.
    pub open spec fn completion(self) -> (ResponseType, u128) {
        (
            ResponseType::answering(self.req.kind()),
            elapsed(self.write_times[0], self.read_times.last()),
        )
    }
}

/// The events of a row of exchanges, one after the other.
pub open spec fn all_events(exchanges: Seq<Exchange>) -> Seq<Event>
    decreases exchanges.len(),
{
    if exchanges.len() == 0 {
        Seq::empty()
    } else {
        all_events(exchanges.drop_last()) + exchanges.last().events()
    }
}

/// An exchange on a ready connection reports exactly one completed
/// response, of the class that answers the request, and leaves the
/// connection ready, in however many pieces the socket writes and reads.
pub proof fn lemma_exchange_completes_once(x: Exchange)
    requires
        x.sound(),
    ensures
        run(None, x.events()) matches Ok((end, reports)) && end is None && completions(reports)
            == seq![x.completion()],
{
    let start = StateModel::fresh(x.req.kind(), x.req.frame());
    let submit = seq![Event::Submit(x.req)];
    let wrote = writes(x.pieces, x.write_times);
    let read = reads(x.chunks, x.read_times);
    assert(submit.drop_last() =~= Seq::<Event>::empty());
    assert(run(None, submit.drop_last()) == Ok::<
        (Option<StateModel>, Seq<Progress>),
        AspenRsError,
    >((None, Seq::empty())));
    assert(run(None, submit) == Ok::<(Option<StateModel>, Seq<Progress>), AspenRsError>(
        (Some(start), Seq::<Progress>::empty().push(Progress::MadeProgress)),
    ));
    lemma_writes_in_pieces(start, x.pieces, x.write_times);
    lemma_run_concat(None, submit, wrote);
    lemma_response_in_pieces(x.res, x.write_times[0], x.chunks, x.read_times);
    lemma_run_concat(None, submit + wrote, read);
    let first = run(None, submit)->Ok_0.1;
    let second = run(Some(start), wrote)->Ok_0.1;
    let reading = start.after_write(total(x.pieces), x.write_times[0]);
    assert(reading == StateModel::Reading {
        res_type: x.res.kind(),
        start_time: x.write_times[0],
        read_buf: Seq::empty(),
    });
    let third = run(Some(reading), read)->Ok_0.1;
    lemma_no_completions(first);
    lemma_no_completions(second);
    lemma_completions_concat(first, second);
    lemma_completions_concat(first + second, third);
    assert(completions(first + second + third) =~= seq![x.completion()]);
}

/// Exchanges in a row on a ready connection report exactly one completed
/// response each, in the order of the requests and each of the class that
/// answers its request, and leave the connection ready.
pub proof fn lemma_exchanges_complete_in_order(exchanges: Seq<Exchange>)
    requires
        forall|i: int| 0 <= i < exchanges.len() ==> (#[trigger] exchanges[i]).sound(),
    ensures
        run(None, all_events(exchanges)) matches Ok((end, reports)) && end is None
            && completions(reports) == exchanges.map_values(|x: Exchange| x.completion()),
    decreases exchanges.len(),
{
    let wanted = exchanges.map_values(|x: Exchange| x.completion());
    if exchanges.len() == 0 {
        assert(wanted =~= Seq::<(ResponseType, u128)>::empty());
    } else {
        let rest = exchanges.drop_last();
        let last = exchanges.last();
        lemma_exchanges_complete_in_order(rest);
        lemma_exchange_completes_once(last);
        lemma_run_concat(None, all_events(rest), last.events());
        let before = run(None, all_events(rest))->Ok_0.1;
        let after = run(None, last.events())->Ok_0.1;
        lemma_completions_concat(before, after);
        assert(wanted =~= rest.map_values(|x: Exchange| x.completion()).push(last.completion()));
        assert(completions(before) + completions(after) =~= wanted);
    }
}

/// What a row of events on the visited connection does to a closed-loop
/// thread, as its `submit`, `on_write` and `on_read` do it: the thread at
/// the end, or the first error.
pub open spec fn thread_run(thread: ThreadModel, events: Seq<Event>) -> Result<
    ThreadModel,
    AspenRsError,
>
    decreases events.len(),
{
    if events.len() == 0 {
        Ok(thread)
    } else {
        match thread_run(thread, events.drop_last()) {
            Err(e) => Err(e),
            Ok(mid) => match step(mid.visited(), events.last()) {
                Err(e) => Err(e),
                Ok((next, progress)) => Ok(mid.after(next, progress)),
            },
        }
    }
}

/// The lists with each completion recorded under its class, in order.
pub open spec fn with_completions(
    lists: LatencyLists,
    done: Seq<(ResponseType, u128)>,
) -> LatencyLists
    decreases done.len(),
{
    if done.len() == 0 {
        lists
    } else {
        with_completions(lists, done.drop_last()).recorded(done.last().0, done.last().1)
    }
}

/// Recording two rows of completions is recording the first, then the
/// second.
pub proof fn lemma_with_completions_concat(
    lists: LatencyLists,
    first: Seq<(ResponseType, u128)>,
    second: Seq<(ResponseType, u128)>,
)
    ensures
        with_completions(lists, first + second) == with_completions(
            with_completions(lists, first),
            second,
        ),
    decreases second.len(),
{
    if second.len() == 0 {
        assert(first + second =~= first);
    } else {
        assert((first + second).drop_last() =~= first + second.drop_last());
        lemma_with_completions_concat(lists, first, second.drop_last());
    }
}

/// Every completion is one more latency; completions that are all of one
/// class lengthen the list of that class alone.
pub proof fn lemma_with_completions_len(
    lists: LatencyLists,
    done: Seq<(ResponseType, u128)>,
    kind: ResponseType,
)
    ensures
        with_completions(lists, done).total() == lists.total() + done.len(),
        (forall|i: int| 0 <= i < done.len() ==> (#[trigger] done[i]).0 == kind) ==> {
            &&& with_completions(lists, done).of(kind).len() == lists.of(kind).len() + done.len()
            &&& forall|other: ResponseType|
                other != kind ==> with_completions(lists, done).of(other) == lists.of(other)
        },
    decreases done.len(),
{
    if done.len() > 0 {
        lemma_with_completions_len(lists, done.drop_last(), kind);
        if forall|i: int| 0 <= i < done.len() ==> (#[trigger] done[i]).0 == kind {
            assert forall|i: int| 0 <= i < done.drop_last().len() implies (
            #[trigger] done.drop_last()[i]).0 == kind by {
                assert(done[i].0 == kind);
            }
            assert(done.last() == done[done.len() - 1]);
        }
    }
}

/// A thread follows its visited connection: after a row of events the
/// connection stands where the events leave it, each completed response is
/// measured, and the pending count is again the number of connections with
/// a request in flight.
pub proof fn lemma_thread_follows_connection(thread: ThreadModel, events: Seq<Event>)
    requires
        thread.consistent(),
        thread.connections.len() > 0,
    ensures
        match run(thread.visited(), events) {
            Ok((end, reports)) => thread_run(thread, events) matches Ok(after) && {
                &&& after.connections == thread.connections.update(thread.cursor as int, end)
                &&& after.latencies == with_completions(thread.latencies, completions(reports))
                &&& after.remaining_work == thread.remaining_work
                &&& after.cursor == thread.cursor
                &&& after.consistent()
            },
            Err(e) => thread_run(thread, events) == Err::<ThreadModel, AspenRsError>(e),
        },
    decreases events.len(),
{
    let at = thread.cursor as int;
    if events.len() == 0 {
        assert(thread.connections.update(at, thread.visited()) =~= thread.connections);
    } else {
        lemma_thread_follows_connection(thread, events.drop_last());
        match run(thread.visited(), events.drop_last()) {
            Ok((near, reports)) => {
                let mid = thread_run(thread, events.drop_last())->Ok_0;
                assert(mid.visited() == near);
                match step(near, events.last()) {
                    Ok((next, progress)) => {
                        let after = mid.after(next, progress);
                        let all = reports.push(progress);
                        assert(all.drop_last() =~= reports);
                        assert(all.last() == progress);
                        assert(!(progress is ConnectionReset));
                        assert(after.connections =~= thread.connections.update(at, next));
                        lemma_in_flight_count_update(mid.connections, at, next);
                        assert(mid.connections.update(at, next) =~= after.connections);
                        match progress {
                            Progress::CompletedResponse(kind, latency) => {
                                let done = completions(reports);
                                assert(completions(all) == done.push((kind, latency)));
                                assert(done.push((kind, latency)).drop_last() =~= done);
                                assert(has_in_flight(near));
                                assert(next is None);
                            },
                            Progress::SentRequest => {
                                assert(!has_in_flight(near));
                                assert(has_in_flight(next));
                            },
                            _ => {
                                assert(has_in_flight(near) == has_in_flight(next));
                            },
                        }
                    },
                    Err(_) => {},
                }
            },
            Err(_) => {},
        }
    }
}

/// A thread that carries an exchange through on a ready connection
/// measures exactly one latency, under the class that answers the request,
/// and is otherwise as before: the connection is ready again and nothing
/// more is pending.
pub proof fn lemma_thread_carries_exchange(thread: ThreadModel, x: Exchange)
    requires
        thread.consistent(),
        thread.connections.len() > 0,
        thread.visited() is None,
        x.sound(),
    ensures
        thread_run(thread, x.events()) == Ok::<ThreadModel, AspenRsError>(
            ThreadModel {
                latencies: thread.latencies.recorded(x.completion().0, x.completion().1),
                ..thread
            },
        ),
{
    lemma_exchange_completes_once(x);
    lemma_thread_follows_connection(thread, x.events());
    let after = thread_run(thread, x.events())->Ok_0;
    assert(after.connections =~= thread.connections);
    let done = seq![x.completion()];
    assert(done.drop_last() =~= Seq::<(ResponseType, u128)>::empty());
    assert(with_completions(thread.latencies, done.drop_last()) == thread.latencies);
    assert(done.last() == x.completion());
    assert(with_completions(thread.latencies, done) == thread.latencies.recorded(
        x.completion().0,
        x.completion().1,
    ));
}

/// What a thread comes to by taking one piece of work for each exchange and
/// carrying the exchange through on the visited connection.
pub open spec fn thread_carries(thread: ThreadModel, exchanges: Seq<Exchange>) -> Result<
    ThreadModel,
    AspenRsError,
>
    decreases exchanges.len(),
{
    if exchanges.len() == 0 {
        Ok(thread)
    } else {
        match thread_carries(thread, exchanges.drop_last()) {
            Err(e) => Err(e),
            Ok(mid) => thread_run(
                ThreadModel { remaining_work: (mid.remaining_work - 1) as nat, ..mid },
                exchanges.last().events(),
            ),
        }
    }
}

/// A run without resets: a thread with a ready connection that carries as
/// many exchanges through as it has work ends with no work left, nothing
/// pending that was not pending before, and one latency for each request,
/// in order and under the class that answers it.
pub proof fn lemma_thread_carries_exchanges(thread: ThreadModel, exchanges: Seq<Exchange>)
    requires
        thread.consistent(),
        thread.connections.len() > 0,
        thread.visited() is None,
        exchanges.len() <= thread.remaining_work,
        forall|i: int| 0 <= i < exchanges.len() ==> (#[trigger] exchanges[i]).sound(),
    ensures
        thread_carries(thread, exchanges) == Ok::<ThreadModel, AspenRsError>(
            ThreadModel {
                remaining_work: (thread.remaining_work - exchanges.len()) as nat,
                latencies: with_completions(
                    thread.latencies,
                    exchanges.map_values(|x: Exchange| x.completion()),
                ),
                ..thread
            },
        ),
    decreases exchanges.len(),
{
    let wanted = exchanges.map_values(|x: Exchange| x.completion());
    if exchanges.len() == 0 {
        assert(wanted =~= Seq::<(ResponseType, u128)>::empty());
    } else {
        let rest = exchanges.drop_last();
        let last = exchanges.last();
        lemma_thread_carries_exchanges(thread, rest);
        let mid = thread_carries(thread, rest)->Ok_0;
        let claimed = ThreadModel { remaining_work: (mid.remaining_work - 1) as nat, ..mid };
        lemma_thread_carries_exchange(claimed, last);
        assert(wanted.drop_last() =~= rest.map_values(|x: Exchange| x.completion()));
        assert(wanted.last() == last.completion());
    }
}

} // verus!

//! One request on one connection: written out, then its response read in.
//!
//! The socket is not here. Whoever owns it performs the write or the read
//! and reports what happened; these functions decide what that means.
use vstd::prelude::*;
use crate::bytes::{be_value, read_u64_be};
use crate::client::Progress;
use crate::error::{AspenRsError, IoFailure, NetworkError, ParseError};
use crate::packet::{Message, MessageType, Request, RequestType, Response, ResponseModel};
use crate::packet::{ResponseType, HEADER_LEN};
use crate::text::append_bytes;
use crate::BUF_LEN;

verus! {

/// How far the bytes gathered so far are from a whole frame.
#[derive(Clone, Copy, Debug, PartialEq, Eq, Structural)]
pub enum FrameProgress {
    /// The header is not complete yet.
    NeedHeader,
    /// The header is there; the payload, of this declared length, is not.
    NeedPayload(u64),
    /// Exactly one frame, with a payload of this length.
    Complete(u64),
    /// More bytes than the frame holds; the frame has this many.
    Overrun(usize),
}

/// The payload length that a gathered header declares, once it is whole.
pub open spec fn declared_len(buf: Seq<u8>) -> Option<u64> {
    if buf.len() < HEADER_LEN {
        None
    } else {
        Some(be_value(buf.subrange(1, HEADER_LEN as int)))
    }
}

/// How far `buf` is from a whole frame.
pub open spec fn frame_progress(buf: Seq<u8>) -> FrameProgress {
    match declared_len(buf) {
        None => FrameProgress::NeedHeader,
        Some(declared) => {
            if buf.len() < HEADER_LEN + declared {
                FrameProgress::NeedPayload(declared)
            } else if buf.len() == HEADER_LEN + declared {
                FrameProgress::Complete(declared)
            } else {
                FrameProgress::Overrun((HEADER_LEN + declared) as usize)
            }
        },
    }
}

/// How many bytes the next read may ask for without reading past the frame
/// that `buf` starts, and never more than the scratch buffer holds.
pub open spec fn read_budget(buf: Seq<u8>) -> int {
    let missing = match declared_len(buf) {
        None => HEADER_LEN - buf.len(),
        Some(declared) => HEADER_LEN + declared - buf.len(),
    };
    if missing < 0 {
        0
    } else if missing > BUF_LEN {
        BUF_LEN as int
    } else {
        missing
    }
}

/// Measures the bytes gathered so far against the frame they start.
pub fn measure_frame(buf: &[u8]) -> (progress: FrameProgress)
    ensures
        progress == frame_progress(buf@),
{
    if buf.len() < HEADER_LEN {
        return FrameProgress::NeedHeader;
    }
    let declared: u64 = read_u64_be(buf, 1);
    let gathered: u64 = (buf.len() - HEADER_LEN) as u64;
    if gathered < declared {
        FrameProgress::NeedPayload(declared)
    } else if gathered == declared {
        FrameProgress::Complete(declared)
    } else {
        FrameProgress::Overrun(HEADER_LEN + declared as usize)
    }
}

/// How many bytes to ask of the next read.
pub fn read_limit(buf: &[u8]) -> (limit: usize)
    ensures
        limit == read_budget(buf@),
        limit <= BUF_LEN,
{
    if buf.len() < HEADER_LEN {
        return HEADER_LEN - buf.len();
    }
    let declared: u64 = read_u64_be(buf, 1);
    let gathered: u64 = (buf.len() - HEADER_LEN) as u64;
    if gathered >= declared {
        0
    } else if declared - gathered > BUF_LEN as u64 {
        BUF_LEN
    } else {
        (declared - gathered) as usize
    }
}

/// Microseconds from `start` to `now`; zero if the clock went backwards.
pub open spec fn elapsed(start: u128, now: u128) -> u128 {
    if now >= start {
        (now - start) as u128
    } else {
        0
    }
}

/// Which phase a request is in.
#[derive(Clone, Copy, Debug, PartialEq, Eq, Structural)]
pub enum RequestStateType {
    Writing,
    Reading,
}

/// A request on its way: being written, or awaiting its response.
#[derive(Debug)]
pub enum RequestState {
    Writing {
        req_type: RequestType,
        /// When the first write succeeded, if one has.
        start_time: Option<u128>,
        write_buf: Vec<u8>,
        /// The next write starts here.
        offset: usize,
    },
    Reading {
        res_type: ResponseType,
        start_time: u128,
        read_buf: Vec<u8>,
        /// The declared payload length, once the header is in.
        expected_len: Option<u64>,
    },
}

/// A request on its way, as the contracts see it.
pub enum StateModel {
    Writing { req_type: RequestType, start_time: Option<u128>, write_buf: Seq<u8>, offset: nat },
    Reading { res_type: ResponseType, start_time: u128, read_buf: Seq<u8> },
}

impl StateModel {
    /// A request that nothing has been written of yet.
    pub open spec fn fresh(req_type: RequestType, frame: Seq<u8>) -> StateModel {
        StateModel::Writing { req_type, start_time: None, write_buf: frame, offset: 0 }
    }

    /// Whether a byte of the request has been written: from then on a reset
    /// drops a request that the server may have seen.
    pub open spec fn in_flight(self) -> bool {
        match self {
            StateModel::Writing { start_time, .. } => start_time is Some,
            StateModel::Reading { .. } => true,
        }
    }

    /// The class of the response that is awaited, or will be once the
    /// request is written.
    pub open spec fn awaited(self) -> ResponseType {
        match self {
            StateModel::Writing { req_type, .. } => ResponseType::answering(req_type),
            StateModel::Reading { res_type, .. } => res_type,
        }
    }

    /// Whether the request still has bytes to move: a response that is
    /// awaited is not gathered whole yet.
    pub open spec fn awaits_more(self) -> bool {
        match self {
            StateModel::Writing { .. } => true,
            StateModel::Reading { read_buf, .. } => frame_progress(read_buf)
                is NeedHeader || frame_progress(read_buf) is NeedPayload,
        }
    }

    /// The bytes that are still to be written.
    pub open spec fn unsent(self) -> Seq<u8> {
        match self {
            StateModel::Writing { write_buf, offset, .. } => write_buf.subrange(
                offset as int,
                write_buf.len() as int,
            ),
            StateModel::Reading { .. } => Seq::empty(),
        }
    }

    /// The state after a write that accepted `n` bytes at time `now`. The
    /// first successful write starts the clock; the write that empties the
    /// buffer turns to reading.
    pub open spec fn after_write(self, n: nat, now: u128) -> StateModel {
        match self {
            StateModel::Writing { req_type, start_time, write_buf, offset } => {
                let started = match start_time {
                    Some(t) => t,
                    None => now,
                };
                if offset + n == write_buf.len() {
                    StateModel::Reading {
                        res_type: ResponseType::answering(req_type),
                        start_time: started,
                        read_buf: Seq::empty(),
                    }
                } else {
                    StateModel::Writing {
                        req_type,
                        start_time: Some(started),
                        write_buf,
                        offset: offset + n,
                    }
                }
            },
            StateModel::Reading { .. } => self,
        }
    }

    /// What a successful write reports: the first one that the request was
    /// sent, each later one that progress was made.
    pub open spec fn write_progress(self) -> Progress {
        if self.in_flight() {
            Progress::MadeProgress
        } else {
            Progress::SentRequest
        }
    }

    /// What a failed write or read means: blocking and resets are reported
    /// as progress values, anything else is an error.
    pub open spec fn after_failure(self, failure: IoFailure) -> Result<Progress, AspenRsError> {
        match failure {
            IoFailure::WouldBlock => Ok(Progress::WouldBlock),
            IoFailure::ConnectionReset => Ok(Progress::ConnectionReset(self.in_flight())),
            _ => Err(AspenRsError::NetworkError(NetworkError::of(failure))),
        }
    }

    /// What a read of `bytes` at time `now` leads to: the next state and what
    /// to report, or the error. An empty read is a clean close. The first
    /// byte of the response must name the awaited class. An error leaves the
    /// state as it was.
    pub open spec fn after_read(self, bytes: Seq<u8>, now: u128) -> Result<
        (StateModel, Progress),
        AspenRsError,
    > {
        match self {
            StateModel::Writing { .. } => Ok((self, Progress::Idle)),
            StateModel::Reading { res_type, start_time, read_buf } => {
                let buf = read_buf + bytes;
                if bytes.len() == 0 {
                    Err(AspenRsError::NetworkError(NetworkError::ConnectionClosed))
                } else {
                    match ResponseType::of_tag(buf[0]) {
                        None => Err(
                            AspenRsError::ParseError(ParseError::InvalidMessageType(buf[0])),
                        ),
                        Some(given_type) => {
                            if read_buf.len() == 0 && given_type != res_type {
                                Err(
                                    AspenRsError::ParseError(
                                        ParseError::UnexpectedMessageType {
                                            given_type,
                                            exp_type: res_type,
                                        },
                                    ),
                                )
                            } else {
                                let next = StateModel::Reading {
                                    res_type,
                                    start_time,
                                    read_buf: buf,
                                };
                                match frame_progress(buf) {
                                    FrameProgress::NeedHeader => Ok(
                                        (next, Progress::MadeProgress),
                                    ),
                                    FrameProgress::NeedPayload(_) => Ok(
                                        (next, Progress::MadeProgress),
                                    ),
                                    FrameProgress::Overrun(exp_len) => Err(
                                        AspenRsError::ParseError(
                                            ParseError::UnexpectedLength {
                                                payload_len: buf.len() as usize,
                                                exp_len,
                                            },
                                        ),
                                    ),
                                    FrameProgress::Complete(_) => match ResponseModel::parse(
                                        buf,
                                    ) {
                                        Err(e) => Err(AspenRsError::ParseError(e)),
                                        Ok(_) => Ok(
                                            (
                                                next,
                                                Progress::CompletedResponse(
                                                    given_type,
                                                    elapsed(start_time, now),
                                                ),
                                            ),
                                        ),
                                    },
                                }
                            }
                        },
                    }
                }
            },
        }
    }
}

impl View for RequestState {
    type V = StateModel;

    open spec fn view(&self) -> StateModel {
        match self {
            RequestState::Writing { req_type, start_time, write_buf, offset } => {
                StateModel::Writing {
                    req_type: *req_type,
                    start_time: *start_time,
                    write_buf: write_buf@,
                    offset: *offset as nat,
                }
            },
            RequestState::Reading { res_type, start_time, read_buf, .. } => StateModel::Reading {
                res_type: *res_type,
                start_time: *start_time,
                read_buf: read_buf@,
            },
        }
    }
}

impl RequestState {
    /// The write offset lies within the buffer; the cached payload length
    /// is the one that the gathered header declares.
    pub open spec fn wf(&self) -> bool {
        match self {
            RequestState::Writing { write_buf, offset, .. } => *offset <= write_buf@.len(),
            RequestState::Reading { read_buf, expected_len, .. } => *expected_len == declared_len(
                read_buf@,
            ),
        }
    }

    /// The state of a request that is about to be written.
    pub fn new(req: Request) -> (state: RequestState)
        ensures
            state.wf(),
            state@ == StateModel::fresh(req@.kind(), req@.frame()),
    {
        let kind: RequestType = req.kind();
        let write_buf: Vec<u8> = req.serialize();
        RequestState::Writing { req_type: kind, start_time: None, write_buf, offset: 0 }
    }

    /// The phase of the request.
    pub fn kind(&self) -> (k: RequestStateType)
        ensures
            k == RequestStateType::Writing <==> self@ is Writing,
            k == RequestStateType::Reading <==> self@ is Reading,
    {
        match self {
            RequestState::Writing { .. } => RequestStateType::Writing,
            RequestState::Reading { .. } => RequestStateType::Reading,
        }
    }

    /// The class of the response that is awaited, or will be once the
    /// request is written.
    pub fn awaited(&self) -> (res_type: ResponseType)
        ensures
            res_type == self@.awaited(),
    {
        match self {
            RequestState::Writing { req_type, .. } => ResponseType::from_request(*req_type),
            RequestState::Reading { res_type, .. } => *res_type,
        }
    }

    /// Whether a byte of the request has been written.
    pub fn in_flight(&self) -> (b: bool)
        ensures
            b == self@.in_flight(),
    {
        match self {
            RequestState::Writing { start_time, .. } => start_time.is_some(),
            RequestState::Reading { .. } => true,
        }
    }

    /// The bytes to hand to the next write.
    pub fn unsent(&self) -> (bytes: &[u8])
        requires
            self.wf(),
        ensures
            bytes@ == self@.unsent(),
    {
        match self {
            RequestState::Writing { write_buf, offset, .. } => vstd::slice::slice_subrange(
                write_buf.as_slice(),
                *offset,
                write_buf.len(),
            ),
            RequestState::Reading { read_buf, .. } => vstd::slice::slice_subrange(
                read_buf.as_slice(),
                0,
                0,
            ),
        }
    }

    /// How many bytes to ask of the next read: never past the end of the
    /// awaited frame, and at least one while the frame is incomplete.
    pub fn read_limit(&self) -> (limit: usize)
        ensures
            self@ matches StateModel::Reading { read_buf, .. } ==> limit == read_budget(read_buf),
            self@ is Writing ==> limit == 0,
            self@ is Reading && self@.awaits_more() ==> limit >= 1,
            limit <= BUF_LEN,
    {
        match self {
            RequestState::Writing { .. } => 0,
            RequestState::Reading { read_buf, .. } => read_limit(read_buf.as_slice()),
        }
    }

    /// Takes in what a write on the socket came to.
    pub fn on_write(&mut self, outcome: Result<usize, IoFailure>, now: u128) -> (r: Result<
        Progress,
        AspenRsError,
    >)
        requires
            old(self).wf(),
            old(self)@ is Writing,
            outcome matches Ok(n) ==> n <= old(self)@.unsent().len(),
        ensures
            final(self).wf(),
            match outcome {
                Ok(n) => final(self)@ == old(self)@.after_write(n as nat, now) && r == Ok::<
                    Progress,
                    AspenRsError,
                >(old(self)@.write_progress()),
                Err(failure) => final(self)@ == old(self)@ && r == old(self)@.after_failure(
                    failure,
                ),
            },
    {
        let in_flight: bool = self.in_flight();
        let n: usize = match outcome {
            Ok(n) => n,
            Err(failure) => {
                return match failure {
                    IoFailure::WouldBlock => Ok(Progress::WouldBlock),
                    IoFailure::ConnectionReset => Ok(Progress::ConnectionReset(in_flight)),
                    _ => Err(AspenRsError::NetworkError(NetworkError::from(failure))),
                };
            },
        };
        let report: Progress = if in_flight {
            Progress::MadeProgress
        } else {
            Progress::SentRequest
        };
        match self {
            RequestState::Writing { req_type, start_time, write_buf, offset } => {
                let started: u128 = match *start_time {
                    Some(t) => t,
                    None => now,
                };
                if n == write_buf.len() - *offset {
                    let res_type: ResponseType = ResponseType::from_request(*req_type);
                    *self = RequestState::Reading {
                        res_type,
                        start_time: started,
                        read_buf: Vec::new(),
                        expected_len: None,
                    };
                } else {
                    *start_time = Some(started);
                    *offset = *offset + n;
                }
            },
            RequestState::Reading { .. } => {},
        }
        Ok(report)
    }

    /// Takes in what a read on the socket came to.
    pub fn on_read(&mut self, outcome: Result<&[u8], IoFailure>, now: u128) -> (r: Result<
        Progress,
        AspenRsError,
    >)
        requires
            old(self).wf(),
            old(self)@ matches StateModel::Reading { read_buf, .. } && (outcome matches Ok(bytes)
                ==> read_buf.len() + bytes@.len() <= usize::MAX),
        ensures
            final(self).wf(),
            match outcome {
                Ok(bytes) => match old(self)@.after_read(bytes@, now) {
                    Ok((next, progress)) => final(self)@ == next && r == Ok::<
                        Progress,
                        AspenRsError,
                    >(progress),
                    Err(e) => final(self)@ == old(self)@ && r == Err::<Progress, AspenRsError>(e),
                },
                Err(failure) => final(self)@ == old(self)@ && r == old(self)@.after_failure(
                    failure,
                ),
            },
    {
        let bytes: &[u8] = match outcome {
            Ok(bytes) => bytes,
            Err(failure) => {
                return match failure {
                    IoFailure::WouldBlock => Ok(Progress::WouldBlock),
                    IoFailure::ConnectionReset => Ok(Progress::ConnectionReset(true)),
                    _ => Err(AspenRsError::NetworkError(NetworkError::from(failure))),
                };
            },
        };
        if bytes.len() == 0 {
            return Err(AspenRsError::NetworkError(NetworkError::ConnectionClosed));
        }
        match self {
            RequestState::Writing { .. } => Ok(Progress::Idle),
            RequestState::Reading { res_type, start_time, read_buf, expected_len } => {
                let ghost before = read_buf@;
                let gathered: usize = read_buf.len();
                let first: u8 = if gathered == 0 {
                    bytes[0]
                } else {
                    read_buf[0]
                };
                let given_type: ResponseType = match ResponseType::from_value(first) {
                    Ok(given_type) => given_type,
                    Err(e) => {
                        return Err(AspenRsError::ParseError(e));
                    },
                };
                if gathered == 0 && given_type != *res_type {
                    return Err(
                        AspenRsError::ParseError(
                            ParseError::UnexpectedMessageType { given_type, exp_type: *res_type },
                        ),
                    );
                }
                append_bytes(read_buf, bytes);
                assert(read_buf@.subrange(0, gathered as int) =~= before);
                match measure_frame(read_buf.as_slice()) {
                    FrameProgress::NeedHeader => Ok(Progress::MadeProgress),
                    FrameProgress::NeedPayload(declared) => {
                        *expected_len = Some(declared);
                        Ok(Progress::MadeProgress)
                    },
                    FrameProgress::Overrun(exp_len) => {
                        let payload_len: usize = read_buf.len();
                        read_buf.truncate(gathered);
                        Err(
                            AspenRsError::ParseError(
                                ParseError::UnexpectedLength { payload_len, exp_len },
                            ),
                        )
                    },
                    FrameProgress::Complete(declared) => {
                        match Response::deserialize(read_buf.as_slice()) {
                            Ok(_) => {
                                *expected_len = Some(declared);
                                let latency: u128 = if now >= *start_time {
                                    now - *start_time
                                } else {
                                    0
                                };
                                Ok(Progress::CompletedResponse(given_type, latency))
                            },
                            Err(e) => {
                                read_buf.truncate(gathered);
                                Err(AspenRsError::ParseError(e))
                            },
                        }
                    },
                }
            },
        }
    }
}

/// Two writes in a row come to the same as one write of both amounts at
/// the time of the first: it does not matter in how many pieces the socket
/// takes a request.
pub proof fn lemma_writes_compose(state: StateModel, first: nat, at: u128, second: nat, later: u128)
    requires
        state matches StateModel::Writing { write_buf, offset, .. } && offset + first + second
            <= write_buf.len() && offset + first < write_buf.len(),
    ensures
        state.after_write(first, at).after_write(second, later) == state.after_write(
            first + second,
            at,
        ),
        state.after_write(first, at).in_flight(),
{
}

/// A write that takes all that is unsent turns to reading: the response
/// awaited is of the class that answers the request, and nothing of it is
/// gathered yet.
pub proof fn lemma_last_write_turns_to_reading(state: StateModel, now: u128)
    requires
        state matches StateModel::Writing { write_buf, offset, .. } && offset <= write_buf.len(),
    ensures
        state.after_write(state.unsent().len(), now) matches StateModel::Reading {
            res_type,
            read_buf,
            ..
        } && res_type == ResponseType::answering(state->req_type) && read_buf.len() == 0,
{
}

/// While a response is incomplete, each piece of it that is read is
/// gathered and reported as progress.
pub proof fn lemma_partial_response_is_gathered(
    res: ResponseModel,
    start_time: u128,
    gathered: int,
    upto: int,
    now: u128,
)
    requires
        res.frame().len() <= usize::MAX,
        0 <= gathered < upto < res.frame().len(),
    ensures
        (StateModel::Reading {
            res_type: res.kind(),
            start_time,
            read_buf: res.frame().take(gathered),
        }).after_read(res.frame().subrange(gathered, upto), now) == Ok::<
            (StateModel, Progress),
            AspenRsError,
        >(
            (
                StateModel::Reading {
                    res_type: res.kind(),
                    start_time,
                    read_buf: res.frame().take(upto),
                },
                Progress::MadeProgress,
            ),
        ),
{
    let frame = res.frame();
    let buf = frame.take(gathered) + frame.subrange(gathered, upto);
    assert(buf =~= frame.take(upto));
    assert(buf[0] == frame[0]);
    ResponseType::lemma_of_tag(res.kind());
    if upto >= HEADER_LEN {
        crate::bytes::lemma_be_value_of_bytes(res.payload().len() as u64);
        assert(buf.subrange(1, HEADER_LEN as int) =~= crate::bytes::be_bytes(
            res.payload().len() as u64,
        ));
    }
}

/// The piece that completes a response of the awaited class completes the
/// request: the class is reported with the time since the first write.
pub proof fn lemma_whole_response_completes(
    res: ResponseModel,
    start_time: u128,
    gathered: int,
    now: u128,
)
    requires
        res.frame().len() <= usize::MAX,
        0 <= gathered < res.frame().len(),
    ensures
        (StateModel::Reading {
            res_type: res.kind(),
            start_time,
            read_buf: res.frame().take(gathered),
        }).after_read(res.frame().subrange(gathered, res.frame().len() as int), now) == Ok::<
            (StateModel, Progress),
            AspenRsError,
        >(
            (
                StateModel::Reading { res_type: res.kind(), start_time, read_buf: res.frame() },
                Progress::CompletedResponse(res.kind(), elapsed(start_time, now)),
            ),
        ),
{
    let frame = res.frame();
    let buf = frame.take(gathered) + frame.subrange(gathered, frame.len() as int);
    assert(buf =~= frame);
    ResponseType::lemma_of_tag(res.kind());
    crate::bytes::lemma_be_value_of_bytes(res.payload().len() as u64);
    assert(frame.subrange(1, HEADER_LEN as int) =~= crate::bytes::be_bytes(
        res.payload().len() as u64,
    ));
    crate::packet::lemma_response_round_trip(res);
}

} // verus!

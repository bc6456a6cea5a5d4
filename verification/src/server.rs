//! The server's side of a connection: gather a request, answer it.
use vstd::prelude::*;
use crate::connection::{frame_progress, measure_frame, read_budget, read_limit, FrameProgress};
use crate::error::{AspenRsError, IoFailure, NetworkError, ParseError};
use crate::packet::{Message, MessageType, Request, RequestModel, RequestType};
use crate::packet::{Response, ResponseModel};
use crate::store::{count_matching, is_snapshot_of, lemma_count_matching_keys, lists_values};
use crate::store::{matching_keys, value_at, BeScan, Store};
use crate::text::append_bytes;
use crate::BUF_LEN;

verus! {

/// What feeding `bytes` to a reader that has gathered `gathered` leads to:
/// what is gathered afterwards and the request, if one is complete; or the
/// error. An empty read is a clean close. A complete request empties the
/// reader. An error leaves it as it was.
pub open spec fn after_feed(gathered: Seq<u8>, bytes: Seq<u8>) -> Result<
    (Seq<u8>, Option<RequestModel>),
    AspenRsError,
> {
    let buf = gathered + bytes;
    if bytes.len() == 0 {
        Err(AspenRsError::NetworkError(NetworkError::ConnectionClosed))
    } else if RequestType::of_tag(buf[0]) is None {
        Err(AspenRsError::ParseError(ParseError::InvalidMessageType(buf[0])))
    } else {
        match frame_progress(buf) {
            FrameProgress::NeedHeader => Ok((buf, None)),
            FrameProgress::NeedPayload(_) => Ok((buf, None)),
            FrameProgress::Overrun(exp_len) => Err(
                AspenRsError::ParseError(
                    ParseError::UnexpectedLength { payload_len: buf.len() as usize, exp_len },
                ),
            ),
            FrameProgress::Complete(_) => match RequestModel::parse(buf) {
                Err(e) => Err(AspenRsError::ParseError(e)),
                Ok(m) => Ok((Seq::empty(), Some(m))),
            },
        }
    }
}

/// Gathers the bytes of one request after another from a stream.
pub struct RequestReader {
    read_buf: Vec<u8>,
}

impl View for RequestReader {
    type V = Seq<u8>;

    closed spec fn view(&self) -> Seq<u8> {
        self.read_buf@
    }
}

impl RequestReader {
    /// A reader that has gathered nothing.
    pub fn new() -> (reader: RequestReader)
        ensures
            reader@ == Seq::<u8>::empty(),
    {
        RequestReader { read_buf: Vec::new() }
    }

    /// How many bytes to ask of the next read: never past the end of the
    /// request being gathered.
    pub fn read_limit(&self) -> (limit: usize)
        ensures
            limit == read_budget(self@),
            limit <= BUF_LEN,
    {
        read_limit(self.read_buf.as_slice())
    }

    /// Takes in what a read on the socket came to. Gives the request once
    /// it is complete, and nothing while it is not.
    pub fn feed(&mut self, outcome: Result<&[u8], IoFailure>) -> (r: Result<
        Option<Request>,
        AspenRsError,
    >)
        requires
            outcome matches Ok(bytes) ==> old(self)@.len() + bytes@.len() <= usize::MAX,
        ensures
            match outcome {
                Ok(bytes) => match after_feed(old(self)@, bytes@) {
                    Ok((gathered, Some(m))) => final(self)@ == gathered && (r matches Ok(Some(req))
                        && req@ == m),
                    Ok((gathered, None)) => final(self)@ == gathered && r matches Ok(None),
                    Err(e) => final(self)@ == old(self)@ && r == Err::<
                        Option<Request>,
                        AspenRsError,
                    >(e),
                },
                Err(failure) => final(self)@ == old(self)@ && r == Err::<
                    Option<Request>,
                    AspenRsError,
                >(AspenRsError::NetworkError(NetworkError::of(failure))),
            },
    {
        let bytes: &[u8] = match outcome {
            Ok(bytes) => bytes,
            Err(failure) => {
                return Err(AspenRsError::NetworkError(NetworkError::from(failure)));
            },
        };
        if bytes.len() == 0 {
            return Err(AspenRsError::NetworkError(NetworkError::ConnectionClosed));
        }
        let gathered: usize = self.read_buf.len();
        let first: u8 = if gathered == 0 {
            bytes[0]
        } else {
            self.read_buf[0]
        };
        if let Err(e) = RequestType::from_value(first) {
            return Err(AspenRsError::ParseError(e));
        }
        let ghost before = self.read_buf@;
        append_bytes(&mut self.read_buf, bytes);
        assert(self.read_buf@.subrange(0, gathered as int) =~= before);
        match measure_frame(self.read_buf.as_slice()) {
            FrameProgress::NeedHeader => Ok(None),
            FrameProgress::NeedPayload(_) => Ok(None),
            FrameProgress::Overrun(exp_len) => {
                let payload_len: usize = self.read_buf.len();
                self.read_buf.truncate(gathered);
                Err(AspenRsError::ParseError(ParseError::UnexpectedLength { payload_len, exp_len }))
            },
            FrameProgress::Complete(_) => match Request::deserialize(self.read_buf.as_slice()) {
                Ok(req) => {
                    self.read_buf.clear();
                    Ok(Some(req))
                },
                Err(e) => {
                    self.read_buf.truncate(gathered);
                    Err(AspenRsError::ParseError(e))
                },
            },
        }
    }
}

/// The response that `req` gets from a store holding `m`.
pub open spec fn answer(m: Map<u64, Seq<char>>, req: RequestModel) -> ResponseModel {
    match req {
        RequestModel::BeRead { req_id, substring } => ResponseModel::BeRead {
            req_id,
            freq: matching_keys(m, substring).len() as u64,
        },
        RequestModel::LcRead { req_id, id } => ResponseModel::LcRead {
            req_id,
            username: value_at(m, id),
        },
        RequestModel::LcWrite { req_id, id, .. } => ResponseModel::LcWrite {
            req_id,
            username: value_at(m, id),
        },
    }
}

/// What the store holds after `req` was executed on a store holding `m`:
/// only a write changes it.
pub open spec fn effect(m: Map<u64, Seq<char>>, req: RequestModel) -> Map<u64, Seq<char>> {
    match req {
        RequestModel::LcWrite { id, username, .. } => m.insert(id, username),
        _ => m,
    }
}

/// Executes a request that leaves the store as it is, a read or a scan,
/// and builds its response. A write needs the store to itself and gets
/// nothing here.
pub fn execute_shared(store: &Store, req: Request) -> (res: Option<Response>)
    ensures
        req@ is LcWrite <==> res is None,
        res matches Some(res) ==> res@ == answer(store@, req@),
{
    match req {
        Request::BeRead { req_id, substring } => {
            let freq: usize = store.be_task(substring);
            Some(scan_response(req_id, freq))
        },
        Request::LcRead { req_id, id } => {
            let username: Option<String> = store.lc_read_task(id);
            Some(Response::LcRead { req_id, username })
        },
        Request::LcWrite { .. } => None,
    }
}

/// Executes one request against the store and builds its response, which
/// carries the request's id and is of the class that answers it.
pub fn execute_task(store: &mut Store, req: Request) -> (res: Response)
    ensures
        res@ == answer(old(store)@, req@),
        final(store)@ == effect(old(store)@, req@),
{
    match req {
        Request::LcWrite { req_id, id, username } => {
            let username: Option<String> = store.lc_write_task(id, username);
            Response::LcWrite { req_id, username }
        },
        other => execute_shared(store, other).unwrap(),
    }
}

/// Starts the scan that a scan request asks for, over a snapshot of the
/// store's values: gives the request's id and the scan, which has looked at
/// nothing yet. Any other request starts no scan.
pub fn start_scan(values: Vec<String>, req: Request) -> (started: Option<(u64, BeScan)>)
    ensures
        req@ is BeRead <==> started is Some,
        started matches Some((req_id, scan)) ==> {
            &&& req@ == (RequestModel::BeRead { req_id, substring: scan.needle@ })
            &&& scan.wf()
            &&& scan.values == values
            &&& scan.next == 0
        },
{
    match req {
        Request::BeRead { req_id, substring } => Some((req_id, BeScan::new(values, substring))),
        _ => None,
    }
}

/// The response to the scan request `req_id` that found `freq` matches.
pub fn scan_response(req_id: u64, freq: usize) -> (res: Response)
    ensures
        res@ == (ResponseModel::BeRead { req_id, freq: freq as u64 }),
{
    Response::BeRead { req_id, freq: freq as u64 }
}

/// A scan of a snapshot answers the scan request as the store itself would
/// have at the time of the snapshot.
pub proof fn lemma_snapshot_scan_answers(
    m: Map<u64, Seq<char>>,
    values: Seq<Seq<char>>,
    req_id: u64,
    needle: Seq<char>,
)
    requires
        is_snapshot_of(values, m),
    ensures
        answer(m, RequestModel::BeRead { req_id, substring: needle }) == (ResponseModel::BeRead {
            req_id,
            freq: count_matching(values, needle) as u64,
        }),
{
    let keys = choose|keys: Seq<u64>| lists_values(keys, values, m);
    lemma_count_matching_keys(keys, values, m, needle);
}

/// A response answers the class of its request and carries its id.
pub proof fn lemma_answer_matches_request(m: Map<u64, Seq<char>>, req: RequestModel)
    ensures
        answer(m, req).kind() == crate::packet::ResponseType::answering(req.kind()),
        answer(m, req).req_id() == req.req_id(),
{
}

/// While a request is incomplete, each piece of it that is read is
/// gathered, and no request is given yet.
pub proof fn lemma_partial_request_is_gathered(m: RequestModel, gathered: int, upto: int)
    requires
        m.frame().len() <= usize::MAX,
        0 <= gathered < upto < m.frame().len(),
    ensures
        after_feed(m.frame().take(gathered), m.frame().subrange(gathered, upto)) == Ok::<
            (Seq<u8>, Option<RequestModel>),
            AspenRsError,
        >((m.frame().take(upto), None)),
{
    let frame = m.frame();
    let buf = frame.take(gathered) + frame.subrange(gathered, upto);
    assert(buf =~= frame.take(upto));
    assert(buf[0] == frame[0]);
    RequestType::lemma_of_tag(m.kind());
    if upto >= crate::packet::HEADER_LEN {
        crate::bytes::lemma_be_value_of_bytes(m.payload().len() as u64);
        assert(buf.subrange(1, crate::packet::HEADER_LEN as int) =~= crate::bytes::be_bytes(
            m.payload().len() as u64,
        ));
    }
}

/// The piece that completes the frame of a request gives that request, and
/// the reader starts over.
pub proof fn lemma_whole_request_is_given(m: RequestModel, gathered: int)
    requires
        m.frame().len() <= usize::MAX,
        0 <= gathered < m.frame().len(),
    ensures
        after_feed(
            m.frame().take(gathered),
            m.frame().subrange(gathered, m.frame().len() as int),
        ) == Ok::<(Seq<u8>, Option<RequestModel>), AspenRsError>((Seq::empty(), Some(m))),
{
    let frame = m.frame();
    let buf = frame.take(gathered) + frame.subrange(gathered, frame.len() as int);
    assert(buf =~= frame);
    RequestType::lemma_of_tag(m.kind());
    crate::bytes::lemma_be_value_of_bytes(m.payload().len() as u64);
    assert(frame.subrange(1, crate::packet::HEADER_LEN as int) =~= crate::bytes::be_bytes(
        m.payload().len() as u64,
    ));
    crate::packet::lemma_request_round_trip(m);
}

} // verus!

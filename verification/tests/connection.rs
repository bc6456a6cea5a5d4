use aspen_rust::client::{
    choose_request_type, ClientThread, ConnStateType, ConnectionStatus, Progress,
};
use aspen_rust::connection::{measure_frame, read_limit, FrameProgress, RequestState, RequestStateType};
use aspen_rust::error::{AspenRsError, IoFailure, NetworkError, ParseError};
use aspen_rust::latency::LatencyHistograms;
use aspen_rust::packet::{Message, Request, RequestType, Response, ResponseType};
use aspen_rust::server::{execute_task, RequestReader};
use aspen_rust::store::Store;

/// Writes the whole request in one write at time `now`.
fn send_all(status: &mut ConnectionStatus, now: u128) -> Vec<u8> {
    let bytes = status.unsent().to_vec();
    assert_eq!(status.on_write(Ok(bytes.len()), now), Ok(Progress::SentRequest));
    bytes
}

#[test]
fn ready_connection_idles_without_a_request() {
    let mut status = ConnectionStatus::new();
    assert_eq!(status.kind(), ConnStateType::Ready);
    assert_eq!(status.submit(None), Progress::Idle);
    assert_eq!(status.kind(), ConnStateType::Ready);
    assert_eq!(status.unsent(), &[] as &[u8]);
    assert_eq!(status.read_limit(), 0);
}

#[test]
fn request_starts_writing() {
    let mut status = ConnectionStatus::new();
    let req = Request::LcRead { req_id: 1, id: 5 };
    assert_eq!(status.submit(Some(req.clone())), Progress::MadeProgress);
    assert_eq!(status.kind(), ConnStateType::WritingRequest);
    assert_eq!(status.unsent(), req.serialize().as_slice());
    assert_eq!(status.read_limit(), 0);
}

#[test]
fn partial_write_resumption() {
    // A socket that takes one byte per write: a 9-byte header and a 16-byte
    // payload need 25 writes, and give one response.
    let mut status = ConnectionStatus::new();
    let req = Request::LcRead { req_id: 1, id: 5 };
    let frame = req.serialize();
    assert_eq!(frame.len(), 25);
    status.submit(Some(req));
    let mut wire: Vec<u8> = Vec::new();
    for i in 0..25 {
        assert_eq!(status.kind(), ConnStateType::WritingRequest);
        wire.push(status.unsent()[0]);
        assert_eq!(status.unsent().len(), 25 - i);
        let progress = status.on_write(Ok(1), 1000 + i as u128).unwrap();
        if i == 0 {
            assert_eq!(progress, Progress::SentRequest);
        } else {
            assert_eq!(progress, Progress::MadeProgress);
        }
    }
    assert_eq!(wire, frame);
    assert_eq!(status.kind(), ConnStateType::ReadingResponse);
    let response = Response::LcRead { req_id: 1, username: Some(String::from("u5")) }.serialize();
    let mut completed = 0;
    for (i, byte) in response.iter().enumerate() {
        match status.on_read(Ok(&[*byte]), 5000).unwrap() {
            Progress::CompletedResponse(kind, latency) => {
                assert_eq!(i, response.len() - 1);
                assert_eq!(kind, ResponseType::LcRead);
                // The clock started at the first write.
                assert_eq!(latency, 4000);
                completed += 1;
            }
            other => assert_eq!(other, Progress::MadeProgress),
        }
    }
    assert_eq!(completed, 1);
    assert_eq!(status.kind(), ConnStateType::Ready);
}

#[test]
fn zero_byte_write_starts_the_clock() {
    let mut status = ConnectionStatus::new();
    status.submit(Some(Request::LcRead { req_id: 1, id: 5 }));
    assert_eq!(status.on_write(Ok(0), 10), Ok(Progress::SentRequest));
    assert_eq!(status.kind(), ConnStateType::WritingRequest);
    assert_eq!(status.unsent().len(), 25);
    assert_eq!(status.on_write(Ok(25), 20), Ok(Progress::MadeProgress));
    let response = Response::LcRead { req_id: 1, username: None }.serialize();
    assert_eq!(
        status.on_read(Ok(&response), 35),
        Ok(Progress::CompletedResponse(ResponseType::LcRead, 25))
    );
}

#[test]
fn blocked_write_changes_nothing() {
    let mut status = ConnectionStatus::new();
    status.submit(Some(Request::LcRead { req_id: 1, id: 5 }));
    assert_eq!(status.on_write(Err(IoFailure::WouldBlock), 10), Ok(Progress::WouldBlock));
    assert_eq!(status.kind(), ConnStateType::WritingRequest);
    assert_eq!(status.unsent().len(), 25);
    // Nothing was sent yet, so the next write is the first.
    assert_eq!(status.on_write(Ok(3), 11), Ok(Progress::SentRequest));
    assert_eq!(status.on_write(Err(IoFailure::WouldBlock), 12), Ok(Progress::WouldBlock));
    assert_eq!(status.unsent().len(), 22);
}

#[test]
fn reset_mid_flight() {
    // Before any byte went out, a reset drops nothing.
    let mut status = ConnectionStatus::new();
    status.submit(Some(Request::LcRead { req_id: 1, id: 5 }));
    assert_eq!(
        status.on_write(Err(IoFailure::ConnectionReset), 1),
        Ok(Progress::ConnectionReset(false))
    );
    // After the header went out, it drops the request.
    assert_eq!(status.on_write(Ok(9), 2), Ok(Progress::SentRequest));
    assert_eq!(
        status.on_write(Err(IoFailure::ConnectionReset), 3),
        Ok(Progress::ConnectionReset(true))
    );
    status.reset();
    assert_eq!(status.kind(), ConnStateType::Ready);
    // While the response is awaited, a reset always drops the request.
    status.submit(Some(Request::LcRead { req_id: 2, id: 5 }));
    send_all(&mut status, 4);
    assert_eq!(
        status.on_read(Err(IoFailure::ConnectionReset), 5),
        Ok(Progress::ConnectionReset(true))
    );
    assert_eq!(status.kind(), ConnStateType::ReadingResponse);
}

#[test]
fn other_failures_are_errors() {
    let mut status = ConnectionStatus::new();
    status.submit(Some(Request::LcRead { req_id: 1, id: 5 }));
    assert_eq!(
        status.on_write(Err(IoFailure::Interrupted), 1),
        Err(AspenRsError::NetworkError(NetworkError::Interrupted))
    );
    assert_eq!(
        status.on_write(Err(IoFailure::Other), 1),
        Err(AspenRsError::NetworkError(NetworkError::Io(IoFailure::Other)))
    );
    send_all(&mut status, 2);
    assert_eq!(status.on_read(Err(IoFailure::WouldBlock), 3), Ok(Progress::WouldBlock));
    assert_eq!(
        status.on_read(Err(IoFailure::Other), 3),
        Err(AspenRsError::NetworkError(NetworkError::Io(IoFailure::Other)))
    );
    assert_eq!(
        status.on_read(Err(IoFailure::Interrupted), 3),
        Err(AspenRsError::NetworkError(NetworkError::Interrupted))
    );
}

#[test]
fn network_error_classification() {
    assert_eq!(NetworkError::from(IoFailure::ConnectionReset), NetworkError::ConnectionReset);
    assert_eq!(NetworkError::from(IoFailure::Interrupted), NetworkError::Interrupted);
    assert_eq!(NetworkError::from(IoFailure::Other), NetworkError::Io(IoFailure::Other));
    assert_eq!(NetworkError::from(IoFailure::WouldBlock), NetworkError::Io(IoFailure::WouldBlock));
    assert!(AspenRsError::NetworkError(NetworkError::ConnectionReset).is_disconnect());
    assert!(AspenRsError::NetworkError(NetworkError::ConnectionClosed).is_disconnect());
    assert!(!AspenRsError::NetworkError(NetworkError::Interrupted).is_disconnect());
    assert!(!AspenRsError::ParseError(ParseError::PacketTooShort).is_disconnect());
}

#[test]
fn empty_read_is_a_clean_close() {
    let mut status = ConnectionStatus::new();
    status.submit(Some(Request::LcRead { req_id: 1, id: 5 }));
    send_all(&mut status, 1);
    assert_eq!(
        status.on_read(Ok(&[]), 2),
        Err(AspenRsError::NetworkError(NetworkError::ConnectionClosed))
    );
    assert_eq!(status.kind(), ConnStateType::ReadingResponse);
}

#[test]
fn response_of_another_class_is_refused() {
    let mut status = ConnectionStatus::new();
    status.submit(Some(Request::LcRead { req_id: 1, id: 5 }));
    send_all(&mut status, 1);
    assert_eq!(
        status.on_read(Ok(&[8]), 2),
        Err(AspenRsError::ParseError(ParseError::UnexpectedMessageType {
            given_type: ResponseType::LcWrite,
            exp_type: ResponseType::LcRead,
        }))
    );
    assert_eq!(
        status.on_read(Ok(&[3]), 2),
        Err(AspenRsError::ParseError(ParseError::InvalidMessageType(3)))
    );
    // The refused bytes were not taken in.
    assert_eq!(status.read_limit(), 9);
    assert_eq!(status.on_read(Ok(&[7]), 2), Ok(Progress::MadeProgress));
    assert_eq!(status.read_limit(), 8);
}

#[test]
fn over_read_is_refused() {
    let mut status = ConnectionStatus::new();
    status.submit(Some(Request::LcRead { req_id: 1, id: 5 }));
    send_all(&mut status, 1);
    let mut bytes = Response::LcRead { req_id: 1, username: None }.serialize();
    assert_eq!(bytes.len(), 18);
    bytes.push(7);
    assert_eq!(
        status.on_read(Ok(&bytes), 2),
        Err(AspenRsError::ParseError(ParseError::UnexpectedLength { payload_len: 19, exp_len: 18 }))
    );
    assert_eq!(status.kind(), ConnStateType::ReadingResponse);
    assert_eq!(status.read_limit(), 9);
}

#[test]
fn malformed_response_is_refused() {
    let mut status = ConnectionStatus::new();
    status.submit(Some(Request::LcRead { req_id: 1, id: 5 }));
    send_all(&mut status, 1);
    let mut bytes = vec![7u8, 0, 0, 0, 0, 0, 0, 0, 9];
    bytes.extend_from_slice(&[0; 8]);
    bytes.push(4);
    assert_eq!(
        status.on_read(Ok(&bytes), 2),
        Err(AspenRsError::ParseError(ParseError::UnexpectedOptionType(4)))
    );
}

#[test]
fn reader_never_asks_past_the_frame() {
    assert_eq!(read_limit(&[]), 9);
    assert_eq!(read_limit(&[7, 0, 0]), 6);
    assert_eq!(read_limit(&[7, 0, 0, 0, 0, 0, 0, 0, 9]), 9);
    assert_eq!(read_limit(&[7, 0, 0, 0, 0, 0, 0, 0, 9, 1, 2]), 7);
    assert_eq!(read_limit(&[7, 0, 0, 0, 0, 0, 0, 3, 0]), 512);
    assert_eq!(read_limit(&[7, 0xff, 0xff, 0xff, 0xff, 0xff, 0xff, 0xff, 0xff]), 512);
    assert_eq!(read_limit(&[7, 0, 0, 0, 0, 0, 0, 0, 0]), 0);
    assert_eq!(measure_frame(&[7, 0, 0]), FrameProgress::NeedHeader);
    assert_eq!(measure_frame(&[7, 0, 0, 0, 0, 0, 0, 0, 2, 1]), FrameProgress::NeedPayload(2));
    assert_eq!(measure_frame(&[7, 0, 0, 0, 0, 0, 0, 0, 2, 1, 1]), FrameProgress::Complete(2));
    assert_eq!(measure_frame(&[7, 0, 0, 0, 0, 0, 0, 0, 2, 1, 1, 1]), FrameProgress::Overrun(11));
}

#[test]
fn clock_going_backwards_gives_zero() {
    let mut status = ConnectionStatus::new();
    status.submit(Some(Request::LcRead { req_id: 1, id: 5 }));
    send_all(&mut status, 100);
    let response = Response::LcRead { req_id: 1, username: None }.serialize();
    assert_eq!(
        status.on_read(Ok(&response), 40),
        Ok(Progress::CompletedResponse(ResponseType::LcRead, 0))
    );
}

#[test]
fn request_state_phases() {
    let mut state = RequestState::new(Request::BeRead { req_id: 3, substring: String::from("abc") });
    assert_eq!(state.kind(), RequestStateType::Writing);
    assert!(!state.in_flight());
    assert_eq!(state.unsent().len(), 20);
    assert_eq!(state.on_write(Ok(5), 7), Ok(Progress::SentRequest));
    assert!(state.in_flight());
    assert_eq!(state.unsent().len(), 15);
    assert_eq!(state.on_write(Ok(15), 9), Ok(Progress::MadeProgress));
    assert_eq!(state.kind(), RequestStateType::Reading);
    assert!(state.in_flight());
    assert_eq!(state.unsent().len(), 0);
    assert_eq!(state.read_limit(), 9);
    let response = Response::BeRead { req_id: 3, freq: 2 }.serialize();
    assert_eq!(state.on_read(Ok(&response[..12]), 10), Ok(Progress::MadeProgress));
    assert_eq!(state.read_limit(), 13);
    assert_eq!(
        state.on_read(Ok(&response[12..]), 11),
        Ok(Progress::CompletedResponse(ResponseType::BeRead, 4))
    );
}

/// A server on the other end of a pair of byte queues.
struct Loopback {
    store: Store,
    reader: RequestReader,
    to_client: Vec<u8>,
}

impl Loopback {
    fn new(rows: usize) -> Loopback {
        let (store, _) = Store::new((0..rows).map(|i| format!("u{i}")).collect());
        Loopback { store, reader: RequestReader::new(), to_client: Vec::new() }
    }

    fn take(&mut self, bytes: &[u8]) {
        let mut at = 0;
        while at < bytes.len() {
            let limit = self.reader.read_limit().max(1).min(bytes.len() - at);
            if let Some(req) = self.reader.feed(Ok(&bytes[at..at + limit])).unwrap() {
                let res = execute_task(&mut self.store, req);
                self.to_client.extend_from_slice(&res.serialize());
            }
            at += limit;
        }
    }
}

#[test]
fn responses_come_in_request_order() {
    let mut server = Loopback::new(10);
    let requests = vec![
        Request::LcWrite { req_id: 1, id: 5, username: String::from("alice") },
        Request::LcRead { req_id: 2, id: 5 },
        Request::BeRead { req_id: 3, substring: String::from("u1") },
        Request::LcRead { req_id: 4, id: 77 },
        Request::BeRead { req_id: 5, substring: String::from("lic") },
    ];
    let mut status = ConnectionStatus::new();
    let mut completed: Vec<ResponseType> = Vec::new();
    let mut now: u128 = 0;
    for req in &requests {
        assert_eq!(status.submit(Some(req.clone())), Progress::MadeProgress);
        while status.kind() == ConnStateType::WritingRequest {
            let chunk: Vec<u8> = status.unsent().iter().take(7).copied().collect();
            now += 1;
            status.on_write(Ok(chunk.len()), now).unwrap();
            server.take(&chunk);
        }
        while status.kind() == ConnStateType::ReadingResponse {
            let limit = status.read_limit().min(5).min(server.to_client.len());
            assert!(limit > 0);
            let chunk: Vec<u8> = server.to_client.drain(..limit).collect();
            now += 1;
            if let Progress::CompletedResponse(kind, _) = status.on_read(Ok(&chunk), now).unwrap() {
                completed.push(kind);
            }
        }
        assert!(server.to_client.is_empty());
    }
    assert_eq!(
        completed,
        vec![
            ResponseType::LcWrite,
            ResponseType::LcRead,
            ResponseType::BeRead,
            ResponseType::LcRead,
            ResponseType::BeRead
        ]
    );
}

#[test]
fn server_reader_gathers_requests() {
    let mut reader = RequestReader::new();
    assert_eq!(reader.read_limit(), 9);
    let req = Request::LcWrite { req_id: 1, id: 2, username: String::from("bob") };
    let bytes = req.serialize();
    assert_eq!(reader.feed(Ok(&bytes[..4])), Ok(None));
    assert_eq!(reader.read_limit(), 5);
    assert_eq!(reader.feed(Ok(&bytes[4..9])), Ok(None));
    assert_eq!(reader.read_limit(), bytes.len() - 9);
    assert_eq!(reader.feed(Ok(&bytes[9..])), Ok(Some(req)));
    // The reader starts over for the next request.
    assert_eq!(reader.read_limit(), 9);
    let next = Request::LcRead { req_id: 2, id: 2 };
    assert_eq!(reader.feed(Ok(&next.serialize())), Ok(Some(next)));
}

#[test]
fn server_reader_refusals() {
    let mut reader = RequestReader::new();
    assert_eq!(
        reader.feed(Ok(&[])),
        Err(AspenRsError::NetworkError(NetworkError::ConnectionClosed))
    );
    assert_eq!(
        reader.feed(Ok(&[1, 2, 3])),
        Err(AspenRsError::ParseError(ParseError::InvalidMessageType(1)))
    );
    assert_eq!(
        reader.feed(Err(IoFailure::ConnectionReset)),
        Err(AspenRsError::NetworkError(NetworkError::ConnectionReset))
    );
    assert_eq!(
        reader.feed(Err(IoFailure::Other)),
        Err(AspenRsError::NetworkError(NetworkError::Io(IoFailure::Other)))
    );
    let mut bytes = Request::LcRead { req_id: 2, id: 2 }.serialize();
    bytes.push(0);
    assert_eq!(
        reader.feed(Ok(&bytes)),
        Err(AspenRsError::ParseError(ParseError::UnexpectedLength { payload_len: 26, exp_len: 25 }))
    );
    let wrong_len = [7u8, 0, 0, 0, 0, 0, 0, 0, 1, 0];
    assert_eq!(
        reader.feed(Ok(&wrong_len)),
        Err(AspenRsError::ParseError(ParseError::UnexpectedLength { payload_len: 1, exp_len: 16 }))
    );
    // Nothing of the refused input stayed.
    assert_eq!(reader.read_limit(), 9);
}

#[test]
fn request_class_from_two_draws() {
    assert_eq!(choose_request_type(true, true), RequestType::BeRead);
    assert_eq!(choose_request_type(true, false), RequestType::BeRead);
    assert_eq!(choose_request_type(false, true), RequestType::LcWrite);
    assert_eq!(choose_request_type(false, false), RequestType::LcRead);
}

#[test]
fn closed_loop_counts() {
    let mut thread = ClientThread::init(2, 3);
    assert_eq!(thread.conns_per_thr(), 3);
    assert_eq!((thread.remaining_work(), thread.tasks_pending(), thread.cursor()), (2, 0, 0));
    assert!(!thread.is_done());
    assert_eq!(thread.kind(), ConnStateType::Ready);
    assert_eq!(thread.unsent(), &[] as &[u8]);
    assert_eq!(thread.read_limit(), 0);

    // The first connection gets a request; it is pending once bytes are out.
    assert!(thread.claim_work());
    assert_eq!(thread.remaining_work(), 1);
    let first = Request::LcRead { req_id: 1, id: 5 };
    assert_eq!(thread.submit(Some(first.clone())), Progress::MadeProgress);
    assert_eq!(thread.kind(), ConnStateType::WritingRequest);
    assert!(!thread.claim_work());
    assert_eq!(thread.unsent(), first.serialize().as_slice());
    assert_eq!(thread.on_write(Err(IoFailure::WouldBlock), 1), Ok(Progress::WouldBlock));
    assert_eq!(thread.tasks_pending(), 0);
    assert_eq!(thread.on_write(Ok(10), 2), Ok(Progress::SentRequest));
    assert_eq!(thread.tasks_pending(), 1);
    assert_eq!(thread.on_write(Ok(15), 3), Ok(Progress::MadeProgress));
    assert_eq!(thread.tasks_pending(), 1);
    assert_eq!(thread.kind(), ConnStateType::ReadingResponse);
    assert_eq!(thread.read_limit(), 9);
    thread.advance();
    assert_eq!(thread.cursor(), 1);

    // The second connection gets the last request, and is reset before any
    // byte is out: nothing was pending on it.
    assert_eq!(thread.kind(), ConnStateType::Ready);
    assert!(thread.claim_work());
    assert_eq!(thread.remaining_work(), 0);
    assert_eq!(thread.submit(Some(Request::LcRead { req_id: 2, id: 5 })), Progress::MadeProgress);
    assert_eq!(
        thread.on_write(Err(IoFailure::ConnectionReset), 4),
        Ok(Progress::ConnectionReset(false))
    );
    assert_eq!(thread.tasks_pending(), 1);
    assert_eq!(thread.kind(), ConnStateType::Ready);
    assert!(!thread.claim_work());
    assert_eq!(thread.submit(None), Progress::Idle);
    thread.advance();
    assert_eq!(thread.cursor(), 2);
    thread.advance();
    assert_eq!(thread.cursor(), 0);

    // Back on the first connection the response completes.
    assert!(!thread.is_done());
    let response = Response::LcRead { req_id: 1, username: None }.serialize();
    assert_eq!(thread.on_read(Ok(&response[..9]), 40), Ok(Progress::MadeProgress));
    assert_eq!(thread.tasks_pending(), 1);
    assert_eq!(
        thread.on_read(Ok(&response[9..]), 44),
        Ok(Progress::CompletedResponse(ResponseType::LcRead, 42))
    );
    assert_eq!(thread.tasks_pending(), 0);
    assert_eq!(thread.kind(), ConnStateType::Ready);
    assert_eq!(thread.latencies().get(ResponseType::LcRead), &vec![42u128]);
    assert!(thread.is_done());
}

#[test]
fn reset_drops_a_pending_request() {
    let mut thread = ClientThread::init(5, 1);
    assert!(thread.claim_work());
    thread.submit(Some(Request::LcRead { req_id: 1, id: 5 }));
    assert_eq!(thread.on_write(Ok(25), 1), Ok(Progress::SentRequest));
    assert_eq!(thread.tasks_pending(), 1);
    assert_eq!(
        thread.on_read(Err(IoFailure::ConnectionReset), 2),
        Ok(Progress::ConnectionReset(true))
    );
    assert_eq!(thread.tasks_pending(), 0);
    assert_eq!(thread.kind(), ConnStateType::Ready);
    assert_eq!(thread.remaining_work(), 4);
    // An error leaves everything as it was.
    assert!(thread.claim_work());
    thread.submit(Some(Request::LcRead { req_id: 2, id: 5 }));
    assert_eq!(thread.on_write(Ok(25), 3), Ok(Progress::SentRequest));
    assert_eq!(
        thread.on_read(Ok(&[]), 4),
        Err(AspenRsError::NetworkError(NetworkError::ConnectionClosed))
    );
    assert_eq!(thread.tasks_pending(), 1);
    assert_eq!(thread.kind(), ConnStateType::ReadingResponse);
}

/// Drives the thread's one connection against the loopback server until
/// `stop` says so, and returns the number of resets.
fn drive(thread: &mut ClientThread, server: &mut Loopback, stop: fn(&ClientThread) -> bool) -> usize {
    let mut drops = 0;
    let mut now: u128 = 0;
    let mut next_id: u64 = 0;
    while !stop(thread) {
        now += 3;
        let progress = match thread.kind() {
            ConnStateType::Ready => {
                let req = if thread.claim_work() {
                    next_id += 1;
                    Some(Request::random(choose_request_type(false, false), next_id))
                } else {
                    None
                };
                thread.submit(req)
            }
            ConnStateType::WritingRequest => {
                let chunk = thread.unsent().to_vec();
                server.take(&chunk);
                thread.on_write(Ok(chunk.len()), now).unwrap()
            }
            ConnStateType::ReadingResponse => {
                let limit = thread.read_limit().min(server.to_client.len());
                let chunk: Vec<u8> = server.to_client.drain(..limit).collect();
                thread.on_read(Ok(&chunk), now).unwrap()
            }
        };
        if let Progress::ConnectionReset(_) = progress {
            drops += 1;
        }
        thread.advance();
    }
    drops
}

#[test]
fn smoke_closed_loop_run() {
    // One thread, one connection, 100 reads against a store of ten entries,
    // driven until the counts are done and the connection is ready again.
    let mut server = Loopback::new(10);
    let mut thread = ClientThread::init(100, 1);
    let drops = drive(&mut thread, &mut server, |thread| {
        thread.is_done() && thread.kind() == ConnStateType::Ready
    });
    assert_eq!(drops, 0);
    assert_eq!(thread.latencies().get(ResponseType::LcRead).len(), 100);
    assert_eq!(thread.latencies().get(ResponseType::BeRead).len(), 0);
    assert_eq!(thread.latencies().get(ResponseType::LcWrite).len(), 0);
    let mut hists = LatencyHistograms::new();
    assert_eq!(hists.absorb(thread.latencies()), 0);
    assert_eq!(hists.len(ResponseType::LcRead), 100);
    assert_eq!(hists.len(ResponseType::BeRead), 0);
    assert_eq!(hists.len(ResponseType::LcWrite), 0);
}

#[test]
fn counts_alone_end_the_run_before_the_last_request_is_sent() {
    // A request counts as pending only once its first bytes are out. Right
    // after the last one was handed to a ready connection both counts are
    // zero, with that request still unsent.
    let mut server = Loopback::new(10);
    let mut thread = ClientThread::init(100, 1);
    let drops = drive(&mut thread, &mut server, |thread| thread.is_done());
    assert_eq!(drops, 0);
    assert_eq!(thread.kind(), ConnStateType::WritingRequest);
    assert_eq!(thread.latencies().get(ResponseType::LcRead).len(), 99);
}

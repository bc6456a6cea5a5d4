use aspen_rust::client::open::{
    req_id_shift, ClientThread, Connection, OpenProgress, QueueStep, ReqIdAllocator,
};
use aspen_rust::error::{AspenRsError, InternalFault, IoFailure, NetworkError};
use aspen_rust::latency::{record_latencies, sample_of_latency, Latencies, LatencyHistograms};
use aspen_rust::packet::{Message, Request, RequestType, Response, ResponseType};
use aspen_rust::random::pick_connection;
use aspen_rust::CAPACITY;

#[test]
fn shift_is_the_rounded_up_logarithm() {
    let expected = [(1, 0), (2, 1), (3, 2), (4, 2), (5, 3), (8, 3), (9, 4), (16, 4), (17, 5), (1000, 10), (1024, 10), (1025, 11)];
    for (threads, shift) in expected {
        assert_eq!(req_id_shift(threads), shift);
    }
    assert_eq!(req_id_shift(0), 0);
    assert_eq!(req_id_shift(usize::MAX), usize::BITS as u8);
}

#[test]
fn ids_carry_the_thread_in_the_low_bits() {
    let mut ids = ReqIdAllocator::new(2, 2).unwrap();
    assert_eq!(ids.issued(), 0);
    assert_eq!(ids.next_id(), Some(2));
    assert_eq!(ids.next_id(), Some(6));
    assert_eq!(ids.next_id(), Some(10));
    assert_eq!(ids.issued(), 3);
    let mut alone = ReqIdAllocator::new(0, 0).unwrap();
    assert_eq!(alone.next_id(), Some(0));
    assert_eq!(alone.next_id(), Some(1));
}

#[test]
fn ids_are_unique_across_threads() {
    for threads in [1usize, 2, 3, 4, 5, 7, 8] {
        let shift = req_id_shift(threads);
        let mut seen = std::collections::HashSet::new();
        for thread in 0..threads as u64 {
            let mut ids = ReqIdAllocator::new(thread, shift).unwrap();
            for _ in 0..200 {
                let id = ids.next_id().unwrap();
                assert_eq!(id % (1u64 << shift), thread);
                assert!(seen.insert(id));
            }
        }
        assert_eq!(seen.len(), threads * 200);
    }
}

#[test]
fn thread_index_must_fit_the_shift() {
    assert!(ReqIdAllocator::new(4, 2).is_none());
    assert!(ReqIdAllocator::new(3, 2).is_some());
    assert!(ReqIdAllocator::new(1, 0).is_none());
    assert!(ReqIdAllocator::new(0, 65).is_none());
    assert!(ReqIdAllocator::new(u64::MAX, 64).is_some());
    assert!(ClientThread::init(4, 2).is_none());
}

#[test]
fn ids_run_out_at_64_bits() {
    let mut ids = ReqIdAllocator::new(5, 64).unwrap();
    assert_eq!(ids.next_id(), Some(5));
    assert_eq!(ids.next_id(), None);
    assert_eq!(ids.next_id(), None);
    assert_eq!(ids.issued(), 1);
    let mut ids = ReqIdAllocator::new(1, 63).unwrap();
    assert_eq!(ids.next_id(), Some(1));
    assert_eq!(ids.next_id(), Some((1 << 63) + 1));
    assert_eq!(ids.next_id(), None);
}

#[test]
fn thread_generates_requests_under_its_ids() {
    let mut thread = ClientThread::init(1, 1).unwrap();
    let (req, id) = thread.generate_random_request(true, false).unwrap();
    assert_eq!(id, 1);
    match req {
        Request::BeRead { req_id, substring } => {
            assert_eq!(req_id, 1);
            assert_eq!(substring.len(), 3);
            assert!(substring.chars().all(|c| c.is_ascii_alphanumeric()));
        }
        other => panic!("unexpected request {other:?}"),
    }
    let (req, id) = thread.generate_random_request(false, true).unwrap();
    assert_eq!(id, 3);
    match req {
        Request::LcWrite { req_id, id, username } => {
            assert_eq!(req_id, 3);
            assert!(id < CAPACITY as u64);
            assert!(username.len() < 10);
            assert!(username.chars().all(|c| c.is_ascii_alphanumeric()));
        }
        other => panic!("unexpected request {other:?}"),
    }
    let (req, id) = thread.generate_random_request(false, false).unwrap();
    assert_eq!(id, 5);
    match req {
        Request::LcRead { req_id, id } => {
            assert_eq!(req_id, 5);
            assert!(id < CAPACITY as u64);
        }
        other => panic!("unexpected request {other:?}"),
    }
    assert_eq!(thread.ids.issued(), 3);
}

#[test]
fn random_requests_have_the_asked_class() {
    for i in 0..200u64 {
        for kind in [RequestType::BeRead, RequestType::LcRead, RequestType::LcWrite] {
            let req = Request::random(kind, i);
            assert_eq!(req.kind(), kind);
            let bytes = req.serialize();
            assert_eq!(Request::deserialize(&bytes), Ok(req));
        }
    }
}

#[test]
fn parts_are_taken_by_class() {
    assert_eq!(
        Request::from_parts(RequestType::BeRead, 1, 2, String::from("abc")),
        Request::BeRead { req_id: 1, substring: String::from("abc") }
    );
    assert_eq!(
        Request::from_parts(RequestType::LcRead, 1, 2, String::from("abc")),
        Request::LcRead { req_id: 1, id: 2 }
    );
    assert_eq!(
        Request::from_parts(RequestType::LcWrite, 1, 2, String::from("abc")),
        Request::LcWrite { req_id: 1, id: 2, username: String::from("abc") }
    );
}

#[test]
fn connection_is_picked_within_range() {
    assert_eq!(pick_connection(0), None);
    assert_eq!(pick_connection(1), Some(0));
    let mut seen = [false; 4];
    for _ in 0..400 {
        let i = pick_connection(4).unwrap();
        assert!(i < 4);
        seen[i] = true;
    }
    assert_eq!(seen, [true; 4]);
}

#[test]
fn duplicate_request_id_is_refused() {
    let mut conn = Connection::new();
    assert_eq!(conn.enqueue_new_request(Request::LcRead { req_id: 7, id: 1 }, 7), Ok(()));
    assert_eq!(
        conn.enqueue_new_request(Request::LcRead { req_id: 7, id: 2 }, 7),
        Err(AspenRsError::InternalError(InternalFault::DuplicateRequestId(7)))
    );
    assert_eq!(conn.in_flight_len(), 1);
    // The first request is still the one to write.
    assert_eq!(
        conn.pending_write().unwrap(),
        Request::LcRead { req_id: 7, id: 1 }.serialize().as_slice()
    );
}

#[test]
fn reset_counts_everything_in_flight() {
    let mut conn = Connection::new();
    assert_eq!(conn.drop_count(), 0);
    for id in 0..3u64 {
        conn.enqueue_new_request(Request::LcRead { req_id: id, id: 1 }, id).unwrap();
    }
    // One is written out, one partly, one not at all.
    assert_eq!(conn.on_write(Ok(25), 1), Ok(QueueStep::Continue));
    assert_eq!(conn.on_write(Ok(10), 2), Ok(QueueStep::Stop(OpenProgress::MadeProgress)));
    assert_eq!(conn.in_flight_len(), 3);
    assert_eq!(
        conn.on_write(Err(IoFailure::ConnectionReset), 3),
        Ok(QueueStep::Stop(OpenProgress::ConnectionReset))
    );
    conn.reset();
    assert_eq!(conn.drop_count(), 3);
    assert_eq!(conn.in_flight_len(), 0);
    assert!(!conn.has_writes());
    assert!(!conn.has_reads());
    assert!(conn.pending_write().is_none());
    // The ids are free again, and a second reset adds what is then in flight.
    conn.enqueue_new_request(Request::LcRead { req_id: 0, id: 1 }, 0).unwrap();
    conn.reset();
    assert_eq!(conn.drop_count(), 4);
    conn.reset();
    assert_eq!(conn.drop_count(), 4);
}

#[test]
fn queues_are_served_head_first() {
    let mut conn = Connection::new();
    let first = Request::LcRead { req_id: 10, id: 1 };
    let second = Request::BeRead { req_id: 11, substring: String::from("abc") };
    conn.enqueue_new_request(first.clone(), 10).unwrap();
    conn.enqueue_new_request(second.clone(), 11).unwrap();
    assert!(conn.has_writes());
    assert!(!conn.has_reads());
    assert_eq!(conn.read_limit(), 0);
    assert_eq!(conn.pending_write().unwrap(), first.serialize().as_slice());
    assert_eq!(conn.on_write(Err(IoFailure::WouldBlock), 100), Ok(QueueStep::Stop(OpenProgress::MadeProgress)));
    assert_eq!(conn.on_write(Ok(25), 100), Ok(QueueStep::Continue));
    assert!(conn.has_reads());
    assert_eq!(conn.pending_write().unwrap(), second.serialize().as_slice());
    assert_eq!(conn.on_write(Ok(4), 110), Ok(QueueStep::Stop(OpenProgress::MadeProgress)));
    assert_eq!(conn.pending_write().unwrap(), &second.serialize()[4..]);
    assert_eq!(conn.on_write(Ok(16), 120), Ok(QueueStep::Continue));
    assert!(!conn.has_writes());
    assert!(conn.pending_write().is_none());
    assert_eq!(conn.in_flight_len(), 2);

    let first_res = Response::LcRead { req_id: 10, username: None }.serialize();
    let second_res = Response::BeRead { req_id: 11, freq: 0 }.serialize();
    assert_eq!(conn.read_limit(), 9);
    assert_eq!(conn.on_read(Err(IoFailure::WouldBlock), 150), Ok(QueueStep::Stop(OpenProgress::MadeProgress)));
    assert_eq!(conn.on_read(Ok(&first_res[..9]), 150), Ok(QueueStep::Stop(OpenProgress::MadeProgress)));
    assert_eq!(conn.read_limit(), 9);
    assert_eq!(conn.on_read(Ok(&first_res[9..]), 160), Ok(QueueStep::Continue));
    assert_eq!(conn.in_flight_len(), 1);
    assert_eq!(conn.on_read(Ok(&second_res), 170), Ok(QueueStep::Continue));
    assert_eq!(conn.in_flight_len(), 0);
    assert!(!conn.has_reads());
    // Latencies run from the first write of each request.
    assert_eq!(conn.latencies().get(ResponseType::LcRead), &vec![60u128]);
    assert_eq!(conn.latencies().get(ResponseType::BeRead), &vec![60u128]);
    assert_eq!(conn.latencies().get(ResponseType::LcWrite), &Vec::<u128>::new());
    // A completed request is no longer in flight, so a reset drops nothing.
    conn.reset();
    assert_eq!(conn.drop_count(), 0);
}

#[test]
fn open_loop_read_errors_leave_the_queue() {
    let mut conn = Connection::new();
    conn.enqueue_new_request(Request::LcRead { req_id: 1, id: 1 }, 1).unwrap();
    conn.on_write(Ok(25), 1).unwrap();
    assert_eq!(
        conn.on_read(Ok(&[]), 2),
        Err(AspenRsError::NetworkError(NetworkError::ConnectionClosed))
    );
    assert_eq!(
        conn.on_read(Err(IoFailure::ConnectionReset), 2),
        Ok(QueueStep::Stop(OpenProgress::ConnectionReset))
    );
    assert_eq!(
        conn.on_read(Err(IoFailure::Interrupted), 2),
        Err(AspenRsError::NetworkError(NetworkError::Interrupted))
    );
    assert!(conn.has_reads());
    assert_eq!(conn.in_flight_len(), 1);
    assert_eq!(conn.read_limit(), 9);
}

#[test]
fn thread_collects_from_its_connections() {
    let mut thread = ClientThread::init(0, 0).unwrap();
    let mut a = Connection::new();
    a.enqueue_new_request(Request::LcRead { req_id: 1, id: 1 }, 1).unwrap();
    a.on_write(Ok(25), 5).unwrap();
    a.on_read(Ok(&Response::LcRead { req_id: 1, username: None }.serialize()), 9).unwrap();
    a.enqueue_new_request(Request::LcRead { req_id: 2, id: 1 }, 2).unwrap();
    a.reset();
    let mut b = Connection::new();
    b.enqueue_new_request(Request::LcRead { req_id: 3, id: 1 }, 3).unwrap();
    b.enqueue_new_request(Request::LcRead { req_id: 4, id: 1 }, 4).unwrap();
    b.reset();
    thread.collect(&a);
    thread.collect(&b);
    assert_eq!(thread.drop_count, 3);
    assert_eq!(thread.latencies.get(ResponseType::LcRead), &vec![4u128]);
}

#[test]
fn latencies_are_kept_by_class() {
    let mut lists = Latencies::new();
    lists.record(ResponseType::LcRead, 5);
    lists.record(ResponseType::BeRead, 900);
    lists.record(ResponseType::LcRead, 7);
    let mut more = Latencies::new();
    more.record(ResponseType::LcRead, 1);
    more.record(ResponseType::LcWrite, 2);
    lists.extend_from(&more);
    assert_eq!(lists.get(ResponseType::LcRead), &vec![5u128, 7, 1]);
    assert_eq!(lists.get(ResponseType::BeRead), &vec![900u128]);
    assert_eq!(lists.get(ResponseType::LcWrite), &vec![2u128]);
}

#[test]
fn histograms_count_what_they_record() {
    let mut hists = LatencyHistograms::new();
    for kind in [ResponseType::BeRead, ResponseType::LcRead, ResponseType::LcWrite] {
        assert_eq!(hists.len(kind), 0);
    }
    let mut lists = Latencies::new();
    for i in 0..100u128 {
        lists.record(ResponseType::LcRead, i);
    }
    lists.record(ResponseType::BeRead, u64::MAX as u128);
    lists.record(ResponseType::BeRead, (u64::MAX as u128) + 8);
    assert_eq!(hists.absorb(&lists), 0);
    assert_eq!(hists.len(ResponseType::LcRead), 100);
    assert_eq!(hists.len(ResponseType::BeRead), 2);
    assert_eq!(hists.len(ResponseType::LcWrite), 0);
    assert_eq!(hists.absorb(&lists), 0);
    assert_eq!(hists.len(ResponseType::LcRead), 200);
    assert_eq!(record_latencies(&mut hists.lc_write, &vec![1, 2, 3]), 0);
    assert_eq!(hists.len(ResponseType::LcWrite), 3);
}

#[test]
fn histograms_take_in_the_whole_range_of_samples() {
    // Nothing from zero to the largest 64-bit value is refused, and values
    // that share a bucket are each counted.
    let mut hists = LatencyHistograms::new();
    let samples: Vec<u128> = vec![0, 1, 2048, 2049, 2052, 1 << 40, (1 << 63) + 5, u64::MAX as u128];
    assert_eq!(record_latencies(&mut hists.be_read, &samples), 0);
    assert_eq!(hists.len(ResponseType::BeRead), 8);
    assert_eq!(hists.len(ResponseType::LcRead), 0);
    assert_eq!(record_latencies(&mut hists.be_read, &Vec::new()), 0);
    assert_eq!(hists.len(ResponseType::BeRead), 8);
}

#[test]
fn sample_is_the_low_64_bits_of_a_latency() {
    assert_eq!(sample_of_latency(0), 0);
    assert_eq!(sample_of_latency(42), 42);
    assert_eq!(sample_of_latency(u64::MAX as u128), u64::MAX);
    assert_eq!(sample_of_latency((u64::MAX as u128) + 1), 0);
    assert_eq!(sample_of_latency((u64::MAX as u128) + 8), 7);
    assert_eq!(sample_of_latency(u128::MAX), u64::MAX);
}

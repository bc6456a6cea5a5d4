use aspen_rust::packet::{Request, Response};
use aspen_rust::server::{execute_shared, execute_task, scan_response, start_scan};
use aspen_rust::store::{BeScan, ScanStep, Store, YIELD_INTERVAL};
use aspen_rust::text::{contains_bytes, contains_text};

fn users(n: usize) -> Vec<String> {
    (0..n).map(|i| format!("u{i}")).collect()
}

#[test]
fn store_is_built_from_rows() {
    let (store, len) = Store::new(users(10));
    assert_eq!(len, 10);
    for i in 0..10u64 {
        assert_eq!(store.lc_read_task(i), Some(format!("u{i}")));
    }
    assert_eq!(store.lc_read_task(10), None);
    assert_eq!(store.lc_read_task(u64::MAX), None);
    let (empty, len) = Store::new(Vec::new());
    assert_eq!(len, 0);
    assert_eq!(empty.lc_read_task(0), None);
}

#[test]
fn read_sees_the_last_write() {
    let (mut store, _) = Store::new(users(3));
    store.lc_write_task(1, String::from("alice"));
    assert_eq!(store.lc_read_task(1), Some(String::from("alice")));
    store.lc_write_task(900, String::from("new"));
    assert_eq!(store.lc_read_task(900), Some(String::from("new")));
    assert_eq!(store.lc_read_task(0), Some(String::from("u0")));
}

#[test]
fn write_returns_the_previous_value() {
    let (mut store, _) = Store::new(users(3));
    assert_eq!(store.lc_write_task(2, String::from("v1")), Some(String::from("u2")));
    assert_eq!(store.lc_write_task(2, String::from("v2")), Some(String::from("v1")));
    assert_eq!(store.lc_write_task(50, String::from("v1")), None);
    assert_eq!(store.lc_write_task(50, String::from("v2")), Some(String::from("v1")));
    assert_eq!(store.lc_read_task(50), Some(String::from("v2")));
}

#[test]
fn substring_search_is_by_bytes() {
    assert!(contains_bytes(b"hello", b"ell"));
    assert!(contains_bytes(b"hello", b"hello"));
    assert!(contains_bytes(b"hello", b"o"));
    assert!(contains_bytes(b"hello", b""));
    assert!(contains_bytes(b"", b""));
    assert!(!contains_bytes(b"hello", b"hellos"));
    assert!(!contains_bytes(b"hello", b"lo "));
    assert!(!contains_bytes(b"", b"a"));
    assert!(contains_bytes(b"aab", b"ab"));
    assert!(contains_text("h\u{e9}llo", "\u{e9}l"));
    // One byte of a two-byte character is a run of bytes of the text.
    assert!(contains_bytes("h\u{e9}llo".as_bytes(), &[0xa9, b'l']));
    assert!(!contains_text("hello", "L"));
}

#[test]
fn scan_counts_matching_values() {
    let rows = vec![
        String::from("alice"),
        String::from("malice"),
        String::from("bob"),
        String::from("ALICE"),
        String::from("alice"),
    ];
    let (store, _) = Store::new(rows);
    assert_eq!(store.be_task(String::from("lic")), 3);
    assert_eq!(store.be_task(String::from("bob")), 1);
    assert_eq!(store.be_task(String::from("zzz")), 0);
    assert_eq!(store.be_task(String::new()), 5);
    let (empty, _) = Store::new(Vec::new());
    assert_eq!(empty.be_task(String::from("a")), 0);
}

#[test]
fn scan_counts_every_key_of_equal_values() {
    let (mut store, _) = Store::new(vec![String::from("same"); 40]);
    assert_eq!(store.be_task(String::from("am")), 40);
    store.lc_write_task(7, String::from("other"));
    assert_eq!(store.be_task(String::from("am")), 39);
    store.lc_write_task(1000, String::from("same"));
    assert_eq!(store.be_task(String::from("am")), 40);
}

#[test]
fn snapshot_holds_each_value_once() {
    let (store, _) = Store::new(users(100));
    let mut values = store.snapshot();
    values.sort();
    let mut expected = users(100);
    expected.sort();
    assert_eq!(values, expected);
}

#[test]
fn scan_yields_after_each_multiple_of_the_interval() {
    assert_eq!(YIELD_INTERVAL, 32);
    let values: Vec<String> = (0..70).map(|i| if i % 2 == 0 { "ab" } else { "cd" }.to_string()).collect();
    let mut scan = BeScan::new(values, String::from("b"));
    assert_eq!(scan.step(), ScanStep::Yield);
    assert_eq!((scan.next, scan.freq), (1, 1));
    assert_eq!(scan.step(), ScanStep::Yield);
    assert_eq!((scan.next, scan.freq), (33, 17));
    assert_eq!(scan.step(), ScanStep::Yield);
    assert_eq!((scan.next, scan.freq), (65, 33));
    assert_eq!(scan.step(), ScanStep::Done(35));
    assert_eq!((scan.next, scan.freq), (70, 35));
    assert_eq!(scan.step(), ScanStep::Done(35));
}

#[test]
fn scan_yields_after_the_last_value_too() {
    let values: Vec<String> = vec![String::from("x"); 33];
    let mut scan = BeScan::new(values, String::from("x"));
    assert_eq!(scan.step(), ScanStep::Yield);
    assert_eq!(scan.step(), ScanStep::Yield);
    assert_eq!(scan.next, 33);
    assert_eq!(scan.step(), ScanStep::Done(33));
    let mut empty = BeScan::new(Vec::new(), String::from("x"));
    assert_eq!(empty.step(), ScanStep::Done(0));
}

#[test]
fn write_then_read_scenario() {
    let (mut store, len) = Store::new(users(10));
    assert_eq!(len, 10);
    let first = execute_task(
        &mut store,
        Request::LcWrite { req_id: 1, id: 5, username: String::from("alice") },
    );
    assert_eq!(first, Response::LcWrite { req_id: 1, username: Some(String::from("u5")) });
    let second = execute_task(&mut store, Request::LcRead { req_id: 2, id: 5 });
    assert_eq!(second, Response::LcRead { req_id: 2, username: Some(String::from("alice")) });
}

#[test]
fn execute_answers_each_class() {
    let (mut store, _) = Store::new(users(12));
    assert_eq!(
        execute_task(&mut store, Request::BeRead { req_id: 9, substring: String::from("u1") }),
        Response::BeRead { req_id: 9, freq: 3 }
    );
    assert_eq!(
        execute_task(&mut store, Request::LcRead { req_id: 10, id: 99 }),
        Response::LcRead { req_id: 10, username: None }
    );
    assert_eq!(
        execute_task(&mut store, Request::LcWrite { req_id: 11, id: 99, username: String::from("u1x") }),
        Response::LcWrite { req_id: 11, username: None }
    );
    assert_eq!(
        execute_task(&mut store, Request::BeRead { req_id: 12, substring: String::from("u1") }),
        Response::BeRead { req_id: 12, freq: 4 }
    );
}

#[test]
fn shared_execution_answers_reads_and_scans_only() {
    let (store, _) = Store::new(users(12));
    assert_eq!(
        execute_shared(&store, Request::LcRead { req_id: 1, id: 3 }),
        Some(Response::LcRead { req_id: 1, username: Some(String::from("u3")) })
    );
    assert_eq!(
        execute_shared(&store, Request::LcRead { req_id: 2, id: 30 }),
        Some(Response::LcRead { req_id: 2, username: None })
    );
    assert_eq!(
        execute_shared(&store, Request::BeRead { req_id: 3, substring: String::from("u1") }),
        Some(Response::BeRead { req_id: 3, freq: 3 })
    );
    assert_eq!(
        execute_shared(&store, Request::LcWrite { req_id: 4, id: 3, username: String::from("x") }),
        None
    );
    assert_eq!(store.lc_read_task(3), Some(String::from("u3")));
}

#[test]
fn scan_of_a_snapshot_answers_like_the_store() {
    let (mut store, _) = Store::new(users(70));
    let req = Request::BeRead { req_id: 8, substring: String::from("u6") };
    let (req_id, mut scan) = start_scan(store.snapshot(), req.clone()).unwrap();
    assert_eq!(req_id, 8);
    assert_eq!((scan.next, scan.freq), (0, 0));
    assert_eq!(scan.needle, "u6");
    // A write after the snapshot does not reach the scan.
    store.lc_write_task(0, String::from("u6x"));
    let mut yields = 0;
    let response = loop {
        match scan.step() {
            ScanStep::Yield => yields += 1,
            ScanStep::Done(freq) => break scan_response(req_id, freq),
        }
    };
    assert_eq!(yields, 3);
    assert_eq!(response, Response::BeRead { req_id: 8, freq: 11 });
    assert_eq!(execute_task(&mut store, req), Response::BeRead { req_id: 8, freq: 12 });
    // Only a scan request starts a scan.
    assert!(start_scan(Vec::new(), Request::LcRead { req_id: 1, id: 2 }).is_none());
    assert!(start_scan(
        Vec::new(),
        Request::LcWrite { req_id: 1, id: 2, username: String::new() }
    )
    .is_none());
    assert_eq!(scan_response(5, 9), Response::BeRead { req_id: 5, freq: 9 });
}

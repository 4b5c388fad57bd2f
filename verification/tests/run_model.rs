use loadbench::record::{RequestOutcome, ResultRecord};
use loadbench::store::ResultStore;
use loadbench::template::RequestTemplate;
use loadbench::worker::{spawn_workers, Worker};

fn ok_outcome(status: u16, content_length: Option<u64>, body_len: u64) -> RequestOutcome {
    RequestOutcome::Response { status, content_length, body_len }
}

#[test]
fn record_prefers_content_length() {
    let r = ResultRecord::from_outcome(5, 17, ok_outcome(200, Some(1000), 42));
    assert_eq!(r.start_ms, 5);
    assert_eq!(r.elapsed_ms, 17);
    assert_eq!(r.status_code, Some(200));
    assert_eq!(r.bytes_transferred, 1000);
    assert!(!r.is_error);
}

#[test]
fn record_falls_back_to_body_length() {
    let r = ResultRecord::from_outcome(5, 17, ok_outcome(204, None, 42));
    assert_eq!(r.bytes_transferred, 42);
    assert_eq!(r.status_code, Some(204));
}

#[test]
fn record_of_transport_failure() {
    let r = ResultRecord::from_outcome(9, 5000, RequestOutcome::TransportFailure);
    assert_eq!(r.start_ms, 9);
    assert_eq!(r.elapsed_ms, 5000);
    assert_eq!(r.status_code, None);
    assert_eq!(r.bytes_transferred, 0);
    assert!(r.is_error);
}

#[test]
fn failure_does_not_abort_worker() {
    // Five iterations; the third one always fails.
    let mut w = Worker::new(0, 5);
    let mut iteration = 0u64;
    while !w.is_finished() {
        iteration += 1;
        let outcome = if iteration == 3 {
            RequestOutcome::TransportFailure
        } else {
            ok_outcome(200, Some(10), 10)
        };
        w.record_outcome(iteration * 100, 50, outcome);
    }
    let records = w.into_records();
    assert_eq!(records.len(), 5);
    assert!(records[2].is_error);
    assert_eq!(records[2].status_code, None);
    for i in [0usize, 1, 3, 4] {
        assert!(!records[i].is_error);
        assert_eq!(records[i].status_code, Some(200));
    }
}

#[test]
fn worker_urls_follow_sequence() {
    let t = RequestTemplate::new("http://h/{C}".to_string());
    let mut w = Worker::new(7, 3);
    let mut urls: Vec<String> = Vec::new();
    while !w.is_finished() {
        urls.push(w.next_url(&t));
        w.record_outcome(0, 1, ok_outcome(200, Some(0), 0));
    }
    assert_eq!(urls, vec!["http://h/7_0", "http://h/7_1", "http://h/7_2"]);
}

#[test]
fn store_holds_every_workers_records() {
    // Three workers with four iterations each: exactly 12 records merged.
    let workers = spawn_workers(3, 4);
    assert_eq!(workers.len(), 3);
    for (i, w) in workers.iter().enumerate() {
        assert_eq!(w.worker_id, i as u64);
        assert_eq!(w.total, 4);
        assert_eq!(w.done, 0);
    }
    let mut buffers: Vec<Vec<ResultRecord>> = Vec::new();
    for mut w in workers {
        while !w.is_finished() {
            w.record_outcome(0, 1, ok_outcome(200, Some(1), 1));
        }
        buffers.push(w.into_records());
    }
    let store = ResultStore::merge(&buffers);
    assert_eq!(store.len(), 12);
}

#[test]
fn merge_concatenates_in_order() {
    let a = vec![ResultRecord::from_outcome(1, 1, ok_outcome(200, Some(1), 0))];
    let b = vec![
        ResultRecord::from_outcome(2, 2, ok_outcome(404, Some(2), 0)),
        ResultRecord::from_outcome(3, 3, RequestOutcome::TransportFailure),
    ];
    let store = ResultStore::merge(&vec![a, b]);
    assert_eq!(store.len(), 3);
    assert_eq!(store.records[0].start_ms, 1);
    assert_eq!(store.records[1].start_ms, 2);
    assert_eq!(store.records[2].start_ms, 3);
    assert!(store.records[2].is_error);
}

#[test]
fn merge_of_no_buffers_is_empty() {
    let store = ResultStore::merge(&Vec::new());
    assert_eq!(store.len(), 0);
}

#[test]
fn store_push_appends() {
    let mut store = ResultStore::new();
    store.push(ResultRecord::from_outcome(4, 2, ok_outcome(200, None, 8)));
    assert_eq!(store.len(), 1);
    assert_eq!(store.records[0].bytes_transferred, 8);
}

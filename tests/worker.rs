use balancer::worker::{serve_one, WorkerAction};
use balancer::request::Request;

#[test]
fn worker_actions_per_request() {
    assert_eq!(serve_one(Request::Stop), WorkerAction::Exit);
    assert_eq!(serve_one(Request::GrowPool), WorkerAction::Misrouted);
    assert_eq!(
        serve_one(Request::Work { payload: "job".to_string() }),
        WorkerAction::Perform { payload: "job".to_string() }
    );
    assert_eq!(
        serve_one(Request::SetEpoch { value: "e".to_string() }),
        WorkerAction::Publish { value: "e".to_string() }
    );
}

/// Runs one worker over its inbox and returns the payloads it performed and
/// the completions it counted.
fn run_worker(inbox: Vec<Request>) -> (Vec<String>, usize) {
    let mut done = Vec::new();
    let mut count = 0usize;
    for r in inbox {
        match serve_one(r) {
            WorkerAction::Exit => break,
            WorkerAction::Misrouted => panic!("misrouted"),
            WorkerAction::Perform { payload } => {
                done.push(payload);
                count += 1;
            }
            WorkerAction::Publish { .. } => count += 1,
        }
    }
    (done, count)
}

#[test]
fn worker_keeps_arrival_order_and_stops_at_stop() {
    let inbox = vec![
        Request::Work { payload: "1".to_string() },
        Request::SetEpoch { value: "e".to_string() },
        Request::Work { payload: "2".to_string() },
        Request::Stop,
        Request::Work { payload: "3".to_string() },
    ];
    let (done, count) = run_worker(inbox);
    assert_eq!(done, vec!["1".to_string(), "2".to_string()]);
    assert_eq!(count, 3);
}

#[test]
fn stop_alone_counts_nothing() {
    assert_eq!(run_worker(vec![Request::Stop]), (Vec::new(), 0));
}

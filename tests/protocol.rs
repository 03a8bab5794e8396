use balancer::dispatcher::{Dispatcher, Route};
use balancer::epoch::initial_epoch;
use balancer::report::work_report;
use balancer::request::{Envelope, Request};
use balancer::worker::{serve_one, WorkerAction};

/// What a sequential run of the whole protocol leaves: the report lines in
/// the order written, and the completion count.
struct Outcome {
    log: Vec<String>,
    completed: usize,
    finished: Vec<usize>,
}

/// Routes every request, then lets the workers run one after the other in
/// pool order, all against one shared epoch.
fn run(pool: usize, submitted: Vec<Envelope>) -> Outcome {
    let mut d = Dispatcher::new((0..pool).collect::<Vec<usize>>());
    let mut inboxes: Vec<Vec<(usize, Request)>> = (0..pool).map(|_| Vec::new()).collect();
    for e in submitted {
        match d.accept(e.request) {
            Route::Forward { worker, request } => inboxes[worker].push((e.producer, request)),
            Route::Grow { id } => {
                inboxes.push(Vec::new());
                assert_eq!(d.grow(id), id);
            }
            Route::Drain { workers } => {
                for inbox in inboxes.iter_mut().take(workers) {
                    inbox.push((e.producer, Request::Stop));
                }
                break;
            }
        }
    }
    let mut epoch = initial_epoch();
    let mut out = Outcome { log: Vec::new(), completed: 0, finished: Vec::new() };
    for id in d.into_pool() {
        for (producer, request) in inboxes[id].drain(..) {
            match serve_one(request) {
                WorkerAction::Exit => break,
                WorkerAction::Misrouted => panic!("misrouted"),
                WorkerAction::Publish { value } => {
                    epoch = value;
                    out.completed += 1;
                }
                WorkerAction::Perform { payload } => {
                    out.log.push(work_report(id, producer, &epoch, &payload));
                    out.completed += 1;
                }
            }
        }
        out.finished.push(id);
    }
    out
}

fn env(producer: usize, request: Request) -> Envelope {
    Envelope { producer, request }
}

fn job(p: &str) -> Request {
    Request::Work { payload: p.to_string() }
}

#[test]
fn single_worker_scenario() {
    let out = run(
        1,
        vec![
            env(1, job("a")),
            env(1, job("b")),
            env(1, Request::SetEpoch { value: "e2".to_string() }),
            env(1, job("c")),
            env(0, Request::Stop),
        ],
    );
    assert_eq!(
        out.log,
        vec![
            "worker-0 is being asked by client-1 at epoch 'epoch-1' to work 'a'".to_string(),
            "worker-0 is being asked by client-1 at epoch 'epoch-1' to work 'b'".to_string(),
            "worker-0 is being asked by client-1 at epoch 'e2' to work 'c'".to_string(),
        ]
    );
    assert_eq!(out.completed, 4);
}

#[test]
fn completion_count_with_growth() {
    let out = run(
        2,
        vec![
            env(1, job("a")),
            env(2, Request::GrowPool),
            env(1, job("b")),
            env(3, Request::SetEpoch { value: "e".to_string() }),
            env(2, Request::GrowPool),
            env(1, job("c")),
            env(1, job("d")),
            env(0, Request::Stop),
        ],
    );
    assert_eq!(out.completed, 5);
    assert_eq!(out.finished, vec![0, 1, 2, 3]);
    // a -> 0, b -> 1, SetEpoch -> 2, c -> 0 (pool of 4 after the second growth), d -> 1
    assert!(out.log[0].starts_with("worker-0 ") && out.log[0].ends_with("'a'"));
    assert!(out.log[1].starts_with("worker-0 ") && out.log[1].ends_with("'c'"));
    assert!(out.log[2].starts_with("worker-1 ") && out.log[2].ends_with("'b'"));
    assert!(out.log[3].starts_with("worker-1 ") && out.log[3].ends_with("'d'"));
}

#[test]
fn requests_after_stop_are_not_routed() {
    let out = run(1, vec![env(1, job("a")), env(0, Request::Stop), env(1, job("late"))]);
    assert_eq!(out.completed, 1);
    assert_eq!(out.log.len(), 1);
}

#[test]
fn epoch_change_is_seen_by_other_workers() {
    // With workers run in pool order, worker 1 sees the value that worker 0 set.
    let out = run(
        2,
        vec![
            env(3, Request::SetEpoch { value: "epoch-2".to_string() }),
            env(3, job("w")),
            env(0, Request::Stop),
        ],
    );
    assert_eq!(
        out.log,
        vec!["worker-1 is being asked by client-3 at epoch 'epoch-2' to work 'w'".to_string()]
    );
    assert_eq!(out.completed, 2);
}

#[test]
fn initial_epoch_value() {
    assert_eq!(initial_epoch(), "epoch-1");
}

use balancer::dispatcher::{Dispatcher, Route};
use balancer::request::Request;

fn job(name: &str) -> Request {
    Request::Work { payload: name.to_string() }
}

fn forwarded_to(route: Route) -> usize {
    match route {
        Route::Forward { worker, .. } => worker,
        other => panic!("expected a forward, got {:?}", other),
    }
}

#[test]
fn round_robin_goes_round_the_pool() {
    let mut d = Dispatcher::new(vec![10, 11, 12]);
    for i in 0..10usize {
        let worker = forwarded_to(d.accept(job("x")));
        assert_eq!(worker, i % 3);
    }
    assert_eq!(d.cursor(), 10 % 3);
}

#[test]
fn set_epoch_is_routed_like_work() {
    let mut d = Dispatcher::new(vec![(), ()]);
    assert_eq!(forwarded_to(d.accept(job("a"))), 0);
    let r = d.accept(Request::SetEpoch { value: "e2".to_string() });
    assert_eq!(
        r,
        Route::Forward { worker: 1, request: Request::SetEpoch { value: "e2".to_string() } }
    );
    assert_eq!(forwarded_to(d.accept(job("b"))), 0);
}

#[test]
fn forward_keeps_the_request_unchanged() {
    let mut d = Dispatcher::new(vec![()]);
    assert_eq!(d.accept(job("payload")), Route::Forward { worker: 0, request: job("payload") });
}

#[test]
fn growth_takes_effect_on_the_next_request() {
    let mut d = Dispatcher::new(vec!['a', 'b']);
    assert_eq!(forwarded_to(d.accept(job("1"))), 0);
    assert_eq!(d.cursor(), 1);
    assert_eq!(d.accept(Request::GrowPool), Route::Grow { id: 2 });
    assert_eq!(d.pool_len(), 2);
    assert_eq!(d.grow('c'), 2);
    assert_eq!(d.pool_len(), 3);
    assert_eq!(d.cursor(), 1);
    assert_eq!(forwarded_to(d.accept(job("2"))), 1);
    assert_eq!(forwarded_to(d.accept(job("3"))), 2);
    assert_eq!(forwarded_to(d.accept(job("4"))), 0);
    assert_eq!(*d.worker(2), 'c');
}

#[test]
fn growth_with_cursor_at_start() {
    let mut d = Dispatcher::new(vec![0u8]);
    assert_eq!(forwarded_to(d.accept(job("a"))), 0);
    assert_eq!(d.accept(Request::GrowPool), Route::Grow { id: 1 });
    d.grow(1u8);
    assert_eq!(forwarded_to(d.accept(job("b"))), 0);
    assert_eq!(forwarded_to(d.accept(job("c"))), 1);
}

#[test]
fn stop_drains_every_worker_including_grown_ones() {
    let mut d = Dispatcher::new(vec![0usize]);
    assert_eq!(d.accept(Request::GrowPool), Route::Grow { id: 1 });
    d.grow(1);
    assert_eq!(d.accept(Request::GrowPool), Route::Grow { id: 2 });
    d.grow(2);
    assert_eq!(d.accept(Request::Stop), Route::Drain { workers: 3 });
    assert_eq!(d.into_pool(), vec![0, 1, 2]);
}

#[test]
fn routable_requests() {
    assert!(job("a").is_routable());
    assert!(Request::SetEpoch { value: String::new() }.is_routable());
    assert!(!Request::Stop.is_routable());
    assert!(!Request::GrowPool.is_routable());
}

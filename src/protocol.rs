use vstd::prelude::*;

use crate::dispatcher::{initial_routing, next_routing, routing_after, routing_wf, Routing};
use crate::request::{all_routable, is_routable, Request};
use crate::worker::{
    completed, lemma_drained_inbox, lemma_worker_fifo, performed, work_payloads, worker_actions,
};

verus! {

/// The dispatcher's routing state together with what stands in each worker's
/// inbox; `inboxes[w]` is the inbox of the worker whose identity is `w`.
pub struct Deliveries {
    pub routing: Routing,
    pub inboxes: Seq<Seq<Request>>,
}

pub open spec fn deliveries_wf(s: Deliveries) -> bool {
    routing_wf(s.routing) && s.inboxes.len() == s.routing.pool_len
}

/// A pool of `n` workers, each with an empty inbox.
pub open spec fn initial_deliveries(n: nat) -> Deliveries {
    Deliveries {
        routing: initial_routing(n),
        inboxes: Seq::new(n, |w: int| Seq::<Request>::empty()),
    }
}

/// The effect of the dispatcher handling `r`: a routable request joins the
/// inbox of the worker under the cursor, growth adds a worker with an empty
/// inbox, and `Stop` is sent to every worker of the pool.
pub open spec fn deliver(s: Deliveries, r: Request) -> Deliveries {
    match r {
        Request::Stop => Deliveries {
            routing: s.routing,
            inboxes: s.inboxes.map_values(|q: Seq<Request>| q.push(Request::Stop)),
        },
        Request::GrowPool => Deliveries {
            routing: next_routing(s.routing, r),
            inboxes: s.inboxes.push(Seq::empty()),
        },
        _ => Deliveries {
            routing: next_routing(s.routing, r),
            inboxes: s.inboxes.update(
                s.routing.cursor as int,
                s.inboxes[s.routing.cursor as int].push(r),
            ),
        },
    }
}

/// The state after the dispatcher handled `reqs` in order.
pub open spec fn deliver_all(s: Deliveries, reqs: Seq<Request>) -> Deliveries
    decreases reqs.len(),
{
    if reqs.len() == 0 {
        s
    } else {
        deliver_all(deliver(s, reqs[0]), reqs.drop_first())
    }
}

/// `reqs` holds no `Stop`.
pub open spec fn no_stop(reqs: Seq<Request>) -> bool {
    forall|i: int| 0 <= i < reqs.len() ==> !(#[trigger] reqs[i] is Stop)
}

/// How many of `reqs` are `Work` or `SetEpoch`.
pub open spec fn count_routable(reqs: Seq<Request>) -> nat
    decreases reqs.len(),
{
    if reqs.len() == 0 {
        0
    } else {
        (if is_routable(reqs[0]) {
            1nat
        } else {
            0nat
        }) + count_routable(reqs.drop_first())
    }
}

/// The number of requests waiting in all inboxes together.
pub open spec fn total_len(inboxes: Seq<Seq<Request>>) -> nat
    decreases inboxes.len(),
{
    if inboxes.len() == 0 {
        0
    } else {
        total_len(inboxes.drop_last()) + inboxes.last().len()
    }
}

/// The completions that all workers together count on their inboxes.
pub open spec fn total_completed(inboxes: Seq<Seq<Request>>) -> nat
    decreases inboxes.len(),
{
    if inboxes.len() == 0 {
        0
    } else {
        total_completed(inboxes.drop_last()) + completed(inboxes.last())
    }
}

/// Every inbox holds only requests that workers handle.
pub open spec fn inboxes_routable(inboxes: Seq<Seq<Request>>) -> bool {
    forall|w: int| 0 <= w < inboxes.len() ==> all_routable(#[trigger] inboxes[w])
}

proof fn lemma_total_len_update(inboxes: Seq<Seq<Request>>, w: int, r: Request)
    requires
        0 <= w < inboxes.len(),
    ensures
        total_len(inboxes.update(w, inboxes[w].push(r))) == total_len(inboxes) + 1,
    decreases inboxes.len(),
{
    let up = inboxes.update(w, inboxes[w].push(r));
    if w == inboxes.len() - 1 {
        assert(up.drop_last() =~= inboxes.drop_last());
    } else {
        lemma_total_len_update(inboxes.drop_last(), w, r);
        assert(up.drop_last() =~= inboxes.drop_last().update(w, inboxes[w].push(r)));
    }
}

proof fn lemma_total_completed_after_stop(inboxes: Seq<Seq<Request>>)
    requires
        inboxes_routable(inboxes),
    ensures
        total_completed(inboxes.map_values(|q: Seq<Request>| q.push(Request::Stop))) == total_len(
            inboxes,
        ),
    decreases inboxes.len(),
{
    if inboxes.len() > 0 {
        let stopped = inboxes.map_values(|q: Seq<Request>| q.push(Request::Stop));
        let front = inboxes.drop_last();
        assert(stopped.drop_last() =~= front.map_values(|q: Seq<Request>| q.push(Request::Stop)));
        assert forall|w: int| 0 <= w < front.len() implies all_routable(#[trigger] front[w]) by {
            assert(front[w] == inboxes[w]);
        }
        lemma_total_completed_after_stop(front);
        assert(all_routable(inboxes[inboxes.len() - 1]));
        lemma_drained_inbox(inboxes.last());
    }
}

/// What routing before shutdown keeps: the pool is well formed, inboxes hold
/// only `Work` and `SetEpoch`, one routed request stands in exactly one inbox,
/// and the routing state is the one that the dispatcher computes.
pub proof fn lemma_routing_phase(s: Deliveries, reqs: Seq<Request>)
    requires
        deliveries_wf(s),
        inboxes_routable(s.inboxes),
        no_stop(reqs),
    ensures
        deliveries_wf(deliver_all(s, reqs)),
        inboxes_routable(deliver_all(s, reqs).inboxes),
        deliver_all(s, reqs).routing == routing_after(s.routing, reqs),
        deliver_all(s, reqs).inboxes.len() >= s.inboxes.len(),
        total_len(deliver_all(s, reqs).inboxes) == total_len(s.inboxes) + count_routable(reqs),
    decreases reqs.len(),
{
    if reqs.len() > 0 {
        let r = reqs[0];
        let t = deliver(s, r);
        let rest = reqs.drop_first();
        assert forall|i: int| 0 <= i < rest.len() implies !(#[trigger] rest[i] is Stop) by {
            assert(rest[i] == reqs[i + 1]);
        }
        assert(!(r is Stop));
        if r is GrowPool {
            assert(t.inboxes.drop_last() =~= s.inboxes);
            assert forall|w: int| 0 <= w < t.inboxes.len() implies all_routable(
                #[trigger] t.inboxes[w],
            ) by {
                if w < s.inboxes.len() {
                    assert(t.inboxes[w] == s.inboxes[w]);
                }
            }
        } else {
            let c = s.routing.cursor as int;
            assert forall|w: int| 0 <= w < t.inboxes.len() implies all_routable(
                #[trigger] t.inboxes[w],
            ) by {
                if w == c {
                    assert(all_routable(s.inboxes[c]));
                    assert forall|i: int| 0 <= i < t.inboxes[w].len() implies is_routable(
                        #[trigger] t.inboxes[w][i],
                    ) by {
                        if i < s.inboxes[c].len() {
                            assert(t.inboxes[w][i] == s.inboxes[c][i]);
                        }
                    }
                } else {
                    assert(t.inboxes[w] == s.inboxes[w]);
                }
            }
            lemma_total_len_update(s.inboxes, c, r);
            vstd::arithmetic::div_mod::lemma_mod_bound(
                s.routing.cursor as int + 1,
                s.routing.pool_len as int,
            );
        }
        lemma_routing_phase(t, rest);
    }
}

/// Completion count: once a pool of `n` workers has been routed `reqs` and
/// then shut down, the workers together count one completion for each `Work`
/// and `SetEpoch` among `reqs`, and none for `GrowPool` or `Stop`.
pub proof fn lemma_completion_count(n: nat, reqs: Seq<Request>)
    requires
        n >= 1,
        no_stop(reqs),
    ensures
        total_completed(deliver_all(initial_deliveries(n), reqs.push(Request::Stop)).inboxes)
            == count_routable(reqs),
{
    let s0 = initial_deliveries(n);
    assert(s0.inboxes.len() == n);
    assert(total_len(s0.inboxes) == 0) by {
        lemma_total_len_empty(s0.inboxes);
    }
    lemma_routing_phase(s0, reqs);
    lemma_deliver_all_push(s0, reqs, Request::Stop);
    lemma_total_completed_after_stop(deliver_all(s0, reqs).inboxes);
}

proof fn lemma_total_len_empty(inboxes: Seq<Seq<Request>>)
    requires
        forall|w: int| 0 <= w < inboxes.len() ==> (#[trigger] inboxes[w]).len() == 0,
    ensures
        total_len(inboxes) == 0,
    decreases inboxes.len(),
{
    if inboxes.len() > 0 {
        lemma_total_len_empty(inboxes.drop_last());
    }
}

/// Handling one more request after `reqs` is one more delivery step.
pub proof fn lemma_deliver_all_push(s: Deliveries, reqs: Seq<Request>, r: Request)
    ensures
        deliver_all(s, reqs.push(r)) == deliver(deliver_all(s, reqs), r),
    decreases reqs.len(),
{
    if reqs.len() == 0 {
        assert(reqs.push(r).drop_first() =~= Seq::<Request>::empty());
        assert(reqs.push(r)[0] == r);
        assert(deliver_all(deliver(s, r), Seq::<Request>::empty()) == deliver(s, r));
    } else {
        assert(reqs.push(r).drop_first() =~= reqs.drop_first().push(r));
        assert(reqs.push(r)[0] == reqs[0]);
        lemma_deliver_all_push(deliver(s, reqs[0]), reqs.drop_first(), r);
    }
}

/// Drain completeness and per-worker order: when `Stop` reaches the
/// dispatcher, every worker of the pool, including those added by growth,
/// gets `Stop` behind what already waits in its inbox. Each worker then
/// handles every one of those requests, in order, before it stops, and the
/// jobs it performs are exactly the `Work` requests routed to it.
pub proof fn lemma_drain_completeness(n: nat, reqs: Seq<Request>)
    requires
        n >= 1,
        no_stop(reqs),
    ensures
        ({
            let before = deliver_all(initial_deliveries(n), reqs);
            let after = deliver_all(initial_deliveries(n), reqs.push(Request::Stop));
            &&& after.inboxes.len() == before.routing.pool_len
            &&& before.routing.pool_len >= n
            &&& forall|w: int|
                0 <= w < after.inboxes.len() ==> {
                    &&& #[trigger] after.inboxes[w] == before.inboxes[w].push(Request::Stop)
                    &&& completed(after.inboxes[w]) == before.inboxes[w].len()
                    &&& worker_actions(after.inboxes[w]).len() == before.inboxes[w].len()
                    &&& performed(after.inboxes[w]) == work_payloads(before.inboxes[w])
                }
        }),
{
    let s0 = initial_deliveries(n);
    let before = deliver_all(s0, reqs);
    let after = deliver_all(s0, reqs.push(Request::Stop));
    assert forall|w: int| 0 <= w < s0.inboxes.len() implies all_routable(
        #[trigger] s0.inboxes[w],
    ) by {
        assert(s0.inboxes[w] =~= Seq::<Request>::empty());
    }
    lemma_routing_phase(s0, reqs);
    lemma_deliver_all_push(s0, reqs, Request::Stop);
    assert forall|w: int| 0 <= w < after.inboxes.len() implies {
        &&& #[trigger] after.inboxes[w] == before.inboxes[w].push(Request::Stop)
        &&& completed(after.inboxes[w]) == before.inboxes[w].len()
        &&& worker_actions(after.inboxes[w]).len() == before.inboxes[w].len()
        &&& performed(after.inboxes[w]) == work_payloads(before.inboxes[w])
    } by {
        let q = before.inboxes[w];
        assert(all_routable(q));
        lemma_drained_inbox(q);
        lemma_worker_fifo(q);
        lemma_performed_ignores_stop_tail(q);
    }
}

proof fn lemma_performed_ignores_stop_tail(q: Seq<Request>)
    requires
        all_routable(q),
    ensures
        performed(q.push(Request::Stop)) == performed(q),
    decreases q.len(),
{
    if q.len() > 0 {
        let rest = q.drop_first();
        assert forall|i: int| 0 <= i < rest.len() implies is_routable(#[trigger] rest[i]) by {
            assert(rest[i] == q[i + 1]);
        }
        assert(q.push(Request::Stop).drop_first() =~= rest.push(Request::Stop));
        assert(is_routable(q[0]));
        lemma_performed_ignores_stop_tail(rest);
    }
}

} // verus!

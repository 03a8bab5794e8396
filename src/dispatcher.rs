use vstd::prelude::*;

use vstd::arithmetic::div_mod::{lemma_add_mod_noop, lemma_small_mod};

use crate::request::{all_routable, is_routable, Request};

verus! {

/// What routing depends on: the pool's length and the round-robin cursor.
pub struct Routing {
    pub pool_len: nat,
    pub cursor: nat,
}

/// A routing state that can take a request: a non-empty pool and a cursor
/// inside it.
pub open spec fn routing_wf(v: Routing) -> bool {
    v.pool_len >= 1 && v.cursor < v.pool_len
}

/// The routing state in which a pool of `n` workers starts.
pub open spec fn initial_routing(n: nat) -> Routing {
    Routing { pool_len: n, cursor: 0 }
}

/// The worker that receives `r` in state `v`; none for `Stop` and `GrowPool`.
pub open spec fn target(v: Routing, r: Request) -> Option<nat> {
    if is_routable(r) {
        Some(v.cursor)
    } else {
        None
    }
}

/// The routing state once `r` has been handled in state `v`.
pub open spec fn next_routing(v: Routing, r: Request) -> Routing {
    match r {
        Request::GrowPool => Routing { pool_len: v.pool_len + 1, cursor: v.cursor },
        Request::Stop => v,
        _ => Routing { pool_len: v.pool_len, cursor: (v.cursor + 1) % (v.pool_len as int) as nat },
    }
}

/// The routing state after handling `reqs` in order from state `v`.
pub open spec fn routing_after(v: Routing, reqs: Seq<Request>) -> Routing
    decreases reqs.len(),
{
    if reqs.len() == 0 {
        v
    } else {
        routing_after(next_routing(v, reqs[0]), reqs.drop_first())
    }
}

/// The worker that each of `reqs` is delivered to, handled in order from `v`.
pub open spec fn targets(v: Routing, reqs: Seq<Request>) -> Seq<Option<nat>>
    decreases reqs.len(),
{
    if reqs.len() == 0 {
        Seq::empty()
    } else {
        seq![target(v, reqs[0])] + targets(next_routing(v, reqs[0]), reqs.drop_first())
    }
}

/// From any well-formed state, a run of routable requests goes round the
/// pool: the `i`-th of them is delivered to worker `(cursor + i) mod n`.
pub proof fn lemma_rotation(v: Routing, reqs: Seq<Request>)
    requires
        routing_wf(v),
        all_routable(reqs),
    ensures
        targets(v, reqs).len() == reqs.len(),
        routing_after(v, reqs).pool_len == v.pool_len,
        routing_wf(routing_after(v, reqs)),
        forall|i: int|
            0 <= i < reqs.len() ==> #[trigger] targets(v, reqs)[i] == Some(
                ((v.cursor + i) % (v.pool_len as int)) as nat,
            ),
    decreases reqs.len(),
{
    if reqs.len() > 0 {
        let n = v.pool_len as int;
        let rest = reqs.drop_first();
        let w = next_routing(v, reqs[0]);
        assert(is_routable(reqs[0]));
        assert forall|i: int| 0 <= i < rest.len() implies is_routable(#[trigger] rest[i]) by {
            assert(rest[i] == reqs[i + 1]);
        }
        lemma_rotation(w, rest);
        lemma_small_mod(v.cursor, v.pool_len);
        assert forall|i: int| 0 <= i < reqs.len() implies #[trigger] targets(v, reqs)[i] == Some(
            ((v.cursor + i) % n) as nat,
        ) by {
            if i > 0 {
                assert(targets(v, reqs)[i] == targets(w, rest)[i - 1]);
                lemma_mod_twice_noop(v.cursor as int + 1, i - 1, n);
            }
        }
    }
}

proof fn lemma_mod_twice_noop(a: int, b: int, n: int)
    requires
        n > 0,
        a >= 0,
        b >= 0,
    ensures
        ((a % n) + b) % n == (a + b) % n,
{
    lemma_add_mod_noop(a, b, n);
    lemma_add_mod_noop(a % n, b, n);
    vstd::arithmetic::div_mod::lemma_mod_twice(a, n);
}

/// Round-robin fairness: in a pool of `n` workers that has just started, the
/// `i`-th of a run of routable requests with no growth between them is
/// delivered to worker `i mod n`.
pub proof fn lemma_round_robin_fairness(n: nat, reqs: Seq<Request>)
    requires
        n >= 1,
        all_routable(reqs),
    ensures
        targets(initial_routing(n), reqs).len() == reqs.len(),
        forall|i: int|
            0 <= i < reqs.len() ==> #[trigger] targets(initial_routing(n), reqs)[i] == Some(
                (i % (n as int)) as nat,
            ),
{
    lemma_rotation(initial_routing(n), reqs);
}

/// Growth takes effect at once: after `GrowPool` in a pool of `n` workers with
/// cursor `c`, the next routable request goes to worker `c mod (n + 1)`.
pub proof fn lemma_growth_is_immediate(v: Routing, r: Request)
    requires
        routing_wf(v),
        is_routable(r),
    ensures
        next_routing(v, Request::GrowPool).pool_len == v.pool_len + 1,
        routing_wf(next_routing(v, Request::GrowPool)),
        target(next_routing(v, Request::GrowPool), r) == Some(v.cursor % (v.pool_len + 1)),
{
    lemma_small_mod(v.cursor, v.pool_len + 1);
}

/// What the caller of [`Dispatcher::accept`] is to do with a request.
#[derive(Debug, Clone, PartialEq, Eq)]
pub enum Route {
    /// Send `request` to the worker at index `worker` of the pool.
    Forward { worker: usize, request: Request },
    /// Start a worker whose identity is `id` and hand it to [`Dispatcher::grow`].
    Grow { id: usize },
    /// Send `Stop` to each of the first `workers` workers, then join them in
    /// pool order.
    Drain { workers: usize },
}

/// The route that state `v` gives to `r`.
pub open spec fn route_of(v: Routing, r: Request) -> Route {
    match r {
        Request::Stop => Route::Drain { workers: v.pool_len as usize },
        Request::GrowPool => Route::Grow { id: v.pool_len as usize },
        _ => Route::Forward { worker: v.cursor as usize, request: r },
    }
}

/// The dispatcher: an append-only pool of worker handles and a round-robin
/// cursor into it. A worker's identity is its index in the pool.
pub struct Dispatcher<H> {
    pool: Vec<H>,
    cursor: usize,
}

impl<H> Dispatcher<H> {
    pub closed spec fn pool(&self) -> Seq<H> {
        self.pool@
    }

    pub closed spec fn routing(&self) -> Routing {
        Routing { pool_len: self.pool@.len(), cursor: self.cursor as nat }
    }

    pub open spec fn wf(&self) -> bool {
        routing_wf(self.routing())
    }

    /// Starts with the given workers and the cursor on the first of them.
    pub fn new(pool: Vec<H>) -> (d: Self)
        requires
            pool@.len() >= 1,
        ensures
            d.wf(),
            d.pool() == pool@,
            d.routing() == initial_routing(pool@.len()),
    {
        Dispatcher { pool, cursor: 0 }
    }

    pub fn pool_len(&self) -> (n: usize)
        ensures
            n == self.routing().pool_len,
    {
        self.pool.len()
    }

    pub fn cursor(&self) -> (c: usize)
        ensures
            c == self.routing().cursor,
    {
        self.cursor
    }

    /// The handle of the worker whose identity is `id`.
    pub fn worker(&self, id: usize) -> (h: &H)
        requires
            id < self.routing().pool_len,
        ensures
            *h == self.pool()[id as int],
    {
        &self.pool[id]
    }

    /// Decides what becomes of `request`. A routable request goes to the
    /// worker under the cursor, which then moves on modulo the pool's current
    /// length. `GrowPool` and `Stop` leave the state as it is: growth happens
    /// in [`Dispatcher::grow`], draining in [`Dispatcher::into_pool`].
    pub fn accept(&mut self, request: Request) -> (r: Route)
        requires
            old(self).wf(),
        ensures
            final(self).wf(),
            r == route_of(old(self).routing(), request),
            final(self).pool() == old(self).pool(),
            request is GrowPool ==> final(self).routing() == old(self).routing(),
            !(request is GrowPool) ==> final(self).routing() == next_routing(
                old(self).routing(),
                request,
            ),
    {
        match request {
            Request::Stop => Route::Drain { workers: self.pool.len() },
            Request::GrowPool => Route::Grow { id: self.pool.len() },
            _ => {
                let n = self.pool.len();
                let worker = self.cursor;
                self.cursor = (self.cursor + 1) % n;
                Route::Forward { worker, request }
            },
        }
    }

    /// Appends the handle of a new worker. Its identity is the pool's former
    /// length; the cursor stays where it was.
    pub fn grow(&mut self, handle: H) -> (id: usize)
        requires
            old(self).wf(),
        ensures
            final(self).wf(),
            id == old(self).routing().pool_len,
            final(self).pool() == old(self).pool().push(handle),
            final(self).routing() == next_routing(old(self).routing(), Request::GrowPool),
    {
        let id = self.pool.len();
        self.pool.push(handle);
        id
    }

    /// Ends the dispatcher and hands back every worker, in pool order, to be
    /// stopped and joined.
    pub fn into_pool(self) -> (pool: Vec<H>)
        ensures
            pool@ == self.pool(),
    {
        self.pool
    }
}

} // verus!

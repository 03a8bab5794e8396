use vstd::prelude::*;

use crate::request::{all_routable, is_routable, Request};

verus! {

/// What a worker does with one request taken from its inbox.
#[derive(Debug, Clone, PartialEq, Eq)]
pub enum WorkerAction {
    /// Leave the loop; nothing more is taken from the inbox.
    Exit,
    /// Replace the shared epoch with `value`, then count one completion.
    Publish { value: String },
    /// Read the shared epoch, report the job, then count one completion.
    Perform { payload: String },
    /// The request never belongs at a worker: a fatal invariant violation.
    Misrouted,
}

/// The action that a worker takes on `r`.
pub open spec fn action_of(r: Request) -> WorkerAction {
    match r {
        Request::Stop => WorkerAction::Exit,
        Request::GrowPool => WorkerAction::Misrouted,
        Request::Work { payload } => WorkerAction::Perform { payload },
        Request::SetEpoch { value } => WorkerAction::Publish { value },
    }
}

/// Decides what a worker does with the next request of its inbox.
pub fn serve_one(request: Request) -> (a: WorkerAction)
    ensures
        a == action_of(request),
{
    match request {
        Request::Stop => WorkerAction::Exit,
        Request::GrowPool => WorkerAction::Misrouted,
        Request::Work { payload } => WorkerAction::Perform { payload },
        Request::SetEpoch { value } => WorkerAction::Publish { value },
    }
}

/// Whether the worker's loop goes on after `r`.
pub open spec fn continues_after(r: Request) -> bool {
    is_routable(r)
}

/// The actions that a worker takes on its inbox, in arrival order. It takes
/// one per request until the first `Stop` (which ends it) or a misrouted
/// request (which aborts).
pub open spec fn worker_actions(inbox: Seq<Request>) -> Seq<WorkerAction>
    decreases inbox.len(),
{
    if inbox.len() == 0 {
        Seq::empty()
    } else if continues_after(inbox[0]) {
        seq![action_of(inbox[0])] + worker_actions(inbox.drop_first())
    } else if inbox[0] is GrowPool {
        seq![WorkerAction::Misrouted]
    } else {
        Seq::empty()
    }
}

/// How many completions a worker counts on its inbox: one for each request
/// that it handles before it stops, none for the `Stop` itself.
pub open spec fn completed(inbox: Seq<Request>) -> nat
    decreases inbox.len(),
{
    if inbox.len() == 0 || !continues_after(inbox[0]) {
        0
    } else {
        1 + completed(inbox.drop_first())
    }
}

/// The payloads of the jobs that a worker performs on its inbox, in order.
pub open spec fn performed(inbox: Seq<Request>) -> Seq<Seq<char>>
    decreases inbox.len(),
{
    if inbox.len() == 0 || !continues_after(inbox[0]) {
        Seq::empty()
    } else {
        match inbox[0] {
            Request::Work { payload } => seq![payload@] + performed(inbox.drop_first()),
            _ => performed(inbox.drop_first()),
        }
    }
}

/// The payloads of all `Work` requests of a sequence, in order.
pub open spec fn work_payloads(reqs: Seq<Request>) -> Seq<Seq<char>>
    decreases reqs.len(),
{
    if reqs.len() == 0 {
        Seq::empty()
    } else {
        match reqs[0] {
            Request::Work { payload } => seq![payload@] + work_payloads(reqs.drop_first()),
            _ => work_payloads(reqs.drop_first()),
        }
    }
}

/// A worker performs jobs in the order in which they reached its inbox: the
/// payloads it performs are a prefix of the `Work` payloads of its inbox, and
/// all of them when nothing but `Work` and `SetEpoch` stands in the inbox.
pub proof fn lemma_worker_fifo(inbox: Seq<Request>)
    ensures
        performed(inbox).len() <= work_payloads(inbox).len(),
        performed(inbox) == work_payloads(inbox).take(performed(inbox).len() as int),
        all_routable(inbox) ==> performed(inbox) == work_payloads(inbox),
    decreases inbox.len(),
{
    if inbox.len() > 0 {
        let rest = inbox.drop_first();
        lemma_worker_fifo(rest);
        if all_routable(inbox) {
            assert forall|i: int| 0 <= i < rest.len() implies is_routable(#[trigger] rest[i]) by {
                assert(rest[i] == inbox[i + 1]);
            }
            assert(is_routable(inbox[0]));
        }
        if continues_after(inbox[0]) {
            match inbox[0] {
                Request::Work { payload } => {
                    assert(performed(inbox) =~= seq![payload@] + performed(rest));
                    assert(work_payloads(inbox) =~= seq![payload@] + work_payloads(rest));
                    assert(performed(inbox) =~= work_payloads(inbox).take(
                        performed(inbox).len() as int,
                    ));
                },
                _ => {},
            }
        } else {
            assert(performed(inbox) =~= work_payloads(inbox).take(0));
        }
    }
}

/// A worker that receives every request of `inbox` and then `Stop` handles
/// each of them once and then stops: none is dropped.
pub proof fn lemma_drained_inbox(inbox: Seq<Request>)
    requires
        all_routable(inbox),
    ensures
        completed(inbox.push(Request::Stop)) == inbox.len(),
        worker_actions(inbox.push(Request::Stop)) == inbox.map_values(|r: Request| action_of(r)),
    decreases inbox.len(),
{
    let full = inbox.push(Request::Stop);
    if inbox.len() > 0 {
        let rest = inbox.drop_first();
        assert forall|i: int| 0 <= i < rest.len() implies is_routable(#[trigger] rest[i]) by {
            assert(rest[i] == inbox[i + 1]);
        }
        lemma_drained_inbox(rest);
        assert(full.drop_first() =~= rest.push(Request::Stop));
        assert(is_routable(inbox[0]));
        assert(inbox.map_values(|r: Request| action_of(r)) =~= seq![action_of(inbox[0])]
            + rest.map_values(|r: Request| action_of(r)));
    } else {
        assert(inbox.map_values(|r: Request| action_of(r)) =~= Seq::<WorkerAction>::empty());
    }
}

} // verus!

use vstd::prelude::*;

use crate::request::{Envelope, Request};

verus! {

/// `e` is `Work { payload }` submitted by `producer`.
pub open spec fn is_work(e: Envelope, producer: nat, payload: Seq<char>) -> bool {
    e.producer == producer && match e.request {
        Request::Work { payload: p } => p@ == payload,
        _ => false,
    }
}

/// `e` is `SetEpoch { value }` submitted by `producer`.
pub open spec fn is_set_epoch(e: Envelope, producer: nat, value: Seq<char>) -> bool {
    e.producer == producer && match e.request {
        Request::SetEpoch { value: v } => v@ == value,
        _ => false,
    }
}

/// `e` is `GrowPool` submitted by `producer`.
pub open spec fn is_grow(e: Envelope, producer: nat) -> bool {
    e.producer == producer && e.request is GrowPool
}

/// A job request from `producer`.
pub fn work(producer: usize, payload: &str) -> (e: Envelope)
    ensures
        is_work(e, producer as nat, payload@),
{
    Envelope { producer, request: Request::Work { payload: String::from_str(payload) } }
}

/// A request from `producer` to change the shared epoch to `value`.
pub fn set_epoch(producer: usize, value: &str) -> (e: Envelope)
    ensures
        is_set_epoch(e, producer as nat, value@),
{
    Envelope { producer, request: Request::SetEpoch { value: String::from_str(value) } }
}

/// The requests of producer 1, in the order it submits them: three jobs.
pub fn client1() -> (script: Vec<Envelope>)
    ensures
        script@.len() == 3,
        is_work(script@[0], 1, "prepare"@),
        is_work(script@[1], 1, "work-1"@),
        is_work(script@[2], 1, "work-2"@),
{
    let id: usize = 1;
    let mut script = Vec::new();
    script.push(work(id, "prepare"));
    script.push(work(id, "work-1"));
    script.push(work(id, "work-2"));
    script
}

/// The requests of producer 2, in the order it submits them: a job, a growth
/// of the pool, then six more jobs.
pub fn client2() -> (script: Vec<Envelope>)
    ensures
        script@.len() == 8,
        is_work(script@[0], 2, "prepare"@),
        is_grow(script@[1], 2),
        is_work(script@[2], 2, "work-1"@),
        is_work(script@[3], 2, "work-2"@),
        is_work(script@[4], 2, "work-3"@),
        is_work(script@[5], 2, "work-4"@),
        is_work(script@[6], 2, "work-5"@),
        is_work(script@[7], 2, "work-6"@),
{
    let id: usize = 2;
    let mut script = Vec::new();
    script.push(work(id, "prepare"));
    script.push(Envelope { producer: id, request: Request::GrowPool });
    script.push(work(id, "work-1"));
    script.push(work(id, "work-2"));
    script.push(work(id, "work-3"));
    script.push(work(id, "work-4"));
    script.push(work(id, "work-5"));
    script.push(work(id, "work-6"));
    script
}

/// The requests of producer 3, in the order it submits them: two jobs, a
/// change of epoch, then five more jobs.
pub fn client3() -> (script: Vec<Envelope>)
    ensures
        script@.len() == 8,
        is_work(script@[0], 3, "prepare"@),
        is_work(script@[1], 3, "work-1"@),
        is_set_epoch(script@[2], 3, "epoch-2"@),
        is_work(script@[3], 3, "work-2"@),
        is_work(script@[4], 3, "work-3"@),
        is_work(script@[5], 3, "work-4"@),
        is_work(script@[6], 3, "work-5"@),
        is_work(script@[7], 3, "work-6"@),
{
    let id: usize = 3;
    let mut script = Vec::new();
    script.push(work(id, "prepare"));
    script.push(work(id, "work-1"));
    script.push(set_epoch(id, "epoch-2"));
    script.push(work(id, "work-2"));
    script.push(work(id, "work-3"));
    script.push(work(id, "work-4"));
    script.push(work(id, "work-5"));
    script.push(work(id, "work-6"));
    script
}

} // verus!

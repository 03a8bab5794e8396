use vstd::prelude::*;

verus! {

/// A request as producers submit it and as the dispatcher forwards it.
#[derive(Debug, Clone, PartialEq, Eq)]
pub enum Request {
    /// Drain every worker and terminate.
    Stop,
    /// Add one worker to the pool.
    GrowPool,
    /// An opaque job descriptor.
    Work { payload: String },
    /// A new value for the shared epoch.
    SetEpoch { value: String },
}

/// A request together with the producer that submitted it.
#[derive(Debug, Clone, PartialEq, Eq)]
pub struct Envelope {
    pub producer: usize,
    pub request: Request,
}

/// Requests that the dispatcher forwards to exactly one worker.
pub open spec fn is_routable(r: Request) -> bool {
    r is Work || r is SetEpoch
}

/// Every request of `reqs` is one that a worker handles.
pub open spec fn all_routable(reqs: Seq<Request>) -> bool {
    forall|i: int| 0 <= i < reqs.len() ==> is_routable(#[trigger] reqs[i])
}

impl Request {
    pub fn is_routable(&self) -> (b: bool)
        ensures
            b == is_routable(*self),
    {
        match self {
            Request::Work { .. } | Request::SetEpoch { .. } => true,
            _ => false,
        }
    }
}

} // verus!

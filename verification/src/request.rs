//! A fetch target plus its single-use completion callback.

use vstd::prelude::*;

verus! {

/// A single-use capability standing for the user code to run on the
/// response of one request.
///
/// The scheduler never runs user code itself: it hands this value out —
/// exactly once, because the type can be neither copied nor cloned — and the
/// embedding program maps the handle to the actual code and consumes it.
pub struct CallBack {
    handle: usize,
}

impl CallBack {
    /// The handle the embedding program keyed this capability by.
    pub closed spec fn spec_handle(&self) -> usize {
        self.handle
    }

    pub fn new(handle: usize) -> (c: Self)
        ensures
            c.spec_handle() == handle,
    {
        Self { handle }
    }

    /// Consume the capability, yielding the handle of the code to run.
    pub fn into_handle(self) -> (h: usize)
        ensures
            h == self.spec_handle(),
    {
        self.handle
    }
}

/// A fetch target together with the callback owed its response.
///
/// Owned exclusively by whoever holds it — dispatcher, ready queue,
/// scheduler, transfer table — and the callback inside is consumed at most
/// once over the request's whole lifetime.
pub struct Request {
    pub url: String,
    pub callback: CallBack,
}

impl Request {
    pub fn new(url: &str, callback: CallBack) -> (r: Self)
        ensures
            r.url@ == url@,
            r.callback == callback,
    {
        let url = url.to_owned();
        Self { url, callback }
    }
}

} // verus!

use vstd::prelude::*;

verus! {

/// What to do after one attempt to fetch a listing.
#[derive(Debug, PartialEq, Eq)]
pub enum FetchStep {
    /// The listing was read: stop.
    Done,
    /// Try again at once.
    RetryNow,
    /// Wait this many seconds, then try again.
    RetryAfter(u64),
}

/// The step after an attempt: done when the request succeeded and its body
/// was read; at once again when the body could not be read; and after a
/// failed request, again after the pause where one is set, else at once.
pub fn fetch_step(request_succeeded: bool, body_read: bool, failure_pause_secs: Option<u64>) -> (r: FetchStep)
    ensures
        request_succeeded && body_read ==> r == FetchStep::Done,
        request_succeeded && !body_read ==> r == FetchStep::RetryNow,
        !request_succeeded ==> r == match failure_pause_secs {
            Some(secs) => FetchStep::RetryAfter(secs),
            None => FetchStep::RetryNow,
        },
{
    if request_succeeded {
        if body_read {
            FetchStep::Done
        } else {
            FetchStep::RetryNow
        }
    } else {
        match failure_pause_secs {
            Some(secs) => FetchStep::RetryAfter(secs),
            None => FetchStep::RetryNow,
        }
    }
}

} // verus!

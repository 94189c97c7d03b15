//! Which runs are worth keeping: those the server answered with a 5xx status.
use vstd::prelude::*;
use super::observer::HttpObserver;

verus! {

/// Keeps runs whose last response had a status of 500 or more.
#[derive(Debug)]
pub struct StatusCodeFeedback {}

/// The run's last response had a status of 500 or more.
pub open spec fn status_interesting(observer: Option<&HttpObserver>) -> bool {
    match observer {
        Some(o) => match o.last_status_code {
            Some(s) => s >= 500,
            None => false,
        },
        None => false,
    }
}

impl StatusCodeFeedback {
    pub fn new() -> (r: Self) {
        StatusCodeFeedback {}
    }

    /// Whether the run is interesting; `observer` is the run's HTTP observer, if it has one.
    pub fn is_interesting(&mut self, observer: Option<&HttpObserver>) -> (r: bool)
        ensures
            r == status_interesting(observer),
    {
        match observer {
            Some(o) => match o.last_status_code {
                Some(s) => s >= 500,
                None => false,
            },
            None => false,
        }
    }
}

} // verus!

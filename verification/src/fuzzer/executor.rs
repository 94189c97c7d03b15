//! What a single request's run decides once its response, or the lack of one, is known.
use vstd::prelude::*;
use super::observer::HttpObserver;
use crate::http_client::HttpResponse;

verus! {

/// How a run ended.
#[derive(Debug, Clone, Copy, PartialEq, Eq, Structural)]
pub enum RunExit {
    Completed,
    /// The server answered with a 5xx status.
    Crash,
    /// No response came back.
    Timeout,
}

/// Records a response; a 5xx status makes the run a crash.
pub fn record_response(observer: &mut HttpObserver, response: &HttpResponse) -> (r: RunExit)
    ensures
        final(observer).last_status_code == Some(response.status_code),
        final(observer).last_response_headers@ == response.headers@,
        final(observer).last_response_headers.wf() == response.headers.wf(),
        final(observer).last_response_body matches Some(b) && b@ == response.body@,
        r == if 500 <= response.status_code < 600 { RunExit::Crash } else { RunExit::Completed },
{
    observer.record(response.status_code, response.headers.clone(), response.body.clone());
    if response.is_server_error() {
        RunExit::Crash
    } else {
        RunExit::Completed
    }
}

/// Records that no response came back: the observer forgets the last one, and the run timed out.
pub fn record_failure(observer: &mut HttpObserver) -> (r: RunExit)
    ensures
        final(observer).last_status_code is None,
        final(observer).last_response_body is None,
        final(observer).last_response_headers@.len() == 0,
        r == RunExit::Timeout,
{
    observer.clear();
    RunExit::Timeout
}

} // verus!

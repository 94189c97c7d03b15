//! The decisions of a sequence run: each request gets the values stored from earlier
//! responses, each response is mined for values, and the worst outcome is what the run ends with.
use vstd::prelude::*;
use super::executor::{RunExit, record_response};
use super::input::FuzzHttpRequest;
use super::observer::HttpObserver;
use super::sequence_input::FuzzRequestSequence;
use super::state_manager::{StateManager, exts_view, inject_all, inject_ok, extract_all, extract_ok};
use crate::coverage::observer::CoverageMapObserver;
use crate::coverage::COVERAGE_MAP_SIZE;
use crate::http_client::HttpResponse;
use crate::string_map::Entries;

verus! {

/// The state of a sequence run between requests.
pub struct SequenceRun {
    state_manager: StateManager,
    worst_exit: RunExit,
}

/// The outcome after one more request: a 5xx makes the run a crash; a request that got no
/// response makes a run that was fine so far a timeout.
pub open spec fn worse_exit(cur: RunExit, next: RunExit) -> RunExit {
    match next {
        RunExit::Crash => RunExit::Crash,
        RunExit::Timeout => if cur == RunExit::Completed { RunExit::Timeout } else { cur },
        RunExit::Completed => cur,
    }
}

impl SequenceRun {
    /// The values stored so far.
    pub closed spec fn store(&self) -> Entries {
        self.state_manager.store()
    }

    /// How the run would end now.
    pub closed spec fn exit_spec(&self) -> RunExit {
        self.worst_exit
    }

    /// Starts a run: nothing stored, the observers cleared, the outcome fine so far.
    pub fn start(http: &mut HttpObserver, coverage: &mut CoverageMapObserver) -> (r: Self)
        ensures
            r.store().len() == 0,
            r.exit_spec() == RunExit::Completed,
            final(http).last_status_code is None,
            final(http).last_response_body is None,
            final(http).last_response_headers@.len() == 0,
            final(coverage).map_spec() == Seq::new(COVERAGE_MAP_SIZE as nat, |i: int| 0u8),
            final(coverage).previous_spec() == old(coverage).previous_spec(),
            !final(coverage).new_coverage_spec(),
    {
        http.clear();
        coverage.clear_current();
        SequenceRun { state_manager: StateManager::new(), worst_exit: RunExit::Completed }
    }

    /// Request `idx` of the sequence with the stored values put in; `None` when putting them
    /// in would panic.
    pub fn prepare_request(&self, input: &FuzzRequestSequence, idx: usize) -> (r: Option<FuzzHttpRequest>)
        requires
            idx < input.requests@.len(),
            input.wf(),
        ensures
            r matches Some(q) ==> q.wf() && q@ == inject_all(
                input.requests@[idx as int]@,
                exts_view(input.state_extractions@),
                self.store(),
                idx as nat,
            ),
            r is None <==> !inject_ok(input.requests@[idx as int]@, exts_view(input.state_extractions@), self.store(), idx as nat),
    {
        let mut request = input.requests[idx].clone();
        assert(input.requests@[idx as int].wf());
        if self.state_manager.injection_would_panic(&request, &input.state_extractions, idx) {
            return None;
        }
        self.state_manager.inject_into_request(&mut request, &input.state_extractions, idx);
        Some(request)
    }

    /// Takes in the response to request `idx`: stores the values the extractions find in it,
    /// records it, and makes the run a crash on a 5xx status. Returns `false`, changing
    /// nothing, when extracting would panic.
    pub fn on_response(&mut self, input: &FuzzRequestSequence, idx: usize, response: &HttpResponse, http: &mut HttpObserver) -> (r: bool)
        ensures
            r == extract_ok(response.body@, exts_view(input.state_extractions@), idx as nat),
            r ==> final(self).store() == extract_all(
                old(self).store(),
                response.body@,
                response.headers@,
                exts_view(input.state_extractions@),
                idx as nat,
            ),
            r ==> final(http).last_status_code == Some(response.status_code),
            r ==> final(http).last_response_headers@ == response.headers@,
            r ==> (final(http).last_response_body matches Some(b) && b@ == response.body@),
            r ==> final(self).exit_spec() == worse_exit(
                old(self).exit_spec(),
                if 500 <= response.status_code < 600 { RunExit::Crash } else { RunExit::Completed },
            ),
            !r ==> *final(self) == *old(self) && *final(http) == *old(http),
    {
        if StateManager::extraction_would_panic(response.body.as_str(), &input.state_extractions, idx) {
            return false;
        }
        let mut sm = StateManager::new();
        std::mem::swap(&mut sm, &mut self.state_manager);
        sm.extract_from_response(response.body.as_str(), &response.headers, &input.state_extractions, idx);
        self.state_manager = sm;
        let exit = record_response(http, response);
        if exit == RunExit::Crash {
            self.worst_exit = RunExit::Crash;
        }
        true
    }

    /// Takes in that request `idx` got no response: a run that was fine so far timed out.
    pub fn on_failure(&mut self)
        ensures
            final(self).store() == old(self).store(),
            final(self).exit_spec() == worse_exit(old(self).exit_spec(), RunExit::Timeout),
    {
        if self.worst_exit == RunExit::Completed {
            self.worst_exit = RunExit::Timeout;
        }
    }

    /// How the run ends: the worst outcome of its requests.
    pub fn exit_kind(&self) -> (r: RunExit)
        ensures
            r == self.exit_spec(),
    {
        self.worst_exit
    }
}

/// Once a response of a run is a 5xx, the run ends as a crash whatever follows.
pub proof fn law_crash_is_kept(next: RunExit)
    ensures
        worse_exit(RunExit::Crash, next) == RunExit::Crash,
        worse_exit(next, RunExit::Crash) == RunExit::Crash,
{
}

} // verus!

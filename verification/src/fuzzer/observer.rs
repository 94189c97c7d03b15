//! What the last response of a run looked like.
use vstd::prelude::*;
use crate::string_map::StringMap;

verus! {

/// The status, headers and body of the last response.
#[derive(Debug)]
pub struct HttpObserver {
    pub last_status_code: Option<u16>,
    pub last_response_body: Option<String>,
    pub last_response_headers: StringMap,
}

impl HttpObserver {
    /// An observer that has seen no response.
    pub fn new() -> (r: Self)
        ensures
            r.last_status_code is None,
            r.last_response_body is None,
            r.last_response_headers@.len() == 0,
            r.last_response_headers.wf(),
    {
        HttpObserver { last_status_code: None, last_response_body: None, last_response_headers: StringMap::new() }
    }

    /// Remembers a response.
    pub fn record(&mut self, status_code: u16, headers: StringMap, body: String)
        ensures
            final(self).last_status_code == Some(status_code),
            final(self).last_response_headers == headers,
            final(self).last_response_body == Some(body),
    {
        self.last_status_code = Some(status_code);
        self.last_response_headers = headers;
        self.last_response_body = Some(body);
    }

    /// Forgets the last response.
    pub fn clear(&mut self)
        ensures
            final(self).last_status_code is None,
            final(self).last_response_body is None,
            final(self).last_response_headers@.len() == 0,
            final(self).last_response_headers.wf(),
    {
        self.last_status_code = None;
        self.last_response_body = None;
        self.last_response_headers = StringMap::new();
    }
}

} // verus!

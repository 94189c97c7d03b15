//! A sequence of requests whose later members can use values from earlier responses.
use vstd::prelude::*;
use super::input::{FuzzHttpRequest, RequestModel, request_len};
use super::state_manager::{StateExtraction, ExtractionModel, exts_view};
use crate::text::{chars_of, string_of, append_chars, append_str, u64_decimal, decimal, replace_chars, replace_all};

verus! {

/// A request sequence and the values carried between its requests.
#[derive(Debug)]
pub struct FuzzRequestSequence {
    pub requests: Vec<FuzzHttpRequest>,
    pub state_extractions: Vec<StateExtraction>,
}

pub open spec fn reqs_view(v: Seq<FuzzHttpRequest>) -> Seq<RequestModel> {
    v.map_values(|r: FuzzHttpRequest| r@)
}

/// Sum of the sizes of the requests.
pub open spec fn requests_len(v: Seq<RequestModel>) -> nat
    decreases v.len(),
{
    if v.len() == 0 {
        0
    } else {
        requests_len(v.drop_last()) + request_len(v.last())
    }
}

impl FuzzRequestSequence {
    /// Every request has well-formed header and parameter maps.
    pub open spec fn wf(&self) -> bool {
        forall|i: int| 0 <= i < self.requests@.len() ==> (#[trigger] self.requests@[i]).wf()
    }

    /// A sequence of the given requests that carries no values.
    pub fn new(requests: Vec<FuzzHttpRequest>) -> (r: Self)
        ensures
            r.requests@ == requests@,
            r.state_extractions@.len() == 0,
    {
        FuzzRequestSequence { requests, state_extractions: Vec::new() }
    }

    /// A sequence of one request.
    pub fn single(request: FuzzHttpRequest) -> (r: Self)
        ensures
            r.requests@ == seq![request],
            r.state_extractions@.len() == 0,
    {
        let mut requests: Vec<FuzzHttpRequest> = Vec::new();
        requests.push(request);
        assert(requests@ =~= seq![request]);
        FuzzRequestSequence { requests, state_extractions: Vec::new() }
    }

    /// A sequence of the given requests and extractions.
    pub fn with_extractions(requests: Vec<FuzzHttpRequest>, extractions: Vec<StateExtraction>) -> (r: Self)
        ensures
            r.requests@ == requests@,
            r.state_extractions@ == extractions@,
    {
        FuzzRequestSequence { requests, state_extractions: extractions }
    }

    /// Number of requests.
    pub fn len(&self) -> (n: usize)
        ensures
            n == self.requests@.len(),
    {
        self.requests.len()
    }

    pub fn is_empty(&self) -> (b: bool)
        ensures
            b == (self.requests@.len() == 0),
    {
        self.requests.len() == 0
    }

    /// A name for the sequence: `empty_sequence`, or `seq_<method>_<url with / as _>_x<count>` of its first request.
    pub fn generate_name(&self) -> (r: String)
        ensures
            self.requests@.len() == 0 ==> r@ == "empty_sequence"@,
            self.requests@.len() > 0 ==> r@ == "seq_"@ + self.requests@[0].method@ + seq!['_'] + replace_all(
                self.requests@[0].url@,
                seq!['/'],
                seq!['_'],
            ) + "_x"@ + decimal(self.requests@.len()),
    {
        if self.requests.len() == 0 {
            return "empty_sequence".to_owned();
        }
        let first = &self.requests[0];
        let mut out = chars_of("seq_");
        append_chars(&mut out, &chars_of(first.method.as_str()));
        out.push('_');
        let mut slash: Vec<char> = Vec::new();
        slash.push('/');
        let mut under: Vec<char> = Vec::new();
        under.push('_');
        assert(slash@ =~= seq!['/']);
        assert(under@ =~= seq!['_']);
        append_chars(&mut out, &replace_chars(&chars_of(first.url.as_str()), &slash, &under));
        append_str(&mut out, "_x");
        append_chars(&mut out, &u64_decimal(self.requests.len() as u64));
        string_of(&out)
    }

    /// The combined size of the requests.
    pub fn total_len(&self) -> (n: usize)
        requires
            requests_len(reqs_view(self.requests@)) <= usize::MAX,
        ensures
            n == requests_len(reqs_view(self.requests@)),
    {
        let ghost rv = reqs_view(self.requests@);
        let mut n: usize = 0;
        let mut i: usize = 0;
        while i < self.requests.len()
            invariant
                i <= self.requests.len(),
                rv == reqs_view(self.requests@),
                requests_len(rv) <= usize::MAX,
                n == requests_len(rv.take(i as int)),
            decreases self.requests.len() - i,
        {
            proof {
                assert(rv.take(i + 1).drop_last() =~= rv.take(i as int));
                lemma_requests_len_prefix(rv, i + 1);
                assert(rv[i as int] == self.requests@[i as int]@);
            }
            n = n + self.requests[i].len();
            i += 1;
        }
        assert(rv.take(self.requests.len() as int) =~= rv);
        n
    }
}

proof fn lemma_requests_len_prefix(v: Seq<RequestModel>, k: int)
    requires
        0 <= k <= v.len(),
    ensures
        requests_len(v.take(k)) <= requests_len(v),
        forall|i: int| 0 <= i < k ==> request_len(#[trigger] v[i]) <= requests_len(v),
    decreases v.len() - k,
{
    if k < v.len() {
        assert(v.drop_last().take(k) =~= v.take(k));
        lemma_requests_len_prefix(v.drop_last(), k);
        assert forall|i: int| 0 <= i < k implies request_len(#[trigger] v[i]) <= requests_len(v) by {
            assert(v.drop_last()[i] == v[i]);
        }
    } else {
        assert(v.take(k) =~= v);
        if k > 0 {
            lemma_last_le(v, k);
        }
    }
}

proof fn lemma_last_le(v: Seq<RequestModel>, k: int)
    requires
        0 < k == v.len(),
    ensures
        forall|i: int| 0 <= i < k ==> request_len(#[trigger] v[i]) <= requests_len(v),
    decreases v.len(),
{
    assert forall|i: int| 0 <= i < k implies request_len(#[trigger] v[i]) <= requests_len(v) by {
        if i == k - 1 {
        } else {
            lemma_last_le(v.drop_last(), k - 1);
            assert(v.drop_last()[i] == v[i]);
        }
    }
}

} // verus!

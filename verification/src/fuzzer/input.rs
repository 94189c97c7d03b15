//! One HTTP request as the fuzzer mutates it.
use vstd::prelude::*;
use crate::string_map::{StringMap, Entries};
use crate::text::{chars_of, string_of, replace_chars, replace_all, append_chars, append_str};
use crate::json::{JsonValue, parse_json, to_json_text, json_parse, json_text};
use crate::parser::types::{HttpMethod, method_name};
use crate::generator::HttpRequest;

verus! {

/// The model of a request: its parts as character sequences and entry lists.
pub struct RequestModel {
    pub url: Seq<char>,
    pub method: Seq<char>,
    pub headers: Entries,
    pub query_params: Entries,
    pub body: Option<Seq<char>>,
}

/// A request: URL, method name, headers, query parameters and an optional JSON body text.
#[derive(Debug)]
pub struct FuzzHttpRequest {
    pub url: String,
    pub method: String,
    pub headers: StringMap,
    pub query_params: StringMap,
    pub body: Option<String>,
}

pub open spec fn opt_view(o: Option<String>) -> Option<Seq<char>> {
    match o {
        Some(s) => Some(s@),
        None => None,
    }
}

impl View for FuzzHttpRequest {
    type V = RequestModel;

    open spec fn view(&self) -> RequestModel {
        RequestModel {
            url: self.url@,
            method: self.method@,
            headers: self.headers@,
            query_params: self.query_params@,
            body: opt_view(self.body),
        }
    }
}

pub fn clone_opt_string(o: &Option<String>) -> (r: Option<String>)
    ensures
        opt_view(r) == opt_view(*o),
{
    match o {
        Some(s) => Some(s.clone()),
        None => None,
    }
}

impl Clone for FuzzHttpRequest {
    fn clone(&self) -> (r: Self)
        ensures
            r@ == self@,
            r.headers.wf() == self.headers.wf(),
            r.query_params.wf() == self.query_params.wf(),
    {
        FuzzHttpRequest {
            url: self.url.clone(),
            method: self.method.clone(),
            headers: self.headers.clone(),
            query_params: self.query_params.clone(),
            body: clone_opt_string(&self.body),
        }
    }
}

/// The method name a request's method text stands for; unknown names count as `GET`.
pub open spec fn method_of_name(m: Seq<char>) -> HttpMethod {
    if m == "POST"@ {
        HttpMethod::Post
    } else if m == "PUT"@ {
        HttpMethod::Put
    } else if m == "DELETE"@ {
        HttpMethod::Delete
    } else if m == "PATCH"@ {
        HttpMethod::Patch
    } else {
        HttpMethod::Get
    }
}

/// Number of UTF-8 bytes of a string.
pub open spec fn byte_len(s: Seq<char>) -> nat {
    vstd::utf8::encode_utf8(s).len()
}

/// Sum of the byte lengths of the values of some entries.
pub open spec fn values_byte_len(e: Entries) -> nat
    decreases e.len(),
{
    if e.len() == 0 {
        0
    } else {
        values_byte_len(e.drop_last()) + byte_len(e.last().1)
    }
}

/// The size of a request: bytes of URL, method, body and query-parameter values.
pub open spec fn request_len(r: RequestModel) -> nat {
    byte_len(r.url) + byte_len(r.method) + match r.body {
        Some(b) => byte_len(b),
        None => 0,
    } + values_byte_len(r.query_params)
}

impl FuzzHttpRequest {
    /// Headers and query parameters are well-formed maps.
    pub open spec fn wf(&self) -> bool {
        self.headers.wf() && self.query_params.wf()
    }

    /// The request a generated one stands for: the method by name and the body as JSON text.
    pub fn from_http_request(req: &HttpRequest) -> (r: Self)
        ensures
            r@.url == req.url@,
            r@.method == method_name(req.method),
            r@.headers == req.headers@,
            r@.query_params == req.query_params@,
            r@.body == match &req.body {
                Some(b) => Some(json_text(b.model())),
                None => None,
            },
            r.headers.wf() == req.headers.wf(),
            r.query_params.wf() == req.query_params.wf(),
    {
        FuzzHttpRequest {
            url: req.url.clone(),
            method: req.method.to_name(),
            headers: req.headers.clone(),
            query_params: req.query_params.clone(),
            body: match &req.body {
                Some(b) => Some(to_json_text(b)),
                None => None,
            },
        }
    }

    /// The request to send: the method read from its name (unknown names are sent as `GET`)
    /// and the body parsed as JSON (dropped when it does not parse).
    pub fn to_http_request(&self) -> (r: HttpRequest)
        ensures
            r.url@ == self.url@,
            r.method == method_of_name(self.method@),
            r.headers@ == self.headers@,
            r.query_params@ == self.query_params@,
            match self.body {
                Some(b) => match r.body {
                    Some(v) => json_parse(b@) == Some(v.model()),
                    None => json_parse(b@) is None,
                },
                None => r.body is None,
            },
    {
        let m = chars_of(self.method.as_str());
        let method = if crate::text::chars_eq(&m, &chars_of("POST")) {
            HttpMethod::Post
        } else if crate::text::chars_eq(&m, &chars_of("PUT")) {
            HttpMethod::Put
        } else if crate::text::chars_eq(&m, &chars_of("DELETE")) {
            HttpMethod::Delete
        } else if crate::text::chars_eq(&m, &chars_of("PATCH")) {
            HttpMethod::Patch
        } else {
            HttpMethod::Get
        };
        HttpRequest {
            url: self.url.clone(),
            method,
            headers: self.headers.clone(),
            query_params: self.query_params.clone(),
            body: match &self.body {
                Some(b) => parse_json(b.as_str()),
                None => None,
            },
        }
    }

    /// A name for the request: its method, `_`, and its URL with every `/` turned into `_`.
    pub fn generate_name(&self) -> (r: String)
        ensures
            r@ == self.method@ + seq!['_'] + replace_all(self.url@, seq!['/'], seq!['_']),
    {
        let mut out = chars_of(self.method.as_str());
        out.push('_');
        let mut slash: Vec<char> = Vec::new();
        slash.push('/');
        let mut under: Vec<char> = Vec::new();
        under.push('_');
        let u = replace_chars(&chars_of(self.url.as_str()), &slash, &under);
        append_chars(&mut out, &u);
        proof {
            assert(slash@ =~= seq!['/']);
            assert(under@ =~= seq!['_']);
        }
        string_of(&out)
    }

    /// The size of the request, in bytes of URL, method, body and query-parameter values.
    pub fn len(&self) -> (n: usize)
        requires
            request_len(self@) <= usize::MAX,
        ensures
            n == request_len(self@),
    {
        let mut total: usize = self.url.as_str().len();
        total = total + self.method.as_str().len();
        match &self.body {
            Some(b) => {
                total = total + b.as_str().len();
            },
            None => {},
        }
        let ghost e = self.query_params@;
        let ghost base = total as nat;
        let mut sum: usize = 0;
        let mut i: usize = 0;
        while i < self.query_params.entries.len()
            invariant
                i <= self.query_params.entries.len(),
                e == self.query_params@,
                e.len() == self.query_params.entries.len(),
                sum == values_byte_len(e.take(i as int)),
                base + values_byte_len(e) <= usize::MAX,
                base == total,
            decreases self.query_params.entries.len() - i,
        {
            proof {
                assert(e.take(i + 1).drop_last() =~= e.take(i as int));
                lemma_values_byte_len_prefix(e, i + 1);
                assert(e[i as int].1 == self.query_params.entries@[i as int].1@);
            }
            sum = sum + self.query_params.entries[i].1.as_str().len();
            i += 1;
        }
        assert(e.take(e.len() as int) =~= e);
        total + sum
    }
}

proof fn lemma_values_byte_len_prefix(e: Entries, k: int)
    requires
        0 <= k <= e.len(),
    ensures
        values_byte_len(e.take(k)) <= values_byte_len(e),
    decreases e.len() - k,
{
    if k < e.len() {
        assert(e.drop_last().take(k) =~= e.take(k));
        lemma_values_byte_len_prefix(e.drop_last(), k);
        assert(e.take(e.len() - 1) =~= e.drop_last());
    } else {
        assert(e.take(k) =~= e);
    }
}

} // verus!

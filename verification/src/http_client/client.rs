//! What a response says, and how query parameters are encoded into a URL.
use vstd::prelude::*;
use std::time::Duration;
use crate::string_map::{StringMap, Entries};
use crate::text::{chars_of, string_of, append_chars};

verus! {

/// A response: status, body, how long it took, and its headers.
#[derive(Debug)]
pub struct HttpResponse {
    pub status_code: u16,
    pub body: String,
    pub duration: Duration,
    pub headers: StringMap,
}

impl HttpResponse {
    /// A 5xx status.
    pub fn is_server_error(&self) -> (r: bool)
        ensures
            r == (500 <= self.status_code < 600),
    {
        self.status_code >= 500 && self.status_code < 600
    }
}

/// Characters that go into a URL as they are.
pub open spec fn is_unreserved(c: char) -> bool {
    ('A' <= c <= 'Z') || ('a' <= c <= 'z') || ('0' <= c <= '9') || c == '-' || c == '_' || c == '.' || c == '~'
}

/// An upper-case hexadecimal digit.
pub open spec fn hex_digit(d: nat) -> char {
    if d < 10 {
        ((48 + d) as u8) as char
    } else {
        ((55 + d) as u8) as char
    }
}

/// One character encoded: unreserved ones as they are, a space as `+`, anything else as `%`
/// and two upper-case hex digits of the low byte of its code point.
pub open spec fn encode_char(c: char) -> Seq<char> {
    if is_unreserved(c) {
        seq![c]
    } else if c == ' ' {
        seq!['+']
    } else {
        let b = (c as u32) % 256;
        seq!['%', hex_digit((b / 16) as nat), hex_digit((b % 16) as nat)]
    }
}

/// The text encoded character by character.
pub open spec fn url_encoded(s: Seq<char>) -> Seq<char>
    decreases s.len(),
{
    if s.len() == 0 {
        Seq::empty()
    } else {
        url_encoded(s.drop_last()) + encode_char(s.last())
    }
}

/// Characters an encoded text is made of.
pub open spec fn is_url_safe(c: char) -> bool {
    is_unreserved(c) || c == '+' || c == '%'
}

fn hex_char(d: u32) -> (c: char)
    requires
        d < 16,
    ensures
        c == hex_digit(d as nat),
{
    if d < 10 {
        ((48 + d) as u8) as char
    } else {
        ((55 + d) as u8) as char
    }
}

/// The text with every character that is not unreserved encoded; the result holds only
/// unreserved characters, `+` and `%`.
pub fn urlencoded(s: &str) -> (r: String)
    ensures
        r@ == url_encoded(s@),
        forall|i: int| 0 <= i < r@.len() ==> is_url_safe(#[trigger] r@[i]),
{
    let cs = chars_of(s);
    let mut out: Vec<char> = Vec::new();
    let mut i: usize = 0;
    while i < cs.len()
        invariant
            i <= cs.len(),
            cs@ == s@,
            out@ == url_encoded(s@.take(i as int)),
            forall|k: int| 0 <= k < out@.len() ==> is_url_safe(#[trigger] out@[k]),
        decreases cs.len() - i,
    {
        let c = cs[i];
        assert(s@.take(i + 1).drop_last() =~= s@.take(i as int));
        assert(s@.take(i + 1).last() == c);
        let ghost before = out@;
        if ('A' <= c && c <= 'Z') || ('a' <= c && c <= 'z') || ('0' <= c && c <= '9') || c == '-' || c == '_' || c == '.' || c == '~' {
            out.push(c);
        } else if c == ' ' {
            out.push('+');
        } else {
            let b = (c as u32) % 256;
            out.push('%');
            out.push(hex_char(b / 16));
            out.push(hex_char(b % 16));
            proof {
                let h = b / 16;
                let l = b % 16;
                assert(is_unreserved(hex_digit(h as nat))) by {
                    if h < 10 {
                        assert(('0' <= hex_digit(h as nat) <= '9'));
                    } else {
                        assert(('A' <= hex_digit(h as nat) <= 'Z'));
                    }
                }
                assert(is_unreserved(hex_digit(l as nat))) by {
                    if l < 10 {
                        assert(('0' <= hex_digit(l as nat) <= '9'));
                    } else {
                        assert(('A' <= hex_digit(l as nat) <= 'Z'));
                    }
                }
            }
        }
        assert(out@ =~= before + encode_char(c));
        i += 1;
    }
    assert(s@.take(cs.len() as int) =~= s@);
    string_of(&out)
}

/// The encoded pairs `k=v` joined with `&`.
pub open spec fn encoded_pairs(q: Entries) -> Seq<char>
    decreases q.len(),
{
    if q.len() == 0 {
        Seq::empty()
    } else if q.len() == 1 {
        url_encoded(q[0].0) + seq!['='] + url_encoded(q[0].1)
    } else {
        encoded_pairs(q.drop_last()) + seq!['&'] + url_encoded(q.last().0) + seq!['='] + url_encoded(q.last().1)
    }
}

/// The URL a request goes to: with `?` and the encoded query parameters when there are any.
pub open spec fn url_with_query_spec(url: Seq<char>, q: Entries) -> Seq<char> {
    if q.len() == 0 {
        url
    } else {
        url + seq!['?'] + encoded_pairs(q)
    }
}

/// The URL a request goes to, with its query parameters encoded.
pub fn url_with_query(url: &str, query_params: &StringMap) -> (r: String)
    ensures
        r@ == url_with_query_spec(url@, query_params@),
{
    let q = &query_params.entries;
    let ghost qv = query_params@;
    let mut out = chars_of(url);
    if q.len() == 0 {
        return string_of(&out);
    }
    out.push('?');
    let ghost start = out@;
    let mut i: usize = 0;
    while i < q.len()
        invariant
            i <= q.len(),
            qv == query_params@,
            q@ == query_params.entries@,
            out@ == start + encoded_pairs(qv.take(i as int)),
        decreases q.len() - i,
    {
        assert(qv.take(i + 1).drop_last() =~= qv.take(i as int));
        assert(qv.take(i + 1).last() == (q@[i as int].0@, q@[i as int].1@));
        if i > 0 {
            out.push('&');
        } else {
            assert(qv.take(0) =~= Seq::<(Seq<char>, Seq<char>)>::empty());
        }
        append_chars(&mut out, &chars_of(urlencoded(q[i].0.as_str()).as_str()));
        out.push('=');
        append_chars(&mut out, &chars_of(urlencoded(q[i].1.as_str()).as_str()));
        i += 1;
        assert(out@ =~= start + encoded_pairs(qv.take(i as int)));
    }
    assert(qv.take(q.len() as int) =~= qv);
    string_of(&out)
}

} // verus!

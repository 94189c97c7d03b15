//! Seed requests for each endpoint: a valid one, one with empty values, one with overlong
//! strings and, for methods that write, one with a null body.
use vstd::prelude::*;
use crate::string_map::{StringMap, Entries, insert_entry, lookup, keys_unique, law_lookup_after_insert};
use crate::text::{
    chars_of, string_of, append_chars, replace_chars, replace_all, trim_end_matches, trim_end_char,
    u64_decimal, decimal, digit_char, parse_i64, parse_i64_spec, signed_decimal, i64_decimal, all_digits, slice_chars,
    find_char, first_index_of,
};
use crate::json::{Json, JsonValue, value_text, value_to_text, json_number_text, parse_json_number, members_model, lemma_object_model, lemma_array_model};
use crate::parser::types::{HttpMethod, Endpoint, Parameter, ParameterLocation, SchemaType, PropertySchema, method_name};
use crate::fuzzer::mutator::{a_run, a_run_string};
use super::sequence_generator::{template, json_content_type};

verus! {

broadcast use vstd::std_specs::vec::axiom_vec_index_decreases;

/// A request as generated from an endpoint, with a JSON body.
#[derive(Debug)]
pub struct HttpRequest {
    pub url: String,
    pub method: HttpMethod,
    pub headers: StringMap,
    pub query_params: StringMap,
    pub body: Option<JsonValue>,
}

/// The pairs `k=v` joined with `&`.
pub open spec fn query_string(q: Entries) -> Seq<char>
    decreases q.len(),
{
    if q.len() == 0 {
        Seq::empty()
    } else if q.len() == 1 {
        q[0].0 + seq!['='] + q[0].1
    } else {
        query_string(q.drop_last()) + seq!['&'] + q.last().0 + seq!['='] + q.last().1
    }
}

/// How a request is shown: method, space, URL, and `?` with the query string when there is one.
pub open spec fn request_display(method: HttpMethod, url: Seq<char>, q: Entries) -> Seq<char> {
    method_name(method) + seq![' '] + url + if q.len() > 0 {
        seq!['?'] + query_string(q)
    } else {
        Seq::empty()
    }
}

impl HttpRequest {
    /// The request as text, such as `GET http://host/items?limit=10`.
    pub fn to_display_string(&self) -> (r: String)
        ensures
            r@ == request_display(self.method, self.url@, self.query_params@),
    {
        let mut out = chars_of(self.method.as_str());
        out.push(' ');
        append_chars(&mut out, &chars_of(self.url.as_str()));
        let q = &self.query_params.entries;
        let ghost qv = self.query_params@;
        if q.len() > 0 {
            out.push('?');
            let ghost start = out@;
            let mut i: usize = 0;
            while i < q.len()
                invariant
                    i <= q.len(),
                    qv == self.query_params@,
                    q@ == self.query_params.entries@,
                    out@ == start + query_string(qv.take(i as int)),
                decreases q.len() - i,
            {
                assert(qv.take(i + 1).drop_last() =~= qv.take(i as int));
                assert(qv.take(i + 1).last() == (q@[i as int].0@, q@[i as int].1@));
                if i > 0 {
                    out.push('&');
                } else {
                    assert(qv.take(0) =~= Seq::<(Seq<char>, Seq<char>)>::empty());
                }
                append_chars(&mut out, &chars_of(q[i].0.as_str()));
                out.push('=');
                append_chars(&mut out, &chars_of(q[i].1.as_str()));
                i += 1;
                assert(out@ =~= start + query_string(qv.take(i as int)));
            }
            assert(qv.take(q.len() as int) =~= qv);
        } else {
            assert(out@ =~= request_display(self.method, self.url@, self.query_params@));
        }
        string_of(&out)
    }
}

// ---------------------------------------------------------------------------
// Generated values
// ---------------------------------------------------------------------------

/// Calls `rand::Rng::gen_range` on the thread-local generator: a number in `lo..hi`.
#[verifier::external_body]
fn random_in(lo: u64, hi: u64) -> (r: u64)
    requires
        lo < hi,
    ensures
        lo <= r < hi,
{
    rand::Rng::gen_range(&mut rand::thread_rng(), lo..hi)
}

/// A number of hundredths written with two decimals, such as `42.07`.
pub open spec fn hundredths_text(k: nat) -> Seq<char> {
    decimal(k / 100) + seq!['.', digit_char((k % 100) / 10), digit_char(k % 10)]
}

fn hundredths(k: u64) -> (r: String)
    requires
        k <= 10000,
    ensures
        r@ == hundredths_text(k as nat),
{
    let mut v = u64_decimal(k / 100);
    v.push('.');
    let tens = (k % 100) / 10;
    let ones = k % 10;
    v.push(((48u8 + tens as u8) as char));
    v.push(((48u8 + ones as u8) as char));
    assert(digit_char(tens as nat) == (48 + tens) as char);
    string_of(&v)
}

/// The texts a generated value can be: the example read out as text; else `fuzz_` and a
/// 32-bit number for a string, a number in 1..1000 for an integer, a number below 100 with
/// two decimals for a number, `true` or `false` for a boolean, `[]` for an array and `{}`
/// for an object.
pub open spec fn generated_text_ok(t: SchemaType, ex: Option<JsonValue>, s: Seq<char>) -> bool {
    match ex {
        Some(e) => s == value_text(e.model()),
        None => match t {
            SchemaType::String => exists|u: nat| u <= u32::MAX && s == "fuzz_"@ + #[trigger] decimal(u),
            SchemaType::Integer => exists|k: nat| 1 <= k < 1000 && s == #[trigger] decimal(k),
            SchemaType::Number => exists|k: nat| k <= 10000 && s == #[trigger] hundredths_text(k),
            SchemaType::Boolean => s == "true"@ || s == "false"@,
            SchemaType::Array(_) => s == "[]"@,
            SchemaType::Object(_) => s == "{}"@,
        },
    }
}

/// `e` or `E`, which start the exponent of a float text.
pub open spec fn is_exp_char(c: char) -> bool {
    c == 'e' || c == 'E'
}

/// The index of the first `e` or `E`.
pub open spec fn first_exp_index(s: Seq<char>) -> Option<int> {
    if exists|i: int| 0 <= i < s.len() && is_exp_char(s[i]) {
        Some(choose|i: int| 0 <= i < s.len() && is_exp_char(s[i]) && forall|j: int| 0 <= j < i ==> !is_exp_char(s[j]))
    } else {
        None
    }
}

/// The text equals the word, letter for letter in either case; each letter of the word is
/// given as its lower and upper case.
pub open spec fn matches_word(s: Seq<char>, w: Seq<(char, char)>) -> bool {
    s.len() == w.len() && forall|i: int| 0 <= i < s.len() ==> s[i] == w[i].0 || s[i] == w[i].1
}

pub open spec fn word_inf() -> Seq<(char, char)> {
    seq![('i', 'I'), ('n', 'N'), ('f', 'F')]
}

pub open spec fn word_infinity() -> Seq<(char, char)> {
    seq![('i', 'I'), ('n', 'N'), ('f', 'F'), ('i', 'I'), ('n', 'N'), ('i', 'I'), ('t', 'T'), ('y', 'Y')]
}

pub open spec fn word_nan() -> Seq<(char, char)> {
    seq![('n', 'N'), ('a', 'A'), ('n', 'N')]
}

/// The digits without their leading zeros; `0` when nothing is left.
pub open spec fn strip_zeros(d: Seq<char>) -> Seq<char>
    decreases d.len(),
{
    if d.len() == 0 {
        seq!['0']
    } else if d.len() > 1 && d[0] == '0' {
        strip_zeros(d.skip(1))
    } else {
        d
    }
}

/// How `str::parse::<f64>` reads a text.
pub enum FloatReading {
    /// Not a float.
    Invalid,
    /// Infinity or NaN.
    NonFinite,
    /// A finite number, spelled in JSON's number syntax: the sign, the integer digits without
    /// leading zeros, a point, the fraction digits (`0` when there are none) and the exponent.
    Finite(Seq<char>),
}

/// Length of a leading sign.
pub open spec fn sign_len(s: Seq<char>) -> int {
    if s.len() > 0 && (s[0] == '+' || s[0] == '-') {
        1
    } else {
        0
    }
}

/// The parts of a float text after its sign: the digits before the point, the digits after
/// it, and what follows the first `e` or `E`, if there is one.
pub open spec fn float_parts(b: Seq<char>) -> (Seq<char>, Seq<char>, Option<Seq<char>>) {
    let p = match first_exp_index(b) {
        Some(i) => i,
        None => b.len() as int,
    };
    let m = b.take(p);
    let d = match first_index_of(m, '.') {
        Some(i) => i,
        None => m.len() as int,
    };
    (
        m.take(d),
        if d < m.len() { m.skip(d + 1) } else { Seq::empty() },
        if p < b.len() { Some(b.skip(p + 1)) } else { None },
    )
}

/// An exponent: an optional sign and at least one digit.
pub open spec fn exponent_ok(e: Seq<char>) -> bool {
    let eb = if e.len() > 0 && (e[0] == '+' || e[0] == '-') { e.skip(1) } else { e };
    eb.len() > 0 && all_digits(eb)
}

/// A float text after its sign, spelled in JSON's number syntax, when it is a finite number:
/// the integer digits without leading zeros, a point, the fraction digits (`0` when there
/// are none) and the exponent.
pub open spec fn finite_body(b: Seq<char>) -> Option<Seq<char>> {
    let (ip, fp, e) = float_parts(b);
    if all_digits(ip) && all_digits(fp) && ip.len() + fp.len() > 0 && (e matches Some(x) ==> exponent_ok(x)) {
        Some(strip_zeros(ip) + seq!['.'] + (if fp.len() == 0 { seq!['0'] } else { fp }) + match e {
            Some(x) => seq!['e'] + x,
            None => Seq::empty(),
        })
    } else {
        None
    }
}

/// How `str::parse::<f64>` reads `s`: an optional sign, then `inf`, `infinity` or `nan` in any
/// case, or digits with at most one point and at least one digit, followed by an optional
/// exponent (`e` or `E`, an optional sign and at least one digit).
pub open spec fn float_reading(s: Seq<char>) -> FloatReading {
    let b = s.skip(sign_len(s));
    if matches_word(b, word_inf()) || matches_word(b, word_infinity()) || matches_word(b, word_nan()) {
        FloatReading::NonFinite
    } else {
        match finite_body(b) {
            Some(t) => FloatReading::Finite(
                (if sign_len(s) == 1 && s[0] == '-' { seq!['-'] } else { Seq::empty() }) + t,
            ),
            None => FloatReading::Invalid,
        }
    }
}

/// The JSON number that a text gives as a float, as `serde_json` writes it: a text that is
/// not a float gives `0.0`; infinity, NaN, and a number too large for `serde_json` give `0`.
pub open spec fn float_value(s: Seq<char>) -> Json {
    match float_reading(s) {
        FloatReading::Invalid => Json::Number("0.0"@),
        FloatReading::NonFinite => Json::Number("0"@),
        FloatReading::Finite(t) => match json_number_text(t) {
            Some(p) => Json::Number(p),
            None => Json::Number("0"@),
        },
    }
}

fn ci_word(s: &Vec<char>, w: &Vec<(char, char)>) -> (r: bool)
    ensures
        r == matches_word(s@, w@),
{
    if s.len() != w.len() {
        return false;
    }
    let mut i: usize = 0;
    while i < s.len()
        invariant
            i <= s.len(),
            s.len() == w.len(),
            forall|j: int| 0 <= j < i ==> s@[j] == w@[j].0 || s@[j] == w@[j].1,
        decreases s.len() - i,
    {
        let (lo, up) = w[i];
        if s[i] != lo && s[i] != up {
            return false;
        }
        i += 1;
    }
    true
}

fn find_exp(s: &Vec<char>) -> (r: usize)
    ensures
        r <= s.len(),
        r < s.len() ==> first_exp_index(s@) == Some(r as int),
        r == s.len() ==> first_exp_index(s@) is None,
{
    let mut i: usize = 0;
    while i < s.len()
        invariant
            i <= s.len(),
            forall|j: int| 0 <= j < i ==> !is_exp_char(s@[j]),
        decreases s.len() - i,
    {
        if s[i] == 'e' || s[i] == 'E' {
            proof {
                let k = choose|k: int| 0 <= k < s@.len() && is_exp_char(s@[k]) && forall|j: int| 0 <= j < k ==> !is_exp_char(s@[j]);
                if k < i {
                    assert(!is_exp_char(s@[k]));
                }
                if (i as int) < k {
                    assert(!is_exp_char(s@[i as int]));
                }
            }
            return i;
        }
        i += 1;
    }
    i
}

fn digits_only(s: &Vec<char>) -> (r: bool)
    ensures
        r == all_digits(s@),
{
    let mut i: usize = 0;
    while i < s.len()
        invariant
            i <= s.len(),
            forall|j: int| 0 <= j < i ==> crate::text::is_digit(#[trigger] s@[j]),
        decreases s.len() - i,
    {
        if !('0' <= s[i] && s[i] <= '9') {
            return false;
        }
        i += 1;
    }
    true
}

fn strip_zeros_exec(d: &Vec<char>) -> (r: Vec<char>)
    ensures
        r@ == strip_zeros(d@),
{
    let mut i: usize = 0;
    assert(d@.skip(0) =~= d@);
    while i + 1 < d.len() && d[i] == '0'
        invariant
            i <= d.len(),
            d.len() > 0 ==> i < d.len(),
            strip_zeros(d@) == strip_zeros(d@.skip(i as int)),
        decreases d.len() - i,
    {
        proof {
            assert(d@.skip(i as int)[0] == d@[i as int]);
            assert(d@.skip(i as int).skip(1) =~= d@.skip(i + 1));
        }
        i += 1;
    }
    if d.len() == 0 {
        assert(d@.skip(0).len() == 0);
        let mut z: Vec<char> = Vec::new();
        z.push('0');
        assert(z@ =~= seq!['0']);
        return z;
    }
    let r = slice_chars(d, i, d.len());
    proof {
        assert(r@ =~= d@.skip(i as int));
        let t = d@.skip(i as int);
        assert(t.len() > 0);
        assert(!(t.len() > 1 && t[0] == '0'));
    }
    r
}

fn float_parts_exec(b: &Vec<char>) -> (r: (Vec<char>, Vec<char>, Option<Vec<char>>))
    ensures
        r.0@ == float_parts(b@).0,
        r.1@ == float_parts(b@).1,
        r.2 matches Some(e) ==> float_parts(b@).2 == Some(e@),
        r.2 is None ==> float_parts(b@).2 is None,
{
    let p = find_exp(b);
    let m = slice_chars(b, 0, p);
    assert(m@ =~= b@.take(p as int));
    let d = match find_char(&m, '.') {
        Some(i) => i,
        None => m.len(),
    };
    let ip = slice_chars(&m, 0, d);
    assert(ip@ =~= m@.take(d as int));
    let fp = if d < m.len() {
        let f = slice_chars(&m, d + 1, m.len());
        assert(f@ =~= m@.skip(d + 1));
        f
    } else {
        let f: Vec<char> = Vec::new();
        assert(f@ =~= Seq::<char>::empty());
        f
    };
    let e = if p < b.len() {
        let f = slice_chars(b, p + 1, b.len());
        assert(f@ =~= b@.skip(p + 1));
        Some(f)
    } else {
        None
    };
    (ip, fp, e)
}

fn exponent_ok_exec(e: &Vec<char>) -> (r: bool)
    ensures
        r == exponent_ok(e@),
{
    if e.len() > 0 && (e[0] == '+' || e[0] == '-') {
        let f = slice_chars(e, 1, e.len());
        assert(f@ =~= e@.skip(1));
        f.len() > 0 && digits_only(&f)
    } else {
        e.len() > 0 && digits_only(e)
    }
}

fn finite_body_exec(b: &Vec<char>) -> (r: Option<Vec<char>>)
    ensures
        r matches Some(t) ==> finite_body(b@) == Some(t@),
        r is None ==> finite_body(b@) is None,
{
    let (ip, fp, e) = float_parts_exec(b);
    let e_ok = match &e {
        Some(x) => exponent_ok_exec(x),
        None => true,
    };
    if !(digits_only(&ip) && digits_only(&fp) && (ip.len() > 0 || fp.len() > 0) && e_ok) {
        return None;
    }
    let mut t = strip_zeros_exec(&ip);
    t.push('.');
    if fp.len() == 0 {
        t.push('0');
    } else {
        append_chars(&mut t, &fp);
    }
    match &e {
        Some(x) => {
            t.push('e');
            append_chars(&mut t, x);
        },
        None => {},
    }
    proof {
        let fpart = if fp@.len() == 0 { seq!['0'] } else { fp@ };
        let epart = match float_parts(b@).2 {
            Some(x) => seq!['e'] + x,
            None => Seq::<char>::empty(),
        };
        assert(t@ =~= strip_zeros(ip@) + seq!['.'] + fpart + epart);
    }
    Some(t)
}

/// How `str::parse::<f64>` reads `s` (see `float_reading`): `None` for an invalid text,
/// `Some(None)` for infinity or NaN, `Some(Some(t))` for a finite number spelled `t`.
pub fn read_float(s: &Vec<char>) -> (r: Option<Option<Vec<char>>>)
    ensures
        r is None ==> float_reading(s@) is Invalid,
        r matches Some(None) ==> float_reading(s@) is NonFinite,
        r matches Some(Some(t)) ==> float_reading(s@) == FloatReading::Finite(t@),
{
    let start: usize = if s.len() > 0 && (s[0] == '+' || s[0] == '-') { 1 } else { 0 };
    let b = slice_chars(s, start, s.len());
    assert(b@ =~= s@.skip(sign_len(s@)));
    let inf = vec![('i', 'I'), ('n', 'N'), ('f', 'F')];
    let infinity = vec![('i', 'I'), ('n', 'N'), ('f', 'F'), ('i', 'I'), ('n', 'N'), ('i', 'I'), ('t', 'T'), ('y', 'Y')];
    let nan = vec![('n', 'N'), ('a', 'A'), ('n', 'N')];
    assert(inf@ =~= word_inf());
    assert(infinity@ =~= word_infinity());
    assert(nan@ =~= word_nan());
    if ci_word(&b, &inf) || ci_word(&b, &infinity) || ci_word(&b, &nan) {
        return Some(None);
    }
    match finite_body_exec(&b) {
        None => None,
        Some(body) => {
            let mut t: Vec<char> = Vec::new();
            if start == 1 && s[0] == '-' {
                t.push('-');
            }
            append_chars(&mut t, &body);
            proof {
                let sign = if sign_len(s@) == 1 && s@[0] == '-' { seq!['-'] } else { Seq::<char>::empty() };
                assert(t@ =~= sign + body@);
            }
            Some(Some(t))
        },
    }
}

/// The JSON integer a text stands for: the `i64` it reads as, else 0.
pub open spec fn integer_value(s: Seq<char>) -> Json {
    Json::Number(signed_decimal(match parse_i64_spec(s) {
        Some(n) => n as int,
        None => 0,
    }))
}

/// What a generated body member can be, given its type and example: a generated text as a
/// string, an integer, a float or a boolean; a one-element array of a generated text for
/// an array; a generated body for an object.
pub open spec fn value_ok(t: SchemaType, ex: Option<JsonValue>, v: Json) -> bool
    decreases t,
{
    match t {
        SchemaType::String => exists|s: Seq<char>| #[trigger] generated_text_ok(t, ex, s) && v == Json::Str(s),
        SchemaType::Integer => exists|s: Seq<char>| #[trigger] generated_text_ok(t, ex, s) && v == integer_value(s),
        SchemaType::Number => exists|s: Seq<char>| #[trigger] generated_text_ok(t, ex, s) && v == float_value(s),
        SchemaType::Boolean => exists|s: Seq<char>| #[trigger] generated_text_ok(t, ex, s) && v == Json::Bool(s == "true"@),
        SchemaType::Array(inner) => exists|s: Seq<char>|
            #[trigger] generated_text_ok(*inner, None, s) && v == Json::Array(seq![Json::Str(s)]),
        SchemaType::Object(props) => members_ok(props@, v),
    }
}

/// A generated body: an object with one member per property, in order, each as `value_ok` allows.
pub open spec fn members_ok(props: Seq<(String, PropertySchema)>, v: Json) -> bool
    decreases props,
{
    match v {
        Json::Object(m) => m.len() == props.len() && forall|i: int|
            0 <= i < props.len() ==> (#[trigger] m[i]).0 == props[i].0@ && value_ok(props[i].1.schema_type, props[i].1.example, m[i].1),
        _ => false,
    }
}

/// The value a property gets in a body of empty values.
pub open spec fn empty_value(t: SchemaType) -> Json {
    match t {
        SchemaType::String => Json::Str(Seq::empty()),
        SchemaType::Integer => Json::Number("0"@),
        SchemaType::Number => Json::Number("0"@),
        SchemaType::Boolean => Json::Bool(false),
        SchemaType::Array(_) => Json::Array(Seq::empty()),
        SchemaType::Object(_) => Json::Object(Seq::empty()),
    }
}

/// A body of empty values, one member per property.
pub open spec fn empty_body(props: Seq<(String, PropertySchema)>) -> Json {
    Json::Object(Seq::new(props.len(), |i: int| (props[i].0@, empty_value(props[i].1.schema_type))))
}

// ---------------------------------------------------------------------------
// Generated requests
// ---------------------------------------------------------------------------

/// The path after putting `vals[i]` in place of the template of each path parameter `i`.
pub open spec fn filled_path(path: Seq<char>, ps: Seq<Parameter>, vals: Seq<Seq<char>>) -> Seq<char>
    decreases ps.len(),
{
    if ps.len() == 0 {
        path
    } else {
        let prev = filled_path(path, ps.drop_last(), vals);
        let p = ps.last();
        if p.location == ParameterLocation::Path {
            replace_all(prev, template(p.name@), vals[ps.len() - 1])
        } else {
            prev
        }
    }
}

/// The query parameters given `vals`: every query parameter when `all` holds, else the
/// required ones.
pub open spec fn filled_query(ps: Seq<Parameter>, vals: Seq<Seq<char>>, all: bool) -> Entries
    decreases ps.len(),
{
    if ps.len() == 0 {
        Seq::empty()
    } else {
        let prev = filled_query(ps.drop_last(), vals, all);
        let p = ps.last();
        if p.location == ParameterLocation::Query && (all || p.required) {
            insert_entry(prev, p.name@, vals[ps.len() - 1])
        } else {
            prev
        }
    }
}

/// The query string of a generated request holds a parameter named `n` exactly when the
/// endpoint has a query parameter of that name that is required, or any query parameter of
/// that name when `all` holds; its value is the one generated for the last such parameter.
pub proof fn law_query_holds_the_required_parameters(ps: Seq<Parameter>, vals: Seq<Seq<char>>, all: bool, n: Seq<char>)
    requires
        vals.len() == ps.len(),
    ensures
        keys_unique(filled_query(ps, vals, all)),
        lookup(filled_query(ps, vals, all), n) is Some <==> exists|i: int|
            0 <= i < ps.len() && (#[trigger] ps[i]).location == ParameterLocation::Query && (all || ps[i].required)
                && ps[i].name@ == n,
    decreases ps.len(),
{
    if ps.len() > 0 {
        let d = ps.drop_last();
        law_query_holds_the_required_parameters(d, vals.take(d.len() as int), all, n);
        assert(filled_query(d, vals.take(d.len() as int), all) == filled_query(d, vals, all)) by {
            lemma_filled_query_prefix(d, vals, d.len() as int);
        }
        let prev = filled_query(d, vals, all);
        let p = ps.last();
        if p.location == ParameterLocation::Query && (all || p.required) {
            law_lookup_after_insert(prev, p.name@, vals[ps.len() - 1], n);
        }
        assert forall|i: int| 0 <= i < d.len() implies #[trigger] d[i] == ps[i] by {}
        if exists|i: int|
            0 <= i < ps.len() && (#[trigger] ps[i]).location == ParameterLocation::Query && (all || ps[i].required)
                && ps[i].name@ == n {
            let i = choose|i: int|
                0 <= i < ps.len() && (#[trigger] ps[i]).location == ParameterLocation::Query && (all || ps[i].required)
                    && ps[i].name@ == n;
            if i < d.len() {
                assert(d[i] == ps[i]);
            }
        }
    } else {
        assert(keys_unique(Seq::<(Seq<char>, Seq<char>)>::empty()));
    }
}

/// The query string reads only the values of the parameters it covers.
proof fn lemma_filled_query_prefix(ps: Seq<Parameter>, vals: Seq<Seq<char>>, k: int)
    requires
        ps.len() <= k <= vals.len(),
    ensures
        filled_query(ps, vals.take(k), false) == filled_query(ps, vals, false),
        filled_query(ps, vals.take(k), true) == filled_query(ps, vals, true),
    decreases ps.len(),
{
    if ps.len() > 0 {
        lemma_filled_query_prefix(ps.drop_last(), vals, k);
    }
}

/// The headers given `vals`: the JSON content type, then the header parameters.
pub open spec fn filled_headers(ps: Seq<Parameter>, vals: Seq<Seq<char>>) -> Entries
    decreases ps.len(),
{
    if ps.len() == 0 {
        json_content_type()
    } else {
        let prev = filled_headers(ps.drop_last(), vals);
        let p = ps.last();
        if p.location == ParameterLocation::Header {
            insert_entry(prev, p.name@, vals[ps.len() - 1])
        } else {
            prev
        }
    }
}

/// The same text for each of `n` parameters.
pub open spec fn same_text(n: nat, s: Seq<char>) -> Seq<Seq<char>> {
    Seq::new(n, |i: int| s)
}

/// A valid request but for its body: every parameter has a generated value, which fills its
/// path template, its required query parameter or its header.
pub open spec fn valid_fields_ok(base: Seq<char>, ep: Endpoint, r: HttpRequest) -> bool {
    let ps = ep.parameters@;
    &&& r.method == ep.method
    &&& r.headers.wf() && r.query_params.wf()
    &&& exists|vals: Seq<Seq<char>>|
        #![trigger filled_path(ep.path@, ps, vals)]
        vals.len() == ps.len() && (forall|i: int| 0 <= i < vals.len() ==> generated_text_ok(ps[i].schema_type, ps[i].example, #[trigger] vals[i]))
            && r.url@ == base + filled_path(ep.path@, ps, vals) && r.query_params@ == filled_query(ps, vals, false)
            && r.headers@ == filled_headers(ps, vals)
}

/// A generated body for the request-body schema, or none without one.
pub open spec fn body_ok(schema: Option<Vec<(String, PropertySchema)>>, b: Option<JsonValue>) -> bool {
    match schema {
        Some(s) => b matches Some(v) && members_ok(s@, v.model()),
        None => b is None,
    }
}

/// A request with generated values for every parameter and a generated body.
pub open spec fn valid_request_ok(base: Seq<char>, ep: Endpoint, r: HttpRequest) -> bool {
    valid_fields_ok(base, ep, r) && body_ok(ep.request_body, r.body)
}

/// The request with every parameter empty: path templates removed, every query parameter
/// and header parameter empty, and a body of empty values.
pub open spec fn empty_request_ok(base: Seq<char>, ep: Endpoint, r: HttpRequest) -> bool {
    let ps = ep.parameters@;
    let vals = same_text(ps.len(), Seq::empty());
    &&& r.method == ep.method
    &&& r.headers.wf() && r.query_params.wf()
    &&& r.url@ == base + filled_path(ep.path@, ps, vals)
    &&& r.query_params@ == filled_query(ps, vals, true)
    &&& r.headers@ == filled_headers(ps, vals)
    &&& match ep.request_body {
        Some(s) => r.body matches Some(v) && v.model() == empty_body(s@),
        None => r.body is None,
    }
}

/// A body of overlong strings: string properties get ten thousand `A`s, others a generated
/// text as a string.
pub open spec fn long_body_ok(props: Seq<(String, PropertySchema)>, v: Json) -> bool {
    match v {
        Json::Object(m) => m.len() == props.len() && forall|i: int|
            0 <= i < props.len() ==> (#[trigger] m[i]).0 == props[i].0@ && if props[i].1.schema_type is String {
                m[i].1 == Json::Str(a_run())
            } else {
                exists|s: Seq<char>| #[trigger] generated_text_ok(props[i].1.schema_type, props[i].1.example, s) && m[i].1 == Json::Str(s)
            },
        _ => false,
    }
}

/// The request with overlong strings: in every path template and query parameter, and in the body.
pub open spec fn long_request_ok(base: Seq<char>, ep: Endpoint, r: HttpRequest) -> bool {
    let ps = ep.parameters@;
    let vals = same_text(ps.len(), a_run());
    &&& r.method == ep.method
    &&& r.headers.wf() && r.query_params.wf()
    &&& r.url@ == base + filled_path(ep.path@, ps, vals)
    &&& r.query_params@ == filled_query(ps, vals, true)
    &&& r.headers@ == json_content_type()
    &&& match ep.request_body {
        Some(s) => r.body matches Some(v) && long_body_ok(s@, v.model()),
        None => r.body is None,
    }
}

/// Methods that send a body.
pub open spec fn writes(m: HttpMethod) -> bool {
    m == HttpMethod::Post || m == HttpMethod::Put || m == HttpMethod::Patch
}

/// A body that is JSON `null`.
pub open spec fn is_null_body(b: Option<JsonValue>) -> bool {
    b matches Some(v) && v.model() == Json::Null
}

/// The boundary requests of an endpoint: empty values, overlong strings, and for a method that
/// writes a valid request with a null body.
pub open spec fn boundary_requests_ok(base: Seq<char>, ep: Endpoint, rs: Seq<HttpRequest>) -> bool {
    &&& rs.len() == if writes(ep.method) { 3nat } else { 2nat }
    &&& empty_request_ok(base, ep, rs[0])
    &&& long_request_ok(base, ep, rs[1])
    &&& writes(ep.method) ==> valid_fields_ok(base, ep, rs[2]) && is_null_body(rs[2].body)
}

/// Number of seed requests of the endpoints.
pub open spec fn seed_count(eps: Seq<Endpoint>) -> nat
    decreases eps.len(),
{
    if eps.len() == 0 {
        0
    } else {
        seed_count(eps.drop_last()) + if writes(eps.last().method) { 4nat } else { 3nat }
    }
}

/// The seed requests: for each endpoint in turn, a valid request then its boundary requests.
pub open spec fn corpus_ok(base: Seq<char>, eps: Seq<Endpoint>, rs: Seq<HttpRequest>) -> bool
    decreases eps.len(),
{
    if eps.len() == 0 {
        rs.len() == 0
    } else {
        let n = seed_count(eps.drop_last());
        &&& rs.len() == seed_count(eps)
        &&& corpus_ok(base, eps.drop_last(), rs.take(n as int))
        &&& valid_request_ok(base, eps.last(), rs[n as int])
        &&& boundary_requests_ok(base, eps.last(), rs.skip(n as int + 1))
    }
}

proof fn lemma_filled_prefix(path: Seq<char>, ps: Seq<Parameter>, a: Seq<Seq<char>>, b: Seq<Seq<char>>, all: bool)
    requires
        a.len() >= ps.len(),
        b.len() >= ps.len(),
        forall|k: int| 0 <= k < ps.len() ==> a[k] == b[k],
    ensures
        filled_path(path, ps, a) == filled_path(path, ps, b),
        filled_query(ps, a, all) == filled_query(ps, b, all),
        filled_headers(ps, a) == filled_headers(ps, b),
    decreases ps.len(),
{
    if ps.len() > 0 {
        lemma_filled_prefix(path, ps.drop_last(), a, b, all);
    }
}

fn template_of(name: &String) -> (r: Vec<char>)
    ensures
        r@ == template(name@),
        r@.len() > 0,
{
    let mut t: Vec<char> = Vec::new();
    t.push('{');
    append_chars(&mut t, &chars_of(name.as_str()));
    t.push('}');
    assert(t@ =~= template(name@));
    t
}

fn content_type_headers() -> (r: StringMap)
    ensures
        r@ == json_content_type(),
        r.wf(),
{
    let mut headers = StringMap::new();
    headers.insert("Content-Type".to_owned(), "application/json".to_owned());
    assert(headers@ =~= json_content_type());
    headers
}

fn joined(base: &String, path: &Vec<char>) -> (r: String)
    ensures
        r@ == base@ + path@,
{
    let mut url = chars_of(base.as_str());
    append_chars(&mut url, path);
    string_of(&url)
}

/// Builds seed requests against a base URL.
pub struct CorpusGenerator {
    pub base_url: String,
}

impl CorpusGenerator {
    /// A generator for the given base URL, trailing slashes removed.
    pub fn new(base_url: &str) -> (r: Self)
        ensures
            r.base_url@ == trim_end_char(base_url@, '/'),
    {
        CorpusGenerator { base_url: string_of(&trim_end_matches(&chars_of(base_url), '/')) }
    }

    /// A value for a parameter or property: its example read out as text, else a random
    /// value of its type.
    fn generate_value_for_type(&self, schema_type: &SchemaType, example: &Option<JsonValue>, boundary: bool) -> (r: String)
        ensures
            generated_text_ok(*schema_type, *example, r@),
    {
        match example {
            Some(ex) => value_to_text(ex),
            None => match schema_type {
                SchemaType::String => {
                    let u = random_in(0, 4294967296);
                    let mut t = chars_of("fuzz_");
                    append_chars(&mut t, &u64_decimal(u));
                    let r = string_of(&t);
                    assert(r@ == "fuzz_"@ + decimal(u as nat));
                    r
                },
                SchemaType::Integer => {
                    let k = random_in(1, 1000);
                    let r = string_of(&u64_decimal(k));
                    assert(r@ == decimal(k as nat));
                    r
                },
                SchemaType::Number => {
                    let k = random_in(0, 10001);
                    let r = hundredths(k);
                    assert(r@ == hundredths_text(k as nat));
                    r
                },
                SchemaType::Boolean => {
                    if random_in(0, 2) == 1 {
                        "true".to_owned()
                    } else {
                        "false".to_owned()
                    }
                },
                SchemaType::Array(_) => "[]".to_owned(),
                SchemaType::Object(_) => "{}".to_owned(),
            },
        }
    }

    fn float_json(text: &String) -> (r: JsonValue)
        ensures
            r.model() == float_value(text@),
    {
        match read_float(&chars_of(text.as_str())) {
            None => JsonValue::Number("0.0".to_owned()),
            Some(None) => JsonValue::Number("0".to_owned()),
            Some(Some(t)) => match parse_json_number(string_of(&t).as_str()) {
                Some(p) => JsonValue::Number(p),
                None => JsonValue::Number("0".to_owned()),
            },
        }
    }

    /// A body for the schema: empty values when `use_empty` holds, else generated ones.
    fn generate_body_from_schema(&self, schema: &Vec<(String, PropertySchema)>, use_empty: bool) -> (r: JsonValue)
        ensures
            use_empty ==> r.model() == empty_body(schema@),
            !use_empty ==> members_ok(schema@, r.model()),
        decreases schema@,
    {
        let mut members: Vec<(String, JsonValue)> = Vec::new();
        let mut i: usize = 0;
        while i < schema.len()
            invariant
                i <= schema.len(),
                members@.len() == i,
                forall|k: int| 0 <= k < i ==> (#[trigger] members@[k]).0@ == schema@[k].0@,
                use_empty ==> forall|k: int| 0 <= k < i ==> (#[trigger] members@[k]).1.model() == empty_value(schema@[k].1.schema_type),
                !use_empty ==> forall|k: int| 0 <= k < i ==> value_ok(schema@[k].1.schema_type, schema@[k].1.example, (#[trigger] members@[k]).1.model()),
            decreases schema.len() - i,
        {
            let key = &schema[i].0;
            let prop = &schema[i].1;
            let value = if use_empty {
                match &prop.schema_type {
                    SchemaType::String => JsonValue::Str(String::new()),
                    SchemaType::Integer => JsonValue::Number("0".to_owned()),
                    SchemaType::Number => JsonValue::Number("0".to_owned()),
                    SchemaType::Boolean => JsonValue::Bool(false),
                    SchemaType::Array(_) => {
                        let empty: Vec<JsonValue> = Vec::new();
                        proof {
                            lemma_array_model(empty);
                        }
                        let v = JsonValue::Array(empty);
                        assert(v.model()->Array_0 =~= Seq::<Json>::empty());
                        v
                    },
                    SchemaType::Object(_) => {
                        let empty: Vec<(String, JsonValue)> = Vec::new();
                        proof {
                            lemma_object_model(empty);
                        }
                        let v = JsonValue::Object(empty);
                        assert(v.model()->Object_0 =~= Seq::<(Seq<char>, Json)>::empty());
                        v
                    },
                }
            } else {
                let str_val = self.generate_value_for_type(&prop.schema_type, &prop.example, false);
                match &prop.schema_type {
                    SchemaType::String => JsonValue::Str(str_val),
                    SchemaType::Integer => {
                        let n: i64 = match parse_i64(&chars_of(str_val.as_str())) {
                            Some(n) => n,
                            None => 0,
                        };
                        JsonValue::Number(string_of(&i64_decimal(n)))
                    },
                    SchemaType::Number => Self::float_json(&str_val),
                    SchemaType::Boolean => {
                        let b = crate::text::chars_eq(&chars_of(str_val.as_str()), &chars_of("true"));
                        JsonValue::Bool(b)
                    },
                    SchemaType::Array(inner) => {
                        let item = self.generate_value_for_type(inner, &None, false);
                        let ghost iv = item@;
                        let mut items: Vec<JsonValue> = Vec::new();
                        items.push(JsonValue::Str(item));
                        proof {
                            lemma_array_model(items);
                        }
                        let v = JsonValue::Array(items);
                        assert(v.model()->Array_0 =~= seq![Json::Str(iv)]);
                        v
                    },
                    SchemaType::Object(props) => {
                        proof {
                            assert(decreases_to!(schema@ => schema@[i as int]));
                            assert(decreases_to!(schema@[i as int] => schema@[i as int].1));
                            assert(decreases_to!(schema@[i as int].1 => schema@[i as int].1.schema_type));
                            assert(decreases_to!(prop.schema_type => *props));
                            assert(decreases_to!(*props => props@));
                        }
                        self.generate_body_from_schema(props, false)
                    },
                }
            };
            let ghost vm = value.model();
            members.push((key.clone(), value));
            proof {
                if !use_empty {
                    assert(value_ok(schema@[i as int].1.schema_type, schema@[i as int].1.example, vm));
                }
            }
            i += 1;
        }
        proof {
            lemma_object_model(members);
        }
        let r = JsonValue::Object(members);
        proof {
            if use_empty {
                assert(members_model(members@) =~= Seq::new(schema@.len(), |k: int| (schema@[k].0@, empty_value(schema@[k].1.schema_type))));
            } else {
                let m = members_model(members@);
                assert forall|k: int| 0 <= k < schema@.len() implies (#[trigger] m[k]).0 == schema@[k].0@ && value_ok(
                    schema@[k].1.schema_type,
                    schema@[k].1.example,
                    m[k].1,
                ) by {
                    assert(m[k] == (members@[k].0@, members@[k].1.model()));
                }
            }
        }
        r
    }

    /// A request with a generated value for every parameter and a generated body.
    fn generate_valid_request(&self, endpoint: &Endpoint) -> (r: HttpRequest)
        ensures
            valid_request_ok(self.base_url@, *endpoint, r),
    {
        let ghost ps = endpoint.parameters@;
        let ghost mut vals: Seq<Seq<char>> = Seq::empty();
        let mut path = chars_of(endpoint.path.as_str());
        let mut query_params = StringMap::new();
        let mut headers = content_type_headers();
        let mut i: usize = 0;
        while i < endpoint.parameters.len()
            invariant
                i <= endpoint.parameters.len(),
                ps == endpoint.parameters@,
                vals.len() == i,
                forall|k: int| 0 <= k < i ==> generated_text_ok(ps[k].schema_type, ps[k].example, #[trigger] vals[k]),
                path@ == filled_path(endpoint.path@, ps.take(i as int), vals),
                query_params@ == filled_query(ps.take(i as int), vals, false),
                headers@ == filled_headers(ps.take(i as int), vals),
                query_params.wf(),
                headers.wf(),
            decreases endpoint.parameters.len() - i,
        {
            let param = &endpoint.parameters[i];
            let value = self.generate_value_for_type(&param.schema_type, &param.example, false);
            let ghost old_vals = vals;
            proof {
                vals = vals.push(value@);
                lemma_filled_prefix(endpoint.path@, ps.take(i as int), old_vals, vals, false);
                assert(ps.take(i + 1).drop_last() =~= ps.take(i as int));
                assert(ps.take(i + 1).last() == *param);
            }
            match param.location {
                ParameterLocation::Path => {
                    path = replace_chars(&path, &template_of(&param.name), &chars_of(value.as_str()));
                },
                ParameterLocation::Query => {
                    if param.required {
                        query_params.insert(param.name.clone(), value);
                    }
                },
                ParameterLocation::Header => {
                    headers.insert(param.name.clone(), value);
                },
                ParameterLocation::Body => {},
            }
            i += 1;
        }
        assert(ps.take(endpoint.parameters.len() as int) =~= ps);
        let body = match &endpoint.request_body {
            Some(schema) => Some(self.generate_body_from_schema(schema, false)),
            None => None,
        };
        let r = HttpRequest { url: joined(&self.base_url, &path), method: endpoint.method, headers, query_params, body };
        assert(filled_path(endpoint.path@, ps, vals) == path@);
        r
    }

    /// A request with every parameter empty and a body of empty values.
    fn generate_request_with_empty_values(&self, endpoint: &Endpoint) -> (r: HttpRequest)
        ensures
            empty_request_ok(self.base_url@, *endpoint, r),
    {
        let ghost ps = endpoint.parameters@;
        let ghost vals = same_text(ps.len(), Seq::empty());
        let mut path = chars_of(endpoint.path.as_str());
        let mut query_params = StringMap::new();
        let mut headers = content_type_headers();
        let mut i: usize = 0;
        while i < endpoint.parameters.len()
            invariant
                i <= endpoint.parameters.len(),
                ps == endpoint.parameters@,
                vals == same_text(ps.len(), Seq::empty()),
                path@ == filled_path(endpoint.path@, ps.take(i as int), vals),
                query_params@ == filled_query(ps.take(i as int), vals, true),
                headers@ == filled_headers(ps.take(i as int), vals),
                query_params.wf(),
                headers.wf(),
            decreases endpoint.parameters.len() - i,
        {
            let param = &endpoint.parameters[i];
            proof {
                assert(ps.take(i + 1).drop_last() =~= ps.take(i as int));
                assert(ps.take(i + 1).last() == *param);
            }
            let empty = String::new();
            assert(empty@ == vals[i as int]);
            match param.location {
                ParameterLocation::Path => {
                    path = replace_chars(&path, &template_of(&param.name), &chars_of(empty.as_str()));
                },
                ParameterLocation::Query => {
                    query_params.insert(param.name.clone(), empty);
                },
                ParameterLocation::Header => {
                    headers.insert(param.name.clone(), empty);
                },
                ParameterLocation::Body => {},
            }
            i += 1;
        }
        assert(ps.take(endpoint.parameters.len() as int) =~= ps);
        let body = match &endpoint.request_body {
            Some(schema) => Some(self.generate_body_from_schema(schema, true)),
            None => None,
        };
        HttpRequest { url: joined(&self.base_url, &path), method: endpoint.method, headers, query_params, body }
    }

    /// A request with ten thousand `A`s in every path template and query parameter, and in
    /// the body's string properties.
    fn generate_request_with_long_strings(&self, endpoint: &Endpoint) -> (r: HttpRequest)
        ensures
            long_request_ok(self.base_url@, *endpoint, r),
    {
        let long_string = a_run_string();
        let ghost ps = endpoint.parameters@;
        let ghost vals = same_text(ps.len(), a_run());
        let mut path = chars_of(endpoint.path.as_str());
        let mut query_params = StringMap::new();
        let headers = content_type_headers();
        let mut i: usize = 0;
        while i < endpoint.parameters.len()
            invariant
                i <= endpoint.parameters.len(),
                ps == endpoint.parameters@,
                long_string@ == a_run(),
                vals == same_text(ps.len(), a_run()),
                path@ == filled_path(endpoint.path@, ps.take(i as int), vals),
                query_params@ == filled_query(ps.take(i as int), vals, true),
                query_params.wf(),
            decreases endpoint.parameters.len() - i,
        {
            let param = &endpoint.parameters[i];
            proof {
                assert(ps.take(i + 1).drop_last() =~= ps.take(i as int));
                assert(ps.take(i + 1).last() == *param);
            }
            match param.location {
                ParameterLocation::Path => {
                    path = replace_chars(&path, &template_of(&param.name), &chars_of(long_string.as_str()));
                },
                ParameterLocation::Query => {
                    query_params.insert(param.name.clone(), long_string.clone());
                },
                _ => {},
            }
            i += 1;
        }
        assert(ps.take(endpoint.parameters.len() as int) =~= ps);
        let body = match &endpoint.request_body {
            Some(schema) => {
                let mut members: Vec<(String, JsonValue)> = Vec::new();
                let mut k: usize = 0;
                while k < schema.len()
                    invariant
                        k <= schema.len(),
                        long_string@ == a_run(),
                        members@.len() == k,
                        forall|j: int| 0 <= j < k ==> (#[trigger] members@[j]).0@ == schema@[j].0@ && if schema@[j].1.schema_type is String {
                            members@[j].1.model() == Json::Str(a_run())
                        } else {
                            exists|s: Seq<char>| #[trigger] generated_text_ok(schema@[j].1.schema_type, schema@[j].1.example, s)
                                && members@[j].1.model() == Json::Str(s)
                        },
                    decreases schema.len() - k,
                {
                    let prop = &schema[k].1;
                    let v = match &prop.schema_type {
                        SchemaType::String => JsonValue::Str(long_string.clone()),
                        _ => JsonValue::Str(self.generate_value_for_type(&prop.schema_type, &prop.example, false)),
                    };
                    members.push((schema[k].0.clone(), v));
                    k += 1;
                }
                proof {
                    lemma_object_model(members);
                    let m = members_model(members@);
                    assert forall|j: int| 0 <= j < schema@.len() implies (#[trigger] m[j]).0 == schema@[j].0@ && (if schema@[j].1.schema_type is String {
                        m[j].1 == Json::Str(a_run())
                    } else {
                        exists|s: Seq<char>| #[trigger] generated_text_ok(schema@[j].1.schema_type, schema@[j].1.example, s) && m[j].1 == Json::Str(s)
                    }) by {
                        assert(m[j] == (members@[j].0@, members@[j].1.model()));
                    }
                }
                Some(JsonValue::Object(members))
            },
            None => None,
        };
        HttpRequest { url: joined(&self.base_url, &path), method: endpoint.method, headers, query_params, body }
    }

    /// The boundary requests: empty values, overlong strings, and for POST, PUT and PATCH a
    /// valid request with a null body.
    fn generate_boundary_requests(&self, endpoint: &Endpoint) -> (r: Vec<HttpRequest>)
        ensures
            boundary_requests_ok(self.base_url@, *endpoint, r@),
    {
        let mut requests: Vec<HttpRequest> = Vec::new();
        requests.push(self.generate_request_with_empty_values(endpoint));
        requests.push(self.generate_request_with_long_strings(endpoint));
        if endpoint.method == HttpMethod::Post || endpoint.method == HttpMethod::Put || endpoint.method == HttpMethod::Patch {
            let mut req = self.generate_valid_request(endpoint);
            req.body = Some(JsonValue::Null);
            requests.push(req);
        }
        requests
    }

    /// The seed requests: for each endpoint in turn, a valid request then its boundary requests.
    pub fn generate_corpus(&self, endpoints: &Vec<Endpoint>) -> (r: Vec<HttpRequest>)
        ensures
            corpus_ok(self.base_url@, endpoints@, r@),
    {
        let ghost eps = endpoints@;
        let mut corpus: Vec<HttpRequest> = Vec::new();
        let mut i: usize = 0;
        assert(eps.take(0).len() == 0);
        while i < endpoints.len()
            invariant
                i <= endpoints.len(),
                eps == endpoints@,
                corpus_ok(self.base_url@, eps.take(i as int), corpus@),
                corpus@.len() == seed_count(eps.take(i as int)),
            decreases endpoints.len() - i,
        {
            let ep = &endpoints[i];
            let ghost before = corpus@;
            let valid = self.generate_valid_request(ep);
            corpus.push(valid);
            let mut more = self.generate_boundary_requests(ep);
            let ghost b = more@;
            corpus.append(&mut more);
            proof {
                let t = eps.take(i + 1);
                assert(t.drop_last() =~= eps.take(i as int));
                assert(t.last() == *ep);
                let n = seed_count(eps.take(i as int));
                assert(corpus@.take(n as int) =~= before);
                assert(corpus@[n as int] == valid);
                assert(corpus@.skip(n as int + 1) =~= b);
            }
            i += 1;
        }
        assert(eps.take(endpoints.len() as int) =~= eps);
        corpus
    }
}

} // verus!

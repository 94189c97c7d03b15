//! Values carried from one response of a sequence into later requests.
use vstd::prelude::*;
use crate::string_map::{StringMap, Entries, lookup, insert_entry, first_ci_match, keys_unique, law_lookup_after_insert};
use crate::text::{
    chars_of, string_of, chars_eq, append_chars, append_str, has_prefix, slice_chars, split_chars,
    split_on, views, trim_start_matches, trim_start_char, find_char, rfind_char, contains_char,
    first_index_of, last_index_of, parse_usize, parse_usize_spec, u64_decimal, decimal,
    to_lowercase, lowercase, starts_with, contains_chars, contains, replace_chars, replace_all,
    replace_first_chars, replace_first, parse_i64, i64_decimal, signed_decimal, parse_i64_spec, is_digit,
    lemma_decimal_digits,
};
use crate::json::{
    Json, JsonValue, parse_json, json_parse, to_json_text, json_text, value_to_text, value_text,
    obj_lookup, obj_insert, obj_index, member_index, members_model, lemma_object_model, law_obj_lookup_after_insert,
    lemma_array_model, scalar_for,
};
use super::input::{FuzzHttpRequest, RequestModel, opt_view};

verus! {

/// Where an extracted value goes in a later request.
#[derive(Debug, PartialEq, Eq, Hash)]
pub enum InjectionTarget {
    QueryParam(String),
    PathParam(String),
    Header(String),
    BodyField(String),
}

/// Take the value at `json_path` from the response to request `source_request_idx`
/// and put it into request `target_request_idx`.
#[derive(Debug, PartialEq, Eq, Hash)]
pub struct StateExtraction {
    pub source_request_idx: usize,
    pub json_path: String,
    pub target_request_idx: usize,
    pub target: InjectionTarget,
}

// ---------------------------------------------------------------------------
// JSON paths
// ---------------------------------------------------------------------------

/// One step of a JSON path.
pub enum PathSeg {
    Field(Seq<char>),
    Index(nat),
}

/// One step of a JSON path.
pub enum PathSegment {
    Field(String),
    Index(usize),
}

impl View for PathSegment {
    type V = PathSeg;

    open spec fn view(&self) -> PathSeg {
        match self {
            PathSegment::Field(s) => PathSeg::Field(s@),
            PathSegment::Index(i) => PathSeg::Index(*i as nat),
        }
    }
}

pub open spec fn segs_view(v: Seq<PathSegment>) -> Seq<PathSeg> {
    v.map_values(|s: PathSegment| s@)
}

/// The dot-separated parts of a path after its leading `$`s and then its leading `.`s.
pub open spec fn path_parts(path: Seq<char>) -> Seq<Seq<char>> {
    split_on(trim_start_char(trim_start_char(path, '$'), '.'), '.')
}

/// A part holds both brackets.
pub open spec fn is_bracketed(p: Seq<char>) -> bool {
    p.contains('[') && p.contains(']')
}

/// Slicing out a bracketed part's index panics: its last character is not one byte long,
/// or its first `[` is its last character.
pub open spec fn part_panics(p: Seq<char>) -> bool {
    p.len() > 0 && is_bracketed(p) && !((p.last() as u32) < 128 && first_index_of(p, '[').unwrap() < p.len() - 1)
}

/// Some part of the path panics.
pub open spec fn json_path_panics(path: Seq<char>) -> bool {
    exists|i: int| 0 <= i < path_parts(path).len() && part_panics(#[trigger] path_parts(path)[i])
}

/// The steps one part stands for: a field, or a field (if any) and an index (if it parses).
pub open spec fn part_segments(p: Seq<char>) -> Seq<PathSeg> {
    if p.len() == 0 {
        Seq::empty()
    } else if is_bracketed(p) {
        let bp = first_index_of(p, '[').unwrap();
        let field = p.take(bp);
        let idx = p.subrange(bp + 1, p.len() - 1);
        (if field.len() > 0 { seq![PathSeg::Field(field)] } else { Seq::empty() }) + match parse_usize_spec(idx) {
            Some(n) => seq![PathSeg::Index(n as nat)],
            None => Seq::empty(),
        }
    } else {
        seq![PathSeg::Field(p)]
    }
}

pub open spec fn parts_segments(parts: Seq<Seq<char>>) -> Seq<PathSeg>
    decreases parts.len(),
{
    if parts.len() == 0 {
        Seq::empty()
    } else {
        parts_segments(parts.drop_last()) + part_segments(parts.last())
    }
}

/// The steps of a path such as `$.items[0].id`.
pub open spec fn path_segments(path: Seq<char>) -> Seq<PathSeg> {
    parts_segments(path_parts(path))
}

#[verifier::rlimit(40)]
fn part_to_segments(p: &Vec<char>, out: &mut Vec<PathSegment>)
    requires
        !part_panics(p@),
    ensures
        segs_view(final(out)@) == segs_view(old(out)@) + part_segments(p@),
{
    let ghost o = segs_view(out@);
    if p.len() == 0 {
        assert(segs_view(out@) =~= o + Seq::<PathSeg>::empty());
        return;
    }
    let has_open = contains_char(p, '[');
    let has_close = contains_char(p, ']');
    if has_open && has_close {
        assert(is_bracketed(p@));
        let bp = find_char(p, '[').unwrap();
        assert(bp < p.len() - 1);
        let field = slice_chars(p, 0, bp);
        assert(field@ =~= p@.take(bp as int));
        if field.len() > 0 {
            out.push(PathSegment::Field(string_of(&field)));
        }
        let ghost f = if field@.len() > 0 { seq![PathSeg::Field(field@)] } else { Seq::<PathSeg>::empty() };
        assert(segs_view(out@) =~= o + f);
        let ghost mid = segs_view(out@);
        let idx = slice_chars(p, bp + 1, p.len() - 1);
        let parsed = parse_usize(&idx);
        let ghost tail = match parse_usize_spec(idx@) {
            Some(n) => seq![PathSeg::Index(n as nat)],
            None => Seq::<PathSeg>::empty(),
        };
        match parsed {
            Some(n) => {
                out.push(PathSegment::Index(n));
                assert(segs_view(out@) =~= mid + tail);
            },
            None => {
                assert(segs_view(out@) =~= mid + tail);
            },
        }
        assert(part_segments(p@) == f + tail);
        assert(segs_view(out@) =~= o + part_segments(p@));
    } else {
        assert(!is_bracketed(p@));
        out.push(PathSegment::Field(string_of(p)));
        assert(segs_view(out@) =~= o + part_segments(p@));
    }
}

/// Splits a path such as `$.data.items[2].id` into its steps.
pub fn parse_json_path(path: &str) -> (r: Vec<PathSegment>)
    requires
        !json_path_panics(path@),
    ensures
        segs_view(r@) == path_segments(path@),
{
    let trimmed = trim_start_matches(&trim_start_matches(&chars_of(path), '$'), '.');
    let parts = split_chars(&trimmed, '.');
    let ghost ps = views(parts@);
    let mut segs: Vec<PathSegment> = Vec::new();
    let mut i: usize = 0;
    while i < parts.len()
        invariant
            i <= parts.len(),
            ps == views(parts@),
            ps == path_parts(path@),
            !json_path_panics(path@),
            segs_view(segs@) == parts_segments(ps.take(i as int)),
        decreases parts.len() - i,
    {
        proof {
            assert(ps[i as int] == parts@[i as int]@);
            if part_panics(ps[i as int]) {
                assert(json_path_panics(path@));
            }
            assert(ps.take(i + 1).drop_last() =~= ps.take(i as int));
        }
        part_to_segments(&parts[i], &mut segs);
        i += 1;
    }
    assert(ps.take(parts.len() as int) =~= ps);
    segs
}

fn part_would_panic(p: &Vec<char>) -> (r: bool)
    ensures
        r == part_panics(p@),
{
    if p.len() > 0 && contains_char(p, '[') && contains_char(p, ']') {
        assert(is_bracketed(p@));
        let bp = find_char(p, '[').unwrap();
        let last = p[p.len() - 1];
        assert(last == p@.last());
        !((last as u32) < 128 && bp < p.len() - 1)
    } else {
        false
    }
}

/// Whether reading the path would panic (see `json_path_panics`).
pub fn json_path_would_panic(path: &str) -> (r: bool)
    ensures
        r == json_path_panics(path@),
{
    let trimmed = trim_start_matches(&trim_start_matches(&chars_of(path), '$'), '.');
    let parts = split_chars(&trimmed, '.');
    let ghost ps = views(parts@);
    assert(ps == path_parts(path@));
    let mut i: usize = 0;
    while i < parts.len()
        invariant
            i <= parts.len(),
            ps == views(parts@),
            ps == path_parts(path@),
            forall|k: int| 0 <= k < i ==> !part_panics(#[trigger] ps[k]),
        decreases parts.len() - i,
    {
        assert(ps[i as int] == parts@[i as int]@);
        if part_would_panic(&parts[i]) {
            return true;
        }
        i += 1;
    }
    false
}

/// Following the steps of a path from a value.
pub open spec fn navigate(j: Json, segs: Seq<PathSeg>) -> Option<Json>
    decreases segs.len(),
{
    if segs.len() == 0 {
        Some(j)
    } else {
        let next = match segs[0] {
            PathSeg::Field(n) => match j {
                Json::Object(m) => obj_lookup(m, n),
                _ => None,
            },
            PathSeg::Index(i) => match j {
                Json::Array(a) => if i < a.len() { Some(a[i as int]) } else { None },
                _ => None,
            },
        };
        match next {
            Some(c) => navigate(c, segs.drop_first()),
            None => None,
        }
    }
}

proof fn lemma_obj_index_lookup(m: Seq<(Seq<char>, Json)>, k: Seq<char>)
    ensures
        obj_index(m, k) matches Some(i) ==> 0 <= i < m.len() && m[i].0 == k && obj_lookup(m, k) == Some(m[i].1),
        obj_index(m, k) is None ==> obj_lookup(m, k) is None,
    decreases m.len(),
{
    if m.len() > 0 {
        lemma_obj_index_lookup(m.drop_first(), k);
    }
}

/// The value reached by following the steps, if every step exists.
pub fn navigate_value<'a>(json: &'a JsonValue, segs: &Vec<PathSegment>) -> (r: Option<&'a JsonValue>)
    ensures
        r matches Some(v) ==> navigate(json.model(), segs_view(segs@)) == Some(v.model()),
        r is None ==> navigate(json.model(), segs_view(segs@)) is None,
{
    let ghost all = segs_view(segs@);
    let mut cur: &JsonValue = json;
    let mut k: usize = 0;
    assert(all.skip(0) =~= all);
    while k < segs.len()
        invariant
            k <= segs.len(),
            all == segs_view(segs@),
            navigate(json.model(), all) == navigate(cur.model(), all.skip(k as int)),
        decreases segs.len() - k,
    {
        let ghost rest = all.skip(k as int);
        assert(rest.drop_first() =~= all.skip(k + 1));
        assert(rest[0] == segs@[k as int]@);
        match &segs[k] {
            PathSegment::Field(name) => {
                match cur {
                    JsonValue::Object(m) => {
                        proof {
                            lemma_object_model(*m);
                        }
                        let n = chars_of(name.as_str());
                        match member_index(m, &n) {
                            Some(i) => {
                                proof {
                                    lemma_obj_index_lookup(members_model(m@), name@);
                                }
                                cur = &m[i].1;
                            },
                            None => {
                                proof {
                                    lemma_obj_index_lookup(members_model(m@), name@);
                                }
                                return None;
                            },
                        }
                    },
                    _ => {
                        return None;
                    },
                }
            },
            PathSegment::Index(i) => {
                match cur {
                    JsonValue::Array(a) => {
                        proof {
                            lemma_array_model(*a);
                        }
                        if *i < a.len() {
                            cur = &a[*i];
                        } else {
                            return None;
                        }
                    },
                    _ => {
                        return None;
                    },
                }
            },
        }
        k += 1;
    }
    assert(all.skip(k as int).len() == 0);
    Some(cur)
}

/// What `extract_json_path` gives: the value at the path as text, when the body is JSON
/// and every step of the path exists.
pub open spec fn extract_spec(body: Seq<char>, path: Seq<char>) -> Option<Seq<char>> {
    match json_parse(body) {
        Some(j) => match navigate(j, path_segments(path)) {
            Some(v) => Some(value_text(v)),
            None => None,
        },
        None => None,
    }
}

/// The value at `path` in the JSON `body`, read out as text.
pub fn extract_json_path(body: &str, path: &str) -> (r: Option<String>)
    requires
        json_parse(body@) is Some ==> !json_path_panics(path@),
    ensures
        opt_view(r) == extract_spec(body@, path@),
{
    let json = match parse_json(body) {
        Some(j) => j,
        None => {
            return None;
        },
    };
    let segs = parse_json_path(path);
    match navigate_value(&json, &segs) {
        Some(v) => Some(value_to_text(v)),
        None => None,
    }
}

// ---------------------------------------------------------------------------
// Writing into JSON bodies
// ---------------------------------------------------------------------------

/// The value after setting the place the steps lead to. The last step sets an object
/// member to `scalar_for(value)` or an array element to the string `value`; a missing
/// member on the way is created as an empty object. Steps into the wrong kind of value,
/// or past the end of an array, leave everything as it is.
pub open spec fn set_spec(j: Json, segs: Seq<PathSeg>, value: Seq<char>) -> Json
    decreases segs.len(),
{
    if segs.len() == 0 {
        j
    } else if segs.len() == 1 {
        match segs[0] {
            PathSeg::Field(name) => match j {
                Json::Object(m) => Json::Object(obj_insert(m, name, scalar_for(value))),
                _ => j,
            },
            PathSeg::Index(i) => match j {
                Json::Array(a) => if i < a.len() {
                    Json::Array(a.update(i as int, Json::Str(value)))
                } else {
                    j
                },
                _ => j,
            },
        }
    } else {
        match segs[0] {
            PathSeg::Field(name) => match j {
                Json::Object(m) => {
                    let child = match obj_lookup(m, name) {
                        Some(c) => c,
                        None => Json::Object(Seq::empty()),
                    };
                    Json::Object(obj_insert(m, name, set_spec(child, segs.drop_first(), value)))
                },
                _ => j,
            },
            PathSeg::Index(i) => match j {
                Json::Array(a) => if i < a.len() {
                    Json::Array(a.update(i as int, set_spec(a[i as int], segs.drop_first(), value)))
                } else {
                    j
                },
                _ => j,
            },
        }
    }
}

/// Every step of the path names an object member.
pub open spec fn fields_only(segs: Seq<PathSeg>) -> bool {
    forall|i: int| 0 <= i < segs.len() ==> #[trigger] segs[i] is Field
}

/// Along the path, every member that is there before the last step is an object.
pub open spec fn objects_along(j: Json, segs: Seq<PathSeg>) -> bool
    decreases segs.len(),
{
    if segs.len() <= 1 {
        true
    } else {
        match (segs[0], j) {
            (PathSeg::Field(n), Json::Object(m)) => match obj_lookup(m, n) {
                Some(c) => c is Object && objects_along(c, segs.drop_first()),
                None => true,
            },
            _ => false,
        }
    }
}

proof fn lemma_objects_along_empty(segs: Seq<PathSeg>)
    requires
        fields_only(segs),
    ensures
        objects_along(Json::Object(Seq::empty()), segs),
{
    if segs.len() > 1 {
        assert(segs[0] is Field);
    }
}

/// Setting a field through a path of member names reaches it: following the path in the
/// result gives the injected value, with every member that was missing on the way created
/// as an object.
pub proof fn law_set_reaches_the_field(j: Json, segs: Seq<PathSeg>, value: Seq<char>)
    requires
        j is Object,
        segs.len() > 0,
        fields_only(segs),
        objects_along(j, segs),
    ensures
        navigate(set_spec(j, segs, value), segs) == Some(scalar_for(value)),
    decreases segs.len(),
{
    assert(segs[0] is Field);
    let m = j->Object_0;
    let name = segs[0]->Field_0;
    let rest = segs.drop_first();
    if segs.len() == 1 {
        law_obj_lookup_after_insert(m, name, scalar_for(value));
        assert(rest.len() == 0);
        let r = set_spec(j, segs, value);
        assert(r == Json::Object(obj_insert(m, name, scalar_for(value))));
        assert(navigate(scalar_for(value), rest) == Some(scalar_for(value)));
    } else {
        let child = match obj_lookup(m, name) {
            Some(c) => c,
            None => Json::Object(Seq::empty()),
        };
        assert(fields_only(rest)) by {
            assert forall|i: int| 0 <= i < rest.len() implies #[trigger] rest[i] is Field by {
                assert(rest[i] == segs[i + 1]);
            }
        }
        if obj_lookup(m, name) is None {
            lemma_objects_along_empty(rest);
        }
        assert(child is Object && objects_along(child, rest));
        law_set_reaches_the_field(child, rest, value);
        law_obj_lookup_after_insert(m, name, set_spec(child, rest, value));
        let r = set_spec(j, segs, value);
        assert(r == Json::Object(obj_insert(m, name, set_spec(child, rest, value))));
    }
}

/// The JSON value for an injected text: a number when it parses as `i64`, else a string.
fn scalar_value(value: &Vec<char>) -> (r: JsonValue)
    ensures
        r.model() == scalar_for(value@),
{
    match parse_i64(value) {
        Some(n) => JsonValue::Number(string_of(&i64_decimal(n))),
        None => JsonValue::Str(string_of(value)),
    }
}

/// The members of an object with member `name` set to `v`.
fn members_with(m: &Vec<(String, JsonValue)>, name: &String, v: JsonValue) -> (r: Vec<(String, JsonValue)>)
    ensures
        members_model(r@) == obj_insert(members_model(m@), name@, v.model()),
{
    let n = chars_of(name.as_str());
    let idx = member_index(m, &n);
    let mut out: Vec<(String, JsonValue)> = Vec::new();
    let mut i: usize = 0;
    let mut v = Some(v);
    let ghost vm = v->Some_0.model();
    let ghost tgt: int = match idx {
        Some(k) => k as int,
        None => -1,
    };
    while i < m.len()
        invariant
            tgt == match idx {
                Some(k) => k as int,
                None => -1,
            },
            i <= m.len(),
            out@.len() == i,
            idx == match obj_index(members_model(m@), name@) {
                Some(k) => Some(k as usize),
                None => None,
            },
            idx matches Some(k) ==> (k < i <==> v is None),
            idx is None ==> v is Some,
            v matches Some(x) ==> x.model() == vm,
            forall|k: int| #![trigger out@[k]] 0 <= k < i ==> out@[k].0@ == (if k == tgt { name@ } else { m@[k].0@ })
                && out@[k].1.model() == (if k == tgt { vm } else { m@[k].1.model() }),
        decreases m.len() - i,
    {
        let is_target = match idx {
            Some(k) => k == i,
            None => false,
        };
        let ghost before = out@;
        if is_target {
            assert(i as int == tgt);
            let x = v.take().unwrap();
            out.push((name.clone(), x));
            assert(out@[i as int].1.model() == vm);
        } else {
            assert(i as int != tgt);
            let c = m[i].1.deep_copy();
            out.push((m[i].0.clone(), c));
            assert(out@[i as int].1.model() == m@[i as int].1.model());
        }
        assert(forall|k: int| 0 <= k < i ==> out@[k] == before[k]);
        i += 1;
    }
    proof {
        lemma_obj_index_lookup(members_model(m@), name@);
    }
    match v {
        Some(x) => {
            out.push((name.clone(), x));
            assert(members_model(out@) =~= members_model(m@).push((name@, vm)));
        },
        None => {
            let k = idx.unwrap();
            assert(members_model(out@) =~= members_model(m@).update(k as int, (name@, vm)));
        },
    }
    out
}

/// The value after setting the place the steps from `k` on lead to.
fn set_value(json: &JsonValue, segs: &Vec<PathSegment>, k: usize, value: &Vec<char>) -> (r: JsonValue)
    requires
        k <= segs.len(),
    ensures
        r.model() == set_spec(json.model(), segs_view(segs@).skip(k as int), value@),
    decreases segs.len() - k,
{
    let ghost rest = segs_view(segs@).skip(k as int);
    if k == segs.len() {
        return json.deep_copy();
    }
    assert(rest[0] == segs@[k as int]@);
    assert(rest.drop_first() =~= segs_view(segs@).skip(k + 1));
    let last = k + 1 == segs.len();
    match &segs[k] {
        PathSegment::Field(name) => {
            match json {
                JsonValue::Object(m) => {
                    proof {
                        lemma_object_model(*m);
                        lemma_obj_index_lookup(members_model(m@), name@);
                    }
                    let newval = if last {
                        scalar_value(value)
                    } else {
                        let n = chars_of(name.as_str());
                        match member_index(m, &n) {
                            Some(i) => set_value(&m[i].1, segs, k + 1, value),
                            None => {
                                let ev: Vec<(String, JsonValue)> = Vec::new();
                                proof {
                                    lemma_object_model(ev);
                                    assert(members_model(ev@) =~= Seq::<(Seq<char>, Json)>::empty());
                                }
                                let empty = JsonValue::Object(ev);
                                set_value(&empty, segs, k + 1, value)
                            },
                        }
                    };
                    let mv = members_with(m, name, newval);
                    proof {
                        lemma_object_model(mv);
                    }
                    JsonValue::Object(mv)
                },
                _ => json.deep_copy(),
            }
        },
        PathSegment::Index(i) => {
            match json {
                JsonValue::Array(a) => {
                    proof {
                        lemma_array_model(*a);
                    }
                    if *i < a.len() {
                        let newval = if last {
                            JsonValue::Str(string_of(value))
                        } else {
                            set_value(&a[*i], segs, k + 1, value)
                        };
                        let mut out: Vec<JsonValue> = Vec::new();
                        let mut nv = Some(newval);
                        let ghost vm = nv->Some_0.model();
                        let mut j: usize = 0;
                        while j < a.len()
                            invariant
                                j <= a.len(),
                                *i < a.len(),
                                out@.len() == j,
                                (j > *i) <==> nv is None,
                                nv matches Some(x) ==> x.model() == vm,
                                forall|t: int| 0 <= t < j ==> #[trigger] out@[t].model() == (if t == *i as int { vm } else { a@[t].model() }),
                            decreases a.len() - j,
                        {
                            if j == *i {
                                let x = nv.take().unwrap();
                                out.push(x);
                            } else {
                                out.push(a[j].deep_copy());
                            }
                            j += 1;
                        }
                        let r = JsonValue::Array(out);
                        proof {
                            lemma_array_model(out);
                            let (x, y) = (r.model()->Array_0, json.model()->Array_0.update(*i as int, vm));
                            assert(x =~= y);
                        }
                        r
                    } else {
                        json.deep_copy()
                    }
                },
                _ => json.deep_copy(),
            }
        },
    }
}


/// The body after injecting `value` at `path`: a JSON body gets the value set and is printed
/// again; a body that is not JSON stays; a missing body becomes `{"<field>": "<value>"}` when
/// the path starts with a field.
pub open spec fn body_after_inject(body: Option<Seq<char>>, path: Seq<char>, value: Seq<char>) -> Option<
    Seq<char>,
> {
    match body {
        Some(b) => match json_parse(b) {
            Some(j) => Some(json_text(set_spec(j, path_segments(path), value))),
            None => Some(b),
        },
        None => {
            let segs = path_segments(path);
            if segs.len() > 0 && segs[0] is Field {
                Some(seq!['{', '"'] + segs[0]->Field_0 + seq!['"', ':', ' ', '"'] + value + seq!['"', '}'])
            } else {
                None
            }
        },
    }
}

/// Injecting into this body reads the path, and the path panics.
pub open spec fn inject_body_panics(body: Option<Seq<char>>, path: Seq<char>) -> bool {
    json_path_panics(path) && match body {
        Some(b) => json_parse(b) is Some,
        None => true,
    }
}

/// Sets the place `field_path` leads to in the request body to `value`.
pub fn inject_into_body(body: &mut Option<String>, field_path: &str, value: &str)
    requires
        !inject_body_panics(opt_view(*old(body)), field_path@),
    ensures
        opt_view(*final(body)) == body_after_inject(opt_view(*old(body)), field_path@, value@),
{
    let v = chars_of(value);
    match body {
        Some(b) => {
            match parse_json(b.as_str()) {
                Some(json) => {
                    let segs = parse_json_path(field_path);
                    let updated = set_value(&json, &segs, 0, &v);
                    assert(segs_view(segs@).skip(0) =~= segs_view(segs@));
                    *b = to_json_text(&updated);
                },
                None => {},
            }
        },
        None => {
            let segs = parse_json_path(field_path);
            if segs.len() > 0 {
                match &segs[0] {
                    PathSegment::Field(name) => {
                        let mut out: Vec<char> = Vec::new();
                        out.push('{');
                        out.push('"');
                        append_chars(&mut out, &chars_of(name.as_str()));
                        out.push('"');
                        out.push(':');
                        out.push(' ');
                        out.push('"');
                        append_chars(&mut out, &v);
                        out.push('"');
                        out.push('}');
                        proof {
                            assert(segs_view(segs@)[0] == segs@[0]@);
                            assert(out@ =~= seq!['{', '"'] + name@ + seq!['"', ':', ' ', '"'] + value@ + seq!['"', '}']);
                        }
                        *body = Some(string_of(&out));
                    },
                    PathSegment::Index(_) => {
                        assert(segs_view(segs@)[0] == segs@[0]@);
                    },
                }
            }
        }
    }
}

/// Whether injecting into this body would panic (see `inject_body_panics`).
pub fn body_injection_would_panic(body: &Option<String>, field_path: &str) -> (r: bool)
    ensures
        r == inject_body_panics(opt_view(*body), field_path@),
{
    if !json_path_would_panic(field_path) {
        return false;
    }
    match body {
        Some(b) => parse_json(b.as_str()).is_some(),
        None => true,
    }
}

// ---------------------------------------------------------------------------
// URL path segments
// ---------------------------------------------------------------------------

pub open spec fn is_ascii_digit(c: char) -> bool {
    '0' <= c && c <= '9'
}

pub open spec fn is_ascii_alnum(c: char) -> bool {
    is_ascii_digit(c) || ('a' <= c && c <= 'z') || ('A' <= c && c <= 'Z')
}

pub open spec fn count_char(s: Seq<char>, c: char) -> nat
    decreases s.len(),
{
    if s.len() == 0 {
        0
    } else {
        count_char(s.drop_last(), c) + if s.last() == c { 1nat } else { 0nat }
    }
}

/// A URL path segment that looks like an id: all digits; or 36 bytes with four dashes (a UUID);
/// or at most 32 bytes of letters, digits, `-` and `_` with a digit among them.
pub open spec fn looks_like_id(s: Seq<char>) -> bool {
    &&& s.len() > 0
    &&& {
        ||| (forall|i: int| 0 <= i < s.len() ==> is_ascii_digit(#[trigger] s[i]))
        ||| (super::input::byte_len(s) == 36 && count_char(s, '-') == 4)
        ||| (super::input::byte_len(s) <= 32 && (forall|i: int| 0 <= i < s.len() ==> is_ascii_alnum(#[trigger] s[i]) || s[i] == '-' || s[i] == '_')
            && (exists|i: int| 0 <= i < s.len() && is_ascii_digit(#[trigger] s[i])))
    }
}

/// Whether a URL path segment looks like an id value.
pub fn looks_like_id_value(segment: &str) -> (r: bool)
    ensures
        r == looks_like_id(segment@),
{
    let s = chars_of(segment);
    if s.len() == 0 {
        return false;
    }
    let mut all_digits = true;
    let mut all_idish = true;
    let mut any_digit = false;
    let mut dashes: usize = 0;
    let mut i: usize = 0;
    while i < s.len()
        invariant
            i <= s.len(),
            s@ == segment@,
            all_digits == (forall|k: int| 0 <= k < i ==> is_ascii_digit(#[trigger] s@[k])),
            all_idish == (forall|k: int| 0 <= k < i ==> is_ascii_alnum(#[trigger] s@[k]) || s@[k] == '-' || s@[k] == '_'),
            any_digit == (exists|k: int| 0 <= k < i && is_ascii_digit(#[trigger] s@[k])),
            dashes == count_char(s@.take(i as int), '-'),
            dashes <= i,
        decreases s.len() - i,
    {
        let c = s[i];
        assert(s@.take(i + 1).drop_last() =~= s@.take(i as int));
        let d = '0' <= c && c <= '9';
        let a = d || ('a' <= c && c <= 'z') || ('A' <= c && c <= 'Z');
        if !d {
            all_digits = false;
        }
        if !(a || c == '-' || c == '_') {
            all_idish = false;
        }
        if d {
            any_digit = true;
        }
        if c == '-' {
            dashes += 1;
        }
        i += 1;
    }
    assert(s@.take(s.len() as int) =~= s@);
    let n = crate::text::utf8_len_capped(&s, 37);
    all_digits || (n == 36 && dashes == 4) || (n <= 32 && all_idish && any_digit)
}

/// The generic id placeholder the sequence generator puts into URLs.
pub open spec fn id_placeholder() -> Seq<char> {
    "__PATHFUZZ_ID__"@
}

/// The URL after injecting `v` for path parameter `name`: every `{name}` replaced; else the
/// first id placeholder replaced; else a last segment that looks like an id replaced.
pub open spec fn path_param_url(url: Seq<char>, name: Seq<char>, v: Seq<char>) -> Seq<char> {
    let ph = seq!['{'] + name + seq!['}'];
    if contains(url, ph) {
        replace_all(url, ph, v)
    } else if contains(url, id_placeholder()) {
        replace_first(url, id_placeholder(), v)
    } else {
        match last_index_of(url, '/') {
            Some(j) => if looks_like_id(url.skip(j + 1)) {
                url.take(j) + seq!['/'] + v
            } else {
                url
            },
            None => url,
        }
    }
}

fn inject_path_param(url: &String, name: &String, v: &String) -> (r: String)
    ensures
        r@ == path_param_url(url@, name@, v@),
{
    let u = chars_of(url.as_str());
    let vv = chars_of(v.as_str());
    let mut ph: Vec<char> = Vec::new();
    ph.push('{');
    append_chars(&mut ph, &chars_of(name.as_str()));
    ph.push('}');
    assert(ph@ =~= seq!['{'] + name@ + seq!['}']);
    if contains_chars(&u, &ph) {
        return string_of(&replace_chars(&u, &ph, &vv));
    }
    let id = chars_of("__PATHFUZZ_ID__");
    if contains_chars(&u, &id) {
        return string_of(&replace_first_chars(&u, &id, &vv));
    }
    match rfind_char(&u, '/') {
        Some(j) => {
            let last = slice_chars(&u, j + 1, u.len());
            assert(last@ =~= u@.skip(j + 1));
            if looks_like_id_value(string_of(&last).as_str()) {
                let mut out = slice_chars(&u, 0, j);
                out.push('/');
                append_chars(&mut out, &vv);
                assert(out@ =~= u@.take(j as int) + seq!['/'] + vv@);
                string_of(&out)
            } else {
                url.clone()
            }
        },
        None => url.clone(),
    }
}

// ---------------------------------------------------------------------------
// The state manager
// ---------------------------------------------------------------------------

/// The model of an injection target.
pub enum TargetModel {
    QueryParam(Seq<char>),
    PathParam(Seq<char>),
    Header(Seq<char>),
    BodyField(Seq<char>),
}

/// The model of an extraction.
pub struct ExtractionModel {
    pub source: nat,
    pub path: Seq<char>,
    pub target_idx: nat,
    pub target: TargetModel,
}

impl View for InjectionTarget {
    type V = TargetModel;

    open spec fn view(&self) -> TargetModel {
        match self {
            InjectionTarget::QueryParam(s) => TargetModel::QueryParam(s@),
            InjectionTarget::PathParam(s) => TargetModel::PathParam(s@),
            InjectionTarget::Header(s) => TargetModel::Header(s@),
            InjectionTarget::BodyField(s) => TargetModel::BodyField(s@),
        }
    }
}

impl View for StateExtraction {
    type V = ExtractionModel;

    open spec fn view(&self) -> ExtractionModel {
        ExtractionModel {
            source: self.source_request_idx as nat,
            path: self.json_path@,
            target_idx: self.target_request_idx as nat,
            target: self.target@,
        }
    }
}

impl Clone for InjectionTarget {
    fn clone(&self) -> (r: Self)
        ensures
            r@ == self@,
    {
        match self {
            InjectionTarget::QueryParam(s) => InjectionTarget::QueryParam(s.clone()),
            InjectionTarget::PathParam(s) => InjectionTarget::PathParam(s.clone()),
            InjectionTarget::Header(s) => InjectionTarget::Header(s.clone()),
            InjectionTarget::BodyField(s) => InjectionTarget::BodyField(s.clone()),
        }
    }
}

impl Clone for StateExtraction {
    fn clone(&self) -> (r: Self)
        ensures
            r@ == self@,
    {
        StateExtraction {
            source_request_idx: self.source_request_idx,
            json_path: self.json_path.clone(),
            target_request_idx: self.target_request_idx,
            target: self.target.clone(),
        }
    }
}

pub open spec fn exts_view(v: Seq<StateExtraction>) -> Seq<ExtractionModel> {
    v.map_values(|e: StateExtraction| e@)
}

/// The key a value extracted at `path` from the response to request `source` is stored under.
pub open spec fn store_key(source: nat, path: Seq<char>) -> Seq<char> {
    decimal(source) + seq![':'] + path
}

pub open spec fn header_prefix() -> Seq<char> {
    "$header."@
}

/// The value an extraction reads from a response: a header's value (first header whose
/// name matches without regard to case) for `$header.<name>`, else the value at the JSON path.
pub open spec fn extraction_value(body: Seq<char>, headers: Entries, e: ExtractionModel) -> Option<Seq<char>> {
    if starts_with(e.path, header_prefix()) {
        match first_ci_match(headers, lowercase(e.path.skip(8))) {
            Some(i) => Some(headers[i].1),
            None => None,
        }
    } else {
        extract_spec(body, e.path)
    }
}

/// The stored values after extracting from the response to request `cur`.
pub open spec fn extract_all(store: Entries, body: Seq<char>, headers: Entries, exts: Seq<ExtractionModel>, cur: nat) -> Entries
    decreases exts.len(),
{
    if exts.len() == 0 {
        store
    } else {
        let s = extract_all(store, body, headers, exts.drop_last(), cur);
        let e = exts.last();
        if e.source == cur {
            match extraction_value(body, headers, e) {
                Some(v) => insert_entry(s, store_key(e.source, e.path), v),
                None => s,
            }
        } else {
            s
        }
    }
}

/// The extractions that read the response to request `cur` do not panic on it.
pub open spec fn extract_ok(body: Seq<char>, exts: Seq<ExtractionModel>, cur: nat) -> bool {
    forall|i: int| 0 <= i < exts.len() && (#[trigger] exts[i]).source == cur && !starts_with(exts[i].path, header_prefix())
        ==> (json_parse(body) is Some ==> !json_path_panics(exts[i].path))
}

/// The request after one injection into request `t`.
pub open spec fn inject_one(r: RequestModel, e: ExtractionModel, store: Entries, t: nat) -> RequestModel {
    if e.target_idx != t {
        r
    } else {
        match lookup(store, store_key(e.source, e.path)) {
            None => r,
            Some(v) => match e.target {
                TargetModel::QueryParam(n) => RequestModel { query_params: insert_entry(r.query_params, n, v), ..r },
                TargetModel::PathParam(n) => RequestModel { url: path_param_url(r.url, n, v), ..r },
                TargetModel::Header(n) => RequestModel { headers: insert_entry(r.headers, n, v), ..r },
                TargetModel::BodyField(p) => RequestModel { body: body_after_inject(r.body, p, v), ..r },
            },
        }
    }
}

/// The request after all injections into request `t`, in order.
pub open spec fn inject_all(r: RequestModel, exts: Seq<ExtractionModel>, store: Entries, t: nat) -> RequestModel
    decreases exts.len(),
{
    if exts.len() == 0 {
        r
    } else {
        inject_one(inject_all(r, exts.drop_last(), store, t), exts.last(), store, t)
    }
}

/// One injection does not panic on the request as it stands.
pub open spec fn inject_one_ok(r: RequestModel, e: ExtractionModel, store: Entries, t: nat) -> bool {
    !(e.target_idx == t && lookup(store, store_key(e.source, e.path)) is Some && e.target is BodyField
        && inject_body_panics(r.body, e.target->BodyField_0))
}

/// No injection into request `t` panics.
pub open spec fn inject_ok(r: RequestModel, exts: Seq<ExtractionModel>, store: Entries, t: nat) -> bool
    decreases exts.len(),
{
    if exts.len() == 0 {
        true
    } else {
        inject_ok(r, exts.drop_last(), store, t) && inject_one_ok(inject_all(r, exts.drop_last(), store, t), exts.last(), store, t)
    }
}

/// The values extracted from earlier responses of a sequence.
pub struct StateManager {
    extracted_values: StringMap,
}

impl StateManager {
    #[verifier::type_invariant]
    spec fn inv(&self) -> bool {
        self.extracted_values.wf()
    }

    /// The stored values, keyed `<request index>:<path>`.
    pub closed spec fn store(&self) -> Entries {
        self.extracted_values@
    }

    /// A manager with nothing stored.
    pub fn new() -> (r: Self)
        ensures
            r.store() == Seq::<(Seq<char>, Seq<char>)>::empty(),
    {
        StateManager { extracted_values: StringMap::new() }
    }

    /// Forgets every stored value.
    pub fn clear(&mut self)
        ensures
            final(self).store() == Seq::<(Seq<char>, Seq<char>)>::empty(),
    {
        self.extracted_values = StringMap::new();
    }

    /// Stores the values that the extractions reading request `current_request_idx` find in its response.
    pub fn extract_from_response(
        &mut self,
        response_body: &str,
        response_headers: &StringMap,
        extractions: &Vec<StateExtraction>,
        current_request_idx: usize,
    )
        requires
            extract_ok(response_body@, exts_view(extractions@), current_request_idx as nat),
        ensures
            final(self).store() == extract_all(
                old(self).store(),
                response_body@,
                response_headers@,
                exts_view(extractions@),
                current_request_idx as nat,
            ),
    {
        let ghost exts = exts_view(extractions@);
        let ghost s0 = self.store();
        let prefix = chars_of("$header.");
        proof {
            reveal_strlit("$header.");
        }
        assert(header_prefix().len() == 8);
        let mut i: usize = 0;
        while i < extractions.len()
            invariant
                i <= extractions.len(),
                exts == exts_view(extractions@),
                prefix@ == header_prefix(),
                header_prefix().len() == 8,
                extract_ok(response_body@, exts, current_request_idx as nat),
                self.store() == extract_all(s0, response_body@, response_headers@, exts.take(i as int), current_request_idx as nat),
            decreases extractions.len() - i,
        {
            proof {
                use_type_invariant(&*self);
                assert(exts.take(i + 1).drop_last() =~= exts.take(i as int));
                assert(exts.take(i + 1).last() == extractions@[i as int]@);
            }
            let e = &extractions[i];
            if e.source_request_idx == current_request_idx {
                let path = chars_of(e.json_path.as_str());
                let value = if has_prefix(&path, &prefix) {
                    let name = slice_chars(&path, 8, path.len());
                    assert(name@ =~= path@.skip(8));
                    let low = to_lowercase(&name);
                    response_headers.find_lowercase(&low)
                } else {
                    proof {
                        assert(exts[i as int] == e@);
                    }
                    extract_json_path(response_body, e.json_path.as_str())
                };
                match value {
                    Some(v) => {
                        let mut key = u64_decimal(e.source_request_idx as u64);
                        key.push(':');
                        append_chars(&mut key, &path);
                        assert(key@ =~= store_key(e.source_request_idx as nat, e.json_path@));
                        let mut m = StringMap::new();
                        std::mem::swap(&mut m, &mut self.extracted_values);
                        m.insert(string_of(&key), v);
                        self.extracted_values = m;
                    },
                    None => {},
                }
            }
            i += 1;
        }
        assert(exts.take(extractions.len() as int) =~= exts);
    }

    /// Whether extracting from this response would panic: the body is JSON and some
    /// extraction reading it follows a JSON path that panics.
    pub fn extraction_would_panic(response_body: &str, extractions: &Vec<StateExtraction>, current_request_idx: usize) -> (r: bool)
        ensures
            r == !extract_ok(response_body@, exts_view(extractions@), current_request_idx as nat),
    {
        let ghost exts = exts_view(extractions@);
        if parse_json(response_body).is_none() {
            return false;
        }
        let prefix = chars_of("$header.");
        let mut i: usize = 0;
        while i < extractions.len()
            invariant
                i <= extractions.len(),
                exts == exts_view(extractions@),
                prefix@ == header_prefix(),
                json_parse(response_body@) is Some,
                forall|k: int| 0 <= k < i && (#[trigger] exts[k]).source == current_request_idx as nat
                    && !starts_with(exts[k].path, header_prefix()) ==> !json_path_panics(exts[k].path),
            decreases extractions.len() - i,
        {
            let e = &extractions[i];
            assert(exts[i as int] == e@);
            if e.source_request_idx == current_request_idx && !has_prefix(&chars_of(e.json_path.as_str()), &prefix)
                && json_path_would_panic(e.json_path.as_str()) {
                return true;
            }
            i += 1;
        }
        false
    }

    fn key_for(e: &StateExtraction) -> (r: String)
        ensures
            r@ == store_key(e.source_request_idx as nat, e.json_path@),
    {
        let mut key = u64_decimal(e.source_request_idx as u64);
        key.push(':');
        append_chars(&mut key, &chars_of(e.json_path.as_str()));
        assert(key@ =~= store_key(e.source_request_idx as nat, e.json_path@));
        string_of(&key)
    }

    /// Puts the value stored for one extraction into request `target_request_idx`.
    fn inject_one_exec(&self, request: &mut FuzzHttpRequest, e: &StateExtraction, target_request_idx: usize)
        requires
            old(request).wf(),
            inject_one_ok(old(request)@, e@, self.store(), target_request_idx as nat),
        ensures
            final(request).wf(),
            final(request)@ == inject_one(old(request)@, e@, self.store(), target_request_idx as nat),
    {
        proof {
            use_type_invariant(self);
        }
        if e.target_request_idx == target_request_idx {
            let key = Self::key_for(e);
            match self.extracted_values.get(key.as_str()) {
                Some(value) => {
                    let value = value.clone();
                    match &e.target {
                        InjectionTarget::QueryParam(name) => {
                            request.query_params.insert(name.clone(), value);
                        },
                        InjectionTarget::PathParam(name) => {
                            request.url = inject_path_param(&request.url, name, &value);
                        },
                        InjectionTarget::Header(name) => {
                            request.headers.insert(name.clone(), value);
                        },
                        InjectionTarget::BodyField(path) => {
                            inject_into_body(&mut request.body, path.as_str(), value.as_str());
                        },
                    }
                },
                None => {},
            }
        }
    }

    /// Puts the stored values into request `target_request_idx`, one extraction at a time.
    #[verifier::spinoff_prover]
    pub fn inject_into_request(
        &self,
        request: &mut FuzzHttpRequest,
        extractions: &Vec<StateExtraction>,
        target_request_idx: usize,
    )
        requires
            old(request).wf(),
            inject_ok(old(request)@, exts_view(extractions@), self.store(), target_request_idx as nat),
        ensures
            final(request).wf(),
            final(request)@ == inject_all(old(request)@, exts_view(extractions@), self.store(), target_request_idx as nat),
    {
        let ghost exts = exts_view(extractions@);
        let ghost r0 = request@;
        let mut i: usize = 0;
        while i < extractions.len()
            invariant
                i <= extractions.len(),
                exts == exts_view(extractions@),
                request.wf(),
                inject_ok(r0, exts, self.store(), target_request_idx as nat),
                request@ == inject_all(r0, exts.take(i as int), self.store(), target_request_idx as nat),
            decreases extractions.len() - i,
        {
            proof {
                assert(exts.take(i + 1).drop_last() =~= exts.take(i as int));
                assert(exts.take(i + 1).last() == extractions@[i as int]@);
                lemma_inject_ok_prefix(r0, exts, self.store(), target_request_idx as nat, i + 1);
            }
            self.inject_one_exec(request, &extractions[i], target_request_idx);
            i += 1;
        }
        assert(exts.take(extractions.len() as int) =~= exts);
    }

    /// Whether putting the stored values into the request would panic: some injection into a
    /// JSON body (or a missing one) follows a path that panics.
    fn step_would_panic(&self, request: &FuzzHttpRequest, e: &StateExtraction, target_request_idx: usize) -> (r: bool)
        ensures
            r == !inject_one_ok(request@, e@, self.store(), target_request_idx as nat),
    {
        proof {
            use_type_invariant(self);
        }
        if e.target_request_idx != target_request_idx {
            return false;
        }
        match &e.target {
            InjectionTarget::BodyField(path) => {
                let key = Self::key_for(e);
                self.extracted_values.get(key.as_str()).is_some() && body_injection_would_panic(&request.body, path.as_str())
            },
            _ => false,
        }
    }

    #[verifier::spinoff_prover]
    #[verifier::rlimit(40)]
    pub fn injection_would_panic(
        &self,
        request: &FuzzHttpRequest,
        extractions: &Vec<StateExtraction>,
        target_request_idx: usize,
    ) -> (r: bool)
        requires
            request.wf(),
        ensures
            r == !inject_ok(request@, exts_view(extractions@), self.store(), target_request_idx as nat),
    {
        proof {
            use_type_invariant(self);
        }
        let ghost exts = exts_view(extractions@);
        let ghost r0 = request@;
        let ghost t = target_request_idx as nat;
        let mut req = request.clone();
        let mut i: usize = 0;
        while i < extractions.len()
            invariant
                i <= extractions.len(),
                exts == exts_view(extractions@),
                self.extracted_values.wf(),
                req.wf(),
                t == target_request_idx as nat,
                r0 == request@,
                inject_ok(r0, exts.take(i as int), self.store(), t),
                req@ == inject_all(r0, exts.take(i as int), self.store(), t),
            decreases extractions.len() - i,
        {
            let e = &extractions[i];
            assert(exts[i as int] == e@);
            if self.step_would_panic(&req, e, target_request_idx) {
                proof {
                    lemma_inject_ok_prefix_back(r0, exts, self.store(), t, i as int);
                }
                return true;
            }
            self.inject_one_exec(&mut req, e, target_request_idx);
            proof {
                lemma_inject_step(r0, exts, self.store(), t, i as int);
            }
            i += 1;
        }
        assert(exts.take(extractions.len() as int) =~= exts);
        false
    }

    /// The value stored for the given request index and path.
    pub fn get_extracted_value(&self, source_idx: usize, json_path: &str) -> (r: Option<&String>)
        ensures
            r matches Some(v) ==> lookup(self.store(), store_key(source_idx as nat, json_path@)) == Some(v@),
            r is None ==> lookup(self.store(), store_key(source_idx as nat, json_path@)) is None,
    {
        proof {
            use_type_invariant(self);
        }
        let mut key = u64_decimal(source_idx as u64);
        key.push(':');
        append_chars(&mut key, &chars_of(json_path));
        assert(key@ =~= store_key(source_idx as nat, json_path@));
        self.extracted_values.get(string_of(&key).as_str())
    }
}

proof fn lemma_inject_step(r: RequestModel, exts: Seq<ExtractionModel>, store: Entries, t: nat, i: int)
    requires
        0 <= i < exts.len(),
        inject_ok(r, exts.take(i), store, t),
        inject_one_ok(inject_all(r, exts.take(i), store, t), exts[i], store, t),
    ensures
        inject_ok(r, exts.take(i + 1), store, t),
        inject_all(r, exts.take(i + 1), store, t) == inject_one(inject_all(r, exts.take(i), store, t), exts[i], store, t),
{
    assert(exts.take(i + 1).drop_last() =~= exts.take(i));
    assert(exts.take(i + 1).last() == exts[i]);
}

proof fn lemma_inject_ok_prefix_back(r: RequestModel, exts: Seq<ExtractionModel>, store: Entries, t: nat, i: int)
    requires
        0 <= i < exts.len(),
        !inject_one_ok(inject_all(r, exts.take(i), store, t), exts[i], store, t),
    ensures
        !inject_ok(r, exts, store, t),
{
    assert(exts.take(i + 1).drop_last() =~= exts.take(i));
    assert(exts.take(i + 1).last() == exts[i]);
    assert(!inject_ok(r, exts.take(i + 1), store, t));
    if inject_ok(r, exts, store, t) {
        lemma_inject_ok_prefix(r, exts, store, t, i + 1);
    }
}

proof fn lemma_inject_ok_prefix(r: RequestModel, exts: Seq<ExtractionModel>, store: Entries, t: nat, k: int)
    requires
        0 <= k <= exts.len(),
        inject_ok(r, exts, store, t),
    ensures
        inject_ok(r, exts.take(k), store, t),
    decreases exts.len() - k,
{
    if k < exts.len() {
        lemma_inject_ok_prefix(r, exts.drop_last(), store, t, k);
        assert(exts.drop_last().take(k) =~= exts.take(k));
    } else {
        assert(exts.take(k) =~= exts);
    }
}

proof fn lemma_extract_all_unique(store: Entries, body: Seq<char>, headers: Entries, exts: Seq<ExtractionModel>, cur: nat)
    requires
        keys_unique(store),
    ensures
        keys_unique(extract_all(store, body, headers, exts, cur)),
    decreases exts.len(),
{
    if exts.len() > 0 {
        lemma_extract_all_unique(store, body, headers, exts.drop_last(), cur);
        let s = extract_all(store, body, headers, exts.drop_last(), cur);
        let e = exts.last();
        match extraction_value(body, headers, e) {
            Some(v) => {
                law_lookup_after_insert(s, store_key(e.source, e.path), v, Seq::empty());
            },
            None => {},
        }
    }
}

/// What an extraction finds in the response to request `cur` is what is then stored under its
/// request index and path, unless a later extraction of the same response stores a value under
/// the same key.
pub proof fn law_extract_then_get(
    store: Entries,
    body: Seq<char>,
    headers: Entries,
    exts: Seq<ExtractionModel>,
    cur: nat,
    i: int,
    v: Seq<char>,
)
    requires
        keys_unique(store),
        0 <= i < exts.len(),
        exts[i].source == cur,
        extraction_value(body, headers, exts[i]) == Some(v),
        forall|j: int|
            i < j < exts.len() && (#[trigger] exts[j]).source == cur && store_key(exts[j].source, exts[j].path) == store_key(
                exts[i].source,
                exts[i].path,
            ) ==> extraction_value(body, headers, exts[j]) is None,
    ensures
        lookup(extract_all(store, body, headers, exts, cur), store_key(exts[i].source, exts[i].path)) == Some(v),
    decreases exts.len(),
{
    let key = store_key(exts[i].source, exts[i].path);
    let d = exts.drop_last();
    let s = extract_all(store, body, headers, d, cur);
    lemma_extract_all_unique(store, body, headers, d, cur);
    let e = exts.last();
    if i == exts.len() - 1 {
        law_lookup_after_insert(s, key, v, key);
    } else {
        assert forall|j: int|
            i < j < d.len() && (#[trigger] d[j]).source == cur && store_key(d[j].source, d[j].path) == store_key(
                d[i].source,
                d[i].path,
            ) implies extraction_value(body, headers, d[j]) is None by {
            assert(d[j] == exts[j]);
        }
        assert(d[i] == exts[i]);
        law_extract_then_get(store, body, headers, d, cur, i, v);
        if e.source == cur {
            match extraction_value(body, headers, e) {
                Some(w) => {
                    assert(exts[exts.len() - 1] == e);
                    law_lookup_after_insert(s, store_key(e.source, e.path), w, key);
                },
                None => {},
            }
        }
    }
}

/// Extraction leaves every other stored value as it was: a key that no extraction reading
/// request `cur` found a value for keeps its old value, or stays absent.
pub proof fn law_extract_keeps_other_keys(
    store: Entries,
    body: Seq<char>,
    headers: Entries,
    exts: Seq<ExtractionModel>,
    cur: nat,
    k: Seq<char>,
)
    requires
        keys_unique(store),
        forall|j: int|
            0 <= j < exts.len() && (#[trigger] exts[j]).source == cur && store_key(exts[j].source, exts[j].path) == k
                ==> extraction_value(body, headers, exts[j]) is None,
    ensures
        lookup(extract_all(store, body, headers, exts, cur), k) == lookup(store, k),
    decreases exts.len(),
{
    if exts.len() > 0 {
        let d = exts.drop_last();
        assert forall|j: int|
            0 <= j < d.len() && (#[trigger] d[j]).source == cur && store_key(d[j].source, d[j].path) == k
                implies extraction_value(body, headers, d[j]) is None by {
            assert(d[j] == exts[j]);
        }
        law_extract_keeps_other_keys(store, body, headers, d, cur, k);
        lemma_extract_all_unique(store, body, headers, d, cur);
        let s = extract_all(store, body, headers, d, cur);
        let e = exts.last();
        assert(exts[exts.len() - 1] == e);
        if e.source == cur {
            match extraction_value(body, headers, e) {
                Some(w) => {
                    law_lookup_after_insert(s, store_key(e.source, e.path), w, k);
                },
                None => {},
            }
        }
    }
}

/// The value the last extraction that reads request `cur` and names source `src` and path
/// `path` finds in the response, if one finds a value.
pub open spec fn last_found(
    body: Seq<char>,
    headers: Entries,
    exts: Seq<ExtractionModel>,
    cur: nat,
    src: nat,
    path: Seq<char>,
) -> Option<Seq<char>>
    decreases exts.len(),
{
    if exts.len() == 0 {
        None
    } else {
        let e = exts.last();
        if e.source == cur && e.source == src && e.path == path && extraction_value(body, headers, e) is Some {
            extraction_value(body, headers, e)
        } else {
            last_found(body, headers, exts.drop_last(), cur, src, path)
        }
    }
}

/// Different sources or paths give different keys.
proof fn lemma_store_key_injective(a: nat, p: Seq<char>, b: nat, q: Seq<char>)
    requires
        store_key(a, p) == store_key(b, q),
    ensures
        a == b,
        p == q,
{
    lemma_decimal_digits(a);
    lemma_decimal_digits(b);
    let da = decimal(a);
    let db = decimal(b);
    let k = store_key(a, p);
    if da.len() < db.len() {
        assert(k[da.len() as int] == ':');
        assert(store_key(b, q)[da.len() as int] == db[da.len() as int]);
        assert(is_digit(db[da.len() as int]));
    } else if db.len() < da.len() {
        assert(store_key(b, q)[db.len() as int] == ':');
        assert(k[db.len() as int] == da[db.len() as int]);
        assert(is_digit(da[db.len() as int]));
    }
    assert(da =~= k.take(da.len() as int));
    assert(db =~= store_key(b, q).take(db.len() as int));
    assert(p =~= k.skip(da.len() as int + 1));
    assert(q =~= store_key(b, q).skip(db.len() as int + 1));
}

/// The last extraction wins: after extracting from the response to request `cur`, the value
/// stored for source `src` and path `path` is the one the last extraction reading request
/// `cur` with that source and path found; where none found a value (a missing path, a body
/// that is not JSON, another source), the stored value is the one from before.
pub proof fn law_last_extraction_wins(
    store: Entries,
    body: Seq<char>,
    headers: Entries,
    exts: Seq<ExtractionModel>,
    cur: nat,
    src: nat,
    path: Seq<char>,
)
    requires
        keys_unique(store),
    ensures
        lookup(extract_all(store, body, headers, exts, cur), store_key(src, path)) == match last_found(
            body,
            headers,
            exts,
            cur,
            src,
            path,
        ) {
            Some(v) => Some(v),
            None => lookup(store, store_key(src, path)),
        },
    decreases exts.len(),
{
    if exts.len() > 0 {
        let d = exts.drop_last();
        law_last_extraction_wins(store, body, headers, d, cur, src, path);
        lemma_extract_all_unique(store, body, headers, d, cur);
        let s = extract_all(store, body, headers, d, cur);
        let e = exts.last();
        if e.source == cur {
            match extraction_value(body, headers, e) {
                Some(w) => {
                    law_lookup_after_insert(s, store_key(e.source, e.path), w, store_key(src, path));
                    if store_key(e.source, e.path) == store_key(src, path) {
                        lemma_store_key_injective(e.source, e.path, src, path);
                    }
                },
                None => {},
            }
        }
    }
}

/// A stored value reaches the query parameter or header that an extraction into request `t`
/// names.
pub proof fn law_stored_value_reaches_target(r: RequestModel, e: ExtractionModel, store: Entries, t: nat, v: Seq<char>)
    requires
        keys_unique(r.query_params),
        keys_unique(r.headers),
        e.target_idx == t,
        lookup(store, store_key(e.source, e.path)) == Some(v),
    ensures
        e.target matches TargetModel::QueryParam(n) ==> lookup(inject_one(r, e, store, t).query_params, n) == Some(v),
        e.target matches TargetModel::Header(n) ==> lookup(inject_one(r, e, store, t).headers, n) == Some(v),
{
    match e.target {
        TargetModel::QueryParam(n) => {
            law_lookup_after_insert(r.query_params, n, v, n);
        },
        TargetModel::Header(n) => {
            law_lookup_after_insert(r.headers, n, v, n);
        },
        _ => {},
    }
}

} // verus!
